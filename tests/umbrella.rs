use mbedtls_sys_build::umbrella::umbrella_header;

#[test]
fn two_headers_in_order() {
    let text = umbrella_header(&vec!["aes.h".to_string(), "gcm.h".to_string()]);
    assert_eq!(text, "#include <mbedtls/aes.h>\n#include <mbedtls/gcm.h>\n");
    let lines: Vec<&str> = text.lines().collect();
    assert_eq!(lines, vec!["#include <mbedtls/aes.h>", "#include <mbedtls/gcm.h>"]);
}

#[test]
fn no_headers_give_an_empty_file() {
    assert_eq!(umbrella_header(&Vec::new()), "");
}

#[test]
fn repeated_names_are_kept() {
    let text = umbrella_header(&vec![
        "ssl.h".to_string(),
        "aes.h".to_string(),
        "ssl.h".to_string(),
    ]);
    let lines: Vec<&str> = text.lines().collect();
    assert_eq!(
        lines,
        vec![
            "#include <mbedtls/ssl.h>",
            "#include <mbedtls/aes.h>",
            "#include <mbedtls/ssl.h>"
        ]
    );
}
