use mbedtls_sys_build::rewrite::collapse_prefix_fragments;

fn collapse(s: &str) -> String {
    String::from_utf8(collapse_prefix_fragments(s.as_bytes())).unwrap()
}

#[test]
fn removes_qualified_variant_prefix() {
    assert_eq!(
        collapse("pub const cipher_mode_t_MBEDTLS_GCM: u32 = 6;"),
        "pub const GCM: u32 = 6;"
    );
}

#[test]
fn takes_the_longest_run() {
    assert_eq!(collapse(" a_MBEDTLS_b_MBEDTLS_c"), " c");
}

#[test]
fn needs_a_space_before_the_run() {
    assert_eq!(collapse("x_MBEDTLS_Y"), "x_MBEDTLS_Y");
    assert_eq!(collapse("(x_MBEDTLS_Y)"), "(x_MBEDTLS_Y)");
}

#[test]
fn run_must_reach_the_marker() {
    assert_eq!(collapse(" a1_MBEDTLS_B"), " a1_MBEDTLS_B");
    assert_eq!(collapse(" _MBEDTLS"), " _MBEDTLS");
}

#[test]
fn bare_marker_after_space_is_removed() {
    assert_eq!(collapse(" _MBEDTLS_X"), " X");
}

#[test]
fn every_match_is_replaced() {
    assert_eq!(
        collapse("a: x_MBEDTLS_A,\nb: y_MBEDTLS_B,"),
        "a: A,\nb: B,"
    );
}

#[test]
fn does_not_cross_lines() {
    assert_eq!(collapse(" x\n_MBEDTLS_Y"), " x\n_MBEDTLS_Y");
}

#[test]
fn empty_text_stays_empty() {
    assert_eq!(collapse(""), "");
}

#[test]
fn rewriting_twice_is_rewriting_once() {
    let inputs = [
        "",
        " a_MBEDTLS_b_MBEDTLS_c d_MBEDTLS_e",
        "  t_MBEDTLS_ _MBEDTLS_MBEDTLS_x",
        "enum { cipher_mode_t_MBEDTLS_CBC, cipher_mode_t_MBEDTLS_GCM }",
        "no match here",
    ];
    for s in inputs.iter() {
        let once = collapse_prefix_fragments(s.as_bytes());
        let twice = collapse_prefix_fragments(&once);
        assert_eq!(once, twice);
    }
}
