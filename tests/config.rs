use mbedtls_sys_build::config::{frame_bindings, generator_config, module_stub};

#[test]
fn generator_settings() {
    let c = generator_config("/out/bindgen-input.h", "/src/mbedtls/include", "/cfg/config.h");
    assert_eq!(c.header, "/out/bindgen-input.h");
    assert_eq!(
        c.clang_args,
        vec![
            "-Dmbedtls_t_udbl=mbedtls_t_udbl;".to_string(),
            "-DMBEDTLS_CONFIG_FILE=</cfg/config.h>".to_string(),
            "-I/src/mbedtls/include".to_string(),
        ]
    );
    assert!(c.use_core);
    assert!(!c.derive_debug);
    assert_eq!(c.ctypes_prefix, "crate::types::raw_types");
    assert_eq!(
        c.blocked_functions,
        vec!["strtold", "qecvt_r", "qecvt", "qfcvt_r", "qgcvt", "qfcvt"]
    );
    assert_eq!(c.opaque_types, vec!["std::*"]);
    assert!(!c.generate_comments);
}

#[test]
fn bindings_are_framed() {
    assert_eq!(
        frame_bindings("pub type a = u8;\n"),
        "#![allow(nonstandard_style)]\n#![allow(unused_imports)]\npub type a = u8;\nuse crate::types::*;\n"
    );
}

#[test]
fn stub_declares_the_module() {
    assert_eq!(module_stub(), "mod bindings;\n");
}
