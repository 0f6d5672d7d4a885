use mbedtls_sys_build::naming::{int_macro, item_name, IntKind};

#[test]
fn strips_lower_prefix() {
    assert_eq!(item_name("mbedtls_aes_init"), Some("aes_init".to_string()));
}

#[test]
fn strips_upper_prefix() {
    assert_eq!(item_name("MBEDTLS_GCM_ENCRYPT"), Some("GCM_ENCRYPT".to_string()));
}

#[test]
fn keeps_time_type_name() {
    assert_eq!(item_name("mbedtls_time_t"), Some("mbedtls_time_t".to_string()));
}

#[test]
fn strips_cipher_mode_prefix() {
    assert_eq!(item_name("cipher_mode_t_MBEDTLS_CBC"), Some("CBC".to_string()));
}

#[test]
fn other_names_are_not_overridden() {
    assert_eq!(item_name("foo_bar"), None);
    assert_eq!(item_name(""), None);
    assert_eq!(item_name("xmbedtls_aes"), None);
}

#[test]
fn repeated_prefix_is_stripped_once() {
    assert_eq!(item_name("mbedtls_mbedtls_md"), Some("mbedtls_md".to_string()));
    assert_eq!(item_name("MBEDTLS_MBEDTLS_"), Some("MBEDTLS_".to_string()));
    assert_eq!(item_name("MBEDTLS_MBEDTLS_X"), Some("MBEDTLS_X".to_string()));
    assert_eq!(item_name("mbedtls_"), Some("".to_string()));
}

#[test]
fn exemption_is_for_the_exact_name_only() {
    assert_eq!(item_name("mbedtls_time_t_ext"), Some("time_t_ext".to_string()));
}

#[test]
fn cipher_mode_rule_comes_before_the_others() {
    assert_eq!(item_name("cipher_mode_t_MBEDTLS_GCM"), Some("GCM".to_string()));
    assert_eq!(item_name("cipher_mode_t_other"), None);
}

#[test]
fn library_macros_are_i32() {
    assert_eq!(int_macro("MBEDTLS_MD_SHA256"), Some(IntKind::I32));
    assert_eq!(int_macro("X_MBEDTLS_Y"), Some(IntKind::I32));
    assert_eq!(int_macro("MBEDTLS_"), Some(IntKind::I32));
}

#[test]
fn other_macros_are_left_alone() {
    assert_eq!(int_macro("FOO_BAR"), None);
    assert_eq!(int_macro("MBEDTLS"), None);
    assert_eq!(int_macro("mbedtls_x"), None);
    assert_eq!(int_macro(""), None);
}
