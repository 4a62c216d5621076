use npm_package_explorer::common::{filter_string, safe_encode, underscore};

#[test]
fn test_filters_characters_from_url() {
    assert_eq!(
        filter_string("https://registry.npmjs.com/@scope/name"),
        "https_3A_2F_2Fregistry_npmjs_com_2F_40scope_2Fname"
    );
}

#[test]
fn unreserved_marks_become_underscores() {
    assert_eq!(filter_string("a-b_c.d~e"), "a_b_c_d_e");
}

#[test]
fn non_ascii_is_percent_encoded_then_filtered() {
    assert_eq!(filter_string("é"), "_C3_A9");
}

#[test]
fn safe_encoding_keeps_only_lowercase_and_digits() {
    assert_eq!(safe_encode("ab9"), "ab9");
    assert_eq!(safe_encode("A_é😀"), "_000041_00005f_0000e9_01f600");
}

#[test]
fn underscore_keeps_letters_and_digits() {
    assert_eq!(underscore("a%2Fb-C.9~"), "a_2Fb_C_9_");
}
