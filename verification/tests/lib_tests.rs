use spite_core::APP_NAME;

#[test]
fn app_name_is_spite() {
    assert_eq!(APP_NAME, "Spite");
}
