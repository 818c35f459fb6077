use managed_alias::error::GenericError;

#[test]
fn new_keeps_the_description() {
    let e = GenericError::new(String::from("No value was found for key 'll'"));
    assert_eq!(e.description, "No value was found for key 'll'");
    assert_eq!(GenericError::new(String::new()).description, "");
}

#[test]
fn error_shows_its_description_when_debugged() {
    let e = GenericError::new(String::from("gone"));
    assert_eq!(format!("{:?}", e), "GenericError { description: \"gone\" }");
}
