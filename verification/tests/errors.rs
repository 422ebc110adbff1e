use shortlink::Error;

#[test]
fn invalid_input_message_names_the_reason() {
    let e = Error::InvalidInput("relative URL without a base".to_string());
    assert_eq!(e.message(), "Invalid url: relative URL without a base");
    assert_eq!(Error::InvalidInput(String::new()).message(), "Invalid url: ");
}

#[test]
fn not_found_message_names_the_id() {
    assert_eq!(Error::NotFound("zzzzz".to_string()).message(), "No links match with zzzzz");
    assert_eq!(Error::NotFound(String::new()).message(), "No links match with ");
}

#[test]
fn service_faults_have_generic_messages() {
    assert_eq!(Error::IoFailure.message(), "Storage failure");
    assert_eq!(Error::CapacityExhausted.message(), "No free id left");
    assert_eq!(Error::Conflict.message(), "Id already in use");
}

#[test]
fn status_of_each_failure() {
    assert_eq!(Error::InvalidInput("x".to_string()).status(), 400);
    assert_eq!(Error::NotFound("x".to_string()).status(), 404);
    assert_eq!(Error::Conflict.status(), 500);
    assert_eq!(Error::IoFailure.status(), 500);
    assert_eq!(Error::CapacityExhausted.status(), 503);
}

#[test]
fn client_faults_are_the_two_input_failures() {
    assert!(Error::InvalidInput("x".to_string()).is_client_fault());
    assert!(Error::NotFound("x".to_string()).is_client_fault());
    assert!(!Error::Conflict.is_client_fault());
    assert!(!Error::IoFailure.is_client_fault());
    assert!(!Error::CapacityExhausted.is_client_fault());
}

#[test]
fn status_class_agrees_with_fault() {
    let all = vec![
        Error::InvalidInput("x".to_string()),
        Error::NotFound("x".to_string()),
        Error::Conflict,
        Error::IoFailure,
        Error::CapacityExhausted,
    ];
    for e in all {
        let code = e.status();
        assert!((400..600).contains(&code));
        assert_eq!(code < 500, e.is_client_fault());
    }
}

#[test]
fn error_clone_is_equal() {
    let e = Error::NotFound("ab12c".to_string());
    assert_eq!(e.clone(), e);
    let f = Error::InvalidInput("empty host".to_string());
    assert_eq!(f.clone(), f);
    assert_eq!(Error::IoFailure.clone(), Error::IoFailure);
}
