use docgen::error::Failure;

#[test]
fn each_failure_has_its_message() {
    assert_eq!(Failure::NotFound("a".to_string()).message(), "a");
    assert_eq!(Failure::Io("b".to_string()).message(), "b");
    assert_eq!(Failure::ProcessFailure("c".to_string()).message(), "c");
    assert_eq!(Failure::Serialization.message(), "the collected files could not be serialized");
    assert_eq!(Failure::Pattern.message(), "the pattern of a reasoning block was not accepted");
}

#[test]
fn failures_of_different_kinds_differ() {
    assert_ne!(Failure::NotFound("x".to_string()), Failure::Io("x".to_string()));
    assert_ne!(Failure::Io("x".to_string()), Failure::ProcessFailure("x".to_string()));
    assert_ne!(Failure::Serialization, Failure::Pattern);
    assert_eq!(Failure::Io("x".to_string()), Failure::Io("x".to_string()));
}
