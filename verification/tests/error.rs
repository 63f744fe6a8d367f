use chien::UserError;

#[test]
fn test_error() {
    assert_eq!(UserError.description(), "bad request");
    assert_eq!(UserError.to_string(), "ERROR: bad request");
}
