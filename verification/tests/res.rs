use chien::{
    err_method_not_allowed, err_not_acceptable, hello, match_method, Method, RequestError,
    UserError, STATUS_METHOD_NOT_ALLOWED, STATUS_NOT_ACCEPTABLE,
};

#[test]
fn test_req_methods() {
    let served = [Method::Get, Method::Post];
    for &(ref method, ref ok, ref err) in &[
        (Method::Delete, Some("DELETE didn't return error"), None),
        (Method::Get, None, Some("GET returned error")),
        (Method::Post, None, Some("POST returned error")),
    ] {
        match match_method(*method, &served) {
            Ok(_) => {
                if let &Some(ref e) = ok {
                    panic!("{}", e);
                }
            }
            Err(_) => {
                if let &Some(ref e) = err {
                    panic!("{}", e);
                }
            }
        }
    }
}

#[test]
fn match_method_picks_first_served_arm() {
    let served = [Method::Get, Method::Post, Method::Get];
    assert_eq!(match_method(Method::Get, &served), Ok(0));
    assert_eq!(match_method(Method::Post, &served), Ok(1));
    assert_eq!(
        match_method(Method::Extension, &served),
        Err(RequestError { error: UserError, status: 405 })
    );
    assert_eq!(match_method(Method::Get, &[]).unwrap_err().status, STATUS_METHOD_NOT_ALLOWED);
}

#[test]
fn refusals_carry_their_status() {
    let a: Result<u8, RequestError> = err_method_not_allowed();
    let b: Result<u8, RequestError> = err_not_acceptable();
    assert_eq!(a, Err(RequestError { error: UserError, status: 405 }));
    assert_eq!(b, Err(RequestError { error: UserError, status: STATUS_NOT_ACCEPTABLE }));
}

#[test]
fn hello_answers_get_only() {
    assert_eq!(hello(Method::Get).unwrap().msg, "Hello! :)");
    assert_eq!(hello(Method::Post).unwrap_err().status, 405);
    assert_eq!(hello(Method::Head).unwrap_err().error, UserError);
}
