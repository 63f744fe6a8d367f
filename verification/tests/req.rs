use chien::{
    Charset, MediaParam, MediaRange, RequestError, UserError, VerifyAcceptable,
    charset_is_acceptable, mime_is_acceptable, STATUS_NOT_ACCEPTABLE,
};

fn media(top: &str, sub: &str, params: &[(&str, &str)]) -> MediaRange {
    MediaRange {
        top: top.to_string(),
        sub: sub.to_string(),
        params: params
            .iter()
            .map(|(a, v)| MediaParam { attr: a.to_string(), value: v.to_string() })
            .collect(),
    }
}

fn refused() -> Result<(), RequestError> {
    Err(RequestError { error: UserError, status: STATUS_NOT_ACCEPTABLE })
}

#[test]
fn test_acceptable_json() {
    // Accept: application/json
    let accept = vec![media("application", "json", &[])];
    assert_eq!(VerifyAcceptable.before(None, Some(&accept)).ok(), Some(()));
}

#[test]
fn test_unacceptable_html() {
    // Accept: text/html
    let accept = vec![media("text", "html", &[])];
    assert_eq!(VerifyAcceptable.before(None, Some(&accept)).ok(), None);
}

#[test]
fn test_acceptable_star() {
    // Accept: */*
    let accept = vec![media("*", "*", &[])];
    assert_eq!(VerifyAcceptable.before(None, Some(&accept)).ok(), Some(()));
}

#[test]
fn test_acceptable_no_accept() {
    assert_eq!(VerifyAcceptable.before(None, None).ok(), Some(()));
}

#[test]
fn refusal_is_not_acceptable() {
    let accept = vec![media("text", "html", &[])];
    assert_eq!(VerifyAcceptable.before(None, Some(&accept)), refused());
    assert_eq!(refused().unwrap_err().status, 406);
}

#[test]
fn browser_accept_lists() {
    // text/html,application/xhtml+xml,application/xml;q=0.9,*/*;q=0.8
    let firefox = vec![
        media("text", "html", &[]),
        media("application", "xhtml+xml", &[]),
        media("application", "xml", &[]),
        media("*", "*", &[]),
    ];
    assert_eq!(VerifyAcceptable.before(None, Some(&firefox)), Ok(()));
    let no_json = vec![media("text", "html", &[]), media("application", "xml", &[])];
    assert_eq!(VerifyAcceptable.before(None, Some(&no_json)), refused());
}

#[test]
fn empty_header_lists_accept() {
    assert_eq!(VerifyAcceptable.before(None, Some(&vec![])), Ok(()));
    assert_eq!(VerifyAcceptable.before(Some(&vec![]), None), Ok(()));
}

#[test]
fn accept_charset_decides_alone() {
    let latin = vec![Charset::Registered("ISO-8859-1".to_string())];
    let json = vec![media("application", "json", &[])];
    let html = vec![media("text", "html", &[])];
    assert_eq!(VerifyAcceptable.before(Some(&latin), Some(&json)), refused());
    let utf8 = vec![Charset::Registered("US-ASCII".to_string()), Charset::Ext("UTF-8".to_string())];
    assert_eq!(VerifyAcceptable.before(Some(&utf8), Some(&html)), Ok(()));
}

#[test]
fn charset_names_of_utf8() {
    for name in ["utf8", "UTF8", "utf-8", "UTF-8"] {
        assert!(charset_is_acceptable(&Charset::Ext(name.to_string())));
    }
    assert!(!charset_is_acceptable(&Charset::Ext("UTF-16".to_string())));
    assert!(!charset_is_acceptable(&Charset::Ext("Utf-8".to_string())));
    assert!(!charset_is_acceptable(&Charset::Registered("UTF-8".to_string())));
}

#[test]
fn media_type_levels() {
    assert!(mime_is_acceptable(&media("application", "json", &[])));
    assert!(mime_is_acceptable(&media("application", "*", &[])));
    assert!(mime_is_acceptable(&media("*", "*", &[])));
    assert!(mime_is_acceptable(&media("*", "html", &[])));
    assert!(!mime_is_acceptable(&media("application", "xml", &[])));
    assert!(!mime_is_acceptable(&media("text", "json", &[])));
    assert!(!mime_is_acceptable(&media("text", "*", &[])));
}

#[test]
fn media_charset_parameters() {
    assert!(mime_is_acceptable(&media("application", "json", &[("charset", "utf-8")])));
    assert!(!mime_is_acceptable(&media("application", "json", &[("charset", "iso-8859-1")])));
    assert!(mime_is_acceptable(&media("application", "json", &[("q", "0.5")])));
    assert!(mime_is_acceptable(&media(
        "application",
        "json",
        &[("charset", "iso-8859-1"), ("charset", "utf-8")]
    )));
}
