use bambu_connect::client::{
    login_body_from_json, login_payload, read_devices_response, read_login_cookies,
    read_login_response, BambuClient, BambuLoginError, FetchError,
};

#[test]
fn login_cookies_give_credential() {
    let r = read_login_response(200, &vec!["token=AAA; refreshToken=BBB".to_string()], String::new());
    let u = r.ok().unwrap();
    assert_eq!(u.token, "AAA");
    assert_eq!(u.refresh_token, "BBB");
}

#[test]
fn cookies_across_headers_with_attributes() {
    let u = read_login_cookies(&vec![
        "token=T1=pad; Path=/; HttpOnly".to_string(),
        " ; refreshToken=R1; Max-Age=100".to_string(),
        "other=1".to_string(),
    ]);
    assert_eq!(u.token, "T1");
    assert_eq!(u.refresh_token, "R1");
}

#[test]
fn refresh_cookie_is_not_mistaken_for_token() {
    let u = read_login_cookies(&vec!["refreshToken=R; token=".to_string()]);
    assert_eq!(u.token, "");
    assert_eq!(u.refresh_token, "R");
    let u = read_login_cookies(&vec!["Token=X; xtoken=Y".to_string()]);
    assert_eq!(u.token, "");
}

#[test]
fn missing_cookies_leave_tokens_empty() {
    let u = read_login_cookies(&vec![]);
    assert_eq!(u.token, "");
    assert_eq!(u.refresh_token, "");
}

#[test]
fn rejected_login_keeps_status_and_body() {
    match read_login_response(401, &vec!["token=AAA".to_string()], "bad password".to_string()) {
        Err(e) => {
            assert!(matches!(&e, BambuLoginError::Rejected { status: 401, body } if body == "bad password"));
            assert_eq!(
                e.message(),
                "IoError: Failed to login to Bambu with status code 401: \n\nbad password"
            );
        }
        Ok(_) => panic!("expected a rejection"),
    }
}

#[test]
fn login_payload_quotes_fields() {
    assert_eq!(
        login_payload("me@example.com", "pa\"ss"),
        "{\"account\":\"me@example.com\",\"password\":\"pa\\\"ss\",\"apiError\":\"\"}"
    );
    assert_eq!(
        login_payload("a\\b\n\t\u{1}\u{1f}\u{8}\u{c}\r\u{7f}é", ""),
        "{\"account\":\"a\\\\b\\n\\t\\u0001\\u001f\\b\\f\\r\u{7f}é\",\"password\":\"\",\"apiError\":\"\"}"
    );
    assert_eq!(
        login_body_from_json("\"a\"", "\"b\""),
        "{\"account\":\"a\",\"password\":\"b\",\"apiError\":\"\"}"
    );
}

#[test]
fn fetch_before_credential_is_unauthenticated() {
    let c = BambuClient::new();
    assert!(c.get_jwt().is_none());
    assert!(matches!(c.devices_authorization(), Err(FetchError::Unauthenticated)));
}

#[test]
fn credential_gives_bearer_header() {
    let mut c = BambuClient::new();
    c.set_jwt("XYZ".to_string());
    assert_eq!(c.get_jwt().as_deref(), Some("XYZ"));
    assert_eq!(c.devices_authorization().ok().unwrap(), "Bearer XYZ");
}

#[test]
fn devices_response_status() {
    assert_eq!(read_devices_response(200, "{}".to_string()).ok().unwrap(), "{}");
    match read_devices_response(500, "oops".to_string()) {
        Err(e) => {
            assert!(matches!(&e, FetchError::BadResponse { status: 500, body } if body == "oops"));
            assert_eq!(
                e.message(),
                "Failed to get devices from Bambu with status code 500: \n\noops"
            );
        }
        Ok(_) => panic!("expected an error"),
    }
    assert!(read_devices_response(299, String::new()).is_ok());
    assert!(read_devices_response(199, String::new()).is_err());
}

#[test]
fn fetch_error_messages() {
    assert_eq!(
        FetchError::Unauthenticated.message(),
        "Expected a token to be set before calling get_devices, but none was found."
    );
    assert_eq!(
        FetchError::Decode("eof".to_string()).message(),
        "Failed to parse Bambu device response: eof"
    );
    assert_eq!(BambuLoginError::Transport("down".to_string()).message(), "ReqwestError: down");
}
