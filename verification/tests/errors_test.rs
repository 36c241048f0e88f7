use xyz_rust::errors::{classify, exit_code, http_status, jsonrpc_code, Error, Kind};

#[test]
fn mappings() {
    assert_eq!(http_status(Kind::InvalidInput), 400);
    assert_eq!(http_status(Kind::Unauthorized), 401);
    assert_eq!(http_status(Kind::Forbidden), 403);
    assert_eq!(http_status(Kind::NotFound), 404);
    assert_eq!(http_status(Kind::Conflict), 409);
    assert_eq!(http_status(Kind::Unavailable), 503);
    assert_eq!(http_status(Kind::Canceled), 499);
    assert_eq!(http_status(Kind::Internal), 500);

    assert_eq!(exit_code(Kind::InvalidInput), 2);
    assert_eq!(exit_code(Kind::NotFound), 1);

    assert_eq!(jsonrpc_code(Kind::InvalidInput), -32602);
    assert_eq!(jsonrpc_code(Kind::NotFound), -32001);
    assert_eq!(jsonrpc_code(Kind::Conflict), -32009);
    assert_eq!(jsonrpc_code(Kind::Unauthorized), -32010);
    assert_eq!(jsonrpc_code(Kind::Forbidden), -32011);
    assert_eq!(jsonrpc_code(Kind::Canceled), -32012);
    assert_eq!(jsonrpc_code(Kind::Internal), -32603);
}

#[test]
fn classify_chain() {
    let e = Error::wrap_msg(
        Kind::NotFound,
        Error::new(Kind::Conflict, "inner".to_string()),
        "outer".to_string(),
    );
    assert_eq!(classify(&e), Some(Kind::NotFound));
    let cause = e.cause().unwrap();
    assert_eq!(classify(cause), Some(Kind::Conflict));
}

#[test]
fn error_display_forms() {
    assert_eq!(Error::new(Kind::NotFound, "x".to_string()).to_text(), "x");
    let io = std::io::Error::other("ioerr");
    let wrapped = Error::wrap(Kind::InvalidInput, Error::foreign(io.to_string()));
    assert_eq!(wrapped.to_text(), "ioerr");
    let io2 = std::io::Error::other("ioerr");
    let both = Error::wrap_msg(Kind::Internal, Error::foreign(io2.to_string()), "boom".to_string());
    assert_eq!(both.to_text(), "boom: ioerr");
}

#[test]
fn empty_message_renders_kind() {
    assert_eq!(Error::new(Kind::Conflict, String::new()).to_text(), "conflict");
    assert_eq!(Kind::NotFound.as_str(), "not_found");
}

#[test]
fn upgrade_keeps_inner_classification() {
    let up = Error::upgrade(Error::new(Kind::Forbidden, "no".to_string()));
    assert_eq!(classify(&up), Some(Kind::Forbidden));
    let plain = Error::upgrade(Error::foreign("io".to_string()));
    assert_eq!(classify(&plain), Some(Kind::Internal));
    assert_eq!(up.kind(), Kind::Internal);
}

#[test]
fn codes_agree_on_invalid_input() {
    for k in [
        Kind::InvalidInput,
        Kind::Unauthorized,
        Kind::Forbidden,
        Kind::NotFound,
        Kind::Conflict,
        Kind::Canceled,
        Kind::Unavailable,
        Kind::Internal,
    ] {
        let invalid = k == Kind::InvalidInput;
        assert_eq!(exit_code(k) == 2, invalid);
        assert_eq!(http_status(k) == 400, invalid);
        assert_eq!(jsonrpc_code(k) == -32602, invalid);
    }
}

#[test]
fn upgraded_error_prints_its_cause() {
    let up = Error::upgrade(Error::foreign("disk full".to_string()));
    assert_eq!(up.to_text(), "disk full");
    assert_eq!(up.kind(), Kind::Internal);
    assert_eq!(up.cause().unwrap().to_text(), "disk full");
    let coded = Error::upgrade(Error::new(Kind::NotFound, "no such user".to_string()));
    assert_eq!(coded.to_text(), "no such user");
}
