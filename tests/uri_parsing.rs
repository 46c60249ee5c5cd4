use otpc::config::{add_account, delete_account, Config};
use otpc::error::OtpError;
use otpc::uri::{parse_key_uri, url_decode};

#[test]
fn test_parse_key_uri() {
    let uri = "otpauth://totp/Example:alice@google.com?secret=J5QXG4T5J5QXG4T5J5QXG4T5";
    let account = parse_key_uri(uri).expect("Failed to parse key URI");
    println!("{:?}", account);
}

#[test]
fn parse_standard_uri() {
    let a = parse_key_uri(
        "otpauth://totp/Example:alice@google.com?secret=JBSWY3DPEHPK3PXP&issuer=Example",
    )
    .unwrap();
    assert_eq!(a.name, "alice@google.com");
    assert_eq!(a.issuer, "Example");
    assert_eq!(a.secret, "JBSWY3DPEHPK3PXP");
}

#[test]
fn parse_default_issuer() {
    let a = parse_key_uri("otpauth://totp/alice@google.com?secret=ABCDEFGH").unwrap();
    assert_eq!(a.issuer, "host");
    assert_eq!(a.name, "alice@google.com");
    assert_eq!(a.secret, "ABCDEFGH");
}

#[test]
fn parse_empty_label_issuer() {
    let a = parse_key_uri("otpauth://totp/:alice@google.com?secret=ABCDEFGH").unwrap();
    assert_eq!(a.issuer, "host");
    assert_eq!(a.name, "alice@google.com");
}

#[test]
fn parse_failures() {
    assert_eq!(
        parse_key_uri("otpauth://totp/alice@google.com?issuer=X").unwrap_err(),
        OtpError::MissingSecretParameter
    );
    assert_eq!(
        parse_key_uri("otpauth://totp/?secret=ABC").unwrap_err(),
        OtpError::EmptyAccountName
    );
    assert_eq!(
        parse_key_uri("http://totp/alice?secret=ABC").unwrap_err(),
        OtpError::InvalidUriScheme
    );
    assert_eq!(parse_key_uri("otpauth://totp").unwrap_err(), OtpError::MalformedUri);
    assert_eq!(
        parse_key_uri("otpauth://totp/alice?secret=").unwrap_err(),
        OtpError::EmptySecretParameter
    );
    assert_eq!(
        parse_key_uri("otpauth://totp/alice").unwrap_err(),
        OtpError::MissingSecretParameter
    );
    assert_eq!(
        parse_key_uri("otpauth://totp/al%ZZice?secret=A").unwrap_err(),
        OtpError::InvalidPercentEncoding
    );
    assert_eq!(
        parse_key_uri("otpauth://totp/alice?secret=A%2").unwrap_err(),
        OtpError::InvalidPercentEncoding
    );
    assert_eq!(
        parse_key_uri("otpauth://totp/al%FFice?secret=A").unwrap_err(),
        OtpError::NonTextDecodedBytes
    );
}

#[test]
fn parse_decodes_and_trims_label() {
    let a = parse_key_uri("otpauth://totp/My%20Co%3A%20bob+smith%20?secret=AB%43").unwrap();
    assert_eq!(a.issuer, "My Co");
    assert_eq!(a.name, "bob smith");
    assert_eq!(a.secret, "ABC");
}

#[test]
fn parse_query_details() {
    let a = parse_key_uri(
        "otpauth://hotp/Label:acct?ISSUER=Query&flag&digits=8&Secret=S1&secret=S2",
    )
    .unwrap();
    assert_eq!(a.issuer, "Query");
    assert_eq!(a.secret, "S2");
    assert_eq!(a.name, "acct");
}

#[test]
fn url_decode_cases() {
    assert_eq!(url_decode("a%41+b"), Ok("aA b".to_string()));
    assert_eq!(url_decode("%e2%82%ac"), Ok("\u{20ac}".to_string()));
    assert_eq!(url_decode("%"), Err(OtpError::InvalidPercentEncoding));
    assert_eq!(url_decode("%c3"), Err(OtpError::NonTextDecodedBytes));
    assert_eq!(url_decode(""), Ok(String::new()));
}

#[test]
fn accounts_add_and_delete() {
    let mut config = Config { accounts: Vec::new() };
    add_account(&mut config, "a".to_string(), "S1".to_string(), "host".to_string());
    add_account(&mut config, "b".to_string(), "S2".to_string(), "X".to_string());
    add_account(&mut config, "a".to_string(), "S3".to_string(), "Y".to_string());
    assert_eq!(config.accounts.len(), 3);
    delete_account(&mut config, "a".to_string());
    assert_eq!(config.accounts.len(), 1);
    assert_eq!(config.accounts[0].name, "b");
    assert_eq!(config.accounts[0].secret, "S2");
    delete_account(&mut config, "zzz".to_string());
    assert_eq!(config.accounts.len(), 1);
}
