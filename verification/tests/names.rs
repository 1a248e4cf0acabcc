use xirtam::structs::server::ServerName;
use xirtam::structs::username::UserName;

#[test]
fn username_roundtrip() {
    let username = UserName::parse("@user_01").expect("valid username");
    assert_eq!(username.as_str(), "@user_01");
}

#[test]
fn server_name_roundtrip() {
    let name = ServerName::parse("~serv_01").expect("valid server name");
    assert_eq!(name.as_str(), "~serv_01");
}

#[test]
fn server_name_parse_without_tilde() {
    let name = ServerName::parse("serv_01").expect("valid server name");
    assert_eq!(name.as_str(), "~serv_01");
}

#[test]
fn username_rules() {
    assert!(UserName::parse("@abcde").is_ok());
    assert!(UserName::parse("@abcd").is_err());
    assert!(UserName::parse("@abcdefghijklmnop").is_err());
    assert!(UserName::parse("@abcdefghijklmno").is_ok());
    assert!(UserName::parse("abcdef").is_err());
    assert!(UserName::parse("@abc-def").is_err());
    assert!(UserName::try_from_string("@User_9".to_string()).is_ok());
}

#[test]
fn server_name_rules() {
    assert!(ServerName::parse("~serv").is_err());
    assert!(ServerName::parse("@serv_01").is_err());
    assert!(ServerName::parse("~serv!01").is_err());
}
