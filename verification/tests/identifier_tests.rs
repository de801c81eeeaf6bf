use irc::identifier::{Channel, ChannelError, Nickname, NicknameError};
use irc::irccase::{AsciiCaseMapping, Rfc1459CaseMapping};

#[test]
fn channel_names_refuse_separators() {
    assert!(Channel::<Rfc1459CaseMapping>::from_str("#rust").is_ok());
    match Channel::<Rfc1459CaseMapping>::from_str("#ru st") {
        Err(ChannelError::InvalidByte(3)) => (),
        _ => panic!("space must be refused at index 3"),
    }
    match Channel::<Rfc1459CaseMapping>::from_bytes(b"#a,b") {
        Err(ChannelError::InvalidByte(2)) => (),
        _ => panic!("comma must be refused at index 2"),
    }
    assert!(Channel::<Rfc1459CaseMapping>::from_bytes(b"#a:b").is_err());
}

#[test]
fn channel_names_compare_under_the_mapping() {
    let a = Channel::<Rfc1459CaseMapping>::from_str("#Rust[1]").ok().unwrap();
    let b = Channel::<Rfc1459CaseMapping>::from_str("#rust{1}").ok().unwrap();
    assert!(a.eq(&b));
    assert!(!a.ne(&b));
    let c = Channel::<AsciiCaseMapping>::from_str("#Rust[1]").ok().unwrap();
    let d = Channel::<AsciiCaseMapping>::from_str("#rust{1}").ok().unwrap();
    assert!(!c.eq(&d));
    assert!(c.ne(&d));
}

#[test]
fn nicknames_follow_the_grammar() {
    let n = Nickname::<Rfc1459CaseMapping>::from_str("Nick[aw]").ok().unwrap();
    assert_eq!(n.as_str(), "Nick[aw]");
    match Nickname::<Rfc1459CaseMapping>::from_str("1nick") {
        Err(NicknameError::InvalidByte(0)) => (),
        _ => panic!("a digit may not begin a nickname"),
    }
    match Nickname::<Rfc1459CaseMapping>::from_str("ni ck") {
        Err(NicknameError::InvalidByte(2)) => (),
        _ => panic!("space refused at index 2"),
    }
    match Nickname::<Rfc1459CaseMapping>::from_bytes(b"ni\xffck") {
        Err(NicknameError::Utf8Error(_)) => (),
        _ => panic!("bytes that are not UTF-8 are refused"),
    }
    let m = Nickname::<Rfc1459CaseMapping>::from_str_panic("NICK{AW}");
    assert!(n.eq(&m));
    let again = Nickname::<Rfc1459CaseMapping>::from_str_panic("NICK{AW}");
    assert_eq!(again.into_string(), "NICK{AW}".to_string());
    assert_eq!(m.into_bytes(), b"NICK{AW}".to_vec());
}

#[test]
fn nickname_may_hold_a_hyphen_after_its_first_byte() {
    assert!(Nickname::<Rfc1459CaseMapping>::from_str("a-b").is_ok());
    match Nickname::<Rfc1459CaseMapping>::from_str("-ab") {
        Err(NicknameError::InvalidByte(0)) => (),
        _ => panic!("a hyphen may not begin a nickname"),
    }
}

#[test]
fn nickname_holds_one_to_nine_bytes() {
    match Nickname::<Rfc1459CaseMapping>::from_str("") {
        Err(NicknameError::InvalidByte(0)) => (),
        _ => panic!("an empty nickname is refused"),
    }
    assert!(Nickname::<Rfc1459CaseMapping>::from_str("abcdefghi").is_ok());
    match Nickname::<Rfc1459CaseMapping>::from_str("abcdefghij") {
        Err(NicknameError::InvalidByte(9)) => (),
        _ => panic!("a tenth byte is refused"),
    }
}

#[test]
fn case_keys_agree_with_equality() {
    let a = Channel::<Rfc1459CaseMapping>::from_str("#Rust[]").ok().unwrap();
    let b = Channel::<Rfc1459CaseMapping>::from_str("#rust{}").ok().unwrap();
    assert!(a.eq(&b));
    assert_eq!(a.case_key(), b"#rust{}".to_vec());
    assert_eq!(a.case_key(), b.case_key());
    let n = Nickname::<Rfc1459CaseMapping>::from_str("Nick").ok().unwrap();
    let m = Nickname::<Rfc1459CaseMapping>::from_str("nICK").ok().unwrap();
    assert!(n.eq(&m));
    assert_eq!(n.case_key(), m.case_key());
    let o = Nickname::<Rfc1459CaseMapping>::from_str("other").ok().unwrap();
    assert!(!n.eq(&o));
    assert_ne!(n.case_key(), o.case_key());
}
