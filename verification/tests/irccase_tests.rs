use irc::irccase::{
    AsciiCaseMapping, CaseMapping, IrcAsciiExt, OwnedIrcAsciiExt, Rfc1459CaseMapping,
    StrictRfc1459CaseMapping,
};

#[test]
fn test_old_basics() {
    // lower("[]\\^") == "{}|~"
    assert!("[".eq_ignore_irc_case("{"));
    assert!("]".eq_ignore_irc_case("}"));
    assert!("\\".eq_ignore_irc_case("|"));
    assert!("^".eq_ignore_irc_case("~"));

    assert_eq!("[".to_irc_lower(), "{");
    assert_eq!("]".to_irc_lower(), "}");
    assert_eq!("\\".to_irc_lower(), "|");
    assert_eq!("^".to_irc_lower(), "~");

    assert_eq!("^".to_string().into_irc_lower(), "~");
}

#[test]
fn irccase_test_basics() {
    assert!(AsciiCaseMapping.eq_ignore_case(b"A", b"a"));
    assert!(!AsciiCaseMapping.eq_ignore_case(b"[", b"{"));
    assert!(!AsciiCaseMapping.eq_ignore_case(b"\\", b"|"));
    assert!(!AsciiCaseMapping.eq_ignore_case(b"]", b"}"));
    assert!(!AsciiCaseMapping.eq_ignore_case(b"^", b"~"));

    assert!(Rfc1459CaseMapping.eq_ignore_case(b"A", b"a"));
    assert!(Rfc1459CaseMapping.eq_ignore_case(b"[", b"{"));
    assert!(Rfc1459CaseMapping.eq_ignore_case(b"\\", b"|"));
    assert!(Rfc1459CaseMapping.eq_ignore_case(b"]", b"}"));
    assert!(Rfc1459CaseMapping.eq_ignore_case(b"^", b"~"));

    assert!(StrictRfc1459CaseMapping.eq_ignore_case(b"A", b"a"));
    assert!(StrictRfc1459CaseMapping.eq_ignore_case(b"[", b"{"));
    assert!(StrictRfc1459CaseMapping.eq_ignore_case(b"\\", b"|"));
    assert!(StrictRfc1459CaseMapping.eq_ignore_case(b"]", b"}"));
    assert!(!StrictRfc1459CaseMapping.eq_ignore_case(b"^", b"~"));

    assert_eq!(AsciiCaseMapping.to_irc_lower(b"A[]\\^Z"), b"a[]\\^z".to_vec());

    assert_eq!(Rfc1459CaseMapping.to_irc_lower(b"A[]\\^Z"), b"a{}|~z".to_vec());

    assert_eq!(StrictRfc1459CaseMapping.to_irc_lower(b"A[]\\^Z"), b"a{}|^z".to_vec());
}

#[test]
fn lower_maps_have_one_entry_per_byte() {
    let map = Rfc1459CaseMapping.get_lower_map();
    assert_eq!(map.len(), 256);
    assert_eq!(map[b'A' as usize], b'a');
    assert_eq!(map[b'[' as usize], b'{');
    assert_eq!(map[b'~' as usize], b'~');
    let strict = StrictRfc1459CaseMapping.get_lower_map();
    assert_eq!(strict[b'^' as usize], b'^');
    assert_eq!(strict[b']' as usize], b'}');
    let ascii = AsciiCaseMapping.get_lower_map();
    assert_eq!(ascii[b'[' as usize], b'[');
}

#[test]
fn lowering_is_idempotent_on_bytes() {
    let once = b"NiCk[Away]^".to_irc_lower();
    let twice = once.as_slice().to_irc_lower();
    assert_eq!(once, twice);
    assert_eq!(once, b"nick{away}~".to_vec());
    assert!(b"NiCk[Away]^".eq_ignore_irc_case(once.as_slice()));
    assert!(!b"nick".eq_ignore_irc_case(b"nicks"));
}
