use irc::parse::parse::{IrcMsg, IrcMsgPrefix, ParseError, PrefixSlicer};

#[test]
fn test_security() {
    let example: Vec<u8> = b":prefix PING foo\r\n:prefix2 PING bar\r\n".to_vec();
    let safe = match IrcMsg::new(example) {
        Ok(parsed) => parsed.into_bytes(),
        Err(err) => panic!("Should have been able to parse. err: {:?}", err),
    };
    assert_eq!(safe.as_slice(), b":prefix PING foo");
}

#[test]
fn parse_test_basics() {
    {
        let example: Vec<u8> = b":prefix PING  foo bar baz".to_vec();
        let parsed = match IrcMsg::new(example) {
            Ok(parsed) => parsed,
            Err(err) => panic!("err: {:?}", err),
        };
        assert!(parsed.has_prefix());
        assert_eq!(parsed.get_prefix_raw(), b"prefix");
        assert_eq!(parsed.get_prefix_str(), "prefix");
        assert_eq!(parsed.get_command(), "PING");
        let expected: Vec<&[u8]> = vec![b"foo", b"bar", b"baz"];
        assert_eq!(parsed.get_args(), expected);
    }

    {
        let example: Vec<u8> = b"PING a b c d e f g h i j k l m n o p q r s t u v w x y z\n".to_vec();
        assert_eq!(IrcMsg::new(example).err(), Some(ParseError::InvalidMessage("too many arguments")));
    }

    {
        let example: Vec<u8> = b":prefix PING  foo :bar baz\r\n".to_vec();
        let parsed = match IrcMsg::new(example) {
            Ok(parsed) => parsed,
            Err(err) => panic!("err: {:?}", err),
        };
        assert!(parsed.has_prefix());
        assert_eq!(parsed.get_prefix_raw(), b"prefix");
        assert_eq!(parsed.get_prefix_str(), "prefix");
        assert_eq!(parsed.get_command(), "PING");
        let expected: Vec<&[u8]> = vec![b"foo", b"bar baz"];
        assert_eq!(parsed.get_args(), expected);
    }
}

#[test]
fn parsed_message_is_a_prefix_of_its_input_in_order() {
    let input = b":n!u@h PRIVMSG #x  :hi there\r\n:other PING y".to_vec();
    let msg = IrcMsg::new(input.clone()).unwrap();
    assert_eq!(msg.as_bytes(), &input[..msg.as_bytes().len()]);
    assert_eq!(msg.as_bytes(), b":n!u@h PRIVMSG #x  :hi there");
    assert_eq!(msg.len(), 2);
    assert_eq!(msg.get_prefix_raw(), b"n!u@h");
    assert_eq!(msg.get_command(), "PRIVMSG");
    assert_eq!(msg.index(0), b"#x");
    assert_eq!(msg.index(1), b"hi there");
}

#[test]
fn would_fault_matches_the_reader() {
    assert!(!IrcMsg::would_fault(&b"PING x".to_vec()));
    assert!(!IrcMsg::would_fault(&b"PING".to_vec()));
    assert!(IrcMsg::would_fault(&b"PING ".to_vec()));
}

#[test]
fn twenty_first_parameter_at_end_of_input_is_too_many() {
    let line = b"PING a b c d e f g h i j k l m n o p q r s t u".to_vec();
    assert!(!IrcMsg::would_fault(&line));
    assert_eq!(IrcMsg::new(line).err(), Some(ParseError::InvalidMessage("too many arguments")));
    let twenty = b"PING a b c d e f g h i j k l m n o p q r s t".to_vec();
    assert_eq!(IrcMsg::new(twenty).unwrap().len(), 20);
}

#[test]
fn prefix_splits_at_first_bang_and_following_at() {
    let p = PrefixSlicer::new("nick!user@host").apply("nick!user@host".to_string());
    assert_eq!(p.nick(), Some("nick"));
    assert_eq!(p.username(), Some("user"));
    assert_eq!(p.hostname(), "host");

    let p = IrcMsgPrefix::new("a!b!c@d@e".to_string());
    assert_eq!(p.nick(), Some("a"));
    assert_eq!(p.username(), Some("b!c"));
    assert_eq!(p.hostname(), "d@e");

    let p = IrcMsgPrefix::new("a@b!c".to_string());
    assert_eq!(p.nick(), None);
    assert_eq!(p.username(), None);
    assert_eq!(p.hostname(), "a@b!c");
}
