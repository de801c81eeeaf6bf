use irc::parse::parse2::{IrcMsg, IrcMsgBuf};

#[test]
fn test_many_modes() {
    let buf: &[u8] = b":InfinityB!q@d0-0-0-0.abhsia.telus.net MODE # +vvvvvvvvvvvvvvvvvvvv a b c d e f g h i j k l m n o p q r s t";
    let _ = IrcMsg::new(buf).unwrap();
}

#[test]
fn test_many_modes2() {
    let buf: &[u8] = b":InfinityB!q@d0-0-0-0.abhsia.telus.net MODE # +vvvvvvvvvvvvvvvvvvvv a b c d e f g h i j k l m n o p q r s t";
    let msg = IrcMsg::new(buf).unwrap();

    assert_eq!(msg.get_prefix().unwrap().as_bytes(), b"InfinityB!q@d0-0-0-0.abhsia.telus.net" as &[u8]);
    assert_eq!(msg.get_command(), "MODE");

    let mut arg_iter = msg.args();
    assert_eq!(arg_iter.next().unwrap(), b"#");
    assert_eq!(arg_iter.next().unwrap(), b"+vvvvvvvvvvvvvvvvvvvv");
    assert_eq!(arg_iter.next().unwrap(), b"a");
    assert_eq!(arg_iter.next().unwrap(), b"b");
    assert_eq!(arg_iter.next().unwrap(), b"c");
    assert_eq!(arg_iter.next().unwrap(), b"d");
    assert_eq!(arg_iter.next().unwrap(), b"e");
    assert_eq!(arg_iter.next().unwrap(), b"f");
    assert_eq!(arg_iter.next().unwrap(), b"g");
    assert_eq!(arg_iter.next().unwrap(), b"h");
    assert_eq!(arg_iter.next().unwrap(), b"i");
    assert_eq!(arg_iter.next().unwrap(), b"j");
    assert_eq!(arg_iter.next().unwrap(), b"k");
    assert_eq!(arg_iter.next().unwrap(), b"l");
    assert_eq!(arg_iter.next().unwrap(), b"m");
    assert_eq!(arg_iter.next().unwrap(), b"n");
    assert_eq!(arg_iter.next().unwrap(), b"o");
    assert_eq!(arg_iter.next().unwrap(), b"p");
    assert_eq!(arg_iter.next().unwrap(), b"q");
    assert_eq!(arg_iter.next().unwrap(), b"r");
    assert_eq!(arg_iter.next().unwrap(), b"s");
    assert_eq!(arg_iter.next().unwrap(), b"t");
    assert!(arg_iter.next().is_none());
}

#[test]
fn truncated_and_refused_lines() {
    assert!(IrcMsg::new(b"PING").is_err());
    assert!(IrcMsg::new(b"").is_err());
    assert!(IrcMsg::new(b":pre\x00fix PING a").is_err());
    let msg = IrcMsg::new(b"PING a\r\nPONG b").unwrap();
    assert_eq!(msg.as_bytes(), b"PING a");
    let owned = IrcMsgBuf::new(b"PING :a b c\n".to_vec()).unwrap();
    assert_eq!(owned.as_bytes(), b"PING :a b c");
    let mut args = owned.as_irc_msg().args();
    assert_eq!(args.next().unwrap(), b"a b c");
    assert!(args.next().is_none());
}

#[test]
fn both_readers_refuse_a_line_with_the_same_error() {
    let bad = b":n!u\x00@h PRIVMSG #c :hi\r\nnext".to_vec();
    let owned = IrcMsgBuf::new(bad.clone()).err().unwrap();
    let borrowed = IrcMsg::new(&bad).err().unwrap();
    assert_eq!(owned, borrowed);
    assert_eq!(owned.message, b":n!u\x00@h PRIVMSG #c :hi".to_vec());
    assert_eq!(owned.error_msg, "Unexpected byte `0' in prefix".to_string());
    let short = b"PING".to_vec();
    let owned = IrcMsgBuf::new(short.clone()).err().unwrap();
    assert_eq!(owned, IrcMsg::new(&short).err().unwrap());
    assert_eq!(owned.error_msg, String::new());
}
