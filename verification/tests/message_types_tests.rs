use irc::message_types::server::IntoIncomingMsg;
use irc::message_types::client::User;
use irc::message_types::server::{IncomingMsg, Join, Notice, Ping, Privmsg};
use irc::message_types::traits::FromIrcMsg;
use irc::parse::parse::IrcMsg;

#[test]
fn test_incoming() {
    let mut msg_raw = Vec::new();
    msg_raw.extend_from_slice(b":person!user@host JOIN #foo");
    let msg = IrcMsg::new(msg_raw).unwrap();

    match IncomingMsg::from_msg(msg.clone()) {
        IncomingMsg::Join(ref join) => {
            assert_eq!(join.get_nick(), "person");
            assert_eq!(join.get_channel(), "#foo");
        },
        _ => {
            panic!(
                "Wrong IncomingMsg enum value: expected JOIN, got {:?}",
                IncomingMsg::from_msg(msg)
            )
        },
    }
}

#[test]
fn test_join_basics() {
    let valid_messages: &[(&[u8], &str, &str)] = &[
        // Standard messages
        (b":person!user@host JOIN #foobar", "person", "#foobar"),
        (b":person!user@host JOIN #foobar\n", "person", "#foobar"),
        (b":person!user@host JOIN #foobar\r\n", "person", "#foobar"),
    ];

    for &(raw, nick, channel) in valid_messages.iter() {
        let mut raw_owned = Vec::with_capacity(raw.len());
        raw_owned.extend_from_slice(raw);

        let msg = IrcMsg::new(raw_owned).unwrap();
        let join_msg: Join = FromIrcMsg::from_irc_msg(msg).ok().unwrap();
        assert_eq!(join_msg.get_nick(), nick);
        assert_eq!(join_msg.get_channel(), channel);
    }
}

#[test]
fn test_ping_basics() {
    let mut raw_owned = Vec::new();
    raw_owned.extend_from_slice(b":person!user@host NOTPING server1 :server2");
    let msg = IrcMsg::new(raw_owned).unwrap();
    let ping: Result<Ping, _> = FromIrcMsg::from_irc_msg(msg);
    assert!(ping.is_err());
}

#[test]
fn test_quit_basics() {
    let msg = IrcMsg::new(b":person!user@host NOTQUIT :server2".to_vec()).unwrap();
    let ping: Result<Ping, _> = FromIrcMsg::from_irc_msg(msg);
    assert!(ping.is_err());
}

#[test]
fn ping_answer_carries_the_server() {
    let msg = IrcMsg::new(b"PING irc.example.net".to_vec()).unwrap();
    let ping: Ping = FromIrcMsg::from_irc_msg(msg).ok().unwrap();
    let pong = ping.get_response().unwrap();
    assert_eq!(pong.into_bytes(), b"PONG irc.example.net".to_vec());
}

#[test]
fn privmsg_reads_target_and_body() {
    let msg = IrcMsg::new(b":person!user@host PRIVMSG #foobar :foobarbaz".to_vec()).unwrap();
    let privmsg: Privmsg = FromIrcMsg::from_irc_msg(msg).ok().unwrap();
    assert_eq!(privmsg.get_nick(), "person");
    assert_eq!(privmsg.get_target(), "#foobar");
    assert_eq!(privmsg.get_body_raw(), b"foobarbaz");
}

#[test]
fn unknown_commands_are_kept() {
    let msg = IrcMsg::new(b":server 999 nick :hello".to_vec()).unwrap();
    match IncomingMsg::from_msg(msg) {
        IncomingMsg::Numeric(code, _) => assert_eq!(code, 999),
        other => panic!("expected a numeric, got {:?}", other),
    }
    let msg = IrcMsg::new(b":server FROB nick".to_vec()).unwrap();
    assert!(matches!(IncomingMsg::from_msg(msg), IncomingMsg::Unknown(_)));
}

#[test]
fn test_privmsg_basics() {
    let raw_owned = b":person!user@host NOTPRIVMSG server1 :server2".to_vec();
    let privmsg: Result<Privmsg, _> = FromIrcMsg::from_irc_msg(IrcMsg::new(raw_owned).unwrap());
    assert!(privmsg.is_err());

    let valid_messages: &[(&[u8], &str, &str, &[u8])] = &[
        (b":person!user@host PRIVMSG #foobar :foobarbaz", "person", "#foobar", b"foobarbaz"),
        (b":person!user@host PRIVMSG #foobar :foobar\r\n", "person", "#foobar", b"foobar"),
        (b":person!user@host PRIVMSG #foobar :foobar\r\n", "person", "#foobar", b"foobar"),
        (b":person!user@host PRIVMSG #foobar :\xe3\x81", "person", "#foobar", b"\xe3\x81"),
    ];

    for &(raw, nick, channel, body) in valid_messages.iter() {
        let raw_owned = raw.to_vec();
        let msg = IrcMsg::new(raw_owned).unwrap();
        let priv_msg: Privmsg = FromIrcMsg::from_irc_msg(msg).ok().unwrap();
        assert_eq!(priv_msg.get_nick(), nick);
        assert_eq!(priv_msg.get_target(), channel);
        assert_eq!(priv_msg.get_body_raw(), body);
    }
}

#[test]
fn notice_line_is_read_as_notice() {
    let msg = IrcMsg::new(b":n!u@h NOTICE #chan :hello".to_vec()).unwrap();
    let notice: Notice = FromIrcMsg::from_irc_msg(msg.clone()).ok().unwrap();
    assert_eq!(notice.get_target(), "#chan");
    match IncomingMsg::from_msg(msg) {
        IncomingMsg::Notice(ref n) => assert_eq!(n.get_target(), "#chan"),
        other => panic!("expected NOTICE, got {:?}", other),
    }
}

#[test]
fn mode_line_is_not_a_notice() {
    let msg = IrcMsg::new(b":n!u@h MODE #chan +o n".to_vec()).unwrap();
    let notice: Result<Notice, _> = FromIrcMsg::from_irc_msg(msg);
    assert!(notice.is_err());
}

#[test]
fn user_line_carries_every_argument() {
    let user = User::new("rustirc", "0", "*", "http://github.com/infinityb/rust-irc");
    assert_eq!(
        user.into_bytes(),
        b"USER rustirc 0 * :http://github.com/infinityb/rust-irc".to_vec()
    );
}

#[test]
fn typed_message_turns_back_into_incoming() {
    let msg = IrcMsg::new(b":person!user@host JOIN #foo".to_vec()).unwrap();
    let join: Join = FromIrcMsg::from_irc_msg(msg).ok().unwrap();
    match join.into_incoming_msg() {
        IncomingMsg::Join(j) => assert_eq!(j.get_channel(), "#foo"),
        other => panic!("expected JOIN, got {:?}", other),
    }
    let msg = IrcMsg::new(b":server 433 * rustbot :Nickname is already in use".to_vec()).unwrap();
    match IncomingMsg::from_msg(msg) {
        IncomingMsg::Numeric(433, n) => match n.into_incoming_msg() {
            IncomingMsg::Numeric(code, _) => assert_eq!(code, 433),
            other => panic!("expected a numeric, got {:?}", other),
        },
        other => panic!("expected 433, got {:?}", other),
    }
}
