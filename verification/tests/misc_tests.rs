use irc::message_group::{Iter, MessageGroupBuf};
use irc::parse::parse2::IrcMsg;
use irc::recv::{IrcMsgBuffer, PushError, RecvError};
use irc::stream::{RegisterProgress, RegisterReqBuilder};
use irc::testinfra::transcript::{decode_line2, marker_match, SessionRecord};

#[test]
fn recv_buffer_hands_out_lines() {
    let mut buf = IrcMsgBuffer::new(64);
    assert!(matches!(buf.recv(), Err(RecvError::MoreData)));
    assert!(buf.push(b"PING server1").is_ok());
    assert!(matches!(buf.recv(), Err(RecvError::MoreData)));
    assert!(buf.push(b"\r\n").is_ok());
    let msg = buf.recv().ok().unwrap();
    assert_eq!(msg.get_command(), "PING");
    assert_eq!(msg.get_args(), vec![b"server1" as &[u8]]);
    // the line feed stays behind: the next line read is empty and refused
    assert!(matches!(buf.recv(), Err(RecvError::Parse(_))));
}

#[test]
fn recv_buffer_refuses_overflow() {
    let mut buf = IrcMsgBuffer::new(4);
    assert!(buf.push(b"abcd").is_ok());
    assert!(matches!(buf.push(b"e"), Err(PushError::Full)));
}

#[test]
fn message_groups_read_back_in_order() {
    let mut group = MessageGroupBuf::with_capacity(64);
    group.push(&IrcMsg::new(b"PING a").unwrap());
    group.push(&IrcMsg::new(b":n!u@h PRIVMSG #c :hi").unwrap());
    let view = group.as_group();
    let mut iter = view.iter();
    assert_eq!(iter.next().unwrap().as_bytes(), b"PING a");
    assert_eq!(iter.next().unwrap().as_bytes(), b":n!u@h PRIVMSG #c :hi");
    assert!(iter.next().is_none());
    let mut raw = Iter::new(b"a\0b");
    assert_eq!(raw.next().unwrap().as_bytes(), b"a");
    assert!(raw.next().is_none());
    assert_eq!(group.into_inner(), b"PING a\0:n!u@h PRIVMSG #c :hi\0".to_vec());
}

#[test]
fn register_builder_checks_its_parts() {
    let mut builder = RegisterReqBuilder::new();
    assert_eq!(builder.build().err(), Some("nick must be set"));
    builder.nick("");
    assert_eq!(builder.build().err(), Some("nick must be non-empty"));
    builder.nick("rustbot");
    assert_eq!(builder.build().err(), Some("user must be set"));
    builder.user("bot").realname("");
    assert_eq!(builder.build().err(), Some("realname must be non-empty"));
    builder.realname("A bot").mode_invisible(true);
    let mut req = builder.build().ok().unwrap();
    assert!(req.user_line_builds());
    assert!(req.nick_line_builds());
    assert_eq!(req.get_user().into_bytes(), b"USER bot 8 * :A bot".to_vec());
    assert_eq!(req.get_nick().into_bytes(), b"NICK rustbot".to_vec());
    req.get_mut_nick().push_str("_");
    assert_eq!(req.get_nick().into_bytes(), b"NICK rustbot_".to_vec());
}

#[test]
fn registration_follows_numerics() {
    use_registration();
}

fn use_registration() {
    let mut state = irc::state::State::new();
    let msg = irc::parse::parse::IrcMsg::new(b":server 433 * rustbot :Nickname is already in use".to_vec()).unwrap();
    assert_eq!(irc::stream::registration_step(&mut state, msg), RegisterProgress::NickInUse);
    let msg = irc::parse::parse::IrcMsg::new(b":server NOTICE * :hello".to_vec()).unwrap();
    assert_eq!(irc::stream::registration_step(&mut state, msg), RegisterProgress::Waiting);
}

#[test]
fn transcript_lines_decode() {
    match decode_line2(">> PING server1\r\n".to_string()) {
        SessionRecord::Content(msg) => assert_eq!(msg.get_command(), "PING"),
        other => panic!("expected content, got {:?}", other),
    }
    match decode_line2("<< PONG server1\n".to_string()) {
        SessionRecord::Expectation(e) => assert_eq!(e, "PONG server1"),
        other => panic!("expected an expectation, got {:?}", other),
    }
    let comment = decode_line2("## marker".to_string());
    assert!(marker_match(&comment, "marker"));
    assert!(!marker_match(&comment, "other"));
}

#[test]
fn transcript_lines_that_cannot_be_read_are_told() {
    assert!(!irc::testinfra::transcript::decode_would_fault(&">> PING :x\r\n".to_string()));
    assert!(!irc::testinfra::transcript::decode_would_fault(&"## a comment".to_string()));
    assert!(irc::testinfra::transcript::decode_would_fault(&"?? what".to_string()));
    assert!(irc::testinfra::transcript::decode_would_fault(&">> PING".to_string()));
    assert!(irc::testinfra::transcript::decode_would_fault(&"<<".to_string()));
}

#[test]
fn message_group_of_many_reads_back_each_in_push_order() {
    let lines: &[&[u8]] = &[b"PING a", b"PING b", b":n!u@h JOIN #c", b"PONG d", b":s 001 me :hi"];
    let mut group = MessageGroupBuf::new();
    let mut expected = Vec::new();
    for line in lines.iter() {
        group.push(&IrcMsg::new(line).unwrap());
        expected.extend_from_slice(line);
        expected.push(0);
    }
    let view = group.as_group();
    assert_eq!(view.as_bytes(), &expected[..]);
    let mut iter = view.iter();
    for line in lines.iter() {
        assert_eq!(iter.next().unwrap().as_bytes(), *line);
    }
    assert!(iter.next().is_none());
}
