use irc::mtype2::server::{
    Join as MJoin, Kick as MKick, KickBuf as MKickBuf, Privmsg as MPrivmsg, PrivmsgBuf as MPrivmsgBuf,
};
use irc::mtype2::validated::{
    Kick as VKick, KickBuf as VKickBuf, Privmsg as VPrivmsg, PrivmsgBuf as VPrivmsgBuf,
};
use irc::parse::parse2::IrcMsg;

const REASON: &[u8] = b"BREAKIN DA RULEZ";

#[test]
fn server_kick_asrefs() {
    let kick_acceptor = |_: &VKick| {};
    let ircmsg_acceptor = |_: &IrcMsg| {};

    let kick = VKickBuf::new(b"n!u@h", b"#foo", b"you", Some(REASON)).unwrap();
    kick_acceptor(&kick.as_ref());
    ircmsg_acceptor(&kick.as_ref());
}

#[test]
fn server_kick_derefs() {
    let kick = VKickBuf::new(b"n!u@h", b"#foo", b"you", Some(REASON)).unwrap();
    assert_eq!("KICK", kick.get_command());
}

#[test]
fn server_kickbufs_from_borrowed() {
    let kick = VKickBuf::new(b"n!u@h", b"#foo", b"you", Some(REASON)).unwrap();
    let kick_ref: VKick = kick.as_ref();

    let new_kick: VKickBuf = kick_ref.to_owned();
    assert_eq!("KICK", new_kick.get_command());
}

#[test]
fn server_privmsg_buf_validity() {
    let _privmsg = VPrivmsgBuf::new(b"n!u@h", b"#foo", b"swagever").unwrap();
}

#[test]
fn server_privmsg_cons_with_bad_arguments() {
    let msg = VPrivmsgBuf::new(b"n!u\xFF@h", b"#foo", REASON);
    assert_eq!(msg.is_err(), true);
}

#[test]
fn server_privmsg_too_many_args() {
    if let Ok(privmsg) = VPrivmsg::parse(b":n!u@h PRIVMSG #target wtfisthis :body") {
        panic!("privmsg = {:?}", privmsg.as_bytes());
    }
}

#[test]
fn server_privmsg_create_and_check() {
    let privmsg_buf = VPrivmsgBuf::new(b"n!u@h", b"#mychannel", b"Hello!").unwrap();
    assert_eq!(privmsg_buf.get_target(), b"#mychannel");
    assert_eq!(privmsg_buf.as_ref().get_body_raw(), b"Hello!");
}

#[test]
fn mod_kick_asrefs() {
    let kick_acceptor = |_: &MKick| {};
    let ircmsg_acceptor = |_: &IrcMsg| {};

    let kick = MKickBuf::new(b"n!u@h", b"#foo", b"you", Some(REASON)).unwrap();
    kick_acceptor(&kick.as_ref());
    ircmsg_acceptor(&kick.as_ref());
}

#[test]
fn mod_kick_derefs() {
    let kick = MKickBuf::new(b"n!u@h", b"#foo", b"you", Some(REASON)).unwrap();
    assert_eq!("KICK", kick.get_command());
}

#[test]
fn mod_kickbufs_from_borrowed() {
    let kick = MKickBuf::new(b"n!u@h", b"#foo", b"you", Some(REASON)).unwrap();
    let kick_ref: MKick = kick.as_ref();

    let new_kick: MKickBuf = kick_ref.to_owned();
    assert_eq!("KICK", new_kick.get_command());
}

#[test]
fn mod_privmsg_create_and_check() {
    let privmsg_buf = MPrivmsgBuf::new(b"n!u@h", b"#mychannel", b"Hello!").unwrap();
    assert_eq!(privmsg_buf.get_target(), b"#mychannel");
    assert_eq!(privmsg_buf.as_ref().get_body_raw(), b"Hello!");
}

#[test]
fn mod_privmsg_buf_validity() {
    let _privmsg = MPrivmsgBuf::new(b"n!u@h", b"#foo", b"swagever").unwrap();
}

#[test]
fn mod_privmsg_cons_with_bad_arguments() {
    let msg = MPrivmsgBuf::new(b"n!u @h", b"#foo", REASON);
    println!("msg.is_err() = {:?}", msg.is_err());
    assert_eq!(msg.is_err(), true);

    let msg = MPrivmsgBuf::new(b"n!u\n@h", b"#foo", REASON);
    println!("msg.is_err() = {:?}", msg.is_err());
    assert_eq!(msg.is_err(), true);

    let msg = MPrivmsgBuf::new(b"n!u\x00@h", b"#foo", REASON);
    println!("msg.is_err() = {:?}", msg.is_err());
    assert_eq!(msg.is_err(), true);

    let msg = MPrivmsgBuf::new(b"n!u\r@h", b"#foo", REASON);
    println!("msg.is_err() = {:?}", msg.is_err());
    assert_eq!(msg.is_err(), true);

    let msg = MPrivmsgBuf::new(b"n!u@h", b"# foo", REASON);
    println!("msg.is_err() = {:?}", msg.is_err());
    assert_eq!(msg.is_err(), true);

    let msg = MPrivmsgBuf::new(b"n!u@h", b"#\nfoo", REASON);
    println!("msg.is_err() = {:?}", msg.is_err());
    assert_eq!(msg.is_err(), true);

    let msg = MPrivmsgBuf::new(b"n!u@h", b"#\x00foo", REASON);
    println!("msg.is_err() = {:?}", msg.is_err());
    assert_eq!(msg.is_err(), true);

    let msg = MPrivmsgBuf::new(b"n!u@h", b"#\rfoo", REASON);
    println!("msg.is_err() = {:?}", msg.is_err());
    assert_eq!(msg.is_err(), true);
}

#[test]
fn mod_rustbot_excerpt_001() {
    let msg = MPrivmsgBuf::new(b"n!u@h", b"#foo", REASON).unwrap();
    let privmsg: MPrivmsg = msg.as_ref();
    if privmsg.get_target().starts_with(b"#") {
        let out = privmsg.get_body_raw().to_vec();
        let response = MPrivmsgBuf::new(b"n!u@h", privmsg.get_target(), &out[..]).unwrap();
        let _: IrcMsg = *response.as_ref();
    } else {
        unreachable!();
    }
}

#[test]
fn mod_privmsg_too_many_args() {
    if let Ok(privmsg) = MPrivmsg::parse(b":n!u@h PRIVMSG #target wtfisthis :body") {
        panic!("privmsg = {:?}", privmsg.as_bytes());
    }
}

#[test]
fn privmsg_lowercase() {
    let _privmsg = MPrivmsg::parse(b":n!u@h privmsg #target :body").unwrap();
}

#[test]
fn construct_join_on_stack() {
    let mut my_mem = [0u8; 1024];
    let len = MJoin::new(&mut my_mem, b"n!u@h", b"#somewhere").unwrap().as_bytes().len();

    assert_eq!(&my_mem[..len], b":n!u@h JOIN #somewhere");
    for &byte in my_mem[len..].iter() {
        assert_eq!(byte, 0);
    }
}

#[test]
fn construct_join_on_stack_too_small() {
    let mut my_mem = [0u8; 20];
    if let Ok(_join) = MJoin::new(&mut my_mem, b"n!u@h", b"#somewhere") {
        panic!("created JOIN in insufficient buffer: {:?}", _join.as_bytes());
    }
}

#[test]
fn join_fills_what_fits() {
    let mut my_mem = [0u8; 20];
    assert!(MJoin::new(&mut my_mem, b"n!u@h", b"#somewhere").is_err());
    assert_eq!(&my_mem[..], b":n!u@h JOIN #somewhe");
}

#[test]
fn join_reads_nick_and_channel() {
    let mut my_mem = [0u8; 64];
    let join = MJoin::new(&mut my_mem, b"n!u@h", b"#somewhere").unwrap();
    assert_eq!(join.get_target(), b"#somewhere");
    assert_eq!(join.get_source(), b":n!u@h");
}

#[test]
fn kick_needs_a_reason() {
    assert!(MKickBuf::new(b"n!u@h", b"#foo", b"you", None).is_err());
    let kick = MKickBuf::new(b"n!u@h", b"#foo", b"you", Some(b"bye")).unwrap();
    assert_eq!(kick.as_bytes(), b":n!u@h KICK #foo you :bye");
    assert_eq!(kick.get_target(), b"#foo");
}

#[test]
fn server_rustbot_excerpt_001() {
    let msg = VPrivmsgBuf::new(b"n!u@h", b"#foo", REASON).unwrap();
    let privmsg = msg.as_ref();
    if privmsg.get_target().starts_with(b"#") {
        let out = privmsg.get_body_raw().to_vec();
        let response = VPrivmsgBuf::new(b"n!u@h", privmsg.get_target(), &out[..]).unwrap();
        let _: IrcMsg = *response.as_ref();
    } else {
        unreachable!();
    }
}

#[test]
fn legacy_classification_faults_on_a_lone_nick_parameter() {
    assert!(irc::mtype2::legacy_would_fault(b":n!u@h NICK newnick"));
    assert!(!irc::mtype2::legacy_would_fault(b":n!u@h PRIVMSG #c :hi"));
}

#[test]
fn server_pong_is_read() {
    let pong = irc::mtype2::server::Pong::parse(b":server PONG server :token\r\n").unwrap();
    assert_eq!(pong.as_bytes(), b":server PONG server :token\r\n");
    assert_eq!(pong.to_owned().as_bytes(), b":server PONG server :token\r\n");
    assert!(irc::mtype2::server::Pong::parse(b":server pong server").is_ok());
    assert!(irc::mtype2::server::Pong::parse(b":server PING server").is_err());
    assert!(irc::mtype2::server::Pong::parse(b":server PONG").is_err());
}
