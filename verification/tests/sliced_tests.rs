use irc::parse::oldparse;
use irc::parse::sliced::IrcMsg;

#[test]
fn parse_test_irc_msg() {
    let pings_noprefix_1server = vec!["PING server1", "PING  server1", "PING server1 ", "PING      server1"];
    for msg_text in pings_noprefix_1server.into_iter() {
        println!("--!!-- running with ``{}`` --!!--", msg_text);
        let msg = IrcMsg::from_str(msg_text);
        assert!(msg.is_some());
        let msg = msg.unwrap();
        assert_eq!(msg.get_prefix(), None);
        assert_eq!(msg.get_command(), "PING");
        assert_eq!(msg.get_args().len(), 1);
        assert_eq!(msg.get_args()[0], "server1");
    }

    let pings_noprefix_2server = vec![
        "PING server1 :server2",
        "PING server1 :server2",
        "PING  server1 :server2",
        "PING server1  :server2",
        "PING    server1  :server2",
    ];
    for msg_text in pings_noprefix_2server.into_iter() {
        let msg = IrcMsg::from_str(msg_text);
        assert!(msg.is_some());
        let msg = msg.unwrap();
        assert_eq!(msg.get_prefix(), None);
        assert_eq!(msg.get_command(), "PING");
        assert_eq!(msg.get_args().len(), 2);
        assert_eq!(msg.get_args()[0], "server1");
        assert_eq!(msg.get_args()[1], "server2");
    }

    let pings_prefix_1server = vec![
        ":nick!user@host PING server1",
        ":nick!user@host  PING server1",
        ":nick!user@host PING  server1 ",
        ":nick!user@host  PING server1",
        ":nick!user@host  PING    server1",
    ];
    for msg_text in pings_prefix_1server.into_iter() {
        let msg = IrcMsg::from_str(msg_text);
        assert!(msg.is_some());
        let msg = msg.unwrap();
        assert_eq!(msg.get_prefix(), Some("nick!user@host"));
        assert_eq!(msg.get_command(), "PING");
        assert_eq!(msg.get_args().len(), 1);
        assert_eq!(msg.get_args()[0], "server1");
    }

    let pings_prefix_2server = vec![
        ":nick!user@host PING server1 :server2",
        ":nick!user@host  PING server1 :server2",
        ":nick!user@host PING  server1 :server2",
        ":nick!user@host  PING server1  :server2",
        ":nick!user@host  PING    server1  :server2",
    ];
    for msg_text in pings_prefix_2server.into_iter() {
        let msg = IrcMsg::from_str(msg_text);
        assert!(msg.is_some());
        let msg = msg.unwrap();
        assert_eq!(msg.get_prefix(), Some("nick!user@host"));
        assert_eq!(msg.get_command(), "PING");
        assert_eq!(msg.get_args().len(), 2);
        assert_eq!(msg.get_args()[0], "server1");
        assert_eq!(msg.get_args()[1], "server2");
    }
}

#[test]
fn oldparse_test_irc_msg() {
    let pings_noprefix_1server = vec!["PING server1", "PING  server1", "PING server1 ", "PING      server1"];
    for msg_text in pings_noprefix_1server.into_iter() {
        println!("--!!-- running with ``{}`` --!!--", msg_text);
        let msg = oldparse::IrcMsg::from_str(msg_text);
        assert!(msg.is_some());
        let msg = msg.unwrap();
        assert_eq!(msg.get_prefix_raw(), None);
        assert!(msg.get_prefix().is_none());
        assert_eq!(msg.get_command(), "PING");
        assert_eq!(msg.get_args().len(), 1);
        assert_eq!(msg.get_args()[0], "server1");
    }

    let pings_noprefix_2server = vec![
        "PING server1 :server2",
        "PING server1 :server2",
        "PING  server1 :server2",
        "PING server1  :server2",
        "PING    server1  :server2",
    ];
    for msg_text in pings_noprefix_2server.into_iter() {
        let msg = oldparse::IrcMsg::from_str(msg_text);
        assert!(msg.is_some());
        let msg = msg.unwrap();
        assert_eq!(msg.get_prefix_raw(), None);
        assert!(msg.get_prefix().is_none());
        assert_eq!(msg.get_command(), "PING");
        assert_eq!(msg.get_args().len(), 2);
        assert_eq!(msg.get_args()[0], "server1");
        assert_eq!(msg.get_args()[1], "server2");
    }

    let pings_prefix_1server = vec![
        ":nick!user@host PING server1",
        ":nick!user@host  PING server1",
        ":nick!user@host PING  server1 ",
        ":nick!user@host  PING server1",
        ":nick!user@host  PING    server1",
    ];
    for msg_text in pings_prefix_1server.into_iter() {
        let msg = oldparse::IrcMsg::from_str(msg_text);
        assert!(msg.is_some());
        let msg = msg.unwrap();
        assert_eq!(msg.get_prefix_raw(), Some("nick!user@host"));
        assert!(msg.get_prefix().is_some());
        assert_eq!(msg.get_command(), "PING");
        assert_eq!(msg.get_args().len(), 1);
        assert_eq!(msg.get_args()[0], "server1");
    }

    let pings_prefix_2server = vec![
        ":nick!user@host PING server1 :server2",
        ":nick!user@host  PING server1 :server2",
        ":nick!user@host PING  server1 :server2",
        ":nick!user@host  PING server1  :server2",
        ":nick!user@host  PING    server1  :server2",
    ];
    for msg_text in pings_prefix_2server.into_iter() {
        let msg = oldparse::IrcMsg::from_str(msg_text);
        assert!(msg.is_some());
        let msg = msg.unwrap();
        assert_eq!(msg.get_prefix_raw(), Some("nick!user@host"));
        assert!(msg.get_prefix().is_some());
        assert_eq!(msg.get_command(), "PING");
        assert_eq!(msg.get_args().len(), 2);
        assert_eq!(msg.get_args()[0], "server1");
        assert_eq!(msg.get_args()[1], "server2");
    }
}

#[test]
fn oldparse_source_nick() {
    let msg = oldparse::IrcMsg::from_str(":nick!user@host PRIVMSG #c :hi").unwrap();
    assert_eq!(msg.source_nick(), Some("nick"));
    let msg = oldparse::IrcMsg::from_str(":server.example PING x").unwrap();
    assert_eq!(msg.source_nick(), None);
    let msg = oldparse::IrcMsg::from_str("PING x").unwrap();
    assert_eq!(msg.source_nick(), None);
    let owned: oldparse::IrcMsg = ":a!b@c NICK d".parse().unwrap();
    assert_eq!(owned.get_command(), "NICK");
    assert_eq!(owned.get_prefix().unwrap().hostname(), "c");
}

#[test]
fn sliced_edge_cases() {
    let msg = IrcMsg::from_str("").unwrap();
    assert_eq!(msg.get_command(), "");
    assert!(msg.get_args().is_empty());
    let msg = IrcMsg::from_str(":only-prefix").unwrap();
    assert_eq!(msg.get_prefix(), Some("only-prefix"));
    assert_eq!(msg.get_command(), "");
    let msg = IrcMsg::from_str("CMD a :b c :d").unwrap();
    assert_eq!(msg.get_args(), vec!["a", "b c :d"]);
}

#[test]
fn oldparse_refuses_a_line_without_command() {
    assert!(oldparse::IrcMsg::from_str("").is_none());
    assert!(oldparse::IrcMsg::from_str(":").is_none());
    assert!(oldparse::IrcMsg::from_str(":nick!user@host").is_none());
    assert!(oldparse::IrcMsg::from_string("PING x").is_some());
}
