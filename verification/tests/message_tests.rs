use irc::message::IrcMessage;

#[test]
fn test_irc_message_general() {
    match IrcMessage::from_str("") {
        Ok(_) => panic!("empty string is invalid"),
        Err(_) => (),
    };

    match IrcMessage::from_str(":") {
        Ok(_) => panic!("single colon is invalid"),
        Err(_) => (),
    };

    match IrcMessage::from_str(" ") {
        Ok(_) => panic!("single space is invalid"),
        Err(_) => (),
    };

    match IrcMessage::from_str("PING server1") {
        Ok(message) => {
            assert_eq!(message.get_prefix_raw(), None);
            assert_eq!(message.command(), "PING");
            assert_eq!(message.args.len(), 1);
        },
        Err(_) => panic!("failed to parse"),
    };

    match IrcMessage::from_str("PING server1 server2") {
        Ok(message) => {
            assert_eq!(message.get_prefix_raw(), None);
            assert_eq!(message.command(), "PING");
            assert_eq!(message.args.len(), 2);
        },
        Err(_) => panic!("failed to parse"),
    };

    match IrcMessage::from_str(":somewhere PING server1") {
        Ok(message) => {
            assert_eq!(message.get_prefix_raw(), Some("somewhere"));
            assert_eq!(message.command(), "PING");
            assert_eq!(message.args.len(), 1);
        },
        Err(_) => panic!("failed to parse"),
    };

    match IrcMessage::from_str(":somewhere PING server1 server2") {
        Ok(message) => {
            assert_eq!(message.get_prefix_raw(), Some("somewhere"));
            assert_eq!(message.command(), "PING");
            assert_eq!(message.args.len(), 2);
            assert_eq!(message.args[0].as_str(), "server1");
            assert_eq!(message.args[1].as_str(), "server2");
        },
        Err(_) => panic!("failed to parse"),
    };

    match IrcMessage::from_str(":somewhere PING :server1 server2") {
        Ok(message) => {
            assert_eq!(message.get_prefix_raw(), Some("somewhere"));
            assert_eq!(message.command(), "PING");
            assert_eq!(message.args.len(), 1);
            assert_eq!(message.args[0].as_str(), "server1 server2");
        },
        Err(_) => panic!("failed to parse"),
    };
}

#[test]
fn test_irc_message_numerics() {
    match IrcMessage::from_str(":somewhere 001 nick :blah blah") {
        Ok(message) => {
            assert_eq!(message.get_prefix_raw(), Some("somewhere"));
            assert_eq!(message.command(), "001");
        },
        Err(_) => panic!("failed to parse"),
    };

    match IrcMessage::from_str("001 nick :blah blah") {
        Ok(message) => {
            assert_eq!(message.get_prefix_raw(), None);
            assert_eq!(message.command(), "001");
        },
        Err(_) => panic!("failed to parse"),
    };
}

#[test]
fn message_error_texts() {
    assert_eq!(IrcMessage::from_str("").err().unwrap(), "Invalid IRC message; empty");
    assert_eq!(IrcMessage::from_str(":").err().unwrap(), "Invalid IRC message");
    assert_eq!(
        IrcMessage::from_str("PING ").err().unwrap(),
        "Invalid IRC message: Some(Invalid IRC message)"
    );
}

#[test]
fn message_channel_and_nick() {
    let message = IrcMessage::from_str(":nick!user@host PRIVMSG #chan :hello there").unwrap();
    assert!(message.is_privmsg());
    assert_eq!(message.channel(), Some("#chan"));
    assert!(message.target_is_channel());
    assert_eq!(message.source_nick(), Some("nick".to_string()));
    assert_eq!(message.get_args(), vec!["#chan", "hello there"]);
    assert_eq!(message.get_args_checked(), Some(vec!["#chan", "hello there"]));
    assert_eq!(message.args, vec!["#chan".to_string(), "hello there".to_string()]);

    let message = IrcMessage::from_str(":server PING other").unwrap();
    assert_eq!(message.channel(), None);
    assert_eq!(message.source_nick(), None);
}

#[test]
fn message_reads_as_text() {
    let message = IrcMessage::from_str(":nick!user@host PRIVMSG #chan :hello there").unwrap();
    assert_eq!(message.to_string(), "IrcMessage(nick!user@host, PRIVMSG, [#chan, hello there, ])");
    let message = IrcMessage::from_str("PING other").unwrap();
    assert_eq!(message.to_string(), "IrcMessage(PING, [other, ])");
}
