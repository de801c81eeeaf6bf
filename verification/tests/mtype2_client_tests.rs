use irc::mtype2::client::{InviteBuf, JoinBuf, NickBuf, PingBuf, PongBuf, PrivmsgBuf, QuitBuf};

#[test]
fn client_lines_are_written_out() {
    assert_eq!(InviteBuf::new(b"nick", b"#chan").unwrap().as_bytes(), b"INVITE nick #chan");
    assert_eq!(JoinBuf::new(b"#chan").unwrap().as_bytes(), b"JOIN #chan");
    assert_eq!(NickBuf::new(b"someone").unwrap().as_bytes(), b"NICK someone");
    assert_eq!(PingBuf::new(b"irc.example.net").unwrap().as_bytes(), b"PING :irc.example.net");
    assert_eq!(PongBuf::new(b"irc.example.net").unwrap().as_bytes(), b"PONG irc.example.net");
    assert_eq!(PrivmsgBuf::new(b"#chan", b"hello there").unwrap().as_bytes(), b"PRIVMSG #chan :hello there");
    assert_eq!(QuitBuf::new(b"bye").unwrap().as_bytes(), b"QUIT :bye");
}

#[test]
fn client_lines_keep_only_the_first_line() {
    let quit = QuitBuf::new(b"bye\r\nJOIN #other").unwrap();
    assert_eq!(quit.as_bytes(), b"QUIT :bye");
    assert_eq!(quit.into_inner().as_bytes(), b"QUIT :bye");
}
