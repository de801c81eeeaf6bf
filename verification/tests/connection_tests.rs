use irc::watchers::base::{AnyTrigger, BundlerManager};
use irc::watchers::join::JoinBundlerTrigger;
use irc::watchers::who::WhoBundlerTrigger;
use irc::connection::{deline, IrcConnectionBuf, IrcConnectionCommand, IrcConnectionInternalState};
use irc::core_plugins::ctcp_version::CtcpVersionResponder;
use irc::message_types::util::incoming_would_fault;
use irc::parse::parse::IrcMsg;
use irc::event::IrcEvent;

#[test]
fn test_pingpong() {
    let mut conn = IrcConnectionBuf::new();

    assert_eq!(conn.pop_line(), None);
    conn.push_line(b"PING pretend-server\r\n".to_vec());
    assert_eq!(conn.pop_line(), None);

    conn.dispatch();
    assert!(conn.pop_event().is_some());
    assert!(conn.pop_event().is_none());
    assert_eq!(conn.pop_line(), Some(b"PONG pretend-server\r\n".to_vec()));
}

#[test]
fn ctcp_version_is_answered() {
    let mut conn = IrcConnectionBuf::new();
    conn.push_line(b":nick!user@host PRIVMSG #chan :\x01VERSION\x01\r\n".to_vec());
    conn.dispatch();
    match conn.pop_event() {
        Some(IrcEvent::IrcMsg(_)) => (),
        other => panic!("expected the line back, got {:?}", other),
    }
    assert_eq!(
        conn.pop_line(),
        Some(b"PRIVMSG #chan \x01VERSION rust-irc v0.4.0 https://github.com/infinityb/rust-irc\x01\r\n".to_vec())
    );
    assert_eq!(conn.pop_line(), None);
}

#[test]
fn register_join_and_who_write_lines() {
    let mut conn = IrcConnectionBuf::new();
    conn.register("rustbot");
    conn.join("#rust");
    conn.who("#rust");
    assert_eq!(conn.pop_line(), Some(b"NICK rustbot\r\n".to_vec()));
    assert_eq!(conn.pop_line(), Some(b"USER rustirc 0 * :http://github.com/infinityb/rust-irc\r\n".to_vec()));
    assert_eq!(conn.pop_line(), Some(b"JOIN #rust\r\n".to_vec()));
    assert_eq!(conn.pop_line(), Some(b"WHO #rust\r\n".to_vec()));
    assert_eq!(conn.pop_line(), None);
    conn.dispatch();
    assert!(conn.pop_event().is_none());
}

#[test]
fn raw_write_wraps_the_line() {
    let command = IrcConnectionCommand::raw_write(b"QUIT".to_vec());
    assert!(matches!(command, IrcConnectionCommand::RawWrite(ref v) if v == b"QUIT"));
}

#[test]
fn deline_strips_line_ends() {
    assert_eq!(deline(b"PING x\r\n".to_vec()), b"PING x".to_vec());
    assert_eq!(deline(b"PING x\n".to_vec()), b"PING x".to_vec());
    assert_eq!(deline(b"PING x\r".to_vec()), b"PING x\r".to_vec());
    assert_eq!(deline(b"\r\n".to_vec()), b"".to_vec());
    assert_eq!(deline(Vec::new()), Vec::<u8>::new());
}

#[test]
fn internal_state_tells_which_lines_it_cannot_take() {
    let mut state = IrcConnectionInternalState::new();
    state.responders.push(CtcpVersionResponder::new());
    let nick = IrcMsg::new(b":n!u@h NICK newnick".to_vec()).unwrap();
    assert!(incoming_would_fault(&nick));
    assert!(state.would_fault(&nick));
    let ping = IrcMsg::new(b"PING :server".to_vec()).unwrap();
    assert!(!incoming_would_fault(&ping));
    assert!(!state.would_fault(&ping));
    let version = IrcMsg::new(b":n!u@h PRIVMSG me :\x01VERSION\x01".to_vec()).unwrap();
    assert!(!state.would_fault(&version));
    let (writes, _events) = state.dispatch(version);
    assert_eq!(writes.len(), 1);
}

#[test]
fn test_bundle_watcher() {
    let lines: &[&[u8]] = &[
        b":rustbot!rustbot@host JOIN #rust",
        b":server 332 rustbot #rust :Rust talk",
        b":server 333 rustbot #rust someone!u@h 1400000000",
        b":server 353 rustbot = #rust :rustbot @op other",
        b":server 366 rustbot #rust :End of /NAMES list.",
        b":server 352 rustbot #rust ~u host.example irc.example other H :0 Other Person",
        b":server 352 rustbot #rust ~o host.example irc.example op H@ :0 Op Person",
        b":server 315 rustbot #rust :End of /WHO list.",
        b"PING :server",
    ];
    let mut bunman = BundlerManager::new();
    bunman.add_bundler_trigger(AnyTrigger::Join(JoinBundlerTrigger::new(b"rustbot")));
    bunman.add_bundler_trigger(AnyTrigger::Who(WhoBundlerTrigger::new()));
    let mut events = Vec::new();
    for line in lines.iter() {
        let msg = IrcMsg::new(line.to_vec()).unwrap();
        assert!(bunman.accepts_line(&msg));
        events.extend(bunman.on_irc_msg(&msg).into_iter());
    }

    let mut join_bundles = 0;
    let mut who_bundles = 0;
    for event in events.into_iter() {
        if let IrcEvent::JoinBundle(_) = event {
            join_bundles += 1;
        }
        if let IrcEvent::WhoBundle(_) = event {
            who_bundles += 1
        }
    }
    assert_eq!(join_bundles, 1);
    assert_eq!(who_bundles, 1);
}
