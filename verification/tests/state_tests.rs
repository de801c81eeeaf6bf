use irc::event::IrcEvent;
use irc::parse::parse::IrcMsg;
use irc::state::{ChannelId, State, UserId};
use irc::watchers::join::JoinSuccess;

fn msg(line: &[u8]) -> IrcMsg {
    IrcMsg::new(line.to_vec()).unwrap()
}

fn registered() -> State {
    let mut state = State::new();
    state.on_message(&msg(b":srv 001 me :Welcome"));
    state
}

fn with_channel_and_other() -> State {
    let mut state = registered();
    state.on_event(&IrcEvent::JoinBundle(Ok(JoinSuccess {
        channel: b"#chan".to_vec(),
        nicks: Vec::new(),
        topic: None,
    })));
    state.on_message(&msg(b":other!u@h JOIN #chan"));
    state
}

#[test]
fn state_tracks_welcome_join_and_part() {
    let mut state = with_channel_and_other();
    assert_eq!(state.get_self_nick(), "me");
    assert_eq!(state.identify_nick("me"), Some(UserId(0)));
    assert_eq!(state.identify_channel("#chan"), Some(ChannelId(0)));
    assert_eq!(state.identify_nick("OTHER"), Some(UserId(1)));
    assert_eq!(state.resolve_user(UserId(1)).unwrap().get_nick(), "other");
    assert!(state.validate_state_internal().is_ok());
    state.on_message(&msg(b":other!u@h PART #chan"));
    assert!(state.validate_state_internal().is_ok());
    assert_eq!(state.identify_nick("other"), None);
    assert_eq!(state.identify_channel("#chan"), Some(ChannelId(0)));
    assert_eq!(state.identify_nick("me"), Some(UserId(0)));
}

#[test]
fn state_patch_with_diff_adds_what_is_new() {
    let a = registered();
    let b = with_channel_and_other();
    let d = a.diff(&b);
    let text = format!("{:?}", d);
    assert!(text.contains("CreateChannel"));
    assert!(text.contains("CreateUser"));
    assert!(!text.contains("RemoveUser"));
    let c = a.patch(&d);
    assert!(c.validate_state_internal().is_ok());
    assert_eq!(c.identify_channel("#chan"), Some(ChannelId(0)));
    assert_eq!(c.identify_nick("other"), Some(UserId(1)));
    assert_eq!(c.resolve_user(UserId(1)).unwrap().get_nick(), "other");
    assert_eq!(c.get_self_nick(), "me");
    assert!(format!("{:?}", c.diff(&b)).contains("commands: []"));
}

#[test]
fn state_patch_with_diff_removes_what_is_gone() {
    let a = registered();
    let b = with_channel_and_other();
    let d = b.diff(&a);
    let text = format!("{:?}", d);
    assert!(text.contains("RemoveChannel"));
    assert!(text.contains("RemoveUser"));
    let c = b.patch(&d);
    assert_eq!(c.identify_channel("#chan"), None);
    assert_eq!(c.identify_nick("other"), None);
    assert_eq!(c.identify_nick("me"), Some(UserId(0)));
    assert!(format!("{:?}", c.diff(&a)).contains("commands: []"));
}

#[test]
fn state_diff_with_itself_is_empty() {
    let b = with_channel_and_other();
    let d = b.diff(&b);
    assert!(format!("{:?}", d).contains("commands: []"));
    let c = b.patch(&d);
    assert_eq!(c.identify_nick("other"), Some(UserId(1)));
}

#[test]
fn state_frozen_copy_reads_the_same() {
    let b = with_channel_and_other();
    let frozen = b.clone_frozen();
    assert_eq!(frozen.identify_nick("other"), Some(UserId(1)));
    assert_eq!(frozen.identify_channel("#CHAN"), Some(ChannelId(0)));
    assert_eq!(frozen.get_self_nick(), "me");
}

#[test]
fn state_kick_and_quit_forget_the_user() {
    let mut state = with_channel_and_other();
    state.on_message(&msg(b":op!u@h KICK #chan other :bye"));
    assert!(state.validate_state_internal().is_ok());
    assert_eq!(state.identify_nick("other"), None);
    assert_eq!(state.identify_channel("#chan"), Some(ChannelId(0)));

    let mut state = with_channel_and_other();
    state.on_message(&msg(b":other!u@h QUIT :gone"));
    assert!(state.validate_state_internal().is_ok());
    assert_eq!(state.identify_nick("other"), None);
    assert!(state.resolve_user(UserId(1)).is_none());
    assert_eq!(state.identify_nick("me"), Some(UserId(0)));
}

#[test]
fn state_topic_keeps_members() {
    let mut state = with_channel_and_other();
    state.on_message(&msg(b":other!u@h TOPIC #chan :new topic"));
    assert!(state.validate_state_internal().is_ok());
    assert_eq!(state.identify_nick("other"), Some(UserId(1)));
    assert_eq!(state.identify_channel("#chan"), Some(ChannelId(0)));
}

#[test]
fn state_second_welcome_renames_us() {
    let mut state = registered();
    state.on_message(&msg(b":srv 001 me2 :Welcome again"));
    assert!(state.validate_state_internal().is_ok());
    assert_eq!(state.get_self_nick(), "me2");
    assert_eq!(state.identify_nick("me2"), Some(UserId(0)));
    assert_eq!(state.identify_nick("me"), None);
}

#[test]
fn state_tells_which_lines_it_cannot_follow() {
    let state = State::new();
    let quit = IrcMsg::new(b":stranger!u@h QUIT :bye".to_vec()).unwrap();
    assert!(state.message_would_fault(&quit));
    let topic = IrcMsg::new(b":n!u@h TOPIC #nowhere :new topic".to_vec()).unwrap();
    assert!(state.message_would_fault(&topic));
    let ping = IrcMsg::new(b"PING :server".to_vec()).unwrap();
    assert!(!state.message_would_fault(&ping));
    let welcome = IrcMsg::new(b":server 001 rustbot :Welcome".to_vec()).unwrap();
    assert!(!state.message_would_fault(&welcome));
}
