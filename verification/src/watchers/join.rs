//! Gathers the replies that follow our own `JOIN` into one result.

use vstd::prelude::*;
use vstd::string::*;
use vstd::utf8::*;
use crate::parse::model::IrcMsgView;
use crate::parse::parse::{IrcMsg, prefix_bytes, command_bytes, arg_bytes, prefix_nick};
use crate::message_types::server::irc_eq;
use crate::message_types::commands::{cmd_join, cmd_nick, join_bytes, nick_bytes, code_bytes};
use crate::irccase::bytes_eq_ignore_irc_case;
use crate::text::{bytes_equal, bytes_to_vec, str_from_utf8, as_text, str_bytes, string_from_utf8_lossy, utf8_lossy, string_bytes, str_to_string};
use crate::decimal::{parse_u64, spec_parse_u64};
use crate::split::{split_slice, keep_non_empty, split_bytes, non_empty};
use crate::event::{IrcEvent, JoinResult};
use crate::watchers::base::{Bundler, BundlerTrigger, AnyBundler};

verus! {

/// A three-byte command.
pub open spec fn code(a: u8, b: u8, c: u8) -> Seq<u8> {
    seq![a, b, c]
}

/// The channel was joined: who is there and what the topic is.
#[derive(Clone, Debug)]
pub struct JoinSuccess {
    pub channel: Vec<u8>,
    pub nicks: Vec<String>,
    pub topic: Option<TopicMeta>,
}

/// A channel topic, who set it and when.
#[derive(Clone, Debug)]
pub struct TopicMeta {
    pub text: Vec<u8>,
    pub set_at: u64,
    pub set_by: String,
}

/// The channel could not be joined.
#[derive(Clone, Debug)]
pub struct JoinError {
    pub channel: Vec<u8>,
    pub errcode: i16,
    pub message: String,
}

/// The bytes of some strings.
pub open spec fn strings_bytes(v: Seq<String>) -> Seq<Seq<u8>> {
    v.map_values(|s: String| encode_utf8(s@))
}

/// Starts a `JoinBundler` whenever we join a channel, and follows our own
/// nick changes to know which joins are ours.
#[derive(Debug)]
pub struct JoinBundlerTrigger {
    current_nick: Vec<u8>,
}

impl View for JoinBundlerTrigger {
    /// Our current nick.
    type V = Seq<u8>;

    closed spec fn view(&self) -> Seq<u8> {
        self.current_nick@
    }
}

/// The line comes from `nick`, judged by the nick of a `nick!user@host`
/// prefix.
pub open spec fn comes_from(v: IrcMsgView, nick: Seq<u8>) -> bool {
    prefix_nick(prefix_bytes(v)) == Some(nick)
}

impl JoinBundlerTrigger {
    pub fn new(nick: &[u8]) -> (r: JoinBundlerTrigger)
        ensures
            r@ == nick@,
    {
        JoinBundlerTrigger { current_nick: bytes_to_vec(nick) }
    }

    fn on_nick(&mut self, msg: &IrcMsg)
        ensures
            final(self)@ == if comes_from(msg@, old(self)@) {
                arg_bytes(msg@, 0)
            } else {
                old(self)@
            },
    {
        proof {
            use_type_invariant(msg);
        }
        if self.is_self_join(msg) {
            self.current_nick = bytes_to_vec(msg.index(0));
        }
    }

    fn is_self_join(&self, msg: &IrcMsg) -> (r: bool)
        ensures
            r == comes_from(msg@, self@),
    {
        let prefix = msg.get_prefix();
        match prefix.nick() {
            Some(nick) => bytes_equal(str_bytes(nick), self.current_nick.as_slice()),
            None => false,
        }
    }
}

impl BundlerTrigger for JoinBundlerTrigger {
    fn on_irc_msg(&mut self, msg: &IrcMsg) -> (r: Vec<AnyBundler>)
        ensures
            command_bytes(msg@) == cmd_join() && comes_from(msg@, old(self)@) ==> r@.len() == 1,
            r@.len() == 1 ==> (r@[0] matches AnyBundler::Join(b) && b@ == JoinBundler::initial(arg_bytes(msg@, 0))),
            !(command_bytes(msg@) == cmd_join() && comes_from(msg@, old(self)@)) ==> r@.len() == 0,
            final(self)@ == if command_bytes(msg@) == cmd_nick() && comes_from(msg@, old(self)@) {
                arg_bytes(msg@, 0)
            } else {
                old(self)@
            },
    {
        let mut out: Vec<AnyBundler> = Vec::new();
        proof {
            use_type_invariant(msg);
        }
        if bytes_equal(msg.command_as_bytes(), join_bytes().as_slice()) {
            if self.is_self_join(msg) {
                out.push(AnyBundler::Join(JoinBundler::new(msg.index(0))));
            }
        } else if bytes_equal(msg.command_as_bytes(), nick_bytes().as_slice()) {
            self.on_nick(msg);
        }
        out
    }
}

/// Where a `JoinBundler` stands.
#[derive(Clone, Copy, Debug, PartialEq, Eq, Structural)]
pub enum JoinBundlerState {
    PreJoin,
    Joining,
    Joined,
    JoinFail,
}

/// Who set a topic and when.
#[derive(Debug)]
struct BundlerTopicMeta {
    set_by: String,
    set_at: u64,
}

/// The topic metadata of a `333` reply: who set it (parameter 2) and when
/// (parameter 3, a decimal number), when both are text and the time reads.
pub open spec fn topic_meta_of(v: IrcMsgView) -> Option<(Seq<u8>, u64)> {
    if !valid_utf8(arg_bytes(v, 2)) || !valid_utf8(arg_bytes(v, 3)) {
        None
    } else {
        match spec_parse_u64(arg_bytes(v, 3)) {
            Some(n) => Some((arg_bytes(v, 2), n)),
            None => None,
        }
    }
}

/// The nicks of a `353` reply: its text, made valid, cut at spaces.
pub open spec fn names_of(bytes: Seq<u8>) -> Seq<Seq<u8>> {
    non_empty(split_bytes(encode_utf8(utf8_lossy(bytes)), 0x20))
}

/// What the bundler has gathered.
pub struct JoinBundlerView {
    pub channel: Seq<u8>,
    pub topic: Option<Seq<u8>>,
    pub topic_meta: Option<(Seq<u8>, u64)>,
    pub nicks: Option<Seq<Seq<u8>>>,
    pub state: JoinBundlerState,
}

/// What a line does to a bundler.
pub enum JoinStep {
    Ignore,
    Start,
    Fail,
    Topic(Seq<u8>),
    Meta(Option<(Seq<u8>, u64)>),
    Names(Seq<Seq<u8>>),
    Finish,
}

/// How a bundler in `state` waiting on `channel` takes a line.
pub open spec fn join_step(state: JoinBundlerState, channel: Seq<u8>, v: IrcMsgView) -> JoinStep {
    let c = command_bytes(v);
    match state {
        JoinBundlerState::PreJoin => if c == cmd_join() {
            if irc_eq(arg_bytes(v, 0), channel) {
                JoinStep::Start
            } else {
                JoinStep::Ignore
            }
        } else if c == code(0x34, 0x37, 0x35) {
            if irc_eq(arg_bytes(v, 1), channel) {
                JoinStep::Fail
            } else {
                JoinStep::Ignore
            }
        } else {
            JoinStep::Ignore
        },
        JoinBundlerState::Joining => if c == code(0x33, 0x33, 0x32) {
            if irc_eq(arg_bytes(v, 1), channel) {
                JoinStep::Topic(arg_bytes(v, 2))
            } else {
                JoinStep::Ignore
            }
        } else if c == code(0x33, 0x33, 0x33) {
            if irc_eq(arg_bytes(v, 1), channel) {
                JoinStep::Meta(topic_meta_of(v))
            } else {
                JoinStep::Ignore
            }
        } else if c == code(0x33, 0x35, 0x33) {
            if irc_eq(arg_bytes(v, 2), channel) {
                JoinStep::Names(names_of(arg_bytes(v, 3)))
            } else {
                JoinStep::Ignore
            }
        } else if c == code(0x33, 0x36, 0x36) {
            if irc_eq(arg_bytes(v, 1), channel) {
                JoinStep::Finish
            } else {
                JoinStep::Ignore
            }
        } else {
            JoinStep::Ignore
        },
        _ => JoinStep::Ignore,
    }
}

/// A names reply marks the channel as `=`, `*` or `@`.
pub open spec fn is_channel_mark(b: Seq<u8>) -> bool {
    b == seq![0x3du8] || b == seq![0x2au8] || b == seq![0x40u8]
}

/// Lines on which taking the line fails: a parameter that is read is not
/// there, or a names reply has an unknown channel mark.
pub open spec fn join_step_faults(state: JoinBundlerState, channel: Seq<u8>, v: IrcMsgView) -> bool {
    let c = command_bytes(v);
    let n = v.args.len();
    match state {
        JoinBundlerState::PreJoin => c == code(0x34, 0x37, 0x35) && n < 2,
        JoinBundlerState::Joining => {
            ||| (c == code(0x33, 0x33, 0x32) || c == code(0x33, 0x33, 0x33) || c == code(
                0x33,
                0x36,
                0x36,
            )) && n < 2
            ||| c == code(0x33, 0x33, 0x32) && irc_eq(arg_bytes(v, 1), channel) && n < 3
            ||| c == code(0x33, 0x33, 0x33) && irc_eq(arg_bytes(v, 1), channel) && (n < 3 || (
            valid_utf8(arg_bytes(v, 2)) && n < 4))
            ||| c == code(0x33, 0x35, 0x33) && (n < 3 || !is_channel_mark(arg_bytes(v, 1)) || (
            irc_eq(arg_bytes(v, 2), channel) && n < 4))
        },
        _ => false,
    }
}

/// Gathers the topic and the names that the server sends after our `JOIN`
/// and emits one `JoinBundle` event.
#[derive(Debug)]
pub struct JoinBundler {
    channel: Vec<u8>,
    topic: Option<Vec<u8>>,
    topic_meta: Option<BundlerTopicMeta>,
    nicks: Option<Vec<String>>,
    state: JoinBundlerState,
}

impl View for JoinBundler {
    type V = JoinBundlerView;

    closed spec fn view(&self) -> JoinBundlerView {
        JoinBundlerView {
            channel: self.channel@,
            topic: match self.topic {
                Some(t) => Some(t@),
                None => None,
            },
            topic_meta: match self.topic_meta {
                Some(m) => Some((encode_utf8(m.set_by@), m.set_at)),
                None => None,
            },
            nicks: match self.nicks {
                Some(n) => Some(strings_bytes(n@)),
                None => None,
            },
            state: self.state,
        }
    }
}

impl JoinBundler {
    /// A bundler waiting for the `JOIN` of `channel`.
    pub open spec fn initial(channel: Seq<u8>) -> JoinBundlerView {
        JoinBundlerView {
            channel: channel,
            topic: None,
            topic_meta: None,
            nicks: Some(Seq::empty()),
            state: JoinBundlerState::PreJoin,
        }
    }

    /// Before the end of the names, the names gathered so far are kept.
    pub open spec fn wf(v: JoinBundlerView) -> bool {
        (v.state == JoinBundlerState::PreJoin || v.state == JoinBundlerState::Joining) ==> v.nicks is Some
    }

    /// The bundler after taking a line.
    pub open spec fn after(b: JoinBundlerView, v: IrcMsgView) -> JoinBundlerView {
        match join_step(b.state, b.channel, v) {
            JoinStep::Ignore => b,
            JoinStep::Start => JoinBundlerView { state: JoinBundlerState::Joining, ..b },
            JoinStep::Fail => JoinBundlerView { state: JoinBundlerState::JoinFail, ..b },
            JoinStep::Topic(t) => JoinBundlerView { topic: Some(t), ..b },
            JoinStep::Meta(m) => JoinBundlerView { topic_meta: m, ..b },
            JoinStep::Names(n) => JoinBundlerView { nicks: Some(b.nicks->Some_0 + n), ..b },
            JoinStep::Finish => JoinBundlerView { nicks: None, state: JoinBundlerState::Joined, ..b },
        }
    }

    pub fn new(channel: &[u8]) -> (r: JoinBundler)
        ensures
            r@ == JoinBundler::initial(channel@),
    {
        let r = JoinBundler {
            channel: bytes_to_vec(channel),
            topic: None,
            topic_meta: None,
            nicks: Some(Vec::new()),
            state: JoinBundlerState::PreJoin,
        };
        proof {
            assert(strings_bytes(Seq::<String>::empty()) =~= Seq::<Seq<u8>>::empty());
        }
        r
    }

    fn meta_from_msg(msg: &IrcMsg) -> (r: Option<BundlerTopicMeta>)
        requires
            msg@.args.len() > 2,
            valid_utf8(arg_bytes(msg@, 2)) ==> msg@.args.len() > 3,
        ensures
            match r {
                Some(m) => topic_meta_of(msg@) == Some((encode_utf8(m.set_by@), m.set_at)),
                None => topic_meta_of(msg@) is None,
            },
    {
        let args2 = match str_from_utf8(msg.index(2)) {
            Ok(s) => s,
            Err(_) => return None,
        };
        let args3 = match str_from_utf8(msg.index(3)) {
            Ok(s) => s,
            Err(_) => return None,
        };
        match parse_u64(str_bytes(args3)) {
            Some(set_at) => {
                let set_by = str_to_string(args2);
                proof {
                    encode_utf8_decode_utf8(args2@);
                }
                Some(BundlerTopicMeta { set_by, set_at })
            },
            None => None,
        }
    }

    fn names_from(bytes: &[u8]) -> (r: Vec<String>)
        ensures
            strings_bytes(r@) == names_of(bytes@),
    {
        let text = string_from_utf8_lossy(bytes);
        let raw = string_bytes(&text);
        let cut = split_slice(raw, 0x20);
        proof {
            assert(cut@.map_values(|x: &[u8]| x@) =~= split_bytes(raw@, 0x20));
        }
        let pieces = keep_non_empty(cut);
        let ghost expect = names_of(bytes@);
        let mut out: Vec<String> = Vec::new();
        let mut i: usize = 0;
        while i < pieces.len()
            invariant
                0 <= i <= pieces.len(),
                valid_utf8(raw@),
                raw@ == encode_utf8(utf8_lossy(bytes@)),
                pieces@.len() == expect.len(),
                expect == names_of(bytes@),
                forall|j: int| 0 <= j < pieces@.len() ==> (#[trigger] pieces@[j])@ == expect[j],
                strings_bytes(out@) == expect.take(i as int),
            decreases pieces.len() - i,
        {
            let piece = pieces[i];
            proof {
                lemma_names_are_text(raw@, expect, i as int);
            }
            let s = str_to_string(as_text(piece));
            proof {
                crate::text::lemma_decode_encode(piece@);
                assert(strings_bytes(out@.push(s)) =~= strings_bytes(out@).push(encode_utf8(s@)));
                assert(expect.take(i + 1) =~= expect.take(i as int).push(expect[i as int]));
            }
            out.push(s);
            i = i + 1;
        }
        proof {
            assert(expect.take(expect.len() as int) =~= expect);
        }
        out
    }

    fn accept_state_prejoin(&mut self, msg: &IrcMsg) -> (r: Option<JoinResult>)
        requires
            old(self).state == JoinBundlerState::PreJoin,
            !join_step_faults(old(self)@.state, old(self)@.channel, msg@),
        ensures
            final(self)@ == JoinBundler::after(old(self)@, msg@),
            r is Some == (join_step(old(self)@.state, old(self)@.channel, msg@) is Fail),
            r is Some ==> (r matches Some(Err(e)) && e.channel@ == old(self)@.channel && e.errcode == 0 && e.message@
                == Seq::<char>::empty()),
    {
        proof {
            use_type_invariant(msg);
        }
        if bytes_equal(msg.command_as_bytes(), join_bytes().as_slice()) {
            if !bytes_eq_ignore_irc_case(msg.index(0), self.channel.as_slice()) {
                return None;
            }
            self.state = JoinBundlerState::Joining;
            None
        } else if bytes_equal(msg.command_as_bytes(), code_bytes(0x34, 0x37, 0x35).as_slice()) {
            if !bytes_eq_ignore_irc_case(msg.index(1), self.channel.as_slice()) {
                return None;
            }
            self.state = JoinBundlerState::JoinFail;
            Some(Err(JoinError { channel: self.channel.clone(), errcode: 0, message: String::new() }))
        } else {
            None
        }
    }

    fn accept_state_joining(&mut self, msg: &IrcMsg) -> (r: Option<JoinResult>)
        requires
            old(self).state == JoinBundlerState::Joining,
            JoinBundler::wf(old(self)@),
            !join_step_faults(old(self)@.state, old(self)@.channel, msg@),
        ensures
            final(self)@ == JoinBundler::after(old(self)@, msg@),
            r is Some == (join_step(old(self)@.state, old(self)@.channel, msg@) is Finish),
            r is Some ==> (r matches Some(Ok(s)) && s.channel@ == old(self)@.channel && strings_bytes(s.nicks@)
                == old(self)@.nicks->Some_0 && (s.topic is Some == (old(self)@.topic is Some
                && old(self)@.topic_meta is Some)) && (s.topic matches Some(t) ==> t.text@
                == old(self)@.topic->Some_0 && (encode_utf8(t.set_by@), t.set_at)
                == old(self)@.topic_meta->Some_0)),
    {
        let command = msg.command_as_bytes();
        if bytes_equal(command, code_bytes(0x33, 0x33, 0x32).as_slice()) {
            if bytes_eq_ignore_irc_case(msg.index(1), self.channel.as_slice()) {
                self.topic = Some(bytes_to_vec(msg.index(2)));
            }
            None
        } else if bytes_equal(command, code_bytes(0x33, 0x33, 0x33).as_slice()) {
            if bytes_eq_ignore_irc_case(msg.index(1), self.channel.as_slice()) {
                self.topic_meta = JoinBundler::meta_from_msg(msg);
            }
            None
        } else if bytes_equal(command, code_bytes(0x33, 0x35, 0x33).as_slice()) {
            if bytes_eq_ignore_irc_case(msg.index(2), self.channel.as_slice()) {
                let names = JoinBundler::names_from(msg.index(3));
                let mut nicks = self.nicks.take().unwrap();
                let ghost before = nicks@;
                let mut k: usize = 0;
                while k < names.len()
                    invariant
                        0 <= k <= names.len(),
                        strings_bytes(nicks@) == strings_bytes(before) + strings_bytes(names@).take(k as int),
                    decreases names.len() - k,
                {
                    let ghost prev = nicks@;
                    nicks.push(names[k].clone());
                    proof {
                        assert(strings_bytes(nicks@) =~= strings_bytes(prev).push(encode_utf8(names@[k as int]@)));
                        assert(strings_bytes(names@).take(k + 1) =~= strings_bytes(names@).take(k as int).push(encode_utf8(names@[k as int]@)));
                    }
                    k = k + 1;
                }
                proof {
                    assert(strings_bytes(names@).take(names.len() as int) =~= strings_bytes(names@));
                }
                self.nicks = Some(nicks);
            }
            None
        } else if bytes_equal(command, code_bytes(0x33, 0x36, 0x36).as_slice()) {
            if !bytes_eq_ignore_irc_case(msg.index(1), self.channel.as_slice()) {
                return None;
            }
            let topic = match (&self.topic, &self.topic_meta) {
                (Some(text), Some(meta)) => Some(TopicMeta {
                    text: text.clone(),
                    set_at: meta.set_at,
                    set_by: meta.set_by.clone(),
                }),
                _ => None,
            };
            let nicks = self.nicks.take().unwrap();
            self.state = JoinBundlerState::Joined;
            Some(Ok(JoinSuccess { channel: self.channel.clone(), nicks, topic }))
        } else {
            None
        }
    }
}

impl JoinBundler {
    /// Whether the bundler can take `msg` without fault.
    pub fn accepts_line(&self, msg: &IrcMsg) -> (r: bool)
        ensures
            r == (JoinBundler::wf(self@) && !join_step_faults(self@.state, self@.channel, msg@)),
    {
        let waiting = match self.state {
            JoinBundlerState::PreJoin | JoinBundlerState::Joining => true,
            _ => false,
        };
        if waiting && self.nicks.is_none() {
            return false;
        }
        let c = msg.command_as_bytes();
        let n = msg.len();
        match self.state {
            JoinBundlerState::PreJoin => !(bytes_equal(c, code_bytes(0x34, 0x37, 0x35).as_slice())
                && n < 2),
            JoinBundlerState::Joining => {
                let is332 = bytes_equal(c, code_bytes(0x33, 0x33, 0x32).as_slice());
                let is333 = bytes_equal(c, code_bytes(0x33, 0x33, 0x33).as_slice());
                let is353 = bytes_equal(c, code_bytes(0x33, 0x35, 0x33).as_slice());
                let is366 = bytes_equal(c, code_bytes(0x33, 0x36, 0x36).as_slice());
                if (is332 || is333 || is366) && n < 2 {
                    return false;
                }
                if is332 && bytes_eq_ignore_irc_case(msg.index(1), self.channel.as_slice()) && n < 3 {
                    return false;
                }
                if is333 && bytes_eq_ignore_irc_case(msg.index(1), self.channel.as_slice()) {
                    if n < 3 {
                        return false;
                    }
                    if str_from_utf8(msg.index(2)).is_ok() && n < 4 {
                        return false;
                    }
                }
                if is353 {
                    if n < 3 {
                        return false;
                    }
                    let mark = msg.index(1);
                    let known = mark.len() == 1 && (mark[0] == 0x3d || mark[0] == 0x2a || mark[0]
                        == 0x40);
                    proof {
                        if mark@.len() == 1 {
                            if mark@[0] == 0x3d {
                                assert(mark@ =~= seq![0x3du8]);
                            } else if mark@[0] == 0x2a {
                                assert(mark@ =~= seq![0x2au8]);
                            } else if mark@[0] == 0x40 {
                                assert(mark@ =~= seq![0x40u8]);
                            }
                        }
                    }
                    if !known {
                        return false;
                    }
                    if bytes_eq_ignore_irc_case(msg.index(2), self.channel.as_slice()) && n < 4 {
                        return false;
                    }
                }
                true
            },
            _ => true,
        }
    }
}

/// The pieces of valid text cut at an ASCII byte are text.
proof fn lemma_names_are_text(raw: Seq<u8>, expect: Seq<Seq<u8>>, i: int)
    requires
        valid_utf8(raw),
        expect == non_empty(split_bytes(raw, 0x20)),
        0 <= i < expect.len(),
    ensures
        valid_utf8(expect[i]),
{
    crate::split::lemma_split_text(raw, 0x20);
    crate::split::lemma_non_empty_text(split_bytes(raw, 0x20));
}

/// The event a bundler emits on a line: a refusal on `475`, or at the end
/// of the names the channel, the names gathered and the topic, when both
/// its text and who set it are known.
pub open spec fn join_event_fits(b: JoinBundlerView, v: IrcMsgView, e: IrcEvent) -> bool {
    match join_step(b.state, b.channel, v) {
        JoinStep::Fail => e matches IrcEvent::JoinBundle(Err(err)) && err.channel@ == b.channel && err.errcode == 0
            && err.message@ == Seq::<char>::empty(),
        JoinStep::Finish => e matches IrcEvent::JoinBundle(Ok(s)) && s.channel@ == b.channel && strings_bytes(s.nicks@)
            == b.nicks->Some_0 && (s.topic is Some == (b.topic is Some && b.topic_meta is Some)) && (s.topic matches Some(
            t,
        ) ==> t.text@ == b.topic->Some_0 && (encode_utf8(t.set_by@), t.set_at) == b.topic_meta->Some_0),
        _ => false,
    }
}

impl Bundler for JoinBundler {
    open spec fn accepts(&self, v: IrcMsgView) -> bool {
        JoinBundler::wf(self@) && !join_step_faults(self@.state, self@.channel, v)
    }

    fn on_irc_msg(&mut self, msg: &IrcMsg) -> (r: Vec<IrcEvent>)
        ensures
            final(self)@ == JoinBundler::after(old(self)@, msg@),
            JoinBundler::wf(final(self)@),
            r@.len() == (if join_step(old(self)@.state, old(self)@.channel, msg@) is Fail
                || join_step(old(self)@.state, old(self)@.channel, msg@) is Finish {
                1int
            } else {
                0int
            }),
            r@.len() == 1 ==> join_event_fits(old(self)@, msg@, r@[0]),
    {
        let result = match self.state {
            JoinBundlerState::PreJoin => self.accept_state_prejoin(msg),
            JoinBundlerState::Joining => self.accept_state_joining(msg),
            _ => None,
        };
        let mut out: Vec<IrcEvent> = Vec::new();
        match result {
            Some(result) => {
                out.push(IrcEvent::JoinBundle(result));
            },
            None => {},
        }
        out
    }

    fn is_finished(&mut self) -> (r: bool)
        ensures
            r == (old(self)@.state == JoinBundlerState::JoinFail || old(self)@.state
                == JoinBundlerState::Joined),
            final(self)@ == old(self)@,
    {
        match self.state {
            JoinBundlerState::JoinFail | JoinBundlerState::Joined => true,
            _ => false,
        }
    }

    fn get_name(&self) -> &'static str {
        "JoinBundler"
    }
}

} // verus!

verus! {

/// The bundler is in `state` and the line has command `c` and names the
/// bundler's channel in parameter `pos`.
pub open spec fn line_for(b: JoinBundlerView, state: JoinBundlerState, v: IrcMsgView, c: Seq<u8>, pos: int) -> bool {
    &&& b.state == state
    &&& command_bytes(v) == c
    &&& irc_eq(arg_bytes(v, pos), b.channel)
}

/// The line's command is one the bundler takes.
pub open spec fn join_reply_command(c: Seq<u8>) -> bool {
    ||| c == cmd_join()
    ||| c == seq![0x34u8, 0x37, 0x35]
    ||| c == seq![0x33u8, 0x33, 0x32]
    ||| c == seq![0x33u8, 0x33, 0x33]
    ||| c == seq![0x33u8, 0x35, 0x33]
    ||| c == seq![0x33u8, 0x36, 0x36]
}

/// How a waiting bundler takes the replies to our `JOIN`, by parameter
/// position.  Before the join is seen: our `JOIN` of the channel (parameter
/// 0) starts it, and `475` naming it (parameter 1) refuses it.  While
/// joining: `332` naming the channel in parameter 1 sets the topic to
/// parameter 2; `333` naming it sets who set the topic (parameter 2) and
/// when (parameter 3, decimal); `353` naming it in parameter 2 adds the
/// names of parameter 3; `366` naming it in parameter 1 ends the join.
/// Nothing else changes the bundler.
pub proof fn lemma_join_bundler_lines(b: JoinBundlerView, v: IrcMsgView)
    ensures
        line_for(b, JoinBundlerState::PreJoin, v, cmd_join(), 0) ==> JoinBundler::after(b, v) == (JoinBundlerView {
            state: JoinBundlerState::Joining,
            ..b
        }),
        line_for(b, JoinBundlerState::PreJoin, v, seq![0x34u8, 0x37, 0x35], 1) ==> JoinBundler::after(b, v) == (
        JoinBundlerView { state: JoinBundlerState::JoinFail, ..b }),
        line_for(b, JoinBundlerState::Joining, v, seq![0x33u8, 0x33, 0x32], 1) ==> JoinBundler::after(b, v) == (
        JoinBundlerView { topic: Some(arg_bytes(v, 2)), ..b }),
        line_for(b, JoinBundlerState::Joining, v, seq![0x33u8, 0x33, 0x33], 1) && valid_utf8(arg_bytes(v, 2))
            && valid_utf8(arg_bytes(v, 3)) && spec_parse_u64(arg_bytes(v, 3)) is Some ==> JoinBundler::after(b, v)
            == (JoinBundlerView { topic_meta: Some((arg_bytes(v, 2), spec_parse_u64(arg_bytes(v, 3))->Some_0)), ..b }),
        line_for(b, JoinBundlerState::Joining, v, seq![0x33u8, 0x35, 0x33], 2) ==> JoinBundler::after(b, v) == (
        JoinBundlerView { nicks: Some(b.nicks->Some_0 + names_of(arg_bytes(v, 3))), ..b }),
        line_for(b, JoinBundlerState::Joining, v, seq![0x33u8, 0x36, 0x36], 1) ==> JoinBundler::after(b, v) == (
        JoinBundlerView { nicks: None, state: JoinBundlerState::Joined, ..b }),
        !join_reply_command(command_bytes(v)) ==> JoinBundler::after(b, v) == b,
{
    assert(cmd_join().len() != 3);
    let c = command_bytes(v);
    if c == seq![0x33u8, 0x33, 0x33] {
        assert(c[2] != code(0x33, 0x33, 0x32)[2]);
    }
    if c == seq![0x33u8, 0x35, 0x33] {
        assert(c[1] != code(0x33, 0x33, 0x32)[1]);
        assert(c[1] != code(0x33, 0x33, 0x33)[1]);
    }
    if c == seq![0x33u8, 0x36, 0x36] {
        assert(c[1] != code(0x33, 0x33, 0x32)[1]);
        assert(c[1] != code(0x33, 0x33, 0x33)[1]);
        assert(c[1] != code(0x33, 0x35, 0x33)[1]);
    }
    if c == seq![0x34u8, 0x37, 0x35] {
        assert(c.len() != cmd_join().len());
    }
}

/// The topic a join reports is parameter 2 of the `332` for the channel:
/// after a `332` naming the channel in parameter 1, the `366` that ends the
/// join reports that text as the topic, once who set it is known.
pub proof fn lemma_join_topic_is_332_text(b: JoinBundlerView, topic_line: IrcMsgView, end_line: IrcMsgView, e: IrcEvent)
    requires
        b.state == JoinBundlerState::Joining,
        b.topic_meta is Some,
        command_bytes(topic_line) == seq![0x33u8, 0x33, 0x32],
        irc_eq(arg_bytes(topic_line, 1), b.channel),
        command_bytes(end_line) == seq![0x33u8, 0x36, 0x36],
        irc_eq(arg_bytes(end_line, 1), b.channel),
        join_event_fits(JoinBundler::after(b, topic_line), end_line, e),
    ensures
        e matches IrcEvent::JoinBundle(Ok(s)) && s.channel@ == b.channel && (s.topic matches Some(t)
            && t.text@ == arg_bytes(topic_line, 2)),
{
    lemma_join_bundler_lines(b, topic_line);
    let c = command_bytes(end_line);
    assert(c[1] != code(0x33, 0x33, 0x32)[1]);
    assert(c[1] != code(0x33, 0x33, 0x33)[1]);
    assert(c[1] != code(0x33, 0x35, 0x33)[1]);
}

} // verus!
