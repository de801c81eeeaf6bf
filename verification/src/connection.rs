//! A connection to a server that does no I/O of its own: lines read from the
//! server are pushed in, lines to write are popped out, and `dispatch`
//! decides in between.

use vstd::prelude::*;
use vstd::string::*;
use vstd::utf8::*;
use std::collections::VecDeque;
use crate::parse::parse::{IrcMsg, ParseError, spec_new_msg, command_bytes, arg_bytes};
use crate::parse::model::{IrcMsgView, parse_faults};
use crate::parse::compose::{msg_builds, line_builds, vec_from_array, buildable, build_line, words_line, lemma_build_parses, lemma_ascii_utf8, is_word, is_trailing, is_command_word, is_ascii_bytes};
use crate::message_types::server::{IncomingMsg, IncomingKind, spec_incoming_kind, incoming_faults, bang_nick};
use crate::message_types::client::{self, pong_line, nick_line, user_line, join_line, who_line};
use crate::message_types::commands::{cmd_user, pong_bytes};
use crate::message_types::util::incoming_would_fault;
use crate::watchers::base::{BundlerManager, ManagerView, AnyBundler, AnyBundlerView, AnyTrigger, AnyTriggerView, EventView, WatchState, manager_accepts, manager_emits, manager_after, event_views, event_view};
use crate::watchers::who::{WhoEventWatcher, WhoBundlerTrigger};
use crate::watchers::join::JoinBundlerTrigger;
use crate::core_plugins::ctcp_version::{CtcpVersionResponder, version_replies, reply_faults, version_text};
use crate::core_plugins::traits::MessageResponder;
use crate::event::IrcEvent;
use crate::text::{bytes_equal, str_bytes, string_bytes, str_to_string, string_from_utf8_lossy, utf8_lossy, push_bytes, as_text};

verus! {

/// Work queued for the next `dispatch`.
#[derive(Debug)]
pub enum IrcConnectionCommand {
    /// A line to write as it is.
    RawWrite(Vec<u8>),
    /// A watcher to attach.
    AddWatcher(WhoEventWatcher),
    /// A bundler to attach.
    AddBundler(AnyBundler),
}

/// A queued command, by its contents.
pub enum CommandView {
    RawWrite(Seq<u8>),
    AddWatcher(WatchState),
    AddBundler(AnyBundlerView),
}

pub open spec fn command_view(c: IrcConnectionCommand) -> CommandView {
    match c {
        IrcConnectionCommand::RawWrite(v) => CommandView::RawWrite(v@),
        IrcConnectionCommand::AddWatcher(w) => CommandView::AddWatcher(w.spec_state()),
        IrcConnectionCommand::AddBundler(b) => CommandView::AddBundler(b@),
    }
}

impl IrcConnectionCommand {
    /// A line to write as it is.
    pub fn raw_write(message: Vec<u8>) -> (r: IrcConnectionCommand)
        ensures
            command_view(r) == CommandView::RawWrite(message@),
    {
        IrcConnectionCommand::RawWrite(message)
    }
}

/// A connection, by its queues and its state.
pub struct ConnView {
    /// Lines read from the server, not dispatched yet.
    pub incoming: Seq<Seq<u8>>,
    /// Lines to write to the server, without their line ends.
    pub outgoing: Seq<Seq<u8>>,
    /// Events not popped yet.
    pub events: Seq<EventView>,
    /// Commands not run yet.
    pub commands: Seq<CommandView>,
    /// The version that each responder answers with.
    pub versions: Seq<Seq<char>>,
    /// The watchers, bundlers and triggers.
    pub manager: ManagerView,
    /// The nick the client holds, once the server has said so.
    pub current_nick: Option<Seq<char>>,
}

/// The connection after one command.
pub open spec fn command_applied(c: ConnView, cmd: CommandView) -> ConnView {
    match cmd {
        CommandView::RawWrite(v) => ConnView { outgoing: c.outgoing.push(v), ..c },
        CommandView::AddWatcher(w) => ConnView {
            manager: ManagerView { watchers: c.manager.watchers.push(w), ..c.manager },
            ..c
        },
        CommandView::AddBundler(b) => ConnView {
            manager: ManagerView { bundlers: c.manager.bundlers.push(b), ..c.manager },
            ..c
        },
    }
}

/// The connection after some commands, in order.
pub open spec fn commands_applied(c: ConnView, cmds: Seq<CommandView>) -> ConnView
    decreases cmds.len(),
{
    if cmds.len() == 0 {
        c
    } else {
        command_applied(commands_applied(c, cmds.drop_last()), cmds.last())
    }
}

/// "001"
pub open spec fn welcome_code() -> Seq<u8> {
    seq![0x30u8, 0x30, 0x31]
}

/// The nick held after a line: the first parameter of a `001` welcome.
pub open spec fn welcome_nick(current: Option<Seq<char>>, m: IrcMsgView) -> Option<Seq<char>> {
    if command_bytes(m) == welcome_code() {
        Some(utf8_lossy(arg_bytes(m, 0)))
    } else {
        current
    }
}

/// The nick held after a `NICK` by the holder of the current nick.
pub open spec fn renamed_nick(current: Option<Seq<char>>, m: IrcMsgView) -> Option<Seq<char>> {
    match current {
        Some(n) => if spec_incoming_kind(m) == IncomingKind::Nick && encode_utf8(n) == bang_nick(m) {
            Some(decode_utf8(arg_bytes(m, 0)))
        } else {
            current
        },
        None => current,
    }
}

/// The answer to a `PING` that names a single server.
pub open spec fn ping_reply(m: IrcMsgView) -> Seq<Seq<u8>> {
    if spec_incoming_kind(m) == IncomingKind::Ping && m.args.len() == 1 {
        seq![spec_new_msg(pong_line(arg_bytes(m, 0)))->Ok_0.data]
    } else {
        Seq::empty()
    }
}

/// The answers of the responders to a line, in their order.
pub open spec fn responder_replies(versions: Seq<Seq<char>>, m: IrcMsgView) -> Seq<Seq<u8>>
    decreases versions.len(),
{
    if versions.len() == 0 {
        Seq::empty()
    } else {
        responder_replies(versions.drop_last(), m) + version_replies(m, versions.last()).map_values(
            |x: IrcMsgView| x.data,
        )
    }
}

/// The connection after one line from the server.
pub open spec fn line_applied(c: ConnView, line: Seq<u8>) -> ConnView {
    let m = spec_new_msg(line)->Ok_0;
    ConnView {
        outgoing: c.outgoing + ping_reply(m) + responder_replies(c.versions, m),
        events: c.events + manager_emits(c.manager, m),
        manager: manager_after(c.manager, m),
        current_nick: renamed_nick(welcome_nick(c.current_nick, m), m),
        ..c
    }
}

/// Dispatching the line faults: it does not parse, the typed reading faults,
/// the answer to a `PING` does not parse back, a bundler cannot take it, or
/// a responder cannot answer it.
pub open spec fn line_faults(c: ConnView, line: Seq<u8>) -> bool {
    ||| line.len() >= u32::MAX
    ||| parse_faults(line)
    ||| spec_new_msg(line) is Err
    ||| ({
        let m = spec_new_msg(line)->Ok_0;
        ||| incoming_faults(m)
        ||| (command_bytes(m) == welcome_code() && m.args.len() == 0)
        ||| (spec_incoming_kind(m) == IncomingKind::Ping && m.args.len() == 1 && !msg_builds(
            pong_line(arg_bytes(m, 0)),
        ))
        ||| !manager_accepts(c.manager, m)
        ||| exists|i: int| 0 <= i < c.versions.len() && reply_faults(m, #[trigger] c.versions[i])
    })
}

/// The connection after some lines, in order.
pub open spec fn lines_applied(c: ConnView, lines: Seq<Seq<u8>>) -> ConnView
    decreases lines.len(),
{
    if lines.len() == 0 {
        c
    } else {
        line_applied(lines_applied(c, lines.drop_last()), lines.last())
    }
}

/// No line of `lines` faults, each in the state the ones before it left.
pub open spec fn lines_ok(c: ConnView, lines: Seq<Seq<u8>>) -> bool
    decreases lines.len(),
{
    lines.len() == 0 || (lines_ok(c, lines.drop_last()) && !line_faults(
        lines_applied(c, lines.drop_last()),
        lines.last(),
    ))
}

/// The connection once its commands have run, with its lines still queued.
pub open spec fn commands_done(c: ConnView) -> ConnView {
    commands_applied(ConnView { commands: Seq::empty(), ..c }, c.commands)
}

/// The connection after `dispatch`: the commands run first, then the lines.
pub open spec fn after_dispatch(c: ConnView) -> ConnView {
    lines_applied(ConnView { incoming: Seq::empty(), ..commands_done(c) }, c.incoming)
}

/// `dispatch` faults on one of the queued lines.
pub open spec fn dispatch_faults(c: ConnView) -> bool {
    !lines_ok(ConnView { incoming: Seq::empty(), ..commands_done(c) }, c.incoming)
}

/// "\r\n"
pub open spec fn crlf() -> Seq<u8> {
    seq![0x0du8, 0x0a]
}

/// The realname sent on registration: `http://github.com/infinityb/rust-irc`.
pub open spec fn realname_bytes() -> Seq<u8> {
    seq![
        0x68u8, 0x74, 0x74, 0x70, 0x3a, 0x2f, 0x2f, 0x67, 0x69, 0x74, 0x68, 0x75, 0x62, 0x2e,
        0x63, 0x6f, 0x6d, 0x2f, 0x69, 0x6e, 0x66, 0x69, 0x6e, 0x69, 0x74, 0x79, 0x62, 0x2f,
        0x72, 0x75, 0x73, 0x74, 0x2d, 0x69, 0x72, 0x63,
    ]
}

/// The user name sent on registration: `rustirc`.
pub open spec fn register_user_name() -> Seq<u8> {
    seq![0x72u8, 0x75, 0x73, 0x74, 0x69, 0x72, 0x63]
}

/// The `USER` line sent on registration.
pub open spec fn register_user_line() -> Seq<u8> {
    user_line(register_user_name(), seq![0x30u8], seq![0x2au8], realname_bytes())
}

/// A connection that does no I/O of its own.
#[derive(Debug)]
pub struct IrcConnectionBuf {
    /// Lines coming from the server
    incoming_lines: VecDeque<Vec<u8>>,
    /// Lines going out to the server
    outgoing_msgs: VecDeque<Vec<u8>>,
    /// outgoing event queue
    event_queue: VecDeque<IrcEvent>,
    /// Internal command queue
    command_queue: VecDeque<IrcConnectionCommand>,
    /// Automatic responders e.g. the CTCP handler
    responders: Vec<CtcpVersionResponder>,
    /// manages active bundlers and emits events when they finish
    bundler_man: BundlerManager,
    /// Current nickname held by the client
    current_nick: Option<String>,
}

impl View for IrcConnectionBuf {
    type V = ConnView;

    closed spec fn view(&self) -> ConnView {
        ConnView {
            incoming: self.incoming_lines@.map_values(|v: Vec<u8>| v@),
            outgoing: self.outgoing_msgs@.map_values(|v: Vec<u8>| v@),
            events: event_views(self.event_queue@),
            commands: self.command_queue@.map_values(|c: IrcConnectionCommand| command_view(c)),
            versions: self.responders@.map_values(|r: CtcpVersionResponder| r.version()),
            manager: self.bundler_man@,
            current_nick: match self.current_nick {
                Some(s) => Some(s@),
                None => None,
            },
        }
    }
}

proof fn lemma_map_first<A, B>(q: Seq<A>, f: spec_fn(A) -> B)
    requires
        q.len() > 0,
    ensures
        q.map_values(f)[0] == f(q[0]),
        q.subrange(1, q.len() as int).map_values(f) == q.map_values(f).drop_first(),
{
    assert(q.subrange(1, q.len() as int).map_values(f) =~= q.map_values(f).drop_first());
}

proof fn lemma_map_push<A, B>(q: Seq<A>, x: A, f: spec_fn(A) -> B)
    ensures
        q.push(x).map_values(f) == q.map_values(f).push(f(x)),
{
    assert(q.push(x).map_values(f) =~= q.map_values(f).push(f(x)));
}

/// Commands leave the queues of lines and commands and the responders alone.
proof fn lemma_commands_keep(c: ConnView, cmds: Seq<CommandView>)
    ensures
        commands_applied(c, cmds).commands == c.commands,
        commands_applied(c, cmds).incoming == c.incoming,
        commands_applied(c, cmds).versions == c.versions,
    decreases cmds.len(),
{
    if cmds.len() > 0 {
        lemma_commands_keep(c, cmds.drop_last());
    }
}

/// Lines leave the queues of lines and commands and the responders alone.
proof fn lemma_lines_keep(c: ConnView, lines: Seq<Seq<u8>>)
    ensures
        lines_applied(c, lines).commands == c.commands,
        lines_applied(c, lines).incoming == c.incoming,
        lines_applied(c, lines).versions == c.versions,
    decreases lines.len(),
{
    if lines.len() > 0 {
        lemma_lines_keep(c, lines.drop_last());
    }
}

proof fn lemma_command_step(c: ConnView, cmds: Seq<CommandView>, k: int)
    requires
        0 <= k < cmds.len(),
    ensures
        commands_applied(c, cmds.take(k + 1)) == command_applied(commands_applied(c, cmds.take(k)), cmds[k]),
{
    assert(cmds.take(k + 1).drop_last() =~= cmds.take(k));
}

proof fn lemma_line_step(c: ConnView, lines: Seq<Seq<u8>>, k: int)
    requires
        0 <= k < lines.len(),
    ensures
        lines_applied(c, lines.take(k + 1)) == line_applied(lines_applied(c, lines.take(k)), lines[k]),
        lines_ok(c, lines.take(k + 1)) == (lines_ok(c, lines.take(k)) && !line_faults(
            lines_applied(c, lines.take(k)),
            lines[k],
        )),
{
    assert(lines.take(k + 1).drop_last() =~= lines.take(k));
}

/// A prefix of lines that do not fault does not fault.
proof fn lemma_lines_ok_prefix(c: ConnView, lines: Seq<Seq<u8>>, k: int)
    requires
        0 <= k <= lines.len(),
        lines_ok(c, lines),
    ensures
        lines_ok(c, lines.take(k)),
    decreases lines.len() - k,
{
    if k < lines.len() {
        lemma_lines_ok_prefix(c, lines, k + 1);
        lemma_line_step(c, lines, k);
    } else {
        assert(lines.take(k) =~= lines);
    }
}

/// The registration `USER` line parses back.
proof fn lemma_register_user_builds()
    ensures
        msg_builds(register_user_line()),
{
    let realname = realname_bytes();
    let name = register_user_name();
    let words = seq![name, seq![0x30u8], seq![0x2au8]];
    let one = seq![name];
    let two = seq![name, seq![0x30u8]];
    assert(one.drop_last() =~= Seq::<Seq<u8>>::empty());
    assert(words_line(Seq::<Seq<u8>>::empty()) =~= Seq::<u8>::empty());
    assert(one.last() == name);
    assert(words_line(one) =~= seq![0x20u8] + name);
    assert(two.drop_last() =~= one);
    assert(words_line(two) =~= seq![0x20u8] + name + seq![0x20u8, 0x30]);
    assert(words.drop_last() =~= two);
    assert(words_line(words) =~= seq![0x20u8] + name + seq![0x20u8, 0x30, 0x20, 0x2a]);
    assert(build_line(cmd_user(), words, Some(realname)) =~= register_user_line());
    assert(is_word(words[0]));
    assert(is_word(words[1]));
    assert(is_word(words[2]));
    assert(is_trailing(realname));
    assert(is_command_word(cmd_user()));
    lemma_build_parses(cmd_user(), words, Some(realname));
}

impl IrcConnectionBuf {
    /// A connection with nothing queued, the CTCP `VERSION` responder, and
    /// the `JOIN` and `WHO` triggers.
    pub fn new() -> (r: IrcConnectionBuf)
        ensures
            r@.incoming == Seq::<Seq<u8>>::empty(),
            r@.outgoing == Seq::<Seq<u8>>::empty(),
            r@.events == Seq::<EventView>::empty(),
            r@.commands == Seq::<CommandView>::empty(),
            r@.versions == seq![version_text()],
            r@.manager.watchers == Seq::<WatchState>::empty(),
            r@.manager.bundlers == Seq::<AnyBundlerView>::empty(),
            r@.manager.triggers == seq![AnyTriggerView::Join(Seq::<u8>::empty()), AnyTriggerView::Who(false)],
            r@.current_nick is None,
    {
        let mut out = IrcConnectionBuf {
            incoming_lines: VecDeque::new(),
            outgoing_msgs: VecDeque::new(),
            event_queue: VecDeque::new(),
            command_queue: VecDeque::new(),
            responders: Vec::new(),
            bundler_man: BundlerManager::new(),
            current_nick: None,
        };
        out.responders.push(CtcpVersionResponder::new());
        let no_nick: Vec<u8> = Vec::new();
        out.bundler_man.add_bundler_trigger(AnyTrigger::Join(JoinBundlerTrigger::new(no_nick.as_slice())));
        out.bundler_man.add_bundler_trigger(AnyTrigger::Who(WhoBundlerTrigger::new()));
        proof {
            assert(out@.incoming =~= Seq::<Seq<u8>>::empty());
            assert(out@.outgoing =~= Seq::<Seq<u8>>::empty());
            assert(out@.events =~= Seq::<EventView>::empty());
            assert(out@.commands =~= Seq::<CommandView>::empty());
            assert(out@.versions =~= seq![version_text()]);
            assert(out@.manager.triggers =~= seq![AnyTriggerView::Join(Seq::<u8>::empty()), AnyTriggerView::Who(false)]);
        }
        out
    }

    /// Queues a line read from the server.
    pub fn push_line(&mut self, msg: Vec<u8>)
        ensures
            final(self)@ == (ConnView { incoming: old(self)@.incoming.push(msg@), ..old(self)@ }),
    {
        let ghost before = self.incoming_lines@;
        self.incoming_lines.push_back(msg);
        proof {
            assert(self.incoming_lines@.map_values(|v: Vec<u8>| v@) =~= before.map_values(|v: Vec<u8>| v@).push(msg@));
        }
    }

    /// The next line to write, with its CR LF.
    pub fn pop_line(&mut self) -> (r: Option<Vec<u8>>)
        ensures
            match r {
                Some(line) => old(self)@.outgoing.len() > 0 && line@ == old(self)@.outgoing[0] + crlf()
                    && final(self)@ == (ConnView { outgoing: old(self)@.outgoing.drop_first(), ..old(self)@ }),
                None => old(self)@.outgoing.len() == 0 && final(self)@ == old(self)@,
            },
    {
        let ghost before = self.outgoing_msgs@;
        match self.outgoing_msgs.pop_front() {
            Some(outgoing_line) => {
                let mut outgoing_line = outgoing_line;
                outgoing_line.push(0x0d);
                outgoing_line.push(0x0a);
                proof {
                    assert(self.outgoing_msgs@.map_values(|v: Vec<u8>| v@) =~= before.map_values(|v: Vec<u8>| v@).drop_first());
                    assert(outgoing_line@ =~= before[0]@ + crlf());
                }
                Some(outgoing_line)
            },
            None => None,
        }
    }

    fn add_watcher(&mut self, watcher: WhoEventWatcher)
        ensures
            final(self)@ == (ConnView {
                manager: ManagerView { watchers: old(self)@.manager.watchers.push(watcher.spec_state()), ..old(self)@.manager },
                ..old(self)@
            }),
    {
        self.bundler_man.add_watcher(watcher);
    }

    fn add_bundler(&mut self, bundler: AnyBundler)
        ensures
            final(self)@ == (ConnView {
                manager: ManagerView { bundlers: old(self)@.manager.bundlers.push(bundler@), ..old(self)@.manager },
                ..old(self)@
            }),
    {
        self.bundler_man.add_bundler(bundler);
    }

    /// Runs the queued commands, then dispatches the queued lines: answers a
    /// `PING`, follows the client's nick, feeds the bundlers and queues their
    /// events, and queues the responders' answers.
    pub fn dispatch(&mut self)
        requires
            !dispatch_faults(old(self)@),
        ensures
            final(self)@ == after_dispatch(old(self)@),
    {
        proof {
            lemma_commands_keep(ConnView { commands: Seq::empty(), ..old(self)@ }, old(self)@.commands);
        }
        self.run_commands();
        self.run_lines();
    }

    /// Runs the queued commands, in order.
    fn run_commands(&mut self)
        ensures
            final(self)@ == commands_done(old(self)@),
    {
        let ghost c0 = self@;
        let ghost cmds = c0.commands;
        let ghost base = ConnView { commands: Seq::empty(), ..c0 };
        let ghost k: int = 0;
        proof {
            assert(cmds.take(0) =~= Seq::<CommandView>::empty());
            assert(cmds.skip(0) =~= cmds);
            lemma_commands_keep(base, cmds.take(0));
        }
        while self.command_queue.len() > 0
            invariant
                0 <= k <= cmds.len(),
                cmds == c0.commands,
                base == (ConnView { commands: Seq::empty(), ..c0 }),
                self.command_queue@.len() == cmds.len() - k,
                self@ == (ConnView { commands: cmds.skip(k), ..commands_applied(base, cmds.take(k)) }),
            decreases self.command_queue@.len(),
        {
            let ghost q = self.command_queue@;
            let ghost ck = commands_applied(base, cmds.take(k));
            let command = self.command_queue.pop_front().unwrap();
            proof {
                lemma_map_first(q, |c: IrcConnectionCommand| command_view(c));
                assert(cmds.skip(k)[0] == cmds[k]);
                assert(cmds.skip(k).drop_first() =~= cmds.skip(k + 1));
                lemma_command_step(base, cmds, k);
                lemma_commands_keep(base, cmds.take(k));
                lemma_commands_keep(base, cmds.take(k + 1));
            }
            match command {
                IrcConnectionCommand::RawWrite(value) => {
                    let ghost before = self.outgoing_msgs@;
                    self.outgoing_msgs.push_back(value);
                    proof {
                        lemma_map_push(before, value, |v: Vec<u8>| v@);
                    }
                },
                IrcConnectionCommand::AddWatcher(value) => self.add_watcher(value),
                IrcConnectionCommand::AddBundler(value) => self.add_bundler(value),
            }
            proof {
                k = k + 1;
            }
        }
        proof {
            assert(cmds.take(k) =~= cmds);
            lemma_commands_keep(base, cmds);
            assert(cmds.skip(k) =~= Seq::<CommandView>::empty());
        }
    }

    /// Dispatches the queued lines, in order.
    #[verifier::rlimit(40)]
    fn run_lines(&mut self)
        requires
            lines_ok(ConnView { incoming: Seq::empty(), ..old(self)@ }, old(self)@.incoming),
        ensures
            final(self)@ == lines_applied(ConnView { incoming: Seq::empty(), ..old(self)@ }, old(self)@.incoming),
    {
        let ghost c0 = self@;
        let ghost lines = c0.incoming;
        let ghost start = ConnView { incoming: Seq::empty(), ..c0 };
        let ghost j: int = 0;
        proof {
            assert(lines.take(0) =~= Seq::<Seq<u8>>::empty());
            assert(lines.skip(0) =~= lines);
        }
        while self.incoming_lines.len() > 0
            invariant
                0 <= j <= lines.len(),
                lines == c0.incoming,
                start == (ConnView { incoming: Seq::empty(), ..c0 }),
                lines_ok(start, lines),
                self.incoming_lines@.len() == lines.len() - j,
                self@ == (ConnView { incoming: lines.skip(j), ..lines_applied(start, lines.take(j)) }),
            decreases self.incoming_lines@.len(),
        {
            let ghost q = self.incoming_lines@;
            let ghost cj = lines_applied(start, lines.take(j));
            proof {
                lemma_lines_ok_prefix(start, lines, j + 1);
                lemma_line_step(start, lines, j);
                lemma_lines_keep(start, lines.take(j));
                lemma_lines_keep(start, lines.take(j + 1));
            }
            let incoming = self.incoming_lines.pop_front().unwrap();
            proof {
                lemma_map_first(q, |v: Vec<u8>| v@);
                assert(lines.skip(j)[0] == lines[j]);
                assert(lines.skip(j).drop_first() =~= lines.skip(j + 1));
                assert(self@ == (ConnView { incoming: lines.skip(j + 1), ..cj }));
            }
            self.dispatch_line(incoming);
            proof {
                j = j + 1;
            }
        }
        proof {
            assert(lines.take(j) =~= lines);
            lemma_lines_keep(start, lines);
            assert(lines.skip(j) =~= Seq::<Seq<u8>>::empty());
        }
    }

    /// Dispatches one line.
    fn dispatch_line(&mut self, incoming: Vec<u8>)
        requires
            !line_faults(old(self)@, incoming@),
        ensures
            final(self)@ == line_applied(old(self)@, incoming@),
    {
        let ghost c = self@;
        let msg = match IrcMsg::new(incoming) {
            Ok(msg) => msg,
            Err(_) => {
                return;
            },
        };
        let ghost m = msg@;
        if bytes_equal(msg.command_as_bytes(), vec_from_array([0x30u8, 0x30, 0x31]).as_slice()) {
            self.current_nick = Some(string_from_utf8_lossy(msg.index(0)));
        }
        let ghost nick1 = welcome_nick(c.current_nick, m);
        let tymsg = IncomingMsg::from_msg(msg);
        let ghost out0 = self.outgoing_msgs@;
        let mut pinged = false;
        if let IncomingMsg::Ping(ping) = &tymsg {
            if let Ok(response) = ping.get_response() {
                self.outgoing_msgs.push_back(response.into_bytes());
                pinged = true;
            }
        }
        proof {
            if pinged {
                lemma_map_push(out0, self.outgoing_msgs@.last(), |v: Vec<u8>| v@);
                assert(self.outgoing_msgs@ == out0.push(self.outgoing_msgs@.last()));
                assert(ping_reply(m) == seq![spec_new_msg(pong_line(arg_bytes(m, 0)))->Ok_0.data]);
            } else {
                assert(ping_reply(m) =~= Seq::<Seq<u8>>::empty());
                assert(c.outgoing + ping_reply(m) =~= c.outgoing);
            }
        }
        let ghost nick_before = self.current_nick;
        if let IncomingMsg::Nick(nick) = &tymsg {
            if let Some(current_nick) = &self.current_nick {
                if bytes_equal(string_bytes(current_nick), str_bytes(nick.get_nick())) {
                    let new_nick = nick.get_new_nick();
                    self.current_nick = Some(str_to_string(new_nick));
                    proof {
                        encode_utf8_decode_utf8(new_nick@);
                    }
                }
            }
        }
        proof {
            assert(self@.current_nick == renamed_nick(nick1, m));
            assert(self@.outgoing == c.outgoing + ping_reply(m));
        }
        let msg = tymsg.into_irc_msg();
        let events = self.bundler_man.on_irc_msg(&msg);
        self.queue_events(events);
        self.run_responders(&msg);
    }

    /// Queues events, in order.
    fn queue_events(&mut self, events: Vec<IrcEvent>)
        ensures
            final(self)@ == (ConnView { events: old(self)@.events + event_views(events@), ..old(self)@ }),
    {
        let ghost c = self@;
        let ghost all = events@;
        let mut rest = events;
        let ghost k: int = 0;
        while rest.len() > 0
            invariant
                0 <= k <= all.len(),
                rest@ == all.skip(k),
                self@ == (ConnView { events: c.events + event_views(all.take(k)), ..c }),
            decreases rest@.len(),
        {
            let ghost q = self.event_queue@;
            let event = rest.remove(0);
            self.event_queue.push_back(event);
            proof {
                assert(event == all[k]);
                assert(rest@ =~= all.skip(k + 1));
                assert(event_views(all.take(k + 1)) =~= event_views(all.take(k)).push(event_view(&all[k])));
                assert(event_views(self.event_queue@) =~= event_views(q).push(event_view(&event)));
                k = k + 1;
            }
        }
        proof {
            assert(all.take(k) =~= all);
        }
    }

    /// Lets every responder answer the message, and queues the answers.
    fn run_responders(&mut self, msg: &IrcMsg)
        requires
            forall|i: int| 0 <= i < old(self)@.versions.len() ==> !reply_faults(msg@, #[trigger] old(self)@.versions[i]),
        ensures
            final(self)@ == (ConnView {
                outgoing: old(self)@.outgoing + responder_replies(old(self)@.versions, msg@),
                ..old(self)@
            }),
    {
        let ghost c = self@;
        let ghost vs = c.versions;
        let mut i: usize = 0;
        while i < self.responders.len()
            invariant
                0 <= i <= vs.len(),
                vs == c.versions,
                forall|k: int| 0 <= k < vs.len() ==> !reply_faults(msg@, #[trigger] vs[k]),
                self@ == (ConnView { outgoing: c.outgoing + responder_replies(vs.take(i as int), msg@), ..c }),
            decreases vs.len() - i,
        {
            let ghost rs = self.responders@;
            let ghost out0 = self@.outgoing;
            proof {
                assert(rs.map_values(|r: CtcpVersionResponder| r.version())[i as int] == rs[i as int].version());
            }
            let ghost v_i = vs[i as int];
            let mut replies = self.responders[i].on_irc_msg(msg);
            proof {
                assert(replies@.map_values(|x: IrcMsg| x@) == version_replies(msg@, v_i));
                assert(self.responders@.map_values(|r: CtcpVersionResponder| r.version()) =~= rs.map_values(|r: CtcpVersionResponder| r.version()));
                assert(vs.take(i + 1).drop_last() =~= vs.take(i as int));
                assert(vs.take(i + 1).last() == v_i);
                assert(self@ == (ConnView { outgoing: out0, ..c }));
            }
            let ghost all = replies@;
            let ghost k: int = 0;
            proof {
                assert(all.take(0).map_values(|x: IrcMsg| x@.data) =~= Seq::<Seq<u8>>::empty());
                assert(out0 + Seq::<Seq<u8>>::empty() =~= out0);
                assert(all.skip(0) =~= all);
            }
            while replies.len() > 0
                invariant
                    0 <= k <= all.len(),
                    replies@ == all.skip(k),
                    self@ == (ConnView {
                        outgoing: out0 + all.take(k).map_values(|x: IrcMsg| x@.data),
                        ..c
                    }),
                decreases replies@.len(),
            {
                let ghost q = self.outgoing_msgs@;
                let reply = replies.remove(0);
                let ghost rv = reply@;
                self.outgoing_msgs.push_back(reply.into_bytes());
                proof {
                    assert(rv == all[k]@);
                    assert(replies@ =~= all.skip(k + 1));
                    assert(all.take(k + 1).map_values(|x: IrcMsg| x@.data) =~= all.take(k).map_values(|x: IrcMsg| x@.data).push(rv.data));
                    assert(self.outgoing_msgs@.map_values(|v: Vec<u8>| v@) =~= q.map_values(|v: Vec<u8>| v@).push(rv.data));
                    assert(out0 + all.take(k + 1).map_values(|x: IrcMsg| x@.data) =~= (out0 + all.take(k).map_values(|x: IrcMsg| x@.data)).push(rv.data));
                    k = k + 1;
                }
            }
            proof {
                assert(all.take(k) =~= all);
                assert(all.map_values(|x: IrcMsg| x@.data) =~= all.map_values(|x: IrcMsg| x@).map_values(|x: IrcMsgView| x.data));
                assert(out0 + all.map_values(|x: IrcMsg| x@.data) =~= c.outgoing + responder_replies(vs.take(i + 1), msg@));
            }
            i = i + 1;
        }
        proof {
            assert(vs.take(i as int) =~= vs);
        }
    }

    /// The next event.
    pub fn pop_event(&mut self) -> (r: Option<IrcEvent>)
        ensures
            match r {
                Some(e) => old(self)@.events.len() > 0 && event_view(&e) == old(self)@.events[0]
                    && final(self)@ == (ConnView { events: old(self)@.events.drop_first(), ..old(self)@ }),
                None => old(self)@.events.len() == 0 && final(self)@ == old(self)@,
            },
    {
        let ghost q = self.event_queue@;
        let r = self.event_queue.pop_front();
        proof {
            if r is Some {
                assert(event_views(self.event_queue@) =~= event_views(q).drop_first());
            }
        }
        r
    }

    /// Sends `NICK nick` and the `USER` line.
    pub fn register(&mut self, nick: &str)
        requires
            msg_builds(nick_line(nick.spec_bytes())),
        ensures
            final(self)@ == (ConnView {
                outgoing: old(self)@.outgoing.push(spec_new_msg(nick_line(nick.spec_bytes()))->Ok_0.data).push(
                    spec_new_msg(register_user_line())->Ok_0.data,
                ),
                ..old(self)@
            }),
    {
        let ghost q = self.outgoing_msgs@;
        self.outgoing_msgs.push_back(client::Nick::new(nick).into_irc_msg().into_bytes());
        let user_name = vec_from_array([0x72u8, 0x75, 0x73, 0x74, 0x69, 0x72, 0x63]);
        let mode = vec_from_array([0x30u8]);
        let unused = vec_from_array([0x2au8]);
        let realname = vec_from_array([
            0x68u8, 0x74, 0x74, 0x70, 0x3a, 0x2f, 0x2f, 0x67, 0x69, 0x74, 0x68, 0x75, 0x62, 0x2e,
            0x63, 0x6f, 0x6d, 0x2f, 0x69, 0x6e, 0x66, 0x69, 0x6e, 0x69, 0x74, 0x79, 0x62, 0x2f,
            0x72, 0x75, 0x73, 0x74, 0x2d, 0x69, 0x72, 0x63,
        ]);
        proof {
            lemma_register_user_builds();
            lemma_ascii_utf8(user_name@);
            lemma_ascii_utf8(mode@);
            lemma_ascii_utf8(unused@);
            lemma_ascii_utf8(realname@);
            assert(realname@ =~= realname_bytes());
            assert(user_name@ =~= register_user_name());
        }
        let user = client::User::new(
            as_text(user_name.as_slice()),
            as_text(mode.as_slice()),
            as_text(unused.as_slice()),
            as_text(realname.as_slice()),
        );
        self.outgoing_msgs.push_back(user.into_irc_msg().into_bytes());
        proof {
            assert(self.outgoing_msgs@.map_values(|v: Vec<u8>| v@) =~= q.map_values(|v: Vec<u8>| v@).push(spec_new_msg(nick_line(nick.spec_bytes()))->Ok_0.data).push(
                spec_new_msg(register_user_line())->Ok_0.data,
            ));
        }
    }

    /// Sends `JOIN channel`.
    pub fn join(&mut self, channel: &str)
        requires
            msg_builds(join_line(channel.spec_bytes())),
        ensures
            final(self)@ == (ConnView {
                outgoing: old(self)@.outgoing.push(spec_new_msg(join_line(channel.spec_bytes()))->Ok_0.data),
                ..old(self)@
            }),
    {
        let ghost q = self.outgoing_msgs@;
        self.outgoing_msgs.push_back(client::Join::new(channel).into_irc_msg().into_bytes());
        proof {
            assert(self.outgoing_msgs@.map_values(|v: Vec<u8>| v@) =~= q.map_values(|v: Vec<u8>| v@).push(spec_new_msg(join_line(channel.spec_bytes()))->Ok_0.data));
        }
    }

    /// Queues a watcher for the `WHO` result of `target` and sends
    /// `WHO target`.
    pub fn who(&mut self, target: &str)
        requires
            msg_builds(who_line(target.spec_bytes())),
        ensures
            final(self)@ == (ConnView {
                commands: old(self)@.commands.push(CommandView::AddWatcher((target.spec_bytes(), false, false))),
                outgoing: old(self)@.outgoing.push(spec_new_msg(who_line(target.spec_bytes()))->Ok_0.data),
                ..old(self)@
            }),
    {
        let who_watcher = WhoEventWatcher::new(str_bytes(target));
        let ghost cq = self.command_queue@;
        self.command_queue.push_back(IrcConnectionCommand::AddWatcher(who_watcher));
        let ghost q = self.outgoing_msgs@;
        self.outgoing_msgs.push_back(client::Who::new(target).into_irc_msg().into_bytes());
        proof {
            assert(self.command_queue@.map_values(|c: IrcConnectionCommand| command_view(c)) =~= cq.map_values(|c: IrcConnectionCommand| command_view(c)).push(CommandView::AddWatcher((target.spec_bytes(), false, false))));
            assert(self.outgoing_msgs@.map_values(|v: Vec<u8>| v@) =~= q.map_values(|v: Vec<u8>| v@).push(spec_new_msg(who_line(target.spec_bytes()))->Ok_0.data));
        }
    }
}

/// The dispatch state of a connection that runs on threads, by its parts.
pub struct InternalView {
    pub versions: Seq<Seq<char>>,
    pub manager: ManagerView,
    pub current_nick: Option<Seq<char>>,
}

/// The nick held after a line: the first parameter of the numeric `1`.
pub open spec fn numeric_welcome_nick(current: Option<Seq<char>>, m: IrcMsgView) -> Option<Seq<char>> {
    if spec_incoming_kind(m) == IncomingKind::Numeric(1) {
        Some(utf8_lossy(arg_bytes(m, 0)))
    } else {
        current
    }
}

/// The nick held after a `NICK`: the new nick when the holder of the
/// current nick changed it; none when someone else did.
pub open spec fn taken_nick(current: Option<Seq<char>>, m: IrcMsgView) -> Option<Seq<char>> {
    if spec_incoming_kind(m) == IncomingKind::Nick {
        match current {
            Some(n) => if encode_utf8(n) == bang_nick(m) {
                Some(decode_utf8(arg_bytes(m, 0)))
            } else {
                None
            },
            None => None,
        }
    } else {
        current
    }
}

/// The state after a line.
pub open spec fn internal_after(c: InternalView, m: IrcMsgView) -> InternalView {
    InternalView {
        manager: manager_after(c.manager, m),
        current_nick: taken_nick(numeric_welcome_nick(c.current_nick, m), m),
        ..c
    }
}

/// The lines to write for a line: the answer to a `PING`, then the
/// responders' answers.
pub open spec fn internal_writes(c: InternalView, m: IrcMsgView) -> Seq<Seq<u8>> {
    ping_reply(m) + responder_replies(c.versions, m)
}

/// Dispatching the line faults.
pub open spec fn internal_faults(c: InternalView, m: IrcMsgView) -> bool {
    ||| incoming_faults(m)
    ||| (spec_incoming_kind(m) == IncomingKind::Numeric(1) && m.args.len() == 0)
    ||| (spec_incoming_kind(m) == IncomingKind::Ping && m.args.len() == 1 && !msg_builds(
        pong_line(arg_bytes(m, 0)),
    ))
    ||| !manager_accepts(c.manager, m)
    ||| exists|i: int| 0 <= i < c.versions.len() && reply_faults(m, #[trigger] c.versions[i])
}

/// The decisions of a connection that runs on threads: what to write and
/// which events to hand out for each line read.
#[derive(Debug)]
pub struct IrcConnectionInternalState {
    /// Automatic responders e.g. the CTCP handler
    pub responders: Vec<CtcpVersionResponder>,
    /// manages active bundlers and emits events when they finish
    pub bundler_man: BundlerManager,
    /// Current nickname held by the client
    current_nick: Option<String>,
}

impl View for IrcConnectionInternalState {
    type V = InternalView;

    closed spec fn view(&self) -> InternalView {
        InternalView {
            versions: self.responders@.map_values(|r: CtcpVersionResponder| r.version()),
            manager: self.bundler_man@,
            current_nick: match self.current_nick {
                Some(s) => Some(s@),
                None => None,
            },
        }
    }
}

impl IrcConnectionInternalState {
    /// A state with no responders, no bundlers and no nick.
    pub fn new() -> (r: IrcConnectionInternalState)
        ensures
            r@.versions == Seq::<Seq<char>>::empty(),
            r@.manager.watchers == Seq::<WatchState>::empty(),
            r@.manager.bundlers == Seq::<AnyBundlerView>::empty(),
            r@.manager.triggers == Seq::<AnyTriggerView>::empty(),
            r@.current_nick is None,
    {
        let r = IrcConnectionInternalState {
            responders: Vec::new(),
            bundler_man: BundlerManager::new(),
            current_nick: None,
        };
        proof {
            assert(r@.versions =~= Seq::<Seq<char>>::empty());
        }
        r
    }

    /// Whether dispatching `msg` goes wrong: the line does not read as an
    /// incoming message, a welcome has no parameter, the answer to a `PING`
    /// does not read back, a bundler cannot take the line, or a responder
    /// cannot answer it.  `dispatch` must not be given such a line.
    pub fn would_fault(&self, msg: &IrcMsg) -> (r: bool)
        ensures
            r == internal_faults(self@, msg@),
    {
        if incoming_would_fault(msg) {
            return true;
        }
        let ty_msg = IncomingMsg::from_msg(msg.clone());
        match &ty_msg {
            IncomingMsg::Numeric(1, _) => {
                if msg.len() == 0 {
                    return true;
                }
            },
            IncomingMsg::Ping(_) => {
                if msg.len() == 1 {
                    let mut line = pong_bytes();
                    line.push(0x20);
                    push_bytes(&mut line, msg.index(0));
                    proof {
                        assert(line@ =~= pong_line(arg_bytes(msg@, 0)));
                    }
                    if !line_builds(&line) {
                        return true;
                    }
                }
            },
            _ => {},
        }
        if !self.bundler_man.accepts_line(msg) {
            return true;
        }
        let mut i: usize = 0;
        while i < self.responders.len()
            invariant
                0 <= i <= self.responders.len(),
                self@.versions.len() == self.responders@.len(),
                forall|j: int| 0 <= j < i ==> !reply_faults(msg@, #[trigger] self@.versions[j]),
            decreases self.responders.len() - i,
        {
            proof {
                assert(self@.versions[i as int] == self.responders@[i as int].version());
            }
            if self.responders[i].reply_would_fault(msg) {
                return true;
            }
            i = i + 1;
        }
        false
    }

    /// Reads a line: answers a `PING`, takes the nick from the numeric `1`,
    /// follows the client's nick, feeds the bundlers and lets the responders
    /// answer.  Returns the lines to write and the events to hand out.
    pub fn dispatch(&mut self, msg: IrcMsg) -> (r: (Vec<Vec<u8>>, Vec<IrcEvent>))
        requires
            !internal_faults(old(self)@, msg@),
        ensures
            final(self)@ == internal_after(old(self)@, msg@),
            r.0@.map_values(|v: Vec<u8>| v@) == internal_writes(old(self)@, msg@),
            event_views(r.1@) == manager_emits(old(self)@.manager, msg@),
    {
        let ghost c = self@;
        let ghost m = msg@;
        let mut writes: Vec<Vec<u8>> = Vec::new();
        let tymsg = IncomingMsg::from_msg(msg);
        if let IncomingMsg::Ping(ping) = &tymsg {
            if let Ok(response) = ping.get_response() {
                writes.push(response.into_bytes());
            }
        }
        proof {
            assert(writes@.map_values(|v: Vec<u8>| v@) =~= ping_reply(m));
        }
        if let IncomingMsg::Numeric(1, numeric) = &tymsg {
            let line = numeric.to_irc_msg();
            self.current_nick = Some(string_from_utf8_lossy(line.index(0)));
        }
        let ghost nick1 = numeric_welcome_nick(c.current_nick, m);
        proof {
            assert(self@.current_nick == nick1);
        }
        if let IncomingMsg::Nick(nick) = &tymsg {
            let taken = self.current_nick.take();
            if let Some(current_nick) = taken {
                if bytes_equal(string_bytes(&current_nick), str_bytes(nick.get_nick())) {
                    let new_nick = nick.get_new_nick();
                    self.current_nick = Some(str_to_string(new_nick));
                    proof {
                        encode_utf8_decode_utf8(new_nick@);
                    }
                }
            }
        }
        proof {
            assert(self@.current_nick == taken_nick(nick1, m));
        }
        let outgoing_events = self.bundler_man.on_irc_msg(tymsg.to_irc_msg());
        let mut i: usize = 0;
        let ghost vs = c.versions;
        while i < self.responders.len()
            invariant
                0 <= i <= vs.len(),
                vs == c.versions,
                forall|k: int| 0 <= k < vs.len() ==> !reply_faults(m, #[trigger] vs[k]),
                tymsg@.1 == m,
                self@ == (InternalView { versions: vs, ..self@ }),
                self@.manager == manager_after(c.manager, m),
                self@.current_nick == taken_nick(nick1, m),
                writes@.map_values(|v: Vec<u8>| v@) == ping_reply(m) + responder_replies(vs.take(i as int), m),
            decreases vs.len() - i,
        {
            let ghost rs = self.responders@;
            let ghost w0 = writes@.map_values(|v: Vec<u8>| v@);
            let ghost v_i = vs[i as int];
            proof {
                assert(rs.map_values(|r: CtcpVersionResponder| r.version())[i as int] == rs[i as int].version());
            }
            let mut replies = self.responders[i].on_irc_msg(tymsg.to_irc_msg());
            proof {
                assert(replies@.map_values(|x: IrcMsg| x@) == version_replies(m, v_i));
                assert(self.responders@.map_values(|r: CtcpVersionResponder| r.version()) =~= rs.map_values(|r: CtcpVersionResponder| r.version()));
                assert(vs.take(i + 1).drop_last() =~= vs.take(i as int));
                assert(vs.take(i + 1).last() == v_i);
            }
            let ghost all = replies@;
            let ghost k: int = 0;
            proof {
                assert(w0 + all.take(0).map_values(|x: IrcMsg| x@.data) =~= w0);
                assert(all.skip(0) =~= all);
            }
            while replies.len() > 0
                invariant
                    0 <= k <= all.len(),
                    replies@ == all.skip(k),
                    writes@.map_values(|v: Vec<u8>| v@) == w0 + all.take(k).map_values(|x: IrcMsg| x@.data),
                decreases replies@.len(),
            {
                let ghost q = writes@;
                let reply = replies.remove(0);
                let ghost rv = reply@;
                writes.push(reply.into_bytes());
                proof {
                    assert(rv == all[k]@);
                    assert(replies@ =~= all.skip(k + 1));
                    assert(all.take(k + 1).map_values(|x: IrcMsg| x@.data) =~= all.take(k).map_values(|x: IrcMsg| x@.data).push(rv.data));
                    assert(writes@.map_values(|v: Vec<u8>| v@) =~= q.map_values(|v: Vec<u8>| v@).push(rv.data));
                    assert(w0 + all.take(k + 1).map_values(|x: IrcMsg| x@.data) =~= (w0 + all.take(k).map_values(|x: IrcMsg| x@.data)).push(rv.data));
                    k = k + 1;
                }
            }
            proof {
                assert(all.take(k) =~= all);
                assert(all.map_values(|x: IrcMsg| x@.data) =~= all.map_values(|x: IrcMsg| x@).map_values(|x: IrcMsgView| x.data));
                assert(w0 + all.map_values(|x: IrcMsg| x@.data) =~= ping_reply(m) + responder_replies(vs.take(i + 1), m));
            }
            i = i + 1;
        }
        proof {
            assert(vs.take(i as int) =~= vs);
        }
        (writes, outgoing_events)
    }

    /// Attaches a watcher.
    pub fn add_watcher(&mut self, watcher: WhoEventWatcher)
        ensures
            final(self)@ == (InternalView {
                manager: ManagerView { watchers: old(self)@.manager.watchers.push(watcher.spec_state()), ..old(self)@.manager },
                ..old(self)@
            }),
    {
        self.bundler_man.add_watcher(watcher);
    }

    /// Attaches a bundler.
    pub fn add_bundler(&mut self, bundler: AnyBundler)
        ensures
            final(self)@ == (InternalView {
                manager: ManagerView { bundlers: old(self)@.manager.bundlers.push(bundler@), ..old(self)@.manager },
                ..old(self)@
            }),
    {
        self.bundler_man.add_bundler(bundler);
    }
}

/// A line without its line feed, and without the carriage return before it.
pub open spec fn delined(line: Seq<u8>) -> Seq<u8> {
    if line.len() > 0 && line.last() == 0x0a {
        let rest = line.drop_last();
        if rest.len() > 0 && rest.last() == 0x0d {
            rest.drop_last()
        } else {
            rest
        }
    } else {
        line
    }
}

/// Removes newline characters from a line
pub fn deline(line: Vec<u8>) -> (r: Vec<u8>)
    ensures
        r@ == delined(line@),
{
    let mut line = line;
    if line.len() == 0 || line[line.len() - 1] != 0x0a {
        return line;
    }
    line.pop();
    if line.len() == 0 || line[line.len() - 1] != 0x0d {
        return line;
    }
    line.pop();
    line
}

} // verus!

verus! {

/// A `PING` with one parameter is answered with exactly one line, `PONG`
/// and that parameter, which reads back as a `PONG` of that one parameter.
pub proof fn lemma_ping_is_answered(m: IrcMsgView)
    requires
        spec_incoming_kind(m) == IncomingKind::Ping,
        m.args.len() == 1,
        crate::parse::compose::is_word(arg_bytes(m, 0)),
    ensures
        ping_reply(m) == seq![pong_line(arg_bytes(m, 0))],
        crate::message_types::composed::reads_as(pong_line(arg_bytes(m, 0)), crate::message_types::commands::cmd_pong(), seq![arg_bytes(m, 0)]),
{
    crate::message_types::composed::lemma_pong_line_reads_back(arg_bytes(m, 0));
    let w = seq![arg_bytes(m, 0)];
    assert(words_line(w) =~= seq![0x20u8] + arg_bytes(m, 0)) by {
        assert(w.drop_last() =~= Seq::<Seq<u8>>::empty());
        assert(words_line(Seq::<Seq<u8>>::empty()) =~= Seq::<u8>::empty());
    }
    assert(pong_line(arg_bytes(m, 0)) =~= build_line(crate::message_types::commands::cmd_pong(), w, None));
    lemma_build_parses(crate::message_types::commands::cmd_pong(), w, None);
}

/// A line that is not a `PING` of one parameter gets no `PONG`.
pub proof fn lemma_only_ping_is_answered(m: IrcMsgView)
    requires
        !(spec_incoming_kind(m) == IncomingKind::Ping && m.args.len() == 1),
    ensures
        ping_reply(m) == Seq::<Seq<u8>>::empty(),
{
}

} // verus!
