//! Gathers the replies to a `WHO` query into one result.

use vstd::prelude::*;
use vstd::string::*;
use vstd::utf8::*;
use crate::parse::model::IrcMsgView;
use crate::parse::parse::{IrcMsg, IrcMsgPrefix, command_bytes, arg_bytes, args_of};
use crate::message_types::server::{IncomingMsg, IncomingKind, spec_incoming_kind, incoming_faults, irc_eq};
use crate::irccase::bytes_eq_ignore_irc_case;
use crate::text::{bytes_equal, bytes_to_vec, string_from_utf8_lossy, utf8_lossy, string_bytes, push_bytes, into_text, lemma_concat_utf8, lemma_ascii_byte_utf8, lemma_decode_encode};
use crate::message_types::commands::code_bytes;
use crate::message_types::util::incoming_would_fault;
use crate::event::{IrcEvent, WhoResult};
use crate::watchers::base::{Bundler, BundlerTrigger, EventWatcher, AnyBundler};
use crate::watchers::join::code;

verus! {

/// The users a `WHO` listed for a channel.
#[derive(Debug)]
pub struct WhoSuccess {
    pub channel: Vec<u8>,
    pub who_records: Vec<WhoRecord>,
}

impl Clone for WhoSuccess {
    fn clone(&self) -> (r: WhoSuccess)
        ensures
            r.channel@ == self.channel@,
            r.who_records@.len() == self.who_records@.len(),
            forall|i: int| 0 <= i < r.who_records@.len() ==> (#[trigger] r.who_records@[i])@ == self.who_records@[i]@,
    {
        WhoSuccess { channel: self.channel.clone(), who_records: clone_records(&self.who_records) }
    }
}

/// A `WHO` query that failed.
#[derive(Debug)]
pub struct WhoError {
    pub channel: Vec<u8>,
}

impl Clone for WhoError {
    fn clone(&self) -> (r: WhoError)
        ensures
            r.channel@ == self.channel@,
    {
        WhoError { channel: self.channel.clone() }
    }
}

/// The channel a `WHO` result is about.
pub fn who_result_channel(result: &WhoResult) -> (r: &[u8])
    ensures
        r@ == match result {
            Ok(s) => s.channel@,
            Err(e) => e.channel@,
        },
{
    match result {
        Ok(s) => s.channel.as_slice(),
        Err(e) => e.channel.as_slice(),
    }
}

/// One user listed by a `WHO` reply.
#[derive(Debug)]
pub struct WhoRecord {
    pub hostname: String,
    pub server: String,
    pub username: String,
    pub nick: String,
    pub rest: String,
}

/// The text of a record: host, server, user, nick and the rest.
pub struct WhoRecordView {
    pub hostname: Seq<char>,
    pub server: Seq<char>,
    pub username: Seq<char>,
    pub nick: Seq<char>,
    pub rest: Seq<char>,
}

impl View for WhoRecord {
    type V = WhoRecordView;

    open spec fn view(&self) -> WhoRecordView {
        WhoRecordView {
            hostname: self.hostname@,
            server: self.server@,
            username: self.username@,
            nick: self.nick@,
            rest: self.rest@,
        }
    }
}

impl Clone for WhoRecord {
    fn clone(&self) -> (r: WhoRecord)
        ensures
            r@ == self@,
    {
        WhoRecord {
            hostname: self.hostname.clone(),
            server: self.server.clone(),
            username: self.username.clone(),
            nick: self.nick.clone(),
            rest: self.rest.clone(),
        }
    }
}

fn clone_records(v: &Vec<WhoRecord>) -> (r: Vec<WhoRecord>)
    ensures
        r@.len() == v@.len(),
        forall|i: int| 0 <= i < r@.len() ==> (#[trigger] r@[i])@ == v@[i]@,
{
    let mut out: Vec<WhoRecord> = Vec::new();
    let mut i: usize = 0;
    while i < v.len()
        invariant
            0 <= i <= v.len(),
            out@.len() == i,
            forall|j: int| 0 <= j < i ==> (#[trigger] out@[j])@ == v@[j]@,
        decreases v.len() - i,
    {
        out.push(v[i].clone());
        i = i + 1;
    }
    out
}

/// The record a `352` reply with eight parameters gives.
pub open spec fn record_of(args: Seq<Seq<u8>>) -> WhoRecordView {
    WhoRecordView {
        hostname: utf8_lossy(args[3]),
        server: utf8_lossy(args[4]),
        username: utf8_lossy(args[2]),
        nick: utf8_lossy(args[5]),
        rest: utf8_lossy(args[7]),
    }
}

/// `nick!user@host` of a record.
pub open spec fn record_prefix(r: WhoRecordView) -> Seq<u8> {
    encode_utf8(r.nick) + seq![0x21u8] + encode_utf8(r.username) + seq![0x40u8] + encode_utf8(r.hostname)
}

impl WhoRecord {
    fn new(args: &[&[u8]]) -> (r: Option<WhoRecord>)
        ensures
            r is Some == (args@.len() == 8),
            r matches Some(w) ==> w@ == record_of(args@.map_values(|a: &[u8]| a@)),
    {
        if args.len() != 8 {
            return None;
        }
        let username = args[2];
        let hostname = args[3];
        let server = args[4];
        let nick = args[5];
        let rest = args[7];
        Some(WhoRecord {
            hostname: string_from_utf8_lossy(hostname),
            server: string_from_utf8_lossy(server),
            username: string_from_utf8_lossy(username),
            nick: string_from_utf8_lossy(nick),
            rest: string_from_utf8_lossy(rest),
        })
    }

    fn prefix_bytes(&self) -> (r: Vec<u8>)
        ensures
            r@ == record_prefix(self@),
            valid_utf8(r@),
    {
        let mut out: Vec<u8> = Vec::new();
        push_bytes(&mut out, string_bytes(&self.nick));
        out.push(0x21);
        push_bytes(&mut out, string_bytes(&self.username));
        out.push(0x40);
        push_bytes(&mut out, string_bytes(&self.hostname));
        proof {
            let a = encode_utf8(self.nick@);
            let b = encode_utf8(self.username@);
            let c = encode_utf8(self.hostname@);
            encode_utf8_valid_utf8(self.nick@);
            encode_utf8_valid_utf8(self.username@);
            encode_utf8_valid_utf8(self.hostname@);
            lemma_ascii_byte_utf8(0x21);
            lemma_ascii_byte_utf8(0x40);
            lemma_concat_utf8(a, seq![0x21u8]);
            lemma_concat_utf8(a + seq![0x21u8], b);
            lemma_concat_utf8(a + seq![0x21u8] + b, seq![0x40u8]);
            lemma_concat_utf8(a + seq![0x21u8] + b + seq![0x40u8], c);
            assert(out@ =~= record_prefix(self@));
        }
        out
    }

    /// `nick!user@host` as text.
    pub fn get_prefix_raw(&self) -> (r: String)
        ensures
            encode_utf8(r@) == record_prefix(self@),
    {
        let bytes = self.prefix_bytes();
        proof {
            lemma_decode_encode(bytes@);
        }
        into_text(bytes)
    }

    /// `nick!user@host` as a prefix.
    pub fn get_prefix(&self) -> (r: IrcMsgPrefix)
        ensures
            r@ == record_prefix(self@),
    {
        let s = self.get_prefix_raw();
        IrcMsgPrefix::new(s)
    }
}

/// Starts a `WhoBundler` on the first `352` reply, and no other until a
/// `315` ends the listing.
#[derive(Clone, Copy, Debug)]
pub struct WhoBundlerTrigger {
    suppress: bool,
}

impl View for WhoBundlerTrigger {
    /// A listing is under way.
    type V = bool;

    closed spec fn view(&self) -> bool {
        self.suppress
    }
}

impl WhoBundlerTrigger {
    pub fn new() -> (r: WhoBundlerTrigger)
        ensures
            r@ == false,
    {
        WhoBundlerTrigger { suppress: false }
    }

    /// Whether a line starts a bundler, and the suppression after it.
    pub open spec fn step(suppress: bool, v: IrcMsgView) -> (bool, bool) {
        let s1 = if command_bytes(v) == code(0x33, 0x31, 0x35) && suppress {
            false
        } else {
            suppress
        };
        if command_bytes(v) == code(0x33, 0x35, 0x32) && !s1 && v.args.len() > 2 {
            (true, true)
        } else {
            (false, s1)
        }
    }
}

impl BundlerTrigger for WhoBundlerTrigger {
    fn on_irc_msg(&mut self, msg: &IrcMsg) -> (r: Vec<AnyBundler>)
        ensures
            final(self)@ == WhoBundlerTrigger::step(old(self)@, msg@).1,
            r@.len() == (if WhoBundlerTrigger::step(old(self)@, msg@).0 { 1int } else { 0int }),
            r@.len() == 1 ==> (r@[0] matches AnyBundler::Who(b) && b@ == WhoBundler::initial(
                arg_bytes(msg@, 1),
            )),
    {
        let mut out: Vec<AnyBundler> = Vec::new();
        if bytes_equal(msg.command_as_bytes(), code_bytes(0x33, 0x31, 0x35).as_slice()) && self.suppress {
            self.suppress = false;
        }
        if bytes_equal(msg.command_as_bytes(), code_bytes(0x33, 0x35, 0x32).as_slice()) && !self.suppress {
            if msg.len() <= 2 {
                return out;
            }
            self.suppress = true;
            out.push(AnyBundler::Who(WhoBundler::new(msg.index(1))));
        }
        out
    }
}

/// What a `WhoBundler` has gathered.
pub struct WhoBundlerView {
    pub target_channel: Seq<u8>,
    pub who_records: Seq<WhoRecordView>,
    pub finished: bool,
}

/// Gathers the `352` replies for one channel until the `315` that ends
/// them, then emits one `WhoBundle` event.
#[derive(Debug)]
pub struct WhoBundler {
    target_channel: Vec<u8>,
    who_records: Vec<WhoRecord>,
    finished: bool,
}

impl View for WhoBundler {
    type V = WhoBundlerView;

    closed spec fn view(&self) -> WhoBundlerView {
        WhoBundlerView {
            target_channel: self.target_channel@,
            who_records: self.who_records@.map_values(|r: WhoRecord| r@),
            finished: self.finished,
        }
    }
}

/// The line is about the bundler's channel: its second parameter names it.
pub open spec fn who_line_matches(b: WhoBundlerView, v: IrcMsgView) -> bool {
    v.args.len() >= 2 && irc_eq(arg_bytes(v, 1), b.target_channel)
}

impl WhoBundler {
    /// Whether the bundler can take `msg` without fault.
    pub fn accepts_line(&self, msg: &IrcMsg) -> (r: bool)
        ensures
            r == (who_line_matches(self@, msg@) ==> !incoming_faults(msg@)),
    {
        if msg.len() < 2 {
            return true;
        }
        if !bytes_eq_ignore_irc_case(msg.index(1), self.target_channel.as_slice()) {
            return true;
        }
        !incoming_would_fault(msg)
    }

    pub open spec fn initial(channel: Seq<u8>) -> WhoBundlerView {
        WhoBundlerView { target_channel: channel, who_records: Seq::empty(), finished: false }
    }

    /// The bundler after taking a line.
    pub open spec fn after(b: WhoBundlerView, v: IrcMsgView) -> WhoBundlerView {
        if !who_line_matches(b, v) {
            b
        } else {
            match spec_incoming_kind(v) {
                IncomingKind::Numeric(352) => if v.args.len() == 8 {
                    WhoBundlerView { who_records: b.who_records.push(record_of(args_of(v))), ..b }
                } else {
                    b
                },
                IncomingKind::Numeric(315) => WhoBundlerView { finished: true, ..b },
                _ => b,
            }
        }
    }

    pub fn new(channel: &[u8]) -> (r: WhoBundler)
        ensures
            r@ == WhoBundler::initial(channel@),
    {
        let r = WhoBundler { target_channel: bytes_to_vec(channel), who_records: Vec::new(), finished: false };
        proof {
            assert(r@.who_records =~= Seq::<WhoRecordView>::empty());
        }
        r
    }

    fn add_record(&mut self, args: &[&[u8]])
        ensures
            final(self).target_channel@ == old(self).target_channel@,
            final(self).finished == old(self).finished,
            final(self)@.who_records == if args@.len() == 8 {
                old(self)@.who_records.push(record_of(args@.map_values(|a: &[u8]| a@)))
            } else {
                old(self)@.who_records
            },
    {
        match WhoRecord::new(args) {
            Some(who_rec) => {
                let ghost before = self.who_records@;
                self.who_records.push(who_rec);
                proof {
                    assert(self.who_records@.map_values(|r: WhoRecord| r@) =~= before.map_values(
                        |r: WhoRecord| r@,
                    ).push(who_rec@));
                }
            },
            None => {},
        }
    }
}

impl Bundler for WhoBundler {
    open spec fn accepts(&self, v: IrcMsgView) -> bool {
        who_line_matches(self@, v) ==> !incoming_faults(v)
    }

    fn on_irc_msg(&mut self, msg: &IrcMsg) -> (r: Vec<IrcEvent>)
        ensures
            final(self)@ == WhoBundler::after(old(self)@, msg@),
            r@.len() == (if who_line_matches(old(self)@, msg@) && spec_incoming_kind(msg@)
                == IncomingKind::Numeric(315) {
                1int
            } else {
                0int
            }),
            r@.len() == 1 ==> (r@[0] matches IrcEvent::WhoBundle(Ok(s)) && s.channel@ == old(
                self,
            )@.target_channel && s.who_records@.map_values(|w: WhoRecord| w@)
                == old(self)@.who_records),
    {
        let args = msg.get_args();
        if args.len() < 2 {
            return Vec::new();
        }
        if !bytes_eq_ignore_irc_case(args[1], self.target_channel.as_slice()) {
            return Vec::new();
        }
        match IncomingMsg::from_msg(msg.clone()) {
            IncomingMsg::Numeric(352, message2) => {
                let inner = message2.to_irc_msg();
                let inner_args = inner.get_args();
                proof {
                    assert(inner_args@.map_values(|a: &[u8]| a@) =~= args_of(msg@));
                }
                self.add_record(inner_args.as_slice());
                Vec::new()
            },
            IncomingMsg::Numeric(315, _) => {
                self.finished = true;
                let records = clone_records(&self.who_records);
                let mut out: Vec<IrcEvent> = Vec::new();
                let success = WhoSuccess { channel: self.target_channel.clone(), who_records: records };
                proof {
                    assert(success.who_records@.map_values(|w: WhoRecord| w@) =~= self.who_records@.map_values(|w: WhoRecord| w@));
                }
                out.push(IrcEvent::WhoBundle(Ok(success)));
                out
            },
            _ => Vec::new(),
        }
    }

    fn is_finished(&mut self) -> (r: bool)
        ensures
            r == old(self)@.finished,
            final(self)@ == old(self)@,
    {
        self.finished
    }

    fn get_name(&self) -> &'static str {
        "WhoBundler"
    }
}

/// Waits for the `WhoBundle` of one channel and keeps its result.
#[derive(Debug)]
pub struct WhoEventWatcher {
    channel: Vec<u8>,
    result: Option<WhoResult>,
    finished: bool,
}

impl WhoEventWatcher {
    /// The channel waited on, whether a result came, and whether it is done.
    pub closed spec fn spec_state(&self) -> (Seq<u8>, bool, bool) {
        (self.channel@, self.result is Some, self.finished)
    }

    pub fn new(channel: &[u8]) -> (r: WhoEventWatcher)
        ensures
            r.spec_state() == (channel@, false, false),
    {
        WhoEventWatcher { channel: bytes_to_vec(channel), result: None, finished: false }
    }

    /// The result received, if any.
    pub fn result(&self) -> (r: Option<&WhoResult>)
        ensures
            r is Some == self.spec_state().1,
    {
        match &self.result {
            Some(r) => Some(r),
            None => None,
        }
    }
}

/// The event is the `WhoBundle` of `channel`.
pub open spec fn is_who_bundle_for(e: &IrcEvent, channel: Seq<u8>) -> bool {
    e matches IrcEvent::WhoBundle(result) && irc_eq(
        match result {
            Ok(s) => s.channel@,
            Err(er) => er.channel@,
        },
        channel,
    )
}

impl EventWatcher for WhoEventWatcher {
    fn on_event(&mut self, event: &IrcEvent)
        ensures
            final(self).spec_state() == if is_who_bundle_for(event, old(self).spec_state().0) {
                (old(self).spec_state().0, true, true)
            } else {
                old(self).spec_state()
            },
    {
        match event {
            IrcEvent::WhoBundle(result) => {
                if bytes_eq_ignore_irc_case(who_result_channel(result), self.channel.as_slice()) {
                    let kept = match result {
                        Ok(s) => Ok(s.clone()),
                        Err(e) => Err(e.clone()),
                    };
                    self.result = Some(kept);
                    self.finished = true;
                }
            },
            _ => {},
        }
    }

    fn is_finished(&self) -> (r: bool)
        ensures
            r == self.spec_state().2,
    {
        self.finished
    }

    fn get_name(&self) -> &'static str {
        "WhoEventWatcher"
    }
}

} // verus!

verus! {

/// How a `WHO` bundler takes a line, by parameter position.  Only lines
/// naming its channel in parameter 1 count: a `352` of eight parameters
/// adds the user it lists (user 2, host 3, server 4, nick 5, the rest 7);
/// a `315` ends the listing; nothing else changes the bundler.
pub proof fn lemma_who_bundler_lines(b: WhoBundlerView, v: IrcMsgView)
    ensures
        !(v.args.len() >= 2 && irc_eq(arg_bytes(v, 1), b.target_channel)) ==> WhoBundler::after(b, v) == b,
        v.args.len() == 8 && irc_eq(arg_bytes(v, 1), b.target_channel) && spec_incoming_kind(v) == IncomingKind::Numeric(352)
            ==> WhoBundler::after(b, v).who_records == b.who_records.push(
            WhoRecordView {
                hostname: utf8_lossy(arg_bytes(v, 3)),
                server: utf8_lossy(arg_bytes(v, 4)),
                username: utf8_lossy(arg_bytes(v, 2)),
                nick: utf8_lossy(arg_bytes(v, 5)),
                rest: utf8_lossy(arg_bytes(v, 7)),
            },
        ) && WhoBundler::after(b, v).finished == b.finished && WhoBundler::after(b, v).target_channel == b.target_channel,
        v.args.len() >= 2 && irc_eq(arg_bytes(v, 1), b.target_channel) && spec_incoming_kind(v) == IncomingKind::Numeric(315)
            ==> WhoBundler::after(b, v) == (WhoBundlerView { finished: true, ..b }),
{
    if v.args.len() == 8 {
        let a = args_of(v);
        assert(a[2] == arg_bytes(v, 2) && a[3] == arg_bytes(v, 3) && a[4] == arg_bytes(v, 4));
        assert(a[5] == arg_bytes(v, 5) && a[7] == arg_bytes(v, 7));
    }
}

} // verus!

verus! {

/// The `WHO` trigger starts one bundler per listing: the first `352` with
/// more than two parameters starts a bundler for parameter 1, further
/// `352`s start none until a `315` ends the listing.
pub proof fn lemma_who_trigger_steps(suppress: bool, v: IrcMsgView)
    ensures
        command_bytes(v) == seq![0x33u8, 0x35, 0x32] && v.args.len() > 2 ==> WhoBundlerTrigger::step(suppress, v) == (
        !suppress, true),
        command_bytes(v) == seq![0x33u8, 0x35, 0x32] && v.args.len() <= 2 ==> WhoBundlerTrigger::step(suppress, v) == (
        false, suppress),
        command_bytes(v) == seq![0x33u8, 0x31, 0x35] ==> WhoBundlerTrigger::step(suppress, v) == (false, false),
        command_bytes(v) != seq![0x33u8, 0x35, 0x32] && command_bytes(v) != seq![0x33u8, 0x31, 0x35]
            ==> WhoBundlerTrigger::step(suppress, v) == (false, suppress),
{
    let c = command_bytes(v);
    if c == seq![0x33u8, 0x31, 0x35] {
        assert(c[1] != code(0x33, 0x35, 0x32)[1]);
    }
    if c == seq![0x33u8, 0x35, 0x32] {
        assert(c[1] != code(0x33, 0x31, 0x35)[1]);
    }
}

} // verus!

