//! The watchers, bundlers and triggers that turn the stream of lines into
//! events, and the manager that runs them.

use vstd::prelude::*;
use crate::parse::model::IrcMsgView;
use crate::parse::parse::IrcMsg;
use crate::event::IrcEvent;
use crate::message_types::server::{incoming_faults, irc_eq};
use crate::message_types::commands::cmd_join;
use crate::parse::parse::command_bytes;
use crate::watchers::join::{JoinBundler, JoinBundlerTrigger, JoinBundlerView, JoinBundlerState, JoinStep, join_step, join_step_faults, comes_from, code};
use crate::watchers::who::{WhoBundler, WhoBundlerTrigger, WhoBundlerView, WhoEventWatcher, WhoRecord, WhoRecordView, who_line_matches, is_who_bundle_for};
use crate::watchers::join::strings_bytes;
use vstd::utf8::*;
use crate::message_types::server::{spec_incoming_kind, IncomingKind};
use crate::parse::parse::arg_bytes;

verus! {

/// Reads every message.
pub trait MessageWatcher {
    fn on_irc_msg(&mut self, message: &IrcMsg);

    /// If true, the `MessageWatcher` should be removed from the watcher set
    fn finished(&self) -> bool;
}

/// Reads every event.
pub trait EventWatcher {
    fn on_event(&mut self, message: &IrcEvent);

    /// If true, the `EventWatcher` should be removed from the watcher set
    fn is_finished(&self) -> bool;

    fn get_name(&self) -> &'static str;
}

/// Emits IrcEvents when certain messages are detected
pub trait Bundler {
    /// The bundler can take the line without a fault.
    spec fn accepts(&self, v: IrcMsgView) -> bool;

    fn on_irc_msg(&mut self, message: &IrcMsg) -> Vec<IrcEvent>
        requires
            old(self).accepts(message@),
    ;

    /// If true, the `Bundler` should be removed from the bundler set
    fn is_finished(&mut self) -> bool;

    fn get_name(&self) -> &'static str;
}

/// Emits Bundlers when certain messages are detected
pub trait BundlerTrigger {
    fn on_irc_msg(&mut self, message: &IrcMsg) -> Vec<AnyBundler>;
}

/// A bundler of one of the kinds the library has.
#[derive(Debug)]
pub enum AnyBundler {
    Join(JoinBundler),
    Who(WhoBundler),
}

/// A trigger of one of the kinds the library has.
#[derive(Debug)]
pub enum AnyTrigger {
    Join(JoinBundlerTrigger),
    Who(WhoBundlerTrigger),
}

pub enum AnyBundlerView {
    Join(JoinBundlerView),
    Who(WhoBundlerView),
}

pub enum AnyTriggerView {
    Join(Seq<u8>),
    Who(bool),
}

/// What an event says: the line, or the result of a join or of a `WHO`.
pub enum EventView {
    Msg(IrcMsgView),
    JoinDone(JoinResultView),
    WhoDone(WhoResultView),
}

/// The result of a join: the channel, the names and the topic with who
/// set it and when; or the refusal.
pub enum JoinResultView {
    Joined { channel: Seq<u8>, nicks: Seq<Seq<u8>>, topic: Option<(Seq<u8>, Seq<u8>, u64)> },
    Refused { channel: Seq<u8>, errcode: i16, message: Seq<char> },
}

/// The result of a `WHO`: the channel and the records, or the failure.
pub enum WhoResultView {
    Listed { channel: Seq<u8>, records: Seq<WhoRecordView> },
    Failed { channel: Seq<u8> },
}

/// The channel a `WHO` result is about.
pub open spec fn who_result_channel_of(r: WhoResultView) -> Seq<u8> {
    match r {
        WhoResultView::Listed { channel, .. } => channel,
        WhoResultView::Failed { channel } => channel,
    }
}

impl View for AnyBundler {
    type V = AnyBundlerView;

    open spec fn view(&self) -> AnyBundlerView {
        match self {
            AnyBundler::Join(b) => AnyBundlerView::Join(b@),
            AnyBundler::Who(b) => AnyBundlerView::Who(b@),
        }
    }
}

impl View for AnyTrigger {
    type V = AnyTriggerView;

    open spec fn view(&self) -> AnyTriggerView {
        match self {
            AnyTrigger::Join(t) => AnyTriggerView::Join(t@),
            AnyTrigger::Who(t) => AnyTriggerView::Who(t@),
        }
    }
}

pub open spec fn bundler_accepts(b: AnyBundlerView, v: IrcMsgView) -> bool {
    match b {
        AnyBundlerView::Join(j) => JoinBundler::wf(j) && !join_step_faults(j.state, j.channel, v),
        AnyBundlerView::Who(w) => who_line_matches(w, v) ==> !incoming_faults(v),
    }
}

pub open spec fn bundler_after(b: AnyBundlerView, v: IrcMsgView) -> AnyBundlerView {
    match b {
        AnyBundlerView::Join(j) => AnyBundlerView::Join(JoinBundler::after(j, v)),
        AnyBundlerView::Who(w) => AnyBundlerView::Who(WhoBundler::after(w, v)),
    }
}

pub open spec fn bundler_done(b: AnyBundlerView) -> bool {
    match b {
        AnyBundlerView::Join(j) => j.state == JoinBundlerState::JoinFail || j.state
            == JoinBundlerState::Joined,
        AnyBundlerView::Who(w) => w.finished,
    }
}

/// The events a bundler emits for a line.
pub open spec fn bundler_emits(b: AnyBundlerView, v: IrcMsgView) -> Seq<EventView> {
    match b {
        AnyBundlerView::Join(j) => match join_step(j.state, j.channel, v) {
            JoinStep::Fail => seq![EventView::JoinDone(JoinResultView::Refused { channel: j.channel, errcode: 0, message: Seq::empty() })],
            JoinStep::Finish => seq![EventView::JoinDone(JoinResultView::Joined {
                channel: j.channel,
                nicks: j.nicks->Some_0,
                topic: match (j.topic, j.topic_meta) {
                    (Some(t), Some(m)) => Some((t, m.0, m.1)),
                    _ => None,
                },
            })],
            _ => Seq::empty(),
        },
        AnyBundlerView::Who(w) => if who_line_matches(w, v) && spec_incoming_kind(v)
            == IncomingKind::Numeric(315) {
            seq![EventView::WhoDone(WhoResultView::Listed { channel: w.target_channel, records: w.who_records })]
        } else {
            Seq::empty()
        },
    }
}

/// The bundlers a trigger starts on a line.
pub open spec fn trigger_spawns(t: AnyTriggerView, v: IrcMsgView) -> Seq<AnyBundlerView> {
    match t {
        AnyTriggerView::Join(nick) => if command_bytes(v) == cmd_join() && comes_from(v, nick) {
            seq![AnyBundlerView::Join(JoinBundler::initial(arg_bytes(v, 0)))]
        } else {
            Seq::empty()
        },
        AnyTriggerView::Who(s) => if WhoBundlerTrigger::step(s, v).0 {
            seq![AnyBundlerView::Who(WhoBundler::initial(arg_bytes(v, 1)))]
        } else {
            Seq::empty()
        },
    }
}

/// A trigger after a line.
pub open spec fn trigger_after(t: AnyTriggerView, v: IrcMsgView) -> AnyTriggerView {
    match t {
        AnyTriggerView::Join(nick) => AnyTriggerView::Join(
            if command_bytes(v) == crate::message_types::commands::cmd_nick() && comes_from(v, nick) {
                arg_bytes(v, 0)
            } else {
                nick
            },
        ),
        AnyTriggerView::Who(s) => AnyTriggerView::Who(WhoBundlerTrigger::step(s, v).1),
    }
}

/// The bundlers all triggers start on a line, in trigger order.
pub open spec fn spawned(ts: Seq<AnyTriggerView>, v: IrcMsgView) -> Seq<AnyBundlerView>
    decreases ts.len(),
{
    if ts.len() == 0 {
        Seq::empty()
    } else {
        spawned(ts.drop_last(), v) + trigger_spawns(ts.last(), v)
    }
}

/// The bundlers that remain after all take a line, in order.
pub open spec fn bundlers_after(bs: Seq<AnyBundlerView>, v: IrcMsgView) -> Seq<AnyBundlerView>
    decreases bs.len(),
{
    if bs.len() == 0 {
        Seq::empty()
    } else {
        let prev = bundlers_after(bs.drop_last(), v);
        let b = bundler_after(bs.last(), v);
        if bundler_done(b) {
            prev
        } else {
            prev.push(b)
        }
    }
}

/// The events all bundlers emit for a line, in order.
pub open spec fn bundlers_emit(bs: Seq<AnyBundlerView>, v: IrcMsgView) -> Seq<EventView>
    decreases bs.len(),
{
    if bs.len() == 0 {
        Seq::empty()
    } else {
        bundlers_emit(bs.drop_last(), v) + bundler_emits(bs.last(), v)
    }
}

/// The state of a watcher: its channel, whether it has a result, whether
/// it is done.
pub type WatchState = (Seq<u8>, bool, bool);

pub open spec fn watcher_after(w: WatchState, e: EventView) -> WatchState {
    match e {
        EventView::WhoDone(r) => if irc_eq(who_result_channel_of(r), w.0) {
            (w.0, true, true)
        } else {
            w
        },
        _ => w,
    }
}

/// The watchers that remain after all see one event.
pub open spec fn watchers_after(ws: Seq<WatchState>, e: EventView) -> Seq<WatchState>
    decreases ws.len(),
{
    if ws.len() == 0 {
        Seq::empty()
    } else {
        let prev = watchers_after(ws.drop_last(), e);
        let w = watcher_after(ws.last(), e);
        if w.2 {
            prev
        } else {
            prev.push(w)
        }
    }
}

/// The watchers that remain after all see the events, one after another.
pub open spec fn watchers_after_all(ws: Seq<WatchState>, es: Seq<EventView>) -> Seq<WatchState>
    decreases es.len(),
{
    if es.len() == 0 {
        ws
    } else {
        watchers_after(watchers_after_all(ws, es.drop_last()), es.last())
    }
}

/// No bundler that remains is done, and none is added.
proof fn lemma_bundlers_after_live(bs: Seq<AnyBundlerView>, v: IrcMsgView)
    ensures
        bundlers_after(bs, v).len() <= bs.len(),
        forall|i: int| 0 <= i < bundlers_after(bs, v).len() ==> !bundler_done(#[trigger] bundlers_after(bs, v)[i]),
    decreases bs.len(),
{
    if bs.len() > 0 {
        lemma_bundlers_after_live(bs.drop_last(), v);
    }
}

/// No watcher that remains after an event is done.
proof fn lemma_watchers_after_live(ws: Seq<WatchState>, e: EventView)
    ensures
        watchers_after(ws, e).len() <= ws.len(),
        forall|i: int| 0 <= i < watchers_after(ws, e).len() ==> !(#[trigger] watchers_after(ws, e)[i]).2,
    decreases ws.len(),
{
    if ws.len() > 0 {
        lemma_watchers_after_live(ws.drop_last(), e);
    }
}

/// A line through the manager: the events are those of the bundlers, the
/// queued ones first and then those the triggers just made, each in order,
/// followed by the line itself; afterwards no bundler and no watcher that
/// is done remains.
pub proof fn lemma_manager_step(m: ManagerView, v: IrcMsgView)
    ensures
        manager_emits(m, v).len() >= 1,
        manager_emits(m, v).last() == EventView::Msg(v),
        manager_emits(m, v).drop_last() == bundlers_emit(m.bundlers + spawned(m.triggers, v), v),
        forall|i: int| 0 <= i < manager_after(m, v).bundlers.len() ==> !bundler_done(
            #[trigger] manager_after(m, v).bundlers[i],
        ),
        forall|i: int| 0 <= i < manager_after(m, v).watchers.len() ==> !(
        #[trigger] manager_after(m, v).watchers[i]).2,
{
    let es = manager_emits(m, v);
    assert(es.drop_last() =~= bundlers_emit(m.bundlers + spawned(m.triggers, v), v));
    lemma_bundlers_after_live(m.bundlers + spawned(m.triggers, v), v);
    assert(watchers_after_all(m.watchers, es) == watchers_after(watchers_after_all(m.watchers, es.drop_last()), es.last()));
    lemma_watchers_after_live(watchers_after_all(m.watchers, es.drop_last()), es.last());
}

/// The manager's parts.
pub struct ManagerView {
    pub watchers: Seq<WatchState>,
    pub bundlers: Seq<AnyBundlerView>,
    pub triggers: Seq<AnyTriggerView>,
}

/// The manager can take the line: every bundler it holds can.
pub open spec fn manager_accepts(m: ManagerView, v: IrcMsgView) -> bool {
    forall|i: int| 0 <= i < m.bundlers.len() ==> bundler_accepts(#[trigger] m.bundlers[i], v)
}

/// The events the manager emits for a line: those of the bundlers, the new
/// ones included, then the line itself.
pub open spec fn manager_emits(m: ManagerView, v: IrcMsgView) -> Seq<EventView> {
    bundlers_emit(m.bundlers + spawned(m.triggers, v), v).push(EventView::Msg(v))
}

/// The manager after a line.
pub open spec fn manager_after(m: ManagerView, v: IrcMsgView) -> ManagerView {
    ManagerView {
        watchers: watchers_after_all(m.watchers, manager_emits(m, v)),
        bundlers: bundlers_after(m.bundlers + spawned(m.triggers, v), v),
        triggers: m.triggers.map_values(|t: AnyTriggerView| trigger_after(t, v)),
    }
}

pub open spec fn event_view(e: &IrcEvent) -> EventView {
    match e {
        IrcEvent::IrcMsg(m) => EventView::Msg(m@),
        IrcEvent::JoinBundle(Ok(s)) => EventView::JoinDone(JoinResultView::Joined {
            channel: s.channel@,
            nicks: strings_bytes(s.nicks@),
            topic: match s.topic {
                Some(t) => Some((t.text@, encode_utf8(t.set_by@), t.set_at)),
                None => None,
            },
        }),
        IrcEvent::JoinBundle(Err(e)) => EventView::JoinDone(JoinResultView::Refused {
            channel: e.channel@,
            errcode: e.errcode,
            message: e.message@,
        }),
        IrcEvent::WhoBundle(Ok(s)) => EventView::WhoDone(WhoResultView::Listed {
            channel: s.channel@,
            records: s.who_records@.map_values(|w: WhoRecord| w@),
        }),
        IrcEvent::WhoBundle(Err(e)) => EventView::WhoDone(WhoResultView::Failed { channel: e.channel@ }),
    }
}

pub open spec fn event_views(es: Seq<IrcEvent>) -> Seq<EventView> {
    es.map_values(|e: IrcEvent| event_view(&e))
}

/// Controls the lifecycle of EventWatchers, Bundlers, and BundlerTriggers
#[derive(Debug)]
pub struct BundlerManager {
    /// Unfinished watchers currently attached to the stream
    event_watchers: Vec<WhoEventWatcher>,
    /// Active event bundlers.
    event_bundlers: Vec<AnyBundler>,
    /// Bundler triggers.  They create Bundlers.
    bundler_triggers: Vec<AnyTrigger>,
}

impl View for BundlerManager {
    type V = ManagerView;

    closed spec fn view(&self) -> ManagerView {
        ManagerView {
            watchers: self.event_watchers@.map_values(|w: WhoEventWatcher| w.spec_state()),
            bundlers: self.event_bundlers@.map_values(|b: AnyBundler| b@),
            triggers: self.bundler_triggers@.map_values(|t: AnyTrigger| t@),
        }
    }
}

impl BundlerManager {
    pub fn new() -> (r: BundlerManager)
        ensures
            r@.watchers == Seq::<WatchState>::empty(),
            r@.bundlers == Seq::<AnyBundlerView>::empty(),
            r@.triggers == Seq::<AnyTriggerView>::empty(),
    {
        let r = BundlerManager {
            event_watchers: Vec::new(),
            event_bundlers: Vec::new(),
            bundler_triggers: Vec::new(),
        };
        proof {
            assert(r@.watchers =~= Seq::<WatchState>::empty());
            assert(r@.bundlers =~= Seq::<AnyBundlerView>::empty());
            assert(r@.triggers =~= Seq::<AnyTriggerView>::empty());
        }
        r
    }

    /// Whether every active bundler can take `msg` without fault.
    pub fn accepts_line(&self, msg: &IrcMsg) -> (r: bool)
        ensures
            r == manager_accepts(self@, msg@),
    {
        let mut i: usize = 0;
        while i < self.event_bundlers.len()
            invariant
                0 <= i <= self.event_bundlers.len(),
                self@.bundlers.len() == self.event_bundlers@.len(),
                forall|j: int| 0 <= j < i ==> bundler_accepts(#[trigger] self@.bundlers[j], msg@),
            decreases self.event_bundlers.len() - i,
        {
            let ok = match &self.event_bundlers[i] {
                AnyBundler::Join(b) => b.accepts_line(msg),
                AnyBundler::Who(b) => b.accepts_line(msg),
            };
            proof {
                assert(self@.bundlers[i as int] == self.event_bundlers@[i as int]@);
            }
            if !ok {
                return false;
            }
            i = i + 1;
        }
        true
    }

    /// A manager with the `JOIN` trigger (for `nick`) and the `WHO` trigger.
    pub fn with_defaults(nick: &[u8]) -> (r: BundlerManager)
        ensures
            r@.watchers == Seq::<WatchState>::empty(),
            r@.bundlers == Seq::<AnyBundlerView>::empty(),
            r@.triggers == seq![AnyTriggerView::Join(nick@), AnyTriggerView::Who(false)],
    {
        let mut manager = BundlerManager::new();
        manager.add_bundler_trigger(AnyTrigger::Join(JoinBundlerTrigger::new(nick)));
        manager.add_bundler_trigger(AnyTrigger::Who(WhoBundlerTrigger::new()));
        proof {
            assert(manager@.triggers =~= seq![AnyTriggerView::Join(nick@), AnyTriggerView::Who(false)]);
        }
        manager
    }

    pub fn add_watcher(&mut self, watcher: WhoEventWatcher)
        ensures
            final(self)@.watchers == old(self)@.watchers.push(watcher.spec_state()),
            final(self)@.bundlers == old(self)@.bundlers,
            final(self)@.triggers == old(self)@.triggers,
    {
        let ghost before = self.event_watchers@;
        self.event_watchers.push(watcher);
        proof {
            assert(self.event_watchers@.map_values(|w: WhoEventWatcher| w.spec_state()) =~= before.map_values(|w: WhoEventWatcher| w.spec_state()).push(watcher.spec_state()));
        }
    }

    pub fn add_bundler(&mut self, bundler: AnyBundler)
        ensures
            final(self)@.watchers == old(self)@.watchers,
            final(self)@.bundlers == old(self)@.bundlers.push(bundler@),
            final(self)@.triggers == old(self)@.triggers,
    {
        let ghost before = self.event_bundlers@;
        self.event_bundlers.push(bundler);
        proof {
            assert(self.event_bundlers@.map_values(|b: AnyBundler| b@) =~= before.map_values(|b: AnyBundler| b@).push(bundler@));
        }
    }

    pub fn add_bundler_trigger(&mut self, trigger: AnyTrigger)
        ensures
            final(self)@.watchers == old(self)@.watchers,
            final(self)@.bundlers == old(self)@.bundlers,
            final(self)@.triggers == old(self)@.triggers.push(trigger@),
    {
        let ghost before = self.bundler_triggers@;
        self.bundler_triggers.push(trigger);
        proof {
            assert(self.bundler_triggers@.map_values(|t: AnyTrigger| t@) =~= before.map_values(|t: AnyTrigger| t@).push(trigger@));
        }
    }

    /// Runs the triggers, then every bundler (the new ones too), then the
    /// watchers over the events; returns the events, the line last.
    pub fn on_irc_msg(&mut self, msg: &IrcMsg) -> (r: Vec<IrcEvent>)
        requires
            manager_accepts(old(self)@, msg@),
        ensures
            final(self)@ == manager_after(old(self)@, msg@),
            event_views(r@) == manager_emits(old(self)@, msg@),
            r@.len() > 0,
            r@.last() matches IrcEvent::IrcMsg(m) && m@ == msg@,
    {
        let ghost m0 = self@;
        let ghost w0 = self.event_watchers@;
        let mut new_bundlers = bundler_trigger_impl(&mut self.bundler_triggers, msg);
        let ghost t1 = self.bundler_triggers@;
        let ghost sp = spawned(m0.triggers, msg@);
        proof {
            lemma_spawned_accept(m0.triggers, msg@);
        }
        let ghost nb = new_bundlers@;
        assert(sp.len() == new_bundlers.len());
        let mut k: usize = 0;
        while new_bundlers.len() > 0
            invariant
                k + new_bundlers@.len() == sp.len(),
                sp.len() <= usize::MAX,
                self.event_watchers@ == w0,
                self.bundler_triggers@ == t1,
                nb.map_values(|b: AnyBundler| b@) == sp,
                new_bundlers@ == nb.skip(k as int),
                self.event_bundlers@.map_values(|b: AnyBundler| b@) == m0.bundlers + sp.take(k as int),
            decreases new_bundlers.len(),
        {
            let b = new_bundlers.remove(0);
            let ghost before = self.event_bundlers@;
            self.event_bundlers.push(b);
            proof {
                assert(b == nb[k as int]);
                assert(sp[k as int] == b@);
                assert(sp.take(k + 1) =~= sp.take(k as int).push(b@));
                assert(self.event_bundlers@.map_values(|b: AnyBundler| b@) =~= before.map_values(|b: AnyBundler| b@).push(b@));
                assert(new_bundlers@ =~= nb.skip(k + 1));
            }
            k = k + 1;
        }
        proof {
            assert(sp.take(sp.len() as int) =~= sp);
            let all = m0.bundlers + sp;
            assert forall|i: int| 0 <= i < all.len() implies bundler_accepts(#[trigger] all[i], msg@) by {
                if i >= m0.bundlers.len() {
                    assert(all[i] == sp[i - m0.bundlers.len()]);
                }
            }
            assert(self.event_bundlers@.map_values(|b: AnyBundler| b@) == all);
            assert forall|i: int| 0 <= i < self.event_bundlers@.len() implies bundler_accepts(#[trigger] self.event_bundlers@[i]@, msg@) by {
                assert(self.event_bundlers@.map_values(|b: AnyBundler| b@)[i] == self.event_bundlers@[i]@);
            }
        }
        let mut outgoing = bundler_accept_impl(&mut self.event_bundlers, msg);
        let ghost b1 = self.event_bundlers@;
        let ghost emitted = outgoing@;
        outgoing.push(IrcEvent::IrcMsg(msg.clone()));
        proof {
            assert(event_views(outgoing@) =~= event_views(emitted).push(EventView::Msg(msg@)));
            assert(event_views(outgoing@).take(0) =~= Seq::<EventView>::empty());
            assert(self.event_watchers@.map_values(|w: WhoEventWatcher| w.spec_state()) == m0.watchers);
        }
        let mut i: usize = 0;
        while i < outgoing.len()
            invariant
                0 <= i <= outgoing.len(),
                self.event_bundlers@ == b1,
                self.bundler_triggers@ == t1,
                self.event_watchers@.map_values(|w: WhoEventWatcher| w.spec_state()) == watchers_after_all(m0.watchers, event_views(outgoing@).take(i as int)),
            decreases outgoing.len() - i,
        {
            watcher_accept_impl(&mut self.event_watchers, &outgoing[i]);
            proof {
                let tags = event_views(outgoing@);
                assert(tags.take(i + 1).drop_last() =~= tags.take(i as int));
                assert(tags.take(i + 1).last() == event_view(&outgoing@[i as int]));
            }
            i = i + 1;
        }
        proof {
            assert(event_views(outgoing@).take(outgoing@.len() as int) =~= event_views(outgoing@));
        }
        outgoing
    }
}

/// The bundlers a trigger starts can take the line that started them.
proof fn lemma_spawned_accept(ts: Seq<AnyTriggerView>, v: IrcMsgView)
    ensures
        forall|i: int| 0 <= i < spawned(ts, v).len() ==> bundler_accepts(#[trigger] spawned(ts, v)[i], v),
    decreases ts.len(),
{
    if ts.len() > 0 {
        lemma_spawned_accept(ts.drop_last(), v);
        let prev = spawned(ts.drop_last(), v);
        let add = trigger_spawns(ts.last(), v);
        assert forall|i: int| 0 <= i < spawned(ts, v).len() implies bundler_accepts(#[trigger] spawned(ts, v)[i], v) by {
            if i < prev.len() {
                assert(spawned(ts, v)[i] == prev[i]);
            } else {
                assert(spawned(ts, v)[i] == add[i - prev.len()]);
                assert(command_bytes(v) == cmd_join() ==> command_bytes(v) != code(0x34, 0x37, 0x35));
            }
        }
    }
}

/// Runs every trigger on the line; returns the bundlers they start.
fn bundler_trigger_impl(triggers: &mut Vec<AnyTrigger>, msg: &IrcMsg) -> (r: Vec<AnyBundler>)
    ensures
        r@.map_values(|b: AnyBundler| b@) == spawned(old(triggers)@.map_values(|t: AnyTrigger| t@), msg@),
        final(triggers)@.map_values(|t: AnyTrigger| t@) == old(triggers)@.map_values(|t: AnyTrigger| t@).map_values(|t: AnyTriggerView| trigger_after(t, msg@)),
{
    let ghost orig = triggers@.map_values(|t: AnyTrigger| t@);
    let ghost orig_raw = triggers@;
    assert(orig.len() == triggers.len());
    let mut pending: Vec<AnyTrigger> = Vec::new();
    std::mem::swap(&mut pending, triggers);
    let mut activating: Vec<AnyBundler> = Vec::new();
    let mut k: usize = 0;
    proof {
        assert(triggers@.map_values(|t: AnyTrigger| t@) =~= orig.take(0).map_values(|t: AnyTriggerView| trigger_after(t, msg@)));
        assert(activating@.map_values(|b: AnyBundler| b@) =~= spawned(orig.take(0), msg@));
        assert(pending@ =~= orig_raw.skip(0));
    }
    while pending.len() > 0
        invariant
            k + pending@.len() == orig.len(),
            orig.len() <= usize::MAX,
            orig == orig_raw.map_values(|t: AnyTrigger| t@),
            pending@ == orig_raw.skip(k as int),
            triggers@.map_values(|t: AnyTrigger| t@) == orig.take(k as int).map_values(|t: AnyTriggerView| trigger_after(t, msg@)),
            activating@.map_values(|b: AnyBundler| b@) == spawned(orig.take(k as int), msg@),
        decreases pending.len(),
    {
        let t = pending.remove(0);
        proof {
            assert(t == orig_raw[k as int]);
            assert(orig[k as int] == t@);
            assert(orig.take(k + 1).drop_last() =~= orig.take(k as int));
            assert(orig.take(k + 1).last() == t@);
            assert(pending@ =~= orig_raw.skip(k + 1));
        }
        let ghost before_t = triggers@;
        let ghost before_a = activating@;
        let (kept, mut started) = match t {
            AnyTrigger::Join(mut jt) => {
                let started = jt.on_irc_msg(msg);
                (AnyTrigger::Join(jt), started)
            },
            AnyTrigger::Who(mut wt) => {
                let started = wt.on_irc_msg(msg);
                (AnyTrigger::Who(wt), started)
            },
        };
        proof {
            assert(kept@ == trigger_after(t@, msg@));
            assert(started@.map_values(|b: AnyBundler| b@) =~= trigger_spawns(t@, msg@));
        }
        triggers.push(kept);
        let ghost st = started@;
        assert(st.len() == started.len());
        let mut j: usize = 0;
        while started.len() > 0
            invariant
                j + started@.len() == st.len(),
                st.len() <= usize::MAX,
                started@ == st.skip(j as int),
                activating@.map_values(|b: AnyBundler| b@) == before_a.map_values(|b: AnyBundler| b@) + st.map_values(|b: AnyBundler| b@).take(j as int),
            decreases started.len(),
        {
            let b = started.remove(0);
            let ghost prev = activating@;
            activating.push(b);
            proof {
                assert(b == st[j as int]);
                assert(st.map_values(|b: AnyBundler| b@).take(j + 1) =~= st.map_values(|b: AnyBundler| b@).take(j as int).push(b@));
                assert(activating@.map_values(|b: AnyBundler| b@) =~= prev.map_values(|b: AnyBundler| b@).push(b@));
                assert(started@ =~= st.skip(j + 1));
            }
            j = j + 1;
        }
        proof {
            assert(st.map_values(|b: AnyBundler| b@).take(st.len() as int) =~= st.map_values(|b: AnyBundler| b@));
            assert(triggers@.map_values(|t: AnyTrigger| t@) =~= before_t.map_values(|t: AnyTrigger| t@).push(kept@));
            assert(orig.take(k + 1).map_values(|t: AnyTriggerView| trigger_after(t, msg@)) =~= orig.take(k as int).map_values(|t: AnyTriggerView| trigger_after(t, msg@)).push(trigger_after(t@, msg@)));
        }
        k = k + 1;
    }
    proof {
        assert(orig.take(orig.len() as int) =~= orig);
    }
    activating
}

/// Every bundler takes the line; the finished ones are dropped.
fn bundler_accept_impl(buf: &mut Vec<AnyBundler>, msg: &IrcMsg) -> (r: Vec<IrcEvent>)
    requires
        forall|i: int| 0 <= i < old(buf)@.len() ==> bundler_accepts(#[trigger] old(buf)@[i]@, msg@),
    ensures
        final(buf)@.map_values(|b: AnyBundler| b@) == bundlers_after(old(buf)@.map_values(|b: AnyBundler| b@), msg@),
        event_views(r@) == bundlers_emit(old(buf)@.map_values(|b: AnyBundler| b@), msg@),
{
    let ghost orig_raw = buf@;
    let ghost orig = buf@.map_values(|b: AnyBundler| b@);
    assert(orig.len() == buf.len());
    let mut pending: Vec<AnyBundler> = Vec::new();
    std::mem::swap(&mut pending, buf);
    let mut emit: Vec<IrcEvent> = Vec::new();
    let mut k: usize = 0;
    proof {
        assert(buf@.map_values(|b: AnyBundler| b@) =~= bundlers_after(orig.take(0), msg@));
        assert(event_views(emit@) =~= bundlers_emit(orig.take(0), msg@));
        assert(pending@ =~= orig_raw.skip(0));
    }
    while pending.len() > 0
        invariant
            k + pending@.len() == orig.len(),
            orig.len() <= usize::MAX,
            orig == orig_raw.map_values(|b: AnyBundler| b@),
            forall|i: int| 0 <= i < orig_raw.len() ==> bundler_accepts(#[trigger] orig_raw[i]@, msg@),
            pending@ == orig_raw.skip(k as int),
            buf@.map_values(|b: AnyBundler| b@) == bundlers_after(orig.take(k as int), msg@),
            event_views(emit@) == bundlers_emit(orig.take(k as int), msg@),
        decreases pending.len(),
    {
        let b = pending.remove(0);
        proof {
            assert(b == orig_raw[k as int]);
            assert(orig[k as int] == b@);
            assert(orig.take(k + 1).drop_last() =~= orig.take(k as int));
            assert(orig.take(k + 1).last() == b@);
            assert(pending@ =~= orig_raw.skip(k + 1));
            assert(bundler_accepts(orig_raw[k as int]@, msg@));
        }
        let ghost before_buf = buf@;
        let (events, kept) = match b {
            AnyBundler::Join(mut jb) => {
                let events = jb.on_irc_msg(msg);
                let done = jb.is_finished();
                (events, if done { None } else { Some(AnyBundler::Join(jb)) })
            },
            AnyBundler::Who(mut wb) => {
                let events = wb.on_irc_msg(msg);
                let done = wb.is_finished();
                (events, if done { None } else { Some(AnyBundler::Who(wb)) })
            },
        };
        proof {
            assert(event_views(events@) =~= bundler_emits(b@, msg@));
            assert(kept is Some == !bundler_done(bundler_after(b@, msg@)));
            assert(kept matches Some(x) ==> x@ == bundler_after(b@, msg@));
        }
        match kept {
            Some(x) => {
                buf.push(x);
                proof {
                    assert(buf@.map_values(|b: AnyBundler| b@) =~= before_buf.map_values(|b: AnyBundler| b@).push(x@));
                }
            },
            None => {},
        }
        let ghost st = events@;
        assert(st.len() == events.len());
        let ghost before_e = emit@;
        let mut events = events;
        let mut j: usize = 0;
        while events.len() > 0
            invariant
                j + events@.len() == st.len(),
                st.len() <= usize::MAX,
                events@ == st.skip(j as int),
                event_views(emit@) == event_views(before_e) + event_views(st).take(j as int),
            decreases events.len(),
        {
            let e = events.remove(0);
            let ghost prev = emit@;
            emit.push(e);
            proof {
                assert(e == st[j as int]);
                assert(event_views(st).take(j + 1) =~= event_views(st).take(j as int).push(event_view(&e)));
                assert(event_views(emit@) =~= event_views(prev).push(event_view(&e)));
                assert(events@ =~= st.skip(j + 1));
            }
            j = j + 1;
        }
        proof {
            assert(event_views(st).take(st.len() as int) =~= event_views(st));
        }
        k = k + 1;
    }
    proof {
        assert(orig.take(orig.len() as int) =~= orig);
    }
    emit
}

/// Every watcher sees the event; the finished ones are dropped.
fn watcher_accept_impl(buf: &mut Vec<WhoEventWatcher>, event: &IrcEvent)
    ensures
        final(buf)@.map_values(|w: WhoEventWatcher| w.spec_state()) == watchers_after(old(buf)@.map_values(|w: WhoEventWatcher| w.spec_state()), event_view(event)),
{
    let ghost orig_raw = buf@;
    let ghost orig = buf@.map_values(|w: WhoEventWatcher| w.spec_state());
    assert(orig.len() == buf.len());
    let mut pending: Vec<WhoEventWatcher> = Vec::new();
    std::mem::swap(&mut pending, buf);
    let mut k: usize = 0;
    proof {
        assert(buf@.map_values(|w: WhoEventWatcher| w.spec_state()) =~= watchers_after(orig.take(0), event_view(event)));
        assert(pending@ =~= orig_raw.skip(0));
    }
    while pending.len() > 0
        invariant
            k + pending@.len() == orig.len(),
            orig.len() <= usize::MAX,
            orig == orig_raw.map_values(|w: WhoEventWatcher| w.spec_state()),
            pending@ == orig_raw.skip(k as int),
            buf@.map_values(|w: WhoEventWatcher| w.spec_state()) == watchers_after(orig.take(k as int), event_view(event)),
        decreases pending.len(),
    {
        let mut w = pending.remove(0);
        proof {
            assert(w == orig_raw[k as int]);
            assert(orig[k as int] == w.spec_state());
            assert(orig.take(k + 1).drop_last() =~= orig.take(k as int));
            assert(orig.take(k + 1).last() == w.spec_state());
            assert(pending@ =~= orig_raw.skip(k + 1));
        }
        let ghost before_buf = buf@;
        let ghost ws = w.spec_state();
        w.on_event(event);
        proof {
            match event {
                IrcEvent::WhoBundle(result) => {
                    assert(is_who_bundle_for(event, ws.0) == irc_eq(match result {
                        Ok(s) => s.channel@,
                        Err(er) => er.channel@,
                    }, ws.0));
                },
                _ => {},
            }
            assert(w.spec_state() == watcher_after(ws, event_view(event)));
        }
        if !w.is_finished() {
            let ghost st = w.spec_state();
            buf.push(w);
            proof {
                assert(buf@.map_values(|w: WhoEventWatcher| w.spec_state()) =~= before_buf.map_values(|w: WhoEventWatcher| w.spec_state()).push(st));
            }
        }
        k = k + 1;
    }
    proof {
        assert(orig.take(orig.len() as int) =~= orig);
    }
}

} // verus!
