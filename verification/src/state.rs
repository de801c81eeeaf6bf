//! Tracks the channels we are in, the users we see there and who is where.
//!
//! Users and channels are numbered; the numbers of the members of a channel
//! and of the channels of a user are kept on both sides, and nicks and
//! channel names (in IRC lower case) lead to the numbers.

use vstd::prelude::*;
use vstd::string::*;
use vstd::utf8::*;
use crate::parse::model::IrcMsgView;
use crate::parse::parse::{IrcMsg, IrcMsgPrefix, prefix_bytes, command_bytes, arg_bytes, prefix_marks, prefix_nick};
use crate::parse_helpers::{spec_find, find_character, lemma_find};
use crate::irccase::{rfc1459_lower, lower_with, bytes_to_irc_lower, lemma_irc_lower_keeps_utf8};
use crate::text::{str_bytes, bytes_equal, into_text, as_text, string_bytes, str_to_string, lemma_ascii_boundaries, lemma_ends_are_boundaries, lemma_boundary_slice_utf8, lemma_decode_encode};
use crate::util::str_range;
use crate::message_types::server::IncomingMsg;
use crate::assoc::{keys_unique, has_key, assoc_map, lemma_assoc_index, lemma_assoc_absent, lemma_assoc_push, lemma_assoc_update, lemma_assoc_remove, seq_set, set_contains, set_insert, set_remove};

verus! {

/// The number of a user.
#[derive(Copy, Clone, Debug, Hash, PartialEq, Eq, Structural, PartialOrd, Ord)]
pub struct UserId(pub u64);

/// The number of a channel.
#[derive(Copy, Clone, Debug, Hash, PartialEq, Eq, Structural, PartialOrd, Ord)]
pub struct ChannelId(pub u64);

/// Where a message comes from or goes to.
#[derive(Clone, Debug)]
pub enum MessageEndpoint {
    KnownUser(UserId),
    KnownChannel(ChannelId),
    Server(String),
    AnonymousUser,
}

/// A channel name from its first `#` on, or the whole name when it has none.
pub open spec fn deprefix(s: Seq<u8>) -> Seq<u8> {
    match spec_find(s, 0x23, 0) {
        Some(i) => s.subrange(i, s.len() as int),
        None => s,
    }
}

/// The key a nick or a channel name is known by: from its first `#` on, in
/// IRC lower case.
pub open spec fn ident(s: Seq<u8>) -> Seq<u8> {
    lower_with(deprefix(s), |b: u8| rfc1459_lower(b))
}

/// A nick or channel name as the tracker keys it.
#[derive(Debug)]
pub struct IrcIdentifier(String);

impl View for IrcIdentifier {
    type V = Seq<u8>;

    closed spec fn view(&self) -> Seq<u8> {
        encode_utf8(self.0@)
    }
}

impl IrcIdentifier {
    pub fn from_str(val: &str) -> (r: IrcIdentifier)
        ensures
            r@ == ident(val.spec_bytes()),
    {
        let bytes = str_bytes(val);
        let start = match find_character(bytes, 0x23, 0) {
            Some(idx) => idx,
            None => 0,
        };
        proof {
            lemma_find(bytes@, 0x23, 0);
            lemma_ends_are_boundaries(bytes@);
            if start > 0 {
                lemma_ascii_boundaries(bytes@, start as int);
            }
            lemma_boundary_slice_utf8(bytes@, start as int, bytes@.len() as int);
            assert(bytes@.subrange(0, bytes@.len() as int) =~= bytes@);
        }
        let tail = vstd::slice::slice_subrange(bytes, start, bytes.len());
        let lowered = bytes_to_irc_lower(tail);
        proof {
            lemma_irc_lower_keeps_utf8(tail@);
            lemma_decode_encode(lowered@);
        }
        IrcIdentifier(into_text(lowered))
    }

    pub fn as_slice(&self) -> (r: &str)
        ensures
            r.spec_bytes() == self@,
    {
        self.0.as_str()
    }

    fn key_bytes(&self) -> (r: &[u8])
        ensures
            r@ == self@,
    {
        string_bytes(&self.0)
    }
}

/// The nick of a prefix as the tracker reads it: up to the first `!`, or
/// the whole prefix.
pub open spec fn user_nick(prefix: Seq<u8>) -> Seq<u8> {
    match spec_find(prefix, 0x21, 0) {
        Some(i) => prefix.subrange(0, i),
        None => prefix,
    }
}

/// A user: the last prefix seen and the channels shared with us.
#[derive(Debug)]
pub struct User {
    id: UserId,
    prefix: IrcMsgPrefix,
    channels: Vec<u64>,
}

pub struct UserView {
    pub prefix: Seq<u8>,
    pub channels: Set<u64>,
}

impl View for User {
    type V = UserView;

    closed spec fn view(&self) -> UserView {
        UserView { prefix: self.prefix@, channels: seq_set(self.channels@) }
    }
}

impl User {
    /// The nick: the prefix up to its first `!`.
    pub fn get_nick(&self) -> (r: &str)
        ensures
            r.spec_bytes() == user_nick(self@.prefix),
    {
        let prefix = self.prefix.as_slice();
        let bytes = str_bytes(prefix);
        match find_character(bytes, 0x21, 0) {
            Some(idx) => {
                proof {
                    lemma_ends_are_boundaries(bytes@);
                    lemma_ascii_boundaries(bytes@, idx as int);
                }
                str_range(prefix, 0, idx)
            },
            None => prefix,
        }
    }
}

/// A channel we are in: its name, topic and members.
#[derive(Debug)]
pub struct Channel {
    id: ChannelId,
    name: String,
    topic: String,
    users: Vec<u64>,
}

pub struct ChannelView {
    pub name: Seq<u8>,
    pub topic: Seq<u8>,
    pub users: Set<u64>,
}

impl View for Channel {
    type V = ChannelView;

    closed spec fn view(&self) -> ChannelView {
        ChannelView {
            name: encode_utf8(self.name@),
            topic: encode_utf8(self.topic@),
            users: seq_set(self.users@),
        }
    }
}

/// What the tracker knows.
pub struct StateView {
    pub user_seq: u64,
    pub channel_seq: u64,
    pub self_nick: Seq<u8>,
    pub self_id: u64,
    pub user_map: Map<Seq<u8>, u64>,
    pub users: Map<u64, UserView>,
    pub channel_map: Map<Seq<u8>, u64>,
    pub channels: Map<u64, ChannelView>,
    pub generation: u64,
}

/// The IRC state tracker.
#[derive(Debug)]
pub struct State {
    user_seq: u64,
    channel_seq: u64,
    self_nick: String,
    self_id: UserId,
    user_map: Vec<(IrcIdentifier, UserId)>,
    users: Vec<User>,
    channel_map: Vec<(IrcIdentifier, ChannelId)>,
    channels: Vec<Channel>,
    generation: u64,
}

pub closed spec fn user_pairs(v: Seq<User>) -> Seq<(u64, UserView)> {
    v.map_values(|u: User| (u.id.0, u@))
}

pub closed spec fn channel_pairs(v: Seq<Channel>) -> Seq<(u64, ChannelView)> {
    v.map_values(|c: Channel| (c.id.0, c@))
}

pub closed spec fn umap_pairs(v: Seq<(IrcIdentifier, UserId)>) -> Seq<(Seq<u8>, u64)> {
    v.map_values(|p: (IrcIdentifier, UserId)| (p.0@, p.1.0))
}

pub closed spec fn cmap_pairs(v: Seq<(IrcIdentifier, ChannelId)>) -> Seq<(Seq<u8>, u64)> {
    v.map_values(|p: (IrcIdentifier, ChannelId)| (p.0@, p.1.0))
}

impl View for State {
    type V = StateView;

    closed spec fn view(&self) -> StateView {
        StateView {
            user_seq: self.user_seq,
            channel_seq: self.channel_seq,
            self_nick: encode_utf8(self.self_nick@),
            self_id: self.self_id.0,
            user_map: assoc_map(umap_pairs(self.user_map@)),
            users: assoc_map(user_pairs(self.users@)),
            channel_map: assoc_map(cmap_pairs(self.channel_map@)),
            channels: assoc_map(channel_pairs(self.channels@)),
            generation: self.generation,
        }
    }
}

} // verus!

verus! {

pub open spec fn with_user(v: StateView, id: u64, u: UserView) -> StateView {
    StateView { users: v.users.insert(id, u), ..v }
}

pub open spec fn with_channel(v: StateView, id: u64, c: ChannelView) -> StateView {
    StateView { channels: v.channels.insert(id, c), ..v }
}

impl State {
    /// The vectors hold distinct keys and distinct members.
    pub closed spec fn inv(&self) -> bool {
        &&& keys_unique(user_pairs(self.users@))
        &&& keys_unique(channel_pairs(self.channels@))
        &&& keys_unique(umap_pairs(self.user_map@))
        &&& keys_unique(cmap_pairs(self.channel_map@))
        &&& forall|i: int| 0 <= i < self.users@.len() ==> (#[trigger] self.users@[i]).channels@.no_duplicates()
        &&& forall|i: int| 0 <= i < self.channels@.len() ==> (#[trigger] self.channels@[i]).users@.no_duplicates()
    }

    proof fn lemma_user_at(&self, i: int)
        requires
            self.inv(),
            0 <= i < self.users@.len(),
        ensures
            self@.users.contains_key(self.users@[i].id.0),
            self@.users[self.users@[i].id.0] == self.users@[i]@,
    {
        assert(user_pairs(self.users@)[i] == (self.users@[i].id.0, self.users@[i]@));
        lemma_assoc_index(user_pairs(self.users@), i);
    }

    proof fn lemma_channel_at(&self, i: int)
        requires
            self.inv(),
            0 <= i < self.channels@.len(),
        ensures
            self@.channels.contains_key(self.channels@[i].id.0),
            self@.channels[self.channels@[i].id.0] == self.channels@[i]@,
    {
        assert(channel_pairs(self.channels@)[i] == (self.channels@[i].id.0, self.channels@[i]@));
        lemma_assoc_index(channel_pairs(self.channels@), i);
    }

    fn find_user(&self, id: u64) -> (r: Option<usize>)
        requires
            self.inv(),
        ensures
            match r {
                Some(i) => i < self.users@.len() && self.users@[i as int].id.0 == id
                    && self@.users.contains_key(id) && self@.users[id] == self.users@[i as int]@,
                None => !self@.users.contains_key(id),
            },
    {
        let mut i: usize = 0;
        while i < self.users.len()
            invariant
                0 <= i <= self.users.len(),
                self.inv(),
                forall|j: int| 0 <= j < i ==> self.users@[j].id.0 != id,
            decreases self.users.len() - i,
        {
            if self.users[i].id.0 == id {
                proof {
                    self.lemma_user_at(i as int);
                }
                return Some(i);
            }
            i = i + 1;
        }
        proof {
            assert forall|j: int| 0 <= j < user_pairs(self.users@).len() implies user_pairs(self.users@)[j].0 != id by {
                assert(user_pairs(self.users@)[j].0 == self.users@[j].id.0);
            }
            lemma_assoc_absent(user_pairs(self.users@), id);
        }
        None
    }

    fn find_channel(&self, id: u64) -> (r: Option<usize>)
        requires
            self.inv(),
        ensures
            match r {
                Some(i) => i < self.channels@.len() && self.channels@[i as int].id.0 == id
                    && self@.channels.contains_key(id) && self@.channels[id] == self.channels@[i as int]@,
                None => !self@.channels.contains_key(id),
            },
    {
        let mut i: usize = 0;
        while i < self.channels.len()
            invariant
                0 <= i <= self.channels.len(),
                self.inv(),
                forall|j: int| 0 <= j < i ==> self.channels@[j].id.0 != id,
            decreases self.channels.len() - i,
        {
            if self.channels[i].id.0 == id {
                proof {
                    self.lemma_channel_at(i as int);
                }
                return Some(i);
            }
            i = i + 1;
        }
        proof {
            assert forall|j: int| 0 <= j < channel_pairs(self.channels@).len() implies channel_pairs(self.channels@)[j].0 != id by {
                assert(channel_pairs(self.channels@)[j].0 == self.channels@[j].id.0);
            }
            lemma_assoc_absent(channel_pairs(self.channels@), id);
        }
        None
    }

    /// The user a nick key leads to.
    fn umap_get(&self, key: &[u8]) -> (r: Option<u64>)
        requires
            self.inv(),
        ensures
            match r {
                Some(id) => self@.user_map.contains_key(key@) && self@.user_map[key@] == id,
                None => !self@.user_map.contains_key(key@),
            },
    {
        let mut i: usize = 0;
        while i < self.user_map.len()
            invariant
                0 <= i <= self.user_map.len(),
                self.inv(),
                forall|j: int| 0 <= j < i ==> self.user_map@[j].0@ != key@,
            decreases self.user_map.len() - i,
        {
            if bytes_equal(self.user_map[i].0.key_bytes(), key) {
                proof {
                    assert(umap_pairs(self.user_map@)[i as int] == (self.user_map@[i as int].0@, self.user_map@[i as int].1.0));
                    lemma_assoc_index(umap_pairs(self.user_map@), i as int);
                }
                return Some(self.user_map[i].1.0);
            }
            i = i + 1;
        }
        proof {
            assert forall|j: int| 0 <= j < umap_pairs(self.user_map@).len() implies umap_pairs(self.user_map@)[j].0 != key@ by {
                assert(umap_pairs(self.user_map@)[j].0 == self.user_map@[j].0@);
            }
            lemma_assoc_absent(umap_pairs(self.user_map@), key@);
        }
        None
    }

    /// The channel a name key leads to.
    fn cmap_get(&self, key: &[u8]) -> (r: Option<u64>)
        requires
            self.inv(),
        ensures
            match r {
                Some(id) => self@.channel_map.contains_key(key@) && self@.channel_map[key@] == id,
                None => !self@.channel_map.contains_key(key@),
            },
    {
        let mut i: usize = 0;
        while i < self.channel_map.len()
            invariant
                0 <= i <= self.channel_map.len(),
                self.inv(),
                forall|j: int| 0 <= j < i ==> self.channel_map@[j].0@ != key@,
            decreases self.channel_map.len() - i,
        {
            if bytes_equal(self.channel_map[i].0.key_bytes(), key) {
                proof {
                    assert(cmap_pairs(self.channel_map@)[i as int] == (self.channel_map@[i as int].0@, self.channel_map@[i as int].1.0));
                    lemma_assoc_index(cmap_pairs(self.channel_map@), i as int);
                }
                return Some(self.channel_map[i].1.0);
            }
            i = i + 1;
        }
        proof {
            assert forall|j: int| 0 <= j < cmap_pairs(self.channel_map@).len() implies cmap_pairs(self.channel_map@)[j].0 != key@ by {
                assert(cmap_pairs(self.channel_map@)[j].0 == self.channel_map@[j].0@);
            }
            lemma_assoc_absent(cmap_pairs(self.channel_map@), key@);
        }
        None
    }
}

} // verus!

verus! {

impl State {
    /// Adds `cid` to the channels of user `i`.
    fn user_link(&mut self, i: usize, cid: u64)
        requires
            old(self).inv(),
            i < old(self).users@.len(),
        ensures
            final(self).inv(),
            final(self).users@.len() == old(self).users@.len(),
            final(self).users@[i as int].id == old(self).users@[i as int].id,
            final(self)@ == with_user(
                old(self)@,
                old(self).users@[i as int].id.0,
                UserView {
                    channels: old(self).users@[i as int]@.channels.insert(cid),
                    ..old(self).users@[i as int]@
                },
            ),
    {
        proof {
            self.lemma_user_at(i as int);
        }
        let ghost old_seq = self.users@;
        let mut u = self.users.remove(i);
        set_insert(&mut u.channels, cid);
        self.users.insert(i, u);
        proof {
            assert(self.users@ =~= old_seq.update(i as int, u));
            assert(user_pairs(self.users@) =~= user_pairs(old_seq).update(i as int, (user_pairs(old_seq)[i as int].0, u@)));
            lemma_assoc_update(user_pairs(old_seq), i as int, u@);
            assert forall|j: int| 0 <= j < self.users@.len() implies (#[trigger] self.users@[j]).channels@.no_duplicates() by {
                if j != i {
                    assert(self.users@[j] == old_seq[j]);
                }
            }
        }
    }

    /// Takes `cid` out of the channels of user `i`.
    fn user_unlink(&mut self, i: usize, cid: u64)
        requires
            old(self).inv(),
            i < old(self).users@.len(),
        ensures
            final(self).inv(),
            final(self).users@.len() == old(self).users@.len(),
            final(self).users@[i as int].id == old(self).users@[i as int].id,
            final(self)@ == with_user(
                old(self)@,
                old(self).users@[i as int].id.0,
                UserView {
                    channels: old(self).users@[i as int]@.channels.remove(cid),
                    ..old(self).users@[i as int]@
                },
            ),
    {
        proof {
            self.lemma_user_at(i as int);
        }
        let ghost old_seq = self.users@;
        let mut u = self.users.remove(i);
        set_remove(&mut u.channels, cid);
        self.users.insert(i, u);
        proof {
            assert(self.users@ =~= old_seq.update(i as int, u));
            assert(user_pairs(self.users@) =~= user_pairs(old_seq).update(i as int, (user_pairs(old_seq)[i as int].0, u@)));
            lemma_assoc_update(user_pairs(old_seq), i as int, u@);
            assert forall|j: int| 0 <= j < self.users@.len() implies (#[trigger] self.users@[j]).channels@.no_duplicates() by {
                if j != i {
                    assert(self.users@[j] == old_seq[j]);
                }
            }
        }
    }

    /// Replaces the prefix of user `i`.
    fn user_set_prefix(&mut self, i: usize, prefix: IrcMsgPrefix)
        requires
            old(self).inv(),
            i < old(self).users@.len(),
        ensures
            final(self).inv(),
            final(self)@ == with_user(
                old(self)@,
                old(self).users@[i as int].id.0,
                UserView { prefix: prefix@, ..old(self).users@[i as int]@ },
            ),
    {
        proof {
            self.lemma_user_at(i as int);
        }
        let ghost old_seq = self.users@;
        let mut u = self.users.remove(i);
        u.prefix = prefix;
        self.users.insert(i, u);
        proof {
            assert(self.users@ =~= old_seq.update(i as int, u));
            assert(user_pairs(self.users@) =~= user_pairs(old_seq).update(i as int, (user_pairs(old_seq)[i as int].0, u@)));
            lemma_assoc_update(user_pairs(old_seq), i as int, u@);
            assert forall|j: int| 0 <= j < self.users@.len() implies (#[trigger] self.users@[j]).channels@.no_duplicates() by {
                if j != i {
                    assert(self.users@[j] == old_seq[j]);
                }
            }
        }
    }

    /// Adds `uid` to the members of channel `i`.
    fn channel_link(&mut self, i: usize, uid: u64)
        requires
            old(self).inv(),
            i < old(self).channels@.len(),
        ensures
            final(self).inv(),
            final(self).channels@.len() == old(self).channels@.len(),
            final(self).channels@[i as int].id == old(self).channels@[i as int].id,
            final(self)@ == with_channel(
                old(self)@,
                old(self).channels@[i as int].id.0,
                ChannelView {
                    users: old(self).channels@[i as int]@.users.insert(uid),
                    ..old(self).channels@[i as int]@
                },
            ),
    {
        proof {
            self.lemma_channel_at(i as int);
        }
        let ghost old_seq = self.channels@;
        let mut c = self.channels.remove(i);
        set_insert(&mut c.users, uid);
        self.channels.insert(i, c);
        proof {
            assert(self.channels@ =~= old_seq.update(i as int, c));
            assert(channel_pairs(self.channels@) =~= channel_pairs(old_seq).update(i as int, (channel_pairs(old_seq)[i as int].0, c@)));
            lemma_assoc_update(channel_pairs(old_seq), i as int, c@);
            assert forall|j: int| 0 <= j < self.channels@.len() implies (#[trigger] self.channels@[j]).users@.no_duplicates() by {
                if j != i {
                    assert(self.channels@[j] == old_seq[j]);
                }
            }
        }
    }

    /// Takes `uid` out of the members of channel `i`.
    fn channel_unlink(&mut self, i: usize, uid: u64)
        requires
            old(self).inv(),
            i < old(self).channels@.len(),
        ensures
            final(self).inv(),
            final(self).channels@.len() == old(self).channels@.len(),
            final(self).channels@[i as int].id == old(self).channels@[i as int].id,
            final(self)@ == with_channel(
                old(self)@,
                old(self).channels@[i as int].id.0,
                ChannelView {
                    users: old(self).channels@[i as int]@.users.remove(uid),
                    ..old(self).channels@[i as int]@
                },
            ),
    {
        proof {
            self.lemma_channel_at(i as int);
        }
        let ghost old_seq = self.channels@;
        let mut c = self.channels.remove(i);
        set_remove(&mut c.users, uid);
        self.channels.insert(i, c);
        proof {
            assert(self.channels@ =~= old_seq.update(i as int, c));
            assert(channel_pairs(self.channels@) =~= channel_pairs(old_seq).update(i as int, (channel_pairs(old_seq)[i as int].0, c@)));
            lemma_assoc_update(channel_pairs(old_seq), i as int, c@);
            assert forall|j: int| 0 <= j < self.channels@.len() implies (#[trigger] self.channels@[j]).users@.no_duplicates() by {
                if j != i {
                    assert(self.channels@[j] == old_seq[j]);
                }
            }
        }
    }

    /// Replaces the topic of channel `i`.
    fn channel_set_topic(&mut self, i: usize, topic: String)
        requires
            old(self).inv(),
            i < old(self).channels@.len(),
        ensures
            final(self).inv(),
            final(self)@ == with_channel(
                old(self)@,
                old(self).channels@[i as int].id.0,
                ChannelView { topic: encode_utf8(topic@), ..old(self).channels@[i as int]@ },
            ),
    {
        proof {
            self.lemma_channel_at(i as int);
        }
        let ghost old_seq = self.channels@;
        let mut c = self.channels.remove(i);
        c.topic = topic;
        self.channels.insert(i, c);
        proof {
            assert(self.channels@ =~= old_seq.update(i as int, c));
            assert(channel_pairs(self.channels@) =~= channel_pairs(old_seq).update(i as int, (channel_pairs(old_seq)[i as int].0, c@)));
            lemma_assoc_update(channel_pairs(old_seq), i as int, c@);
            assert forall|j: int| 0 <= j < self.channels@.len() implies (#[trigger] self.channels@[j]).users@.no_duplicates() by {
                if j != i {
                    assert(self.channels@[j] == old_seq[j]);
                }
            }
        }
    }

    /// Adds a user under a new number, or replaces the one under that number.
    fn put_user(&mut self, u: User)
        requires
            old(self).inv(),
            u.channels@.no_duplicates(),
        ensures
            final(self).inv(),
            final(self)@ == with_user(old(self)@, u.id.0, u@),
    {
        match self.find_user(u.id.0) {
            Some(i) => {
                let ghost old_seq = self.users@;
                let ghost uv = u@;
                self.users.set(i, u);
                proof {
                    assert(user_pairs(self.users@) =~= user_pairs(old_seq).update(i as int, (user_pairs(old_seq)[i as int].0, uv)));
                    lemma_assoc_update(user_pairs(old_seq), i as int, uv);
                    assert forall|j: int| 0 <= j < self.users@.len() implies (#[trigger] self.users@[j]).channels@.no_duplicates() by {
                        if j != i {
                            assert(self.users@[j] == old_seq[j]);
                        }
                    }
                }
            },
            None => {
                let ghost old_seq = self.users@;
                let ghost uv = u@;
                let ghost key = u.id.0;
                self.users.push(u);
                proof {
                    assert(user_pairs(self.users@) =~= user_pairs(old_seq).push((key, uv)));
                    lemma_assoc_push(user_pairs(old_seq), key, uv);
                    assert forall|j: int| 0 <= j < self.users@.len() implies (#[trigger] self.users@[j]).channels@.no_duplicates() by {
                        if j < old_seq.len() {
                            assert(self.users@[j] == old_seq[j]);
                        }
                    }
                }
            },
        }
    }

    /// Adds a channel under a new number, or replaces the one under that number.
    fn put_channel(&mut self, c: Channel)
        requires
            old(self).inv(),
            c.users@.no_duplicates(),
        ensures
            final(self).inv(),
            final(self)@ == with_channel(old(self)@, c.id.0, c@),
    {
        match self.find_channel(c.id.0) {
            Some(i) => {
                let ghost old_seq = self.channels@;
                let ghost cv = c@;
                self.channels.set(i, c);
                proof {
                    assert(channel_pairs(self.channels@) =~= channel_pairs(old_seq).update(i as int, (channel_pairs(old_seq)[i as int].0, cv)));
                    lemma_assoc_update(channel_pairs(old_seq), i as int, cv);
                    assert forall|j: int| 0 <= j < self.channels@.len() implies (#[trigger] self.channels@[j]).users@.no_duplicates() by {
                        if j != i {
                            assert(self.channels@[j] == old_seq[j]);
                        }
                    }
                }
            },
            None => {
                let ghost old_seq = self.channels@;
                let ghost cv = c@;
                let ghost key = c.id.0;
                self.channels.push(c);
                proof {
                    assert(channel_pairs(self.channels@) =~= channel_pairs(old_seq).push((key, cv)));
                    lemma_assoc_push(channel_pairs(old_seq), key, cv);
                    assert forall|j: int| 0 <= j < self.channels@.len() implies (#[trigger] self.channels@[j]).users@.no_duplicates() by {
                        if j < old_seq.len() {
                            assert(self.channels@[j] == old_seq[j]);
                        }
                    }
                }
            },
        }
    }

    /// Forgets the user under a number.
    fn drop_user(&mut self, id: u64)
        requires
            old(self).inv(),
        ensures
            final(self).inv(),
            final(self)@ == (StateView { users: old(self)@.users.remove(id), ..old(self)@ }),
    {
        match self.find_user(id) {
            Some(i) => {
                let ghost old_seq = self.users@;
                self.users.remove(i);
                proof {
                    assert(user_pairs(self.users@) =~= user_pairs(old_seq).remove(i as int));
                    lemma_assoc_remove(user_pairs(old_seq), i as int);
                    assert forall|j: int| 0 <= j < self.users@.len() implies (#[trigger] self.users@[j]).channels@.no_duplicates() by {
                        if j < i {
                            assert(self.users@[j] == old_seq[j]);
                        } else {
                            assert(self.users@[j] == old_seq[j + 1]);
                        }
                    }
                }
            },
            None => {
                proof {
                    assert(self@.users.remove(id) =~= self@.users);
                }
            },
        }
    }

    /// Forgets the channel under a number.
    fn drop_channel(&mut self, id: u64)
        requires
            old(self).inv(),
        ensures
            final(self).inv(),
            final(self)@ == (StateView { channels: old(self)@.channels.remove(id), ..old(self)@ }),
    {
        match self.find_channel(id) {
            Some(i) => {
                let ghost old_seq = self.channels@;
                self.channels.remove(i);
                proof {
                    assert(channel_pairs(self.channels@) =~= channel_pairs(old_seq).remove(i as int));
                    lemma_assoc_remove(channel_pairs(old_seq), i as int);
                    assert forall|j: int| 0 <= j < self.channels@.len() implies (#[trigger] self.channels@[j]).users@.no_duplicates() by {
                        if j < i {
                            assert(self.channels@[j] == old_seq[j]);
                        } else {
                            assert(self.channels@[j] == old_seq[j + 1]);
                        }
                    }
                }
            },
            None => {
                proof {
                    assert(self@.channels.remove(id) =~= self@.channels);
                }
            },
        }
    }

    /// Points a nick key at a user, as a map insert does.
    fn umap_put(&mut self, key: IrcIdentifier, id: u64)
        requires
            old(self).inv(),
        ensures
            final(self).inv(),
            final(self)@ == (StateView { user_map: old(self)@.user_map.insert(key@, id), ..old(self)@ }),
    {
        let ghost old_seq = self.user_map@;
        let ghost k = key@;
        let mut i: usize = 0;
        while i < self.user_map.len()
            invariant
                0 <= i <= self.user_map.len(),
                self.inv(),
                self.user_map@ == old_seq,
                self@ == old(self)@,
                key@ == k,
                forall|j: int| 0 <= j < i ==> self.user_map@[j].0@ != k,
            decreases self.user_map.len() - i,
        {
            if bytes_equal(self.user_map[i].0.key_bytes(), key.key_bytes()) {
                self.user_map.set(i, (key, UserId(id)));
                proof {
                    assert(umap_pairs(self.user_map@) =~= umap_pairs(old_seq).update(i as int, (umap_pairs(old_seq)[i as int].0, id)));
                    lemma_assoc_update(umap_pairs(old_seq), i as int, id);
                }
                return;
            }
            i = i + 1;
        }
        proof {
            assert forall|j: int| 0 <= j < umap_pairs(old_seq).len() implies umap_pairs(old_seq)[j].0 != k by {
                assert(umap_pairs(old_seq)[j].0 == old_seq[j].0@);
            }
            lemma_assoc_absent(umap_pairs(old_seq), k);
        }
        self.user_map.push((key, UserId(id)));
        proof {
            assert(umap_pairs(self.user_map@) =~= umap_pairs(old_seq).push((k, id)));
            lemma_assoc_push(umap_pairs(old_seq), k, id);
        }
    }

    /// Removes a nick key.
    fn umap_take(&mut self, key: &[u8]) -> (r: Option<u64>)
        requires
            old(self).inv(),
        ensures
            final(self).inv(),
            final(self)@ == (StateView { user_map: old(self)@.user_map.remove(key@), ..old(self)@ }),
            r == (if old(self)@.user_map.contains_key(key@) { Some(old(self)@.user_map[key@]) } else { None::<u64> }),
    {
        let ghost old_seq = self.user_map@;
        let mut i: usize = 0;
        while i < self.user_map.len()
            invariant
                0 <= i <= self.user_map.len(),
                self.inv(),
                self.user_map@ == old_seq,
                self@ == old(self)@,
                forall|j: int| 0 <= j < i ==> self.user_map@[j].0@ != key@,
            decreases self.user_map.len() - i,
        {
            if bytes_equal(self.user_map[i].0.key_bytes(), key) {
                let id = self.user_map[i].1.0;
                proof {
                    assert(umap_pairs(old_seq)[i as int] == (old_seq[i as int].0@, old_seq[i as int].1.0));
                    lemma_assoc_index(umap_pairs(old_seq), i as int);
                }
                self.user_map.remove(i);
                proof {
                    assert(umap_pairs(self.user_map@) =~= umap_pairs(old_seq).remove(i as int));
                    lemma_assoc_remove(umap_pairs(old_seq), i as int);
                }
                return Some(id);
            }
            i = i + 1;
        }
        proof {
            assert forall|j: int| 0 <= j < umap_pairs(old_seq).len() implies umap_pairs(old_seq)[j].0 != key@ by {
                assert(umap_pairs(old_seq)[j].0 == old_seq[j].0@);
            }
            lemma_assoc_absent(umap_pairs(old_seq), key@);
            assert(self@.user_map.remove(key@) =~= self@.user_map);
        }
        None
    }

    /// Points a channel name key at a channel, as a map insert does.
    fn cmap_put(&mut self, key: IrcIdentifier, id: u64)
        requires
            old(self).inv(),
        ensures
            final(self).inv(),
            final(self)@ == (StateView { channel_map: old(self)@.channel_map.insert(key@, id), ..old(self)@ }),
    {
        let ghost old_seq = self.channel_map@;
        let ghost k = key@;
        let mut i: usize = 0;
        while i < self.channel_map.len()
            invariant
                0 <= i <= self.channel_map.len(),
                self.inv(),
                self.channel_map@ == old_seq,
                self@ == old(self)@,
                key@ == k,
                forall|j: int| 0 <= j < i ==> self.channel_map@[j].0@ != k,
            decreases self.channel_map.len() - i,
        {
            if bytes_equal(self.channel_map[i].0.key_bytes(), key.key_bytes()) {
                self.channel_map.set(i, (key, ChannelId(id)));
                proof {
                    assert(cmap_pairs(self.channel_map@) =~= cmap_pairs(old_seq).update(i as int, (cmap_pairs(old_seq)[i as int].0, id)));
                    lemma_assoc_update(cmap_pairs(old_seq), i as int, id);
                }
                return;
            }
            i = i + 1;
        }
        proof {
            assert forall|j: int| 0 <= j < cmap_pairs(old_seq).len() implies cmap_pairs(old_seq)[j].0 != k by {
                assert(cmap_pairs(old_seq)[j].0 == old_seq[j].0@);
            }
            lemma_assoc_absent(cmap_pairs(old_seq), k);
        }
        self.channel_map.push((key, ChannelId(id)));
        proof {
            assert(cmap_pairs(self.channel_map@) =~= cmap_pairs(old_seq).push((k, id)));
            lemma_assoc_push(cmap_pairs(old_seq), k, id);
        }
    }

    /// Removes a channel name key.
    fn cmap_take(&mut self, key: &[u8]) -> (r: Option<u64>)
        requires
            old(self).inv(),
        ensures
            final(self).inv(),
            final(self)@ == (StateView { channel_map: old(self)@.channel_map.remove(key@), ..old(self)@ }),
            r == (if old(self)@.channel_map.contains_key(key@) { Some(old(self)@.channel_map[key@]) } else { None::<u64> }),
    {
        let ghost old_seq = self.channel_map@;
        let mut i: usize = 0;
        while i < self.channel_map.len()
            invariant
                0 <= i <= self.channel_map.len(),
                self.inv(),
                self.channel_map@ == old_seq,
                self@ == old(self)@,
                forall|j: int| 0 <= j < i ==> self.channel_map@[j].0@ != key@,
            decreases self.channel_map.len() - i,
        {
            if bytes_equal(self.channel_map[i].0.key_bytes(), key) {
                let id = self.channel_map[i].1.0;
                proof {
                    assert(cmap_pairs(old_seq)[i as int] == (old_seq[i as int].0@, old_seq[i as int].1.0));
                    lemma_assoc_index(cmap_pairs(old_seq), i as int);
                }
                self.channel_map.remove(i);
                proof {
                    assert(cmap_pairs(self.channel_map@) =~= cmap_pairs(old_seq).remove(i as int));
                    lemma_assoc_remove(cmap_pairs(old_seq), i as int);
                }
                return Some(id);
            }
            i = i + 1;
        }
        proof {
            assert forall|j: int| 0 <= j < cmap_pairs(old_seq).len() implies cmap_pairs(old_seq)[j].0 != key@ by {
                assert(cmap_pairs(old_seq)[j].0 == old_seq[j].0@);
            }
            lemma_assoc_absent(cmap_pairs(old_seq), key@);
            assert(self@.channel_map.remove(key@) =~= self@.channel_map);
        }
        None
    }
}

} // verus!

verus! {

/// `s` holds `x` and nothing else.
pub open spec fn only(s: Set<u64>, x: u64) -> bool {
    s == Set::<u64>::empty().insert(x)
}

/// The key of the nick of a full prefix.
pub open spec fn nick_key(prefix: Seq<u8>) -> Seq<u8> {
    ident(prefix_nick(prefix)->Some_0)
}

/// Removing user `id` fails: it is ourselves, or its prefix has no nick,
/// or it names a channel we do not know, or its nick is not a key.
pub open spec fn remove_user_faults(v: StateView, id: u64) -> bool {
    ||| id == v.self_id
    ||| v.users.contains_key(id) && {
        let u = v.users[id];
        ||| prefix_nick(u.prefix) is None
        ||| (exists|c: u64| u.channels.contains(c) && !v.channels.contains_key(c))
        ||| !v.user_map.contains_key(nick_key(u.prefix))
    }
}

/// The channels, with `id` taken out of the members of those in `among`.
pub open spec fn drop_member(chs: Map<u64, ChannelView>, id: u64, among: Set<u64>) -> Map<u64, ChannelView> {
    Map::new(
        |c: u64| chs.contains_key(c),
        |c: u64| if among.contains(c) {
            ChannelView { users: chs[c].users.remove(id), ..chs[c] }
        } else {
            chs[c]
        },
    )
}

/// The users, with `id` taken out of the channels of those in `among`.
pub open spec fn drop_channel_of(us: Map<u64, UserView>, id: u64, among: Set<u64>) -> Map<u64, UserView> {
    Map::new(
        |u: u64| us.contains_key(u),
        |u: u64| if among.contains(u) {
            UserView { channels: us[u].channels.remove(id), ..us[u] }
        } else {
            us[u]
        },
    )
}

/// The state after removing user `id`: it leaves its channels, and its
/// nick key goes.
pub open spec fn after_remove_user(v: StateView, id: u64) -> StateView {
    if !v.users.contains_key(id) {
        v
    } else {
        let u = v.users[id];
        StateView {
            channels: drop_member(v.channels, id, u.channels),
            users: v.users.remove(id),
            user_map: v.user_map.remove(nick_key(u.prefix)),
            ..v
        }
    }
}

/// Removing channel `id` fails: one of its members is unknown.
pub open spec fn remove_channel_faults(v: StateView, id: u64) -> bool {
    v.channels.contains_key(id) && exists|u: u64| v.channels[id].users.contains(u) && !v.users.contains_key(u)
}

/// The state after removing channel `id`: its members leave it, and its
/// name key goes.
pub open spec fn after_remove_channel(v: StateView, id: u64) -> StateView {
    if !v.channels.contains_key(id) {
        v
    } else {
        let c = v.channels[id];
        StateView {
            users: drop_channel_of(v.users, id, c.users),
            channels: v.channels.remove(id),
            channel_map: v.channel_map.remove(ident(c.name)),
            ..v
        }
    }
}

/// A copy of a list of numbers.
fn copy_ids(v: &Vec<u64>) -> (r: Vec<u64>)
    ensures
        r@ == v@,
{
    let mut out: Vec<u64> = Vec::new();
    let mut i: usize = 0;
    while i < v.len()
        invariant
            0 <= i <= v.len(),
            out@ == v@.take(i as int),
        decreases v.len() - i,
    {
        out.push(v[i]);
        i = i + 1;
        proof {
            assert(out@ =~= v@.take(i as int));
        }
    }
    proof {
        assert(v@.take(v@.len() as int) =~= v@);
    }
    out
}

impl State {
    fn remove_user_by_id(&mut self, id: u64) -> (r: bool)
        requires
            old(self).inv(),
            !remove_user_faults(old(self)@, id),
        ensures
            final(self).inv(),
            r == old(self)@.users.contains_key(id),
            final(self)@ == after_remove_user(old(self)@, id),
    {
        if self.self_id.0 == id {
            proof {
                assert(false);
            }
        }
        let iu = match self.find_user(id) {
            Some(iu) => iu,
            None => {
                return false;
            },
        };
        let ghost v0 = self@;
        let ghost u = v0.users[id];
        let nick = IrcIdentifier::from_str(self.users[iu].prefix.nick().unwrap());
        let list = copy_ids(&self.users[iu].channels);
        proof {
            self.lemma_user_at(iu as int);
            assert(self.users@[iu as int].channels@.no_duplicates());
            assert(seq_set(list@) == u.channels);
            assert(list@.take(0) =~= Seq::<u64>::empty());
            assert(drop_member(v0.channels, id, seq_set(list@.take(0))) =~= v0.channels);
            assert(!remove_user_faults(v0, id));
        }
        let mut k: usize = 0;
        while k < list.len()
            invariant
                0 <= k <= list.len(),
                self.inv(),
                seq_set(list@) == u.channels,
                list@.no_duplicates(),
                v0.users.contains_key(id) && v0.users[id] == u,
                forall|c: u64| u.channels.contains(c) ==> v0.channels.contains_key(c),
                self@ == (StateView { channels: drop_member(v0.channels, id, seq_set(list@.take(k as int))), ..v0 }),
            decreases list.len() - k,
        {
            let cid = list[k];
            proof {
                assert(list@[k as int] == cid);
                assert(list@.contains(cid));
                assert(seq_set(list@).contains(cid));
                assert(v0.channels.contains_key(cid));
                assert(self@.channels.contains_key(cid));
            }
            let ic = self.find_channel(cid).unwrap();
            let ghost before = self@;
            self.channel_unlink(ic, id);
            proof {
                crate::assoc::lemma_seq_set_push(list@.take(k as int), cid);
                assert(list@.take(k + 1) =~= list@.take(k as int).push(cid));
                assert(!list@.take(k as int).contains(cid)) by {
                    if list@.take(k as int).contains(cid) {
                        let j = choose|j: int| 0 <= j < k && list@.take(k as int)[j] == cid;
                        assert(list@[j] == list@[k as int]);
                    }
                }
                assert(!seq_set(list@.take(k as int)).contains(cid));
                assert(before.channels[cid].users == v0.channels[cid].users);
                assert(self@.channels =~= drop_member(v0.channels, id, seq_set(list@.take(k + 1))));
            }
            k = k + 1;
        }
        proof {
            assert(list@.take(list@.len() as int) =~= list@);
        }
        self.drop_user(id);
        let key = nick.key_bytes();
        let removed = self.umap_take(key);
        proof {
            assert(self@ == after_remove_user(v0, id));
        }
        true
    }
}

} // verus!

verus! {

/// A vector of distinct numbers holds just `x` when it has one element,
/// `x`.
proof fn lemma_only(v: Seq<u64>, x: u64)
    requires
        v.no_duplicates(),
    ensures
        only(seq_set(v), x) == (v.len() == 1 && v[0] == x),
{
    if v.len() == 1 && v[0] == x {
        assert(seq_set(v) =~= Set::<u64>::empty().insert(x)) by {
            assert forall|y: u64| seq_set(v).contains(y) implies y == x by {
                let j = choose|j: int| 0 <= j < v.len() && v[j] == y;
            }
            assert(v.contains(x));
        }
    }
    if only(seq_set(v), x) {
        assert(seq_set(v).contains(x));
        assert(v.len() >= 1);
        assert forall|j: int| 0 <= j < v.len() implies v[j] == x by {
            assert(v.contains(v[j]));
            assert(seq_set(v).contains(v[j]));
        }
        if v.len() > 1 {
            assert(v[0] == v[1]);
        }
    }
}

impl State {
    fn remove_channel_by_id(&mut self, id: u64) -> (r: bool)
        requires
            old(self).inv(),
            !remove_channel_faults(old(self)@, id),
        ensures
            final(self).inv(),
            r == old(self)@.channels.contains_key(id),
            final(self)@ == after_remove_channel(old(self)@, id),
    {
        let ic = match self.find_channel(id) {
            Some(ic) => ic,
            None => {
                return false;
            },
        };
        let ghost v0 = self@;
        let ghost c = v0.channels[id];
        proof {
            self.lemma_channel_at(ic as int);
        }
        let name = IrcIdentifier::from_str(self.channels[ic].name.as_str());
        let list = copy_ids(&self.channels[ic].users);
        proof {
            assert(self.channels@[ic as int].users@.no_duplicates());
            assert(seq_set(list@) == c.users);
            assert(list@.take(0) =~= Seq::<u64>::empty());
            assert(drop_channel_of(v0.users, id, seq_set(list@.take(0))) =~= v0.users);
            assert(!remove_channel_faults(v0, id));
        }
        let mut k: usize = 0;
        while k < list.len()
            invariant
                0 <= k <= list.len(),
                self.inv(),
                seq_set(list@) == c.users,
                list@.no_duplicates(),
                forall|u: u64| c.users.contains(u) ==> v0.users.contains_key(u),
                self@ == (StateView { users: drop_channel_of(v0.users, id, seq_set(list@.take(k as int))), ..v0 }),
            decreases list.len() - k,
        {
            let uid = list[k];
            proof {
                assert(list@[k as int] == uid);
                assert(list@.contains(uid));
                assert(seq_set(list@).contains(uid));
                assert(self@.users.contains_key(uid));
            }
            let iu = self.find_user(uid).unwrap();
            let ghost before = self@;
            self.user_unlink(iu, id);
            proof {
                crate::assoc::lemma_seq_set_push(list@.take(k as int), uid);
                assert(list@.take(k + 1) =~= list@.take(k as int).push(uid));
                assert(!list@.take(k as int).contains(uid)) by {
                    if list@.take(k as int).contains(uid) {
                        let j = choose|j: int| 0 <= j < k && list@.take(k as int)[j] == uid;
                        assert(list@[j] == list@[k as int]);
                    }
                }
                assert(before.users[uid].channels == v0.users[uid].channels);
                assert(self@.users =~= drop_channel_of(v0.users, id, seq_set(list@.take(k + 1))));
            }
            k = k + 1;
        }
        proof {
            assert(list@.take(list@.len() as int) =~= list@);
        }
        self.drop_channel(id);
        let _ = self.cmap_take(name.key_bytes());
        true
    }

    /// The user leaves the channel; a user left in no channel is forgotten,
    /// and a channel left with nobody else is forgotten too.
    fn unlink_user_channel(&mut self, uid: u64, chid: u64)
        requires
            old(self).inv(),
            !unlink_faults(old(self)@, uid, chid),
        ensures
            final(self).inv(),
            final(self)@ == after_unlink(old(self)@, uid, chid),
    {
        let iu = self.find_user(uid).unwrap();
        proof {
            self.lemma_user_at(iu as int);
            lemma_only(self.users@[iu as int].channels@, chid);
        }
        let should_remove = self.users[iu].channels.len() == 1 && self.users[iu].channels[0] == chid;
        if should_remove {
            self.remove_user_by_id(uid);
        } else {
            self.user_unlink(iu, chid);
        }
        let ic = self.find_channel(chid).unwrap();
        proof {
            self.lemma_channel_at(ic as int);
            lemma_only(self.channels@[ic as int].users@, uid);
        }
        let should_remove = self.channels[ic].users.len() == 1 && self.channels[ic].users[0] == uid;
        if should_remove {
            self.remove_channel_by_id(chid);
        } else {
            self.channel_unlink(ic, uid);
        }
    }
}

/// The state after the user leaves the channel on its side.
pub open spec fn unlink_user_side(v: StateView, uid: u64, chid: u64) -> StateView {
    if only(v.users[uid].channels, chid) {
        after_remove_user(v, uid)
    } else {
        with_user(v, uid, UserView { channels: v.users[uid].channels.remove(chid), ..v.users[uid] })
    }
}

/// The state after the user leaves the channel.
pub open spec fn after_unlink(v: StateView, uid: u64, chid: u64) -> StateView {
    let w = unlink_user_side(v, uid, chid);
    if only(w.channels[chid].users, uid) {
        after_remove_channel(w, chid)
    } else {
        with_channel(w, chid, ChannelView { users: w.channels[chid].users.remove(uid), ..w.channels[chid] })
    }
}

/// Leaving fails: the user or the channel is unknown, or removing the user
/// or the channel fails.
pub open spec fn unlink_faults(v: StateView, uid: u64, chid: u64) -> bool {
    ||| !v.users.contains_key(uid)
    ||| only(v.users[uid].channels, chid) && remove_user_faults(v, uid)
    ||| {
        let w = unlink_user_side(v, uid, chid);
        ||| !w.channels.contains_key(chid)
        ||| only(w.channels[chid].users, uid) && remove_channel_faults(w, chid)
    }
}

} // verus!

verus! {

/// A member leaves: nothing happens unless both the channel and the user
/// are known.
pub open spec fn after_leave(v: StateView, cname: Seq<u8>, nick: Seq<u8>) -> StateView {
    let cn = ident(cname);
    let un = ident(nick);
    if v.channel_map.contains_key(cn) && v.user_map.contains_key(un) {
        after_unlink(v, v.user_map[un], v.channel_map[cn])
    } else {
        v
    }
}

pub open spec fn leave_faults(v: StateView, cname: Seq<u8>, nick: Seq<u8>) -> bool {
    let cn = ident(cname);
    let un = ident(nick);
    v.channel_map.contains_key(cn) && v.user_map.contains_key(un) && unlink_faults(
        v,
        v.user_map[un],
        v.channel_map[cn],
    )
}

/// We leave a channel: it is forgotten.
pub open spec fn after_self_part(v: StateView, cname: Seq<u8>) -> StateView {
    after_remove_channel(v, v.channel_map[ident(cname)])
}

pub open spec fn self_part_faults(v: StateView, cname: Seq<u8>) -> bool {
    let cn = ident(cname);
    ||| !v.channel_map.contains_key(cn)
    ||| !v.channels.contains_key(v.channel_map[cn])
    ||| remove_channel_faults(v, v.channel_map[cn])
}

/// A user quits: it is forgotten.
pub open spec fn after_quit(v: StateView, nick: Seq<u8>) -> StateView {
    after_remove_user(v, v.user_map[ident(nick)])
}

pub open spec fn quit_faults(v: StateView, nick: Seq<u8>) -> bool {
    let un = ident(nick);
    ||| !v.user_map.contains_key(un)
    ||| !v.users.contains_key(v.user_map[un])
    ||| remove_user_faults(v, v.user_map[un])
}

/// The number a joining user gets: the one its nick leads to, or the next
/// free number.
pub open spec fn joiner_id(v: StateView, nick: Seq<u8>) -> u64 {
    if v.user_map.contains_key(ident(nick)) {
        v.user_map[ident(nick)]
    } else {
        v.user_seq
    }
}

/// The state once the joining user is known.
pub open spec fn with_joiner(v: StateView, nick: Seq<u8>, prefix: Seq<u8>) -> StateView {
    if v.user_map.contains_key(ident(nick)) {
        v
    } else {
        StateView {
            user_seq: (v.user_seq + 1) as u64,
            users: v.users.insert(v.user_seq, UserView { prefix: prefix, channels: Set::empty() }),
            user_map: v.user_map.insert(ident(nick), v.user_seq),
            ..v
        }
    }
}

/// Someone else joins a channel we are in: the user is known from then on,
/// and is a member of the channel.
pub open spec fn after_other_join(v: StateView, cname: Seq<u8>, nick: Seq<u8>, prefix: Seq<u8>) -> StateView {
    let cid = v.channel_map[ident(cname)];
    let uid = joiner_id(v, nick);
    let v1 = with_joiner(v, nick, prefix);
    let v2 = with_user(v1, uid, UserView { channels: v1.users[uid].channels.insert(cid), ..v1.users[uid] });
    with_channel(v2, cid, ChannelView { users: v2.channels[cid].users.insert(uid), ..v2.channels[cid] })
}

pub open spec fn other_join_faults(v: StateView, cname: Seq<u8>, nick: Seq<u8>) -> bool {
    let cn = ident(cname);
    ||| !v.channel_map.contains_key(cn)
    ||| !v.user_map.contains_key(ident(nick)) && v.user_seq == u64::MAX
    ||| !with_joiner(v, nick, Seq::empty()).users.contains_key(joiner_id(v, nick))
    ||| !v.channels.contains_key(v.channel_map[cn])
}

/// A new topic for a channel we are in.
pub open spec fn after_topic(v: StateView, cname: Seq<u8>, body: Seq<u8>) -> StateView {
    let cid = v.channel_map[ident(cname)];
    with_channel(v, cid, ChannelView { topic: encode_utf8(crate::text::utf8_lossy(body)), ..v.channels[cid] })
}

pub open spec fn topic_faults(v: StateView, cname: Seq<u8>) -> bool {
    let cn = ident(cname);
    !v.channel_map.contains_key(cn) || !v.channels.contains_key(v.channel_map[cn])
}

/// A prefix with its nick replaced.
pub open spec fn renamed_prefix(prefix: Seq<u8>, new_nick: Seq<u8>) -> Seq<u8> {
    new_nick + seq![0x21u8] + crate::parse::parse::prefix_user(prefix).unwrap() + seq![0x40u8]
        + crate::parse::parse::prefix_host(prefix)
}

/// A user changes nick: the prefix follows, and so does the key when it
/// changes.
pub open spec fn after_nick(v: StateView, nick: Seq<u8>, new_nick: Seq<u8>) -> StateView {
    let uid = v.user_map[ident(nick)];
    let u = v.users[uid];
    let p = renamed_prefix(u.prefix, new_nick);
    let prev = nick_key(u.prefix);
    let next = nick_key(p);
    let v1 = with_user(v, uid, UserView { prefix: p, ..u });
    if prev != next {
        StateView { user_map: v1.user_map.remove(prev).insert(next, uid), ..v1 }
    } else {
        v1
    }
}

pub open spec fn nick_faults(v: StateView, nick: Seq<u8>) -> bool {
    let un = ident(nick);
    ||| !v.user_map.contains_key(un)
    ||| !v.users.contains_key(v.user_map[un])
    ||| prefix_marks(v.users[v.user_map[un]].prefix) is None
}

impl State {
    pub fn new() -> (r: State)
        ensures
            r.inv(),
            r@.user_seq == 1,
            r@.channel_seq == 0,
            r@.self_nick == Seq::<u8>::empty(),
            r@.self_id == 0,
            r@.user_map == Map::<Seq<u8>, u64>::empty(),
            r@.users == Map::<u64, UserView>::empty(),
            r@.channel_map == Map::<Seq<u8>, u64>::empty(),
            r@.channels == Map::<u64, ChannelView>::empty(),
            r@.generation == 0,
            state_valid(r@),
            numbers_fresh(r@),
    {
        let r = State {
            user_seq: 1,
            channel_seq: 0,
            self_nick: String::new(),
            self_id: UserId(0),
            user_map: Vec::new(),
            users: Vec::new(),
            channel_map: Vec::new(),
            channels: Vec::new(),
            generation: 0,
        };
        proof {
            assert(r@.user_map =~= Map::<Seq<u8>, u64>::empty());
            assert(r@.users =~= Map::<u64, UserView>::empty());
            assert(r@.channel_map =~= Map::<Seq<u8>, u64>::empty());
            assert(r@.channels =~= Map::<u64, ChannelView>::empty());
            assert(r.self_nick@ =~= Seq::<char>::empty());
            assert(encode_utf8(Seq::<char>::empty()) =~= Seq::<u8>::empty()) by {
                crate::text::lemma_decode_encode(Seq::<u8>::empty());
                crate::parse::compose::lemma_ascii_utf8(Seq::<u8>::empty());
            }
        }
        r
    }

    fn leave(&mut self, cname: &str, nick: &str)
        requires
            old(self).inv(),
            !leave_faults(old(self)@, cname.spec_bytes(), nick.spec_bytes()),
        ensures
            final(self).inv(),
            final(self)@ == after_leave(old(self)@, cname.spec_bytes(), nick.spec_bytes()),
    {
        let channel_name = IrcIdentifier::from_str(cname);
        let user_nick = IrcIdentifier::from_str(nick);
        let chan_id = match self.cmap_get(channel_name.key_bytes()) {
            Some(id) => id,
            None => {
                return;
            },
        };
        let user_id = match self.umap_get(user_nick.key_bytes()) {
            Some(id) => id,
            None => {
                return;
            },
        };
        self.unlink_user_channel(user_id, chan_id);
    }

    fn on_other_part(&mut self, part: &crate::message_types::server::Part)
        requires
            old(self).inv(),
            !leave_faults(old(self)@, arg_bytes(part@, 0), crate::message_types::server::bang_nick(part@)),
        ensures
            final(self).inv(),
            final(self)@ == after_leave(old(self)@, arg_bytes(part@, 0), crate::message_types::server::bang_nick(part@)),
    {
        self.leave(part.get_channel(), part.get_nick());
    }

    fn on_kick(&mut self, kick: &crate::message_types::server::Kick)
        requires
            old(self).inv(),
            !leave_faults(old(self)@, arg_bytes(kick@, 0), arg_bytes(kick@, 1)),
        ensures
            final(self).inv(),
            final(self)@ == after_leave(old(self)@, arg_bytes(kick@, 0), arg_bytes(kick@, 1)),
    {
        self.leave(kick.get_channel(), kick.get_kicked_nick());
    }

    fn remove_channel_by_name(&mut self, name: &str) -> (r: Option<u64>)
        requires
            old(self).inv(),
            !self_part_faults(old(self)@, name.spec_bytes()),
        ensures
            final(self).inv(),
            final(self)@ == after_self_part(old(self)@, name.spec_bytes()),
            r == Some(old(self)@.channel_map[ident(name.spec_bytes())]),
    {
        let key = IrcIdentifier::from_str(name);
        let chan_id = self.cmap_get(key.key_bytes()).unwrap();
        let removed = self.remove_channel_by_id(chan_id);
        Some(chan_id)
    }

    fn on_self_part(&mut self, part: &crate::message_types::server::Part)
        requires
            old(self).inv(),
            !self_part_faults(old(self)@, arg_bytes(part@, 0)),
        ensures
            final(self).inv(),
            final(self)@ == after_self_part(old(self)@, arg_bytes(part@, 0)),
    {
        let _ = self.remove_channel_by_name(part.get_channel());
    }

    fn remove_user_by_nick(&mut self, name: &str) -> (r: Option<u64>)
        requires
            old(self).inv(),
            !quit_faults(old(self)@, name.spec_bytes()),
        ensures
            final(self).inv(),
            final(self)@ == after_quit(old(self)@, name.spec_bytes()),
            r == Some(old(self)@.user_map[ident(name.spec_bytes())]),
    {
        let key = IrcIdentifier::from_str(name);
        let user_id = self.umap_get(key.key_bytes()).unwrap();
        let removed = self.remove_user_by_id(user_id);
        Some(user_id)
    }

    fn on_other_quit(&mut self, quit: &crate::message_types::server::Quit)
        requires
            old(self).inv(),
            crate::message_types::server::has_bang(quit@),
            !quit_faults(old(self)@, crate::message_types::server::bang_nick(quit@)),
        ensures
            final(self).inv(),
            final(self)@ == after_quit(old(self)@, crate::message_types::server::bang_nick(quit@)),
    {
        let _ = self.remove_user_by_nick(quit.get_nick());
    }

    fn on_other_join(&mut self, join: &crate::message_types::server::Join)
        requires
            old(self).inv(),
            !other_join_faults(old(self)@, arg_bytes(join@, 0), crate::message_types::server::bang_nick(join@)),
        ensures
            final(self).inv(),
            final(self)@ == after_other_join(old(self)@, arg_bytes(join@, 0), crate::message_types::server::bang_nick(join@), prefix_bytes(join@)),
    {
        let ghost v0 = self@;
        let channel_name = IrcIdentifier::from_str(join.get_channel());
        let user_nick = IrcIdentifier::from_str(join.get_nick());
        let chan_id = self.cmap_get(channel_name.key_bytes()).unwrap();
        let user_id = match self.umap_get(user_nick.key_bytes()) {
            Some(id) => id,
            None => {
                let new_id = self.user_seq;
                self.user_seq = self.user_seq + 1;
                let user = User {
                    id: UserId(new_id),
                    prefix: join.to_irc_msg().get_prefix().to_owned(),
                    channels: Vec::new(),
                };
                proof {
                    assert(user@.channels =~= Set::<u64>::empty());
                }
                self.put_user(user);
                self.umap_put(user_nick, new_id);
                new_id
            },
        };
        let iu = self.find_user(user_id).unwrap();
        self.user_link(iu, chan_id);
        let ic = self.find_channel(chan_id).unwrap();
        self.channel_link(ic, user_id);
    }

    fn on_topic(&mut self, topic: &crate::message_types::server::Topic)
        requires
            old(self).inv(),
            !topic_faults(old(self)@, arg_bytes(topic@, 0)),
        ensures
            final(self).inv(),
            final(self)@ == after_topic(old(self)@, arg_bytes(topic@, 0), arg_bytes(topic@, 1)),
    {
        let key = IrcIdentifier::from_str(topic.get_channel());
        let chan_id = self.cmap_get(key.key_bytes()).unwrap();
        let ic = self.find_channel(chan_id).unwrap();
        let text = crate::text::string_from_utf8_lossy(topic.get_body_raw());
        self.channel_set_topic(ic, text);
    }

    fn on_nick(&mut self, nick: &crate::message_types::server::Nick)
        requires
            old(self).inv(),
            !nick_faults(old(self)@, crate::message_types::server::bang_nick(nick@)),
        ensures
            final(self).inv(),
            final(self)@ == after_nick(old(self)@, crate::message_types::server::bang_nick(nick@), arg_bytes(nick@, 0)),
    {
        let key = IrcIdentifier::from_str(nick.get_nick());
        let user_id = self.umap_get(key.key_bytes()).unwrap();
        let iu = self.find_user(user_id).unwrap();
        let prev_nick = IrcIdentifier::from_str(self.users[iu].prefix.nick().unwrap());
        let new_prefix = self.users[iu].prefix.with_nick(nick.get_new_nick()).unwrap();
        proof {
            lemma_renamed_has_nick(self.users@[iu as int]@.prefix, arg_bytes(nick@, 0));
        }
        let new_nick = IrcIdentifier::from_str(new_prefix.nick().unwrap());
        self.user_set_prefix(iu, new_prefix);
        if !bytes_equal(prev_nick.key_bytes(), new_nick.key_bytes()) {
            let _ = self.umap_take(prev_nick.key_bytes());
            self.umap_put(new_nick, user_id);
        }
    }
}

/// A renamed prefix is still of the form `nick!user@host`.
proof fn lemma_renamed_has_nick(prefix: Seq<u8>, new_nick: Seq<u8>)
    requires
        prefix_marks(prefix) is Some,
    ensures
        prefix_marks(renamed_prefix(prefix, new_nick)) is Some,
{
    let p = renamed_prefix(prefix, new_nick);
    let user = crate::parse::parse::prefix_user(prefix).unwrap();
    let at = (new_nick.len() + 1 + user.len()) as int;
    assert(p[new_nick.len() as int] == 0x21u8);
    assert(p[at] == 0x40u8);
    lemma_find(p, 0x21, 0);
    let e = spec_find(p, 0x21, 0)->Some_0;
    assert(e <= new_nick.len());
    lemma_find(p, 0x40, e + 1);
}

} // verus!

verus! {

/// Our nick changes; its key is moved to the new nick once we have one.
pub open spec fn after_set_self_nick(v: StateView, new_nick: Seq<u8>) -> StateView {
    let v1 = if v.self_nick != Seq::<u8>::empty() {
        let uid = v.user_map[ident(v.self_nick)];
        StateView { user_map: v.user_map.remove(ident(v.self_nick)).insert(ident(new_nick), uid), ..v }
    } else {
        v
    };
    StateView { self_nick: new_nick, ..v1 }
}

pub open spec fn set_self_nick_faults(v: StateView) -> bool {
    v.self_nick != Seq::<u8>::empty() && !v.user_map.contains_key(ident(v.self_nick))
}

/// `!someone@somewhere`: the user and host we give ourselves.
pub open spec fn self_prefix_tail() -> Seq<u8> {
    seq![0x21u8, 0x73, 0x6f, 0x6d, 0x65, 0x6f, 0x6e, 0x65, 0x40, 0x73, 0x6f, 0x6d, 0x65, 0x77, 0x68, 0x65, 0x72, 0x65]
}

/// The welcome reply names us: we become a known user under our own number.
pub open spec fn after_init_self(v: StateView, nick: Seq<u8>) -> StateView {
    let v1 = StateView {
        user_map: v.user_map.insert(ident(nick), v.self_id),
        users: v.users.insert(v.self_id, UserView { prefix: nick + self_prefix_tail(), channels: Set::empty() }),
        ..v
    };
    after_set_self_nick(v1, nick)
}

pub open spec fn init_self_faults(v: StateView, nick: Seq<u8>) -> bool {
    set_self_nick_faults(StateView { user_map: v.user_map.insert(ident(nick), v.self_id), ..v })
}

/// We joined a channel: unless its name is already known, it is known from
/// now on under the next channel number, with its topic and no members.
pub open spec fn after_self_join(v: StateView, channel: Seq<u8>, topic: Seq<u8>) -> StateView {
    if v.channel_map.contains_key(ident(channel)) {
        v
    } else {
        StateView {
            channel_seq: (v.channel_seq + 1) as u64,
            channels: v.channels.insert(v.channel_seq, ChannelView { name: channel, topic: topic, users: Set::empty() }),
            channel_map: v.channel_map.insert(ident(channel), v.channel_seq),
            ..v
        }
    }
}

/// The topic text of a join result.
pub open spec fn join_topic(join: &crate::watchers::join::JoinSuccess) -> Seq<u8> {
    match join.topic {
        Some(t) => t.text@,
        None => Seq::empty(),
    }
}

pub open spec fn self_join_faults(v: StateView, join: &crate::watchers::join::JoinSuccess) -> bool {
    ||| !valid_utf8(join.channel@)
    ||| !v.channel_map.contains_key(ident(join.channel@)) && (v.channel_seq == u64::MAX || !valid_utf8(join_topic(join)))
}

impl State {
    /// Our nick.
    pub fn get_self_nick(&self) -> (r: &str)
        ensures
            r.spec_bytes() == self@.self_nick,
    {
        self.self_nick.as_str()
    }

    /// Changes our nick; the key of our user follows once we had a nick.
    pub fn set_self_nick(&mut self, new_nick_str: &str)
        requires
            old(self).inv(),
            !set_self_nick_faults(old(self)@),
        ensures
            final(self).inv(),
            final(self)@ == after_set_self_nick(old(self)@, new_nick_str.spec_bytes()),
    {
        let new_nick = IrcIdentifier::from_str(new_nick_str);
        let old_nick = IrcIdentifier::from_str(self.self_nick.as_str());
        let current: &str = self.self_nick.as_str();
        let current_empty = current.is_empty();
        if !current_empty {
            proof {
                if self@.self_nick =~= Seq::<u8>::empty() {
                    crate::text::lemma_decode_encode(Seq::<u8>::empty());
                    crate::parse::compose::lemma_ascii_utf8(Seq::<u8>::empty());
                    encode_utf8_decode_utf8(current@);
                    assert(current@ =~= decode_utf8(Seq::<u8>::empty()));
                    assert(decode_utf8(Seq::<u8>::empty()) =~= Seq::<char>::empty());
                }
            }
            let user_id = self.umap_take(old_nick.key_bytes()).unwrap();
            self.umap_put(new_nick, user_id);
        } else {
            proof {
                assert(current@ =~= Seq::<char>::empty());
                crate::text::lemma_decode_encode(Seq::<u8>::empty());
                crate::parse::compose::lemma_ascii_utf8(Seq::<u8>::empty());
                assert(decode_utf8(Seq::<u8>::empty()) =~= Seq::<char>::empty());
                assert(self@.self_nick =~= Seq::<u8>::empty());
            }
        }
        self.self_nick = str_to_string(new_nick_str);
        proof {
            encode_utf8_decode_utf8(new_nick_str@);
        }
    }

    fn initialize_self_nick(&mut self, new_nick_str: &str)
        requires
            old(self).inv(),
            !init_self_faults(old(self)@, new_nick_str.spec_bytes()),
        ensures
            final(self).inv(),
            final(self)@ == after_init_self(old(self)@, new_nick_str.spec_bytes()),
    {
        let new_nick = IrcIdentifier::from_str(new_nick_str);
        let self_id = self.self_id.0;
        self.umap_put(new_nick, self_id);
        let mut prefix_bytes: Vec<u8> = Vec::new();
        crate::text::push_bytes(&mut prefix_bytes, str_bytes(new_nick_str));
        let tail = crate::parse::compose::vec_from_array([0x21u8, 0x73, 0x6f, 0x6d, 0x65, 0x6f, 0x6e, 0x65, 0x40, 0x73, 0x6f, 0x6d, 0x65, 0x77, 0x68, 0x65, 0x72, 0x65]);
        crate::text::push_bytes(&mut prefix_bytes, tail.as_slice());
        proof {
            crate::parse::compose::lemma_ascii_utf8(self_prefix_tail());
            encode_utf8_valid_utf8(new_nick_str@);
            crate::text::lemma_concat_utf8(new_nick_str.spec_bytes(), self_prefix_tail());
            assert(prefix_bytes@ =~= new_nick_str.spec_bytes() + self_prefix_tail());
            lemma_decode_encode(prefix_bytes@);
        }
        let user = User {
            id: UserId(self_id),
            prefix: IrcMsgPrefix::new(into_text(prefix_bytes)),
            channels: Vec::new(),
        };
        proof {
            assert(user@.channels =~= Set::<u64>::empty());
        }
        self.put_user(user);
        self.set_self_nick(new_nick_str);
    }

    fn on_self_join(&mut self, join: &crate::watchers::join::JoinSuccess)
        requires
            old(self).inv(),
            !self_join_faults(old(self)@, join),
        ensures
            final(self).inv(),
            final(self)@ == after_self_join(old(self)@, join.channel@, join_topic(join)),
    {
        let channel_name = as_text(join.channel.as_slice());
        let key = IrcIdentifier::from_str(channel_name);
        if self.cmap_get(key.key_bytes()).is_some() {
            return;
        }
        let new_chan_id = self.channel_seq;
        self.channel_seq = self.channel_seq + 1;
        let channel = Channel::from_info(&ChannelInfo::from_join(ChannelId(new_chan_id), join));
        self.put_channel(channel);
        self.cmap_put(key, new_chan_id);
    }

    /// The number a channel name leads to.
    pub fn identify_channel(&self, chan: &str) -> (r: Option<ChannelId>)
        requires
            self.inv(),
        ensures
            r is Some == self@.channel_map.contains_key(ident(chan.spec_bytes())),
            r matches Some(id) ==> id.0 == self@.channel_map[ident(chan.spec_bytes())],
    {
        let key = IrcIdentifier::from_str(chan);
        match self.cmap_get(key.key_bytes()) {
            Some(id) => Some(ChannelId(id)),
            None => None,
        }
    }

    /// The channel under a number.
    pub fn resolve_channel(&self, chid: ChannelId) -> (r: Option<&Channel>)
        requires
            self.inv(),
        ensures
            r is Some == self@.channels.contains_key(chid.0),
            r matches Some(c) ==> c@ == self@.channels[chid.0] && c.user_list().no_duplicates(),
    {
        match self.find_channel(chid.0) {
            Some(i) => Some(&self.channels[i]),
            None => None,
        }
    }

    /// The number a nick leads to.
    pub fn identify_nick(&self, nick: &str) -> (r: Option<UserId>)
        requires
            self.inv(),
        ensures
            r is Some == self@.user_map.contains_key(ident(nick.spec_bytes())),
            r matches Some(id) ==> id.0 == self@.user_map[ident(nick.spec_bytes())],
    {
        let key = IrcIdentifier::from_str(nick);
        match self.umap_get(key.key_bytes()) {
            Some(id) => Some(UserId(id)),
            None => None,
        }
    }

    /// The user under a number.
    pub fn resolve_user(&self, uid: UserId) -> (r: Option<&User>)
        requires
            self.inv(),
        ensures
            r is Some == self@.users.contains_key(uid.0),
            r matches Some(u) ==> u@ == self@.users[uid.0] && u.channel_list().no_duplicates(),
    {
        match self.find_user(uid.0) {
            Some(i) => Some(&self.users[i]),
            None => None,
        }
    }
}

} // verus!

verus! {

/// The numbers the users of a `WHO` listing get, in order, and the new users
/// among them with their prefixes; `next` is the next free number after.
pub struct WhoPlan {
    pub ids: Seq<u64>,
    pub news: Seq<(u64, Seq<u8>)>,
    pub next: int,
}

pub open spec fn who_plan(um: Map<Seq<u8>, u64>, seq0: int, recs: Seq<crate::watchers::who::WhoRecordView>) -> WhoPlan
    decreases recs.len(),
{
    if recs.len() == 0 {
        WhoPlan { ids: Seq::empty(), news: Seq::empty(), next: seq0 }
    } else {
        let p = who_plan(um, seq0, recs.drop_last());
        let r = recs.last();
        let key = ident(encode_utf8(r.nick));
        if um.contains_key(key) {
            WhoPlan { ids: p.ids.push(um[key]), ..p }
        } else {
            WhoPlan {
                ids: p.ids.push(p.next as u64),
                news: p.news.push((p.next as u64, crate::watchers::who::record_prefix(r))),
                next: p.next + 1,
            }
        }
    }
}

pub proof fn lemma_plan_mono(um: Map<Seq<u8>, u64>, seq0: int, recs: Seq<crate::watchers::who::WhoRecordView>, i: int)
    requires
        0 <= i <= recs.len(),
    ensures
        seq0 <= who_plan(um, seq0, recs.take(i)).next <= who_plan(um, seq0, recs).next,
    decreases recs.len(),
{
    if i < recs.len() {
        lemma_plan_mono(um, seq0, recs.drop_last(), i);
        assert(recs.drop_last().take(i) =~= recs.take(i));
    } else {
        assert(recs.take(i) =~= recs);
    }
    if recs.len() > 0 {
        lemma_plan_mono(um, seq0, recs.drop_last(), recs.len() - 1);
        assert(recs.drop_last().take(recs.len() - 1) =~= recs.drop_last());
    }
}

/// The state after adding the new users one after another.
pub open spec fn insert_news(v: StateView, news: Seq<(u64, Seq<u8>)>) -> StateView
    decreases news.len(),
{
    if news.len() == 0 {
        v
    } else {
        let w = insert_news(v, news.drop_last());
        let (id, p) = news.last();
        StateView {
            users: w.users.insert(id, UserView { prefix: p, channels: Set::empty() }),
            user_map: w.user_map.insert(nick_key(p), id),
            ..w
        }
    }
}

/// Adding a user fails when its number or its nick key is taken.
pub open spec fn insert_news_faults(v: StateView, news: Seq<(u64, Seq<u8>)>) -> bool
    decreases news.len(),
{
    if news.len() == 0 {
        false
    } else {
        let w = insert_news(v, news.drop_last());
        let (id, p) = news.last();
        ||| insert_news_faults(v, news.drop_last())
        ||| w.users.contains_key(id)
        ||| prefix_nick(p) is None
        ||| w.user_map.contains_key(nick_key(p))
    }
}

/// The state after the listed users join channel `cid` on their side.
pub open spec fn link_ids(v: StateView, ids: Seq<u64>, cid: u64) -> StateView
    decreases ids.len(),
{
    if ids.len() == 0 {
        v
    } else {
        let w = link_ids(v, ids.drop_last(), cid);
        let id = ids.last();
        if w.users.contains_key(id) {
            with_user(w, id, UserView { channels: w.users[id].channels.insert(cid), ..w.users[id] })
        } else {
            w
        }
    }
}

pub proof fn lemma_link_ids_dom(v: StateView, ids: Seq<u64>, cid: u64)
    ensures
        link_ids(v, ids, cid).users.dom() == v.users.dom(),
        link_ids(v, ids, cid).channels == v.channels,
        link_ids(v, ids, cid).user_map == v.user_map,
    decreases ids.len(),
{
    if ids.len() > 0 {
        lemma_link_ids_dom(v, ids.drop_last(), cid);
        let w = link_ids(v, ids.drop_last(), cid);
        if w.users.contains_key(ids.last()) {
            assert(link_ids(v, ids, cid).users.dom() =~= w.users.dom());
        }
    }
}

/// The records of a `WHO` result.
pub open spec fn who_records(who: &crate::watchers::who::WhoSuccess) -> Seq<crate::watchers::who::WhoRecordView> {
    who.who_records@.map_values(|r: crate::watchers::who::WhoRecord| r@)
}

/// What a `WHO` listing does: for a channel we know whose members we do not
/// know yet, the listed users become known (new ones under fresh numbers)
/// and members of it.  For a channel whose members we know, the listing is
/// only compared.
pub open spec fn after_who(v: StateView, who: &crate::watchers::who::WhoSuccess) -> StateView {
    let cn = ident(who.channel@);
    if !v.channel_map.contains_key(cn) {
        v
    } else {
        let cid = v.channel_map[cn];
        if v.channels[cid].users != Set::<u64>::empty() {
            v
        } else {
            let plan = who_plan(v.user_map, v.user_seq as int, who_records(who));
            let v1 = StateView { user_seq: plan.next as u64, ..v };
            let v2 = insert_news(v1, plan.news);
            let v3 = link_ids(v2, plan.ids, cid);
            with_channel(v3, cid, ChannelView { users: seq_set(plan.ids), ..v3.channels[cid] })
        }
    }
}

pub open spec fn who_faults(v: StateView, who: &crate::watchers::who::WhoSuccess) -> bool {
    let cn = ident(who.channel@);
    let cid = v.channel_map[cn];
    let plan = who_plan(v.user_map, v.user_seq as int, who_records(who));
    let v1 = StateView { user_seq: plan.next as u64, ..v };
    ||| !valid_utf8(who.channel@)
    ||| v.channel_map.contains_key(cn) && !v.channels.contains_key(cid)
    ||| v.channel_map.contains_key(cn) && v.channels[cid].users != Set::<u64>::empty() && (exists|u: u64| v.channels[cid].users.contains(u) && !v.users.contains_key(u))
    ||| v.channel_map.contains_key(cn) && v.channels[cid].users == Set::<u64>::empty() && {
        ||| plan.next > u64::MAX
        ||| insert_news_faults(v1, plan.news)
        ||| (exists|i: int| 0 <= i < plan.ids.len() && !insert_news(v1, plan.news).users.contains_key(#[trigger] plan.ids[i]) && plan.ids[i] != v.self_id)
    }
}

impl State {
    fn insert_user(&mut self, user: User)
        requires
            old(self).inv(),
            user.channels@.no_duplicates(),
            !old(self)@.users.contains_key(user.id.0),
            prefix_nick(user@.prefix) is Some,
            !old(self)@.user_map.contains_key(nick_key(user@.prefix)),
        ensures
            final(self).inv(),
            final(self)@ == (StateView {
                users: old(self)@.users.insert(user.id.0, user@),
                user_map: old(self)@.user_map.insert(nick_key(user@.prefix), user.id.0),
                ..old(self)@
            }),
    {
        let user_id = user.id.0;
        let nick = IrcIdentifier::from_str(user.prefix.nick().unwrap());
        self.put_user(user);
        self.umap_put(nick, user_id);
    }

    fn on_who(&mut self, who: &crate::watchers::who::WhoSuccess)
        requires
            old(self).inv(),
            !who_faults(old(self)@, who),
        ensures
            final(self).inv(),
            final(self)@ == after_who(old(self)@, who),
    {
        let ghost v0 = self@;
        let ghost recs = who_records(who);
        let name = as_text(who.channel.as_slice());
        proof {
            encode_utf8_decode_utf8(name@);
        }
        let key = IrcIdentifier::from_str(name);
        let chan_id = match self.cmap_get(key.key_bytes()) {
            Some(id) => id,
            None => {
                return;
            },
        };
        let ic = self.find_channel(chan_id).unwrap();
        proof {
            lemma_only(self.channels@[ic as int].users@, 0);
        }
        if self.channels[ic].users.len() != 0 {
            proof {
                assert(self.channels@[ic as int].users@.len() > 0);
                assert(seq_set(self.channels@[ic as int].users@).contains(self.channels@[ic as int].users@[0]));
            }
            let _ = self.validate_state_with_who(who);
            return;
        }
        proof {
            assert(seq_set(self.channels@[ic as int].users@) =~= Set::<u64>::empty());
        }
        let ghost plan = who_plan(v0.user_map, v0.user_seq as int, recs);
        let (user_ids, users_new) = self.plan_who(who);
        let ghost v1 = self@;
        self.insert_users(users_new);
        let ghost v2 = self@;
        self.link_all(&user_ids, chan_id);
        proof {
            lemma_link_ids_dom(v2, user_ids@, chan_id);
            lemma_insert_news_channels(v1, plan.news);
            assert(self@.channels == v0.channels);
            assert(v0.channels[chan_id].users =~= Set::<u64>::empty());
        }
        self.add_members(&user_ids, chan_id);
        proof {
            assert(Set::<u64>::empty().union(seq_set(user_ids@)) =~= seq_set(user_ids@));
        }
    }

    /// Gives each listed user its number: the one its nick leads to, or the
    /// next free one for a new user.
    fn plan_who(&mut self, who: &crate::watchers::who::WhoSuccess) -> (r: (Vec<u64>, Vec<User>))
        requires
            old(self).inv(),
            who_plan(old(self)@.user_map, old(self)@.user_seq as int, who_records(who)).next <= u64::MAX,
        ensures
            final(self).inv(),
            r.0@ == who_plan(old(self)@.user_map, old(self)@.user_seq as int, who_records(who)).ids,
            r.1@.map_values(|u: User| (u.id.0, u@.prefix)) == who_plan(old(self)@.user_map, old(self)@.user_seq as int, who_records(who)).news,
            forall|j: int| 0 <= j < r.1@.len() ==> (#[trigger] r.1@[j]).channels@.len() == 0,
            final(self)@ == (StateView {
                user_seq: who_plan(old(self)@.user_map, old(self)@.user_seq as int, who_records(who)).next as u64,
                ..old(self)@
            }),
    {
        let ghost v0 = self@;
        let ghost recs = who_records(who);
        let ghost plan = who_plan(v0.user_map, v0.user_seq as int, recs);
        let mut users_new: Vec<User> = Vec::new();
        let mut user_ids: Vec<u64> = Vec::new();
        let mut i: usize = 0;
        proof {
            assert(recs.take(0) =~= Seq::<crate::watchers::who::WhoRecordView>::empty());
            assert(users_new@.map_values(|u: User| (u.id.0, u@.prefix)) =~= Seq::<(u64, Seq<u8>)>::empty());
        }
        while i < who.who_records.len()
            invariant
                0 <= i <= who.who_records.len(),
                self.inv(),
                recs == who_records(who),
                plan == who_plan(v0.user_map, v0.user_seq as int, recs),
                plan.next <= u64::MAX,
                user_ids@ == who_plan(v0.user_map, v0.user_seq as int, recs.take(i as int)).ids,
                users_new@.map_values(|u: User| (u.id.0, u@.prefix)) == who_plan(v0.user_map, v0.user_seq as int, recs.take(i as int)).news,
                forall|j: int| 0 <= j < users_new@.len() ==> (#[trigger] users_new@[j]).channels@.len() == 0,
                self.user_seq == who_plan(v0.user_map, v0.user_seq as int, recs.take(i as int)).next,
                self@ == (StateView { user_seq: self.user_seq, ..v0 }),
            decreases who.who_records.len() - i,
        {
            let rec = &who.who_records[i];
            proof {
                assert(recs.take(i + 1).drop_last() =~= recs.take(i as int));
                assert(recs.take(i + 1).last() == rec@);
                lemma_plan_mono(v0.user_map, v0.user_seq as int, recs, i + 1);
            }
            let rec_nick: &str = rec.nick.as_str();
            let nick = IrcIdentifier::from_str(rec_nick);
            match self.umap_get(nick.key_bytes()) {
                Some(id) => {
                    user_ids.push(id);
                },
                None => {
                    let new_id = self.user_seq;
                    self.user_seq = self.user_seq + 1;
                    let u = User { id: UserId(new_id), prefix: rec.get_prefix(), channels: Vec::new() };
                    let ghost before = users_new@;
                    users_new.push(u);
                    user_ids.push(new_id);
                    proof {
                        assert(users_new@.map_values(|u: User| (u.id.0, u@.prefix)) =~= before.map_values(|u: User| (u.id.0, u@.prefix)).push((new_id, crate::watchers::who::record_prefix(rec@))));
                    }
                },
            }
            i = i + 1;
        }
        proof {
            assert(recs.take(recs.len() as int) =~= recs);
        }
        (user_ids, users_new)
    }

    /// Adds the new users one after another.
    fn insert_users(&mut self, users_new: Vec<User>)
        requires
            old(self).inv(),
            forall|j: int| 0 <= j < users_new@.len() ==> (#[trigger] users_new@[j]).channels@.len() == 0,
            !insert_news_faults(old(self)@, users_new@.map_values(|u: User| (u.id.0, u@.prefix))),
        ensures
            final(self).inv(),
            final(self)@ == insert_news(old(self)@, users_new@.map_values(|u: User| (u.id.0, u@.prefix))),
    {
        let ghost v1 = self@;
        let ghost un = users_new@;
        let ghost news = un.map_values(|u: User| (u.id.0, u@.prefix));
        let mut users_new = users_new;
        let mut k: usize = 0;
        proof {
            assert(un.len() == users_new.len());
            assert(news.take(0) =~= Seq::<(u64, Seq<u8>)>::empty());
        }
        while users_new.len() > 0
            invariant
                k + users_new@.len() == un.len(),
                un.len() <= usize::MAX,
                users_new@ == un.skip(k as int),
                news == un.map_values(|u: User| (u.id.0, u@.prefix)),
                forall|j: int| 0 <= j < un.len() ==> (#[trigger] un[j]).channels@.len() == 0,
                self.inv(),
                !insert_news_faults(v1, news),
                self@ == insert_news(v1, news.take(k as int)),
            decreases users_new.len(),
        {
            let u = users_new.remove(0);
            proof {
                assert(u == un[k as int]);
                assert(news[k as int] == (u.id.0, u@.prefix));
                assert(news.take(k + 1).drop_last() =~= news.take(k as int));
                assert(news.take(k + 1).last() == news[k as int]);
                lemma_news_faults_prefix(v1, news, k + 1);
                assert(users_new@ =~= un.skip(k + 1));
                assert(u.channels@ =~= Seq::<u64>::empty());
                assert(u@.channels =~= Set::<u64>::empty());
            }
            self.insert_user(u);
            k = k + 1;
        }
        proof {
            assert(news.take(news.len() as int) =~= news);
        }
    }

    /// The listed users join channel `cid` on their side.
    fn link_all(&mut self, ids: &Vec<u64>, cid: u64)
        requires
            old(self).inv(),
        ensures
            final(self).inv(),
            final(self)@ == link_ids(old(self)@, ids@, cid),
    {
        let ghost v2 = self@;
        let mut j: usize = 0;
        proof {
            assert(ids@.take(0) =~= Seq::<u64>::empty());
        }
        while j < ids.len()
            invariant
                0 <= j <= ids.len(),
                self.inv(),
                self@ == link_ids(v2, ids@.take(j as int), cid),
            decreases ids.len() - j,
        {
            let id = ids[j];
            proof {
                assert(ids@.take(j + 1).drop_last() =~= ids@.take(j as int));
                assert(ids@.take(j + 1).last() == id);
            }
            match self.find_user(id) {
                Some(iu) => {
                    self.user_link(iu, cid);
                },
                None => {},
            }
            j = j + 1;
        }
        proof {
            assert(ids@.take(ids@.len() as int) =~= ids@);
        }
    }

    /// The listed users become members of channel `cid`.
    fn add_members(&mut self, ids: &Vec<u64>, cid: u64)
        requires
            old(self).inv(),
            old(self)@.channels.contains_key(cid),
        ensures
            final(self).inv(),
            final(self)@ == with_channel(old(self)@, cid, ChannelView {
                users: old(self)@.channels[cid].users.union(seq_set(ids@)),
                ..old(self)@.channels[cid]
            }),
    {
        let ghost v3 = self@;
        let ghost base = v3.channels[cid];
        let ic = self.find_channel(cid).unwrap();
        let mut m: usize = 0;
        proof {
            assert(ids@.take(0) =~= Seq::<u64>::empty());
            assert(base.users.union(seq_set(ids@.take(0))) =~= base.users);
            assert(with_channel(v3, cid, ChannelView { users: base.users.union(seq_set(ids@.take(0))), ..base }).channels =~= v3.channels);
        }
        while m < ids.len()
            invariant
                0 <= m <= ids.len(),
                self.inv(),
                v3.channels.contains_key(cid),
                base == v3.channels[cid],
                self@ == with_channel(v3, cid, ChannelView { users: base.users.union(seq_set(ids@.take(m as int))), ..base }),
                ic < self.channels@.len(),
                self.channels@[ic as int].id.0 == cid,
            decreases ids.len() - m,
        {
            proof {
                crate::assoc::lemma_seq_set_push(ids@.take(m as int), ids@[m as int]);
                assert(ids@.take(m + 1) =~= ids@.take(m as int).push(ids@[m as int]));
                self.lemma_channel_at(ic as int);
            }
            let ghost before = self@;
            self.channel_link(ic, ids[m]);
            proof {
                assert(base.users.union(seq_set(ids@.take(m as int))).insert(ids@[m as int]) =~= base.users.union(seq_set(ids@.take(m + 1))));
                assert(self@.channels =~= with_channel(v3, cid, ChannelView { users: base.users.union(seq_set(ids@.take(m + 1))), ..base }).channels);
            }
            m = m + 1;
        }
        proof {
            assert(ids@.take(ids@.len() as int) =~= ids@);
        }
    }
}

} // verus!

verus! {

/// Adding users leaves the channels alone.
proof fn lemma_insert_news_channels(v: StateView, news: Seq<(u64, Seq<u8>)>)
    ensures
        insert_news(v, news).channels == v.channels,
        insert_news(v, news).channel_map == v.channel_map,
    decreases news.len(),
{
    if news.len() > 0 {
        lemma_insert_news_channels(v, news.drop_last());
    }
}

/// A fault-free run of additions has fault-free starts.
proof fn lemma_news_faults_prefix(v: StateView, news: Seq<(u64, Seq<u8>)>, n: int)
    requires
        0 <= n <= news.len(),
        !insert_news_faults(v, news),
    ensures
        !insert_news_faults(v, news.take(n)),
    decreases news.len(),
{
    if n < news.len() {
        assert(news.drop_last().take(n) =~= news.take(n));
        lemma_news_faults_prefix(v, news.drop_last(), n);
    } else {
        assert(news.take(n) =~= news);
    }
}

/// The nicks we know as members of a channel.
pub open spec fn known_nicks(v: StateView, cid: u64) -> Set<Seq<u8>> {
    Set::new(|n: Seq<u8>| exists|u: u64| v.channels[cid].users.contains(u) && user_nick(v.users[u].prefix) == n)
}

/// The nicks a `WHO` listing names.
pub open spec fn listed_nicks(who: &crate::watchers::who::WhoSuccess) -> Set<Seq<u8>> {
    Set::new(|n: Seq<u8>| exists|i: int| 0 <= i < who_records(who).len() && encode_utf8(who_records(who)[i].nick) == n)
}

/// Whether the listing agrees with what we know of the channel's members;
/// nothing for a channel we do not know.
pub open spec fn who_agrees(v: StateView, who: &crate::watchers::who::WhoSuccess) -> Option<bool> {
    let cn = ident(who.channel@);
    if !v.channel_map.contains_key(cn) {
        None
    } else {
        Some(known_nicks(v, v.channel_map[cn]) == listed_nicks(who))
    }
}

/// `x` is one of the byte strings of `b`.
pub open spec fn listed_in(x: Seq<u8>, b: Seq<Vec<u8>>) -> bool {
    exists|j: int| 0 <= j < b.len() && (#[trigger] b[j])@ == x
}

fn list_has(list: &Vec<Vec<u8>>, x: &[u8]) -> (r: bool)
    ensures
        r == listed_in(x@, list@),
{
    let mut i: usize = 0;
    while i < list.len()
        invariant
            0 <= i <= list.len(),
            forall|j: int| 0 <= j < i ==> (#[trigger] list@[j])@ != x@,
        decreases list.len() - i,
    {
        if bytes_equal(list[i].as_slice(), x) {
            return true;
        }
        i = i + 1;
    }
    false
}

fn all_listed(a: &Vec<Vec<u8>>, b: &Vec<Vec<u8>>) -> (r: bool)
    ensures
        r == forall|i: int| 0 <= i < a@.len() ==> listed_in((#[trigger] a@[i])@, b@),
{
    let mut i: usize = 0;
    while i < a.len()
        invariant
            0 <= i <= a.len(),
            forall|k: int| 0 <= k < i ==> listed_in((#[trigger] a@[k])@, b@),
        decreases a.len() - i,
    {
        if !list_has(b, a[i].as_slice()) {
            return false;
        }
        i = i + 1;
    }
    true
}

impl State {
    /// Compares the members we know of the listed channel with the listing.
    fn validate_state_with_who(&self, who: &crate::watchers::who::WhoSuccess) -> (r: Option<bool>)
        requires
            self.inv(),
            valid_utf8(who.channel@),
            self@.channel_map.contains_key(ident(who.channel@)) ==> {
                let cid = self@.channel_map[ident(who.channel@)];
                &&& self@.channels.contains_key(cid)
                &&& forall|u: u64| self@.channels[cid].users.contains(u) ==> self@.users.contains_key(u)
            },
        ensures
            r == who_agrees(self@, who),
    {
        let name = as_text(who.channel.as_slice());
        proof {
            encode_utf8_decode_utf8(name@);
        }
        let key = IrcIdentifier::from_str(name);
        let chan_id = match self.cmap_get(key.key_bytes()) {
            Some(id) => id,
            None => {
                return None;
            },
        };
        let ic = self.find_channel(chan_id).unwrap();
        let members = copy_ids(&self.channels[ic].users);
        let ghost c = self@.channels[chan_id];
        proof {
            assert(seq_set(members@) == c.users);
        }
        let mut known: Vec<Vec<u8>> = Vec::new();
        let mut k: usize = 0;
        while k < members.len()
            invariant
                0 <= k <= members.len(),
                self.inv(),
                seq_set(members@) == c.users,
                forall|u: u64| c.users.contains(u) ==> self@.users.contains_key(u),
                known@.len() == k,
                forall|j: int| 0 <= j < k ==> (#[trigger] known@[j])@ == user_nick(self@.users[members@[j]].prefix),
            decreases members.len() - k,
        {
            proof {
                assert(members@.contains(members@[k as int]));
                assert(seq_set(members@).contains(members@[k as int]));
            }
            let iu = self.find_user(members[k]).unwrap();
            let nick = self.users[iu].get_nick();
            known.push(crate::text::bytes_to_vec(str_bytes(nick)));
            k = k + 1;
        }
        let mut listed: Vec<Vec<u8>> = Vec::new();
        let mut i: usize = 0;
        while i < who.who_records.len()
            invariant
                0 <= i <= who.who_records.len(),
                listed@.len() == i,
                forall|j: int| 0 <= j < i ==> (#[trigger] listed@[j])@ == encode_utf8(who_records(who)[j].nick),
            decreases who.who_records.len() - i,
        {
            listed.push(crate::text::bytes_to_vec(string_bytes(&who.who_records[i].nick)));
            i = i + 1;
        }
        let agree = all_listed(&known, &listed) && all_listed(&listed, &known);
        proof {
            let kn = known_nicks(self@, chan_id);
            let ln = listed_nicks(who);
            assert forall|n: Seq<u8>| kn.contains(n) <==> listed_in(n, known@) by {
                if kn.contains(n) {
                    let u = choose|u: u64| c.users.contains(u) && user_nick(self@.users[u].prefix) == n;
                    assert(seq_set(members@).contains(u));
                    let j = choose|j: int| 0 <= j < members@.len() && members@[j] == u;
                    assert(known@[j]@ == n);
                }
                if listed_in(n, known@) {
                    let j = choose|j: int| 0 <= j < known@.len() && (#[trigger] known@[j])@ == n;
                    assert(members@.contains(members@[j]));
                    assert(c.users.contains(members@[j]));
                }
            }
            assert forall|n: Seq<u8>| ln.contains(n) <==> listed_in(n, listed@) by {
                if ln.contains(n) {
                    let j = choose|j: int| 0 <= j < who_records(who).len() && encode_utf8(who_records(who)[j].nick) == n;
                    assert(listed@[j]@ == n);
                }
            }
            if agree {
                assert(kn =~= ln) by {
                    assert forall|n: Seq<u8>| kn.contains(n) implies ln.contains(n) by {
                        let j = choose|j: int| 0 <= j < known@.len() && (#[trigger] known@[j])@ == n;
                        assert(listed_in(known@[j]@, listed@));
                    }
                    assert forall|n: Seq<u8>| ln.contains(n) implies kn.contains(n) by {
                        let j = choose|j: int| 0 <= j < listed@.len() && (#[trigger] listed@[j])@ == n;
                        assert(listed_in(listed@[j]@, known@));
                    }
                }
            } else {
                if kn == ln {
                    assert forall|a: int| 0 <= a < known@.len() implies listed_in((#[trigger] known@[a])@, listed@) by {
                        assert(listed_in(known@[a]@, known@));
                        assert(kn.contains(known@[a]@));
                    }
                    assert forall|a: int| 0 <= a < listed@.len() implies listed_in((#[trigger] listed@[a])@, known@) by {
                        assert(listed_in(listed@[a]@, listed@));
                        assert(ln.contains(listed@[a]@));
                    }
                }
            }
        }
        Some(agree)
    }
}

} // verus!

verus! {

/// The line comes from us: the nick of its prefix is our nick.
pub open spec fn is_self_msg(v: StateView, m: IrcMsgView) -> bool {
    prefix_nick(prefix_bytes(m)) == Some(v.self_nick)
}

/// `001`, the welcome reply.
pub open spec fn code_welcome() -> Seq<u8> {
    seq![0x30u8, 0x30, 0x31]
}

/// What a line does to the tracker.
pub open spec fn after_message(v: StateView, m: IrcMsgView) -> StateView {
    let is_self = is_self_msg(v, m);
    let rest = if command_bytes(m) == code_welcome() {
        after_init_self(v, arg_bytes(m, 0))
    } else {
        v
    };
    match crate::message_types::server::spec_incoming_kind(m) {
        crate::message_types::server::IncomingKind::Part => if is_self {
            after_self_part(v, arg_bytes(m, 0))
        } else {
            after_leave(v, arg_bytes(m, 0), crate::message_types::server::bang_nick(m))
        },
        crate::message_types::server::IncomingKind::Quit => if !is_self {
            after_quit(v, crate::message_types::server::bang_nick(m))
        } else {
            rest
        },
        crate::message_types::server::IncomingKind::Join => if !is_self {
            after_other_join(v, arg_bytes(m, 0), crate::message_types::server::bang_nick(m), prefix_bytes(m))
        } else {
            rest
        },
        crate::message_types::server::IncomingKind::Topic => after_topic(v, arg_bytes(m, 0), arg_bytes(m, 1)),
        crate::message_types::server::IncomingKind::Nick => after_nick(v, crate::message_types::server::bang_nick(m), arg_bytes(m, 0)),
        crate::message_types::server::IncomingKind::Kick => after_leave(v, arg_bytes(m, 0), arg_bytes(m, 1)),
        _ => rest,
    }
}

/// The lines on which the tracker fails.
pub open spec fn message_faults(v: StateView, m: IrcMsgView) -> bool {
    let is_self = is_self_msg(v, m);
    let rest_faults = command_bytes(m) == code_welcome() && (!valid_utf8(arg_bytes(m, 0)) || init_self_faults(v, arg_bytes(m, 0)));
    ||| crate::message_types::server::incoming_faults(m)
    ||| match crate::message_types::server::spec_incoming_kind(m) {
        crate::message_types::server::IncomingKind::Part => if is_self {
            self_part_faults(v, arg_bytes(m, 0))
        } else {
            leave_faults(v, arg_bytes(m, 0), crate::message_types::server::bang_nick(m))
        },
        crate::message_types::server::IncomingKind::Quit => if !is_self {
            !crate::message_types::server::has_bang(m) || quit_faults(v, crate::message_types::server::bang_nick(m))
        } else {
            rest_faults
        },
        crate::message_types::server::IncomingKind::Join => if !is_self {
            other_join_faults(v, arg_bytes(m, 0), crate::message_types::server::bang_nick(m))
        } else {
            rest_faults
        },
        crate::message_types::server::IncomingKind::Topic => topic_faults(v, arg_bytes(m, 0)),
        crate::message_types::server::IncomingKind::Nick => nick_faults(v, crate::message_types::server::bang_nick(m)),
        crate::message_types::server::IncomingKind::Kick => leave_faults(v, arg_bytes(m, 0), arg_bytes(m, 1)),
        _ => rest_faults,
    }
}

/// What an event does to the tracker.
pub open spec fn after_event(v: StateView, e: &crate::event::IrcEvent) -> StateView {
    match e {
        crate::event::IrcEvent::IrcMsg(m) => after_message(v, m@),
        crate::event::IrcEvent::JoinBundle(Ok(j)) => after_self_join(v, j.channel@, join_topic(j)),
        crate::event::IrcEvent::WhoBundle(Ok(w)) => after_who(v, w),
        _ => v,
    }
}

/// The events on which the tracker fails.
pub open spec fn event_faults(v: StateView, e: &crate::event::IrcEvent) -> bool {
    match e {
        crate::event::IrcEvent::IrcMsg(m) => message_faults(v, m@),
        crate::event::IrcEvent::JoinBundle(Ok(j)) => self_join_faults(v, j),
        crate::event::IrcEvent::WhoBundle(Ok(w)) => who_faults(v, w),
        _ => false,
    }
}

impl State {
    fn msg_is_self(&self, msg: &IrcMsg) -> (r: bool)
        ensures
            r == is_self_msg(self@, msg@),
    {
        let prefix = msg.get_prefix();
        match prefix.nick() {
            Some(nick) => bytes_equal(str_bytes(nick), string_bytes(&self.self_nick)),
            None => false,
        }
    }

    /// The line, as a `JOIN`, when it is our own join.
    pub fn is_self_join(&self, msg: &IrcMsg) -> (r: Option<crate::message_types::server::Join>)
        requires
            !crate::message_types::server::incoming_faults(msg@),
        ensures
            r is Some == (is_self_msg(self@, msg@) && crate::message_types::server::spec_incoming_kind(msg@)
                == crate::message_types::server::IncomingKind::Join),
            r matches Some(j) ==> j@ == msg@,
    {
        if !self.msg_is_self(msg) {
            return None;
        }
        match crate::message_types::server::IncomingMsg::from_msg(msg.clone()) {
            crate::message_types::server::IncomingMsg::Join(join) => Some(join),
            _ => None,
        }
    }

    /// Follows a line from the server.
    pub fn on_message(&mut self, msg: &IrcMsg)
        requires
            old(self).inv(),
            !message_faults(old(self)@, msg@),
        ensures
            final(self).inv(),
            final(self)@ == after_message(old(self)@, msg@),
    {
        let ty_msg = IncomingMsg::from_msg(msg.clone());
        let is_self = self.msg_is_self(msg);
        match ty_msg {
            IncomingMsg::Part(part) => {
                if is_self {
                    self.on_self_part(&part);
                } else {
                    self.on_other_part(&part);
                }
                return;
            },
            IncomingMsg::Quit(quit) => {
                if !is_self {
                    self.on_other_quit(&quit);
                    return;
                }
            },
            IncomingMsg::Join(join) => {
                if !is_self {
                    self.on_other_join(&join);
                    return;
                }
            },
            IncomingMsg::Topic(topic) => {
                self.on_topic(&topic);
                return;
            },
            IncomingMsg::Nick(nick) => {
                self.on_nick(&nick);
                return;
            },
            IncomingMsg::Kick(kick) => {
                self.on_kick(&kick);
                return;
            },
            _ => {},
        }
        if bytes_equal(msg.command_as_bytes(), crate::message_types::commands::code_bytes(0x30, 0x30, 0x31).as_slice()) {
            proof {
                use_type_invariant(msg);
            }
            let name = as_text(msg.index(0));
            self.initialize_self_nick(name);
        }
    }

    /// Follows an event.
    pub fn on_event(&mut self, event: &crate::event::IrcEvent)
        requires
            old(self).inv(),
            !event_faults(old(self)@, event),
        ensures
            final(self).inv(),
            final(self)@ == after_event(old(self)@, event),
    {
        match event {
            crate::event::IrcEvent::IrcMsg(message) => self.on_message(message),
            crate::event::IrcEvent::JoinBundle(Ok(join_bun)) => self.on_self_join(join_bun),
            crate::event::IrcEvent::JoinBundle(Err(_)) => {},
            crate::event::IrcEvent::WhoBundle(Ok(who_bun)) => self.on_who(who_bun),
            crate::event::IrcEvent::WhoBundle(Err(_)) => {},
        }
    }
}

} // verus!

verus! {

/// A change to a user.
#[derive(Debug)]
pub enum UserDiffCmd {
    ChangePrefix(String),
    AddChannel(ChannelId),
    RemoveChannel(ChannelId),
}

/// A change to a user, by its contents.
pub enum UserDiffView {
    ChangePrefix(Seq<u8>),
    AddChannel(u64),
    RemoveChannel(u64),
}

pub open spec fn user_cmd_view(c: UserDiffCmd) -> UserDiffView {
    match c {
        UserDiffCmd::ChangePrefix(p) => UserDiffView::ChangePrefix(encode_utf8(p@)),
        UserDiffCmd::AddChannel(id) => UserDiffView::AddChannel(id.0),
        UserDiffCmd::RemoveChannel(id) => UserDiffView::RemoveChannel(id.0),
    }
}

pub open spec fn user_cmds_view(v: Seq<UserDiffCmd>) -> Seq<UserDiffView> {
    v.map_values(|c: UserDiffCmd| user_cmd_view(c))
}

/// A change to a channel.
#[derive(Debug)]
pub enum ChannelDiffCmd {
    ChangeTopic(String),
    AddUser(UserId),
    RemoveUser(UserId),
}

/// A change to a channel, by its contents.
pub enum ChannelDiffView {
    ChangeTopic(Seq<u8>),
    AddUser(u64),
    RemoveUser(u64),
}

pub open spec fn channel_cmd_view(c: ChannelDiffCmd) -> ChannelDiffView {
    match c {
        ChannelDiffCmd::ChangeTopic(t) => ChannelDiffView::ChangeTopic(encode_utf8(t@)),
        ChannelDiffCmd::AddUser(id) => ChannelDiffView::AddUser(id.0),
        ChannelDiffCmd::RemoveUser(id) => ChannelDiffView::RemoveUser(id.0),
    }
}

pub open spec fn channel_cmds_view(v: Seq<ChannelDiffCmd>) -> Seq<ChannelDiffView> {
    v.map_values(|c: ChannelDiffCmd| channel_cmd_view(c))
}

/// The members of `s` that `t` lacks, in the order of `s`.
pub open spec fn not_in(s: Seq<u64>, t: Seq<u64>) -> Seq<u64>
    decreases s.len(),
{
    if s.len() == 0 {
        Seq::empty()
    } else if t.contains(s.last()) {
        not_in(s.drop_last(), t)
    } else {
        not_in(s.drop_last(), t).push(s.last())
    }
}

/// A user after one change.
pub open spec fn user_cmd_applied(u: UserView, c: UserDiffView) -> UserView {
    match c {
        UserDiffView::ChangePrefix(p) => UserView { prefix: p, ..u },
        UserDiffView::AddChannel(x) => UserView { channels: u.channels.insert(x), ..u },
        UserDiffView::RemoveChannel(x) => UserView { channels: u.channels.remove(x), ..u },
    }
}

/// A user after some changes, in order.
pub open spec fn user_patched(u: UserView, cmds: Seq<UserDiffView>) -> UserView
    decreases cmds.len(),
{
    if cmds.len() == 0 {
        u
    } else {
        user_cmd_applied(user_patched(u, cmds.drop_last()), cmds.last())
    }
}

/// The changes from a user to another: the other's prefix when it differs,
/// then the channels to join, then the channels to leave.
pub open spec fn user_diff(a_prefix: Seq<u8>, a_channels: Seq<u64>, b_prefix: Seq<u8>, b_channels: Seq<u64>) -> Seq<UserDiffView> {
    (if a_prefix != b_prefix {
        seq![UserDiffView::ChangePrefix(b_prefix)]
    } else {
        Seq::empty()
    }) + not_in(b_channels, a_channels).map_values(|x: u64| UserDiffView::AddChannel(x)) + not_in(
        a_channels,
        b_channels,
    ).map_values(|x: u64| UserDiffView::RemoveChannel(x))
}

/// A channel after one change.
pub open spec fn channel_cmd_applied(c: ChannelView, d: ChannelDiffView) -> ChannelView {
    match d {
        ChannelDiffView::ChangeTopic(t) => ChannelView { topic: t, ..c },
        ChannelDiffView::AddUser(x) => ChannelView { users: c.users.insert(x), ..c },
        ChannelDiffView::RemoveUser(x) => ChannelView { users: c.users.remove(x), ..c },
    }
}

/// A channel after some changes, in order.
pub open spec fn channel_patched(c: ChannelView, cmds: Seq<ChannelDiffView>) -> ChannelView
    decreases cmds.len(),
{
    if cmds.len() == 0 {
        c
    } else {
        channel_cmd_applied(channel_patched(c, cmds.drop_last()), cmds.last())
    }
}

/// The changes from a channel to another: the other's topic when it
/// differs, then the users to add, then the users to remove.
pub open spec fn channel_diff(a_topic: Seq<u8>, a_users: Seq<u64>, b_topic: Seq<u8>, b_users: Seq<u64>) -> Seq<ChannelDiffView> {
    (if a_topic != b_topic {
        seq![ChannelDiffView::ChangeTopic(b_topic)]
    } else {
        Seq::empty()
    }) + not_in(b_users, a_users).map_values(|x: u64| ChannelDiffView::AddUser(x)) + not_in(
        a_users,
        b_users,
    ).map_values(|x: u64| ChannelDiffView::RemoveUser(x))
}

proof fn lemma_not_in_set(s: Seq<u64>, t: Seq<u64>)
    ensures
        seq_set(not_in(s, t)) == seq_set(s).difference(seq_set(t)),
    decreases s.len(),
{
    if s.len() > 0 {
        lemma_not_in_set(s.drop_last(), t);
        crate::assoc::lemma_seq_set_push(s.drop_last(), s.last());
        assert(s.drop_last().push(s.last()) =~= s);
        if !t.contains(s.last()) {
            crate::assoc::lemma_seq_set_push(not_in(s.drop_last(), t), s.last());
        }
        assert(seq_set(not_in(s, t)) =~= seq_set(s).difference(seq_set(t)));
    } else {
        assert(seq_set(not_in(s, t)) =~= seq_set(s).difference(seq_set(t)));
    }
}

proof fn lemma_user_patched_concat(u: UserView, a: Seq<UserDiffView>, b: Seq<UserDiffView>)
    ensures
        user_patched(u, a + b) == user_patched(user_patched(u, a), b),
    decreases b.len(),
{
    if b.len() > 0 {
        lemma_user_patched_concat(u, a, b.drop_last());
        assert((a + b).drop_last() =~= a + b.drop_last());
    } else {
        assert(a + b =~= a);
    }
}

proof fn lemma_user_adds(u: UserView, xs: Seq<u64>)
    ensures
        user_patched(u, xs.map_values(|x: u64| UserDiffView::AddChannel(x))) == (UserView {
            channels: u.channels.union(seq_set(xs)),
            ..u
        }),
    decreases xs.len(),
{
    let cmds = xs.map_values(|x: u64| UserDiffView::AddChannel(x));
    if xs.len() > 0 {
        lemma_user_adds(u, xs.drop_last());
        assert(cmds.drop_last() =~= xs.drop_last().map_values(|x: u64| UserDiffView::AddChannel(x)));
        crate::assoc::lemma_seq_set_push(xs.drop_last(), xs.last());
        assert(xs.drop_last().push(xs.last()) =~= xs);
        assert(u.channels.union(seq_set(xs.drop_last())).insert(xs.last()) =~= u.channels.union(seq_set(xs)));
    } else {
        assert(u.channels.union(seq_set(xs)) =~= u.channels);
    }
}

proof fn lemma_user_removes(u: UserView, xs: Seq<u64>)
    ensures
        user_patched(u, xs.map_values(|x: u64| UserDiffView::RemoveChannel(x))) == (UserView {
            channels: u.channels.difference(seq_set(xs)),
            ..u
        }),
    decreases xs.len(),
{
    let cmds = xs.map_values(|x: u64| UserDiffView::RemoveChannel(x));
    if xs.len() > 0 {
        lemma_user_removes(u, xs.drop_last());
        assert(cmds.drop_last() =~= xs.drop_last().map_values(|x: u64| UserDiffView::RemoveChannel(x)));
        crate::assoc::lemma_seq_set_push(xs.drop_last(), xs.last());
        assert(xs.drop_last().push(xs.last()) =~= xs);
        assert(u.channels.difference(seq_set(xs.drop_last())).remove(xs.last()) =~= u.channels.difference(seq_set(xs)));
    } else {
        assert(u.channels.difference(seq_set(xs)) =~= u.channels);
    }
}

/// Patching a user with its difference to another user gives the other
/// user: the same prefix and the same channels.
pub proof fn lemma_user_patch_diff(a_prefix: Seq<u8>, a_channels: Seq<u64>, b_prefix: Seq<u8>, b_channels: Seq<u64>)
    ensures
        user_patched(
            UserView { prefix: a_prefix, channels: seq_set(a_channels) },
            user_diff(a_prefix, a_channels, b_prefix, b_channels),
        ) == (UserView { prefix: b_prefix, channels: seq_set(b_channels) }),
{
    let u = UserView { prefix: a_prefix, channels: seq_set(a_channels) };
    let head: Seq<UserDiffView> = if a_prefix != b_prefix {
        seq![UserDiffView::ChangePrefix(b_prefix)]
    } else {
        Seq::empty()
    };
    let adds = not_in(b_channels, a_channels);
    let removes = not_in(a_channels, b_channels);
    let add_cmds = adds.map_values(|x: u64| UserDiffView::AddChannel(x));
    let remove_cmds = removes.map_values(|x: u64| UserDiffView::RemoveChannel(x));
    lemma_user_patched_concat(u, head + add_cmds, remove_cmds);
    lemma_user_patched_concat(u, head, add_cmds);
    let u1 = user_patched(u, head);
    assert(user_patched(u, Seq::<UserDiffView>::empty()) == u);
    if a_prefix != b_prefix {
        assert(head.drop_last() =~= Seq::<UserDiffView>::empty());
        assert(head.last() == UserDiffView::ChangePrefix(b_prefix));
    } else {
        assert(head.len() == 0);
    }
    assert(u1 == UserView { prefix: b_prefix, ..u });
    lemma_user_adds(u1, adds);
    let u2 = user_patched(u1, add_cmds);
    lemma_user_removes(u2, removes);
    lemma_not_in_set(b_channels, a_channels);
    lemma_not_in_set(a_channels, b_channels);
    assert(seq_set(a_channels).union(seq_set(adds)).difference(seq_set(removes)) =~= seq_set(b_channels));
}

proof fn lemma_channel_patched_concat(c: ChannelView, a: Seq<ChannelDiffView>, b: Seq<ChannelDiffView>)
    ensures
        channel_patched(c, a + b) == channel_patched(channel_patched(c, a), b),
    decreases b.len(),
{
    if b.len() > 0 {
        lemma_channel_patched_concat(c, a, b.drop_last());
        assert((a + b).drop_last() =~= a + b.drop_last());
    } else {
        assert(a + b =~= a);
    }
}

proof fn lemma_channel_adds(c: ChannelView, xs: Seq<u64>)
    ensures
        channel_patched(c, xs.map_values(|x: u64| ChannelDiffView::AddUser(x))) == (ChannelView {
            users: c.users.union(seq_set(xs)),
            ..c
        }),
    decreases xs.len(),
{
    let cmds = xs.map_values(|x: u64| ChannelDiffView::AddUser(x));
    if xs.len() > 0 {
        lemma_channel_adds(c, xs.drop_last());
        assert(cmds.drop_last() =~= xs.drop_last().map_values(|x: u64| ChannelDiffView::AddUser(x)));
        crate::assoc::lemma_seq_set_push(xs.drop_last(), xs.last());
        assert(xs.drop_last().push(xs.last()) =~= xs);
        assert(c.users.union(seq_set(xs.drop_last())).insert(xs.last()) =~= c.users.union(seq_set(xs)));
    } else {
        assert(c.users.union(seq_set(xs)) =~= c.users);
    }
}

proof fn lemma_channel_removes(c: ChannelView, xs: Seq<u64>)
    ensures
        channel_patched(c, xs.map_values(|x: u64| ChannelDiffView::RemoveUser(x))) == (ChannelView {
            users: c.users.difference(seq_set(xs)),
            ..c
        }),
    decreases xs.len(),
{
    let cmds = xs.map_values(|x: u64| ChannelDiffView::RemoveUser(x));
    if xs.len() > 0 {
        lemma_channel_removes(c, xs.drop_last());
        assert(cmds.drop_last() =~= xs.drop_last().map_values(|x: u64| ChannelDiffView::RemoveUser(x)));
        crate::assoc::lemma_seq_set_push(xs.drop_last(), xs.last());
        assert(xs.drop_last().push(xs.last()) =~= xs);
        assert(c.users.difference(seq_set(xs.drop_last())).remove(xs.last()) =~= c.users.difference(seq_set(xs)));
    } else {
        assert(c.users.difference(seq_set(xs)) =~= c.users);
    }
}

/// Patching a channel with its difference to a channel of the same name
/// gives that channel: the same topic and the same users.
pub proof fn lemma_channel_patch_diff(name: Seq<u8>, a_topic: Seq<u8>, a_users: Seq<u64>, b_topic: Seq<u8>, b_users: Seq<u64>)
    ensures
        channel_patched(
            ChannelView { name: name, topic: a_topic, users: seq_set(a_users) },
            channel_diff(a_topic, a_users, b_topic, b_users),
        ) == (ChannelView { name: name, topic: b_topic, users: seq_set(b_users) }),
{
    let c = ChannelView { name: name, topic: a_topic, users: seq_set(a_users) };
    let head: Seq<ChannelDiffView> = if a_topic != b_topic {
        seq![ChannelDiffView::ChangeTopic(b_topic)]
    } else {
        Seq::empty()
    };
    let adds = not_in(b_users, a_users);
    let removes = not_in(a_users, b_users);
    let add_cmds = adds.map_values(|x: u64| ChannelDiffView::AddUser(x));
    let remove_cmds = removes.map_values(|x: u64| ChannelDiffView::RemoveUser(x));
    lemma_channel_patched_concat(c, head + add_cmds, remove_cmds);
    lemma_channel_patched_concat(c, head, add_cmds);
    let c1 = channel_patched(c, head);
    assert(channel_patched(c, Seq::<ChannelDiffView>::empty()) == c);
    if a_topic != b_topic {
        assert(head.drop_last() =~= Seq::<ChannelDiffView>::empty());
        assert(head.last() == ChannelDiffView::ChangeTopic(b_topic));
    } else {
        assert(head.len() == 0);
    }
    assert(c1 == ChannelView { topic: b_topic, ..c });
    lemma_channel_adds(c1, adds);
    let c2 = channel_patched(c1, add_cmds);
    lemma_channel_removes(c2, removes);
    lemma_not_in_set(b_users, a_users);
    lemma_not_in_set(a_users, b_users);
    assert(seq_set(a_users).union(seq_set(adds)).difference(seq_set(removes)) =~= seq_set(b_users));
}

} // verus!

verus! {

impl User {
    /// The number of the user.
    pub closed spec fn uid(&self) -> u64 {
        self.id.0
    }

    /// The channels of the user, in the order they are kept.
    pub closed spec fn channel_list(&self) -> Seq<u64> {
        self.channels@
    }

    /// The channels are those of the list.
    pub proof fn lemma_channels(&self)
        ensures
            self@.channels == seq_set(self.channel_list()),
    {
    }

    /// The changes that turn this user into `other`.
    pub fn diff(&self, other: &User) -> (r: Vec<UserDiffCmd>)
        ensures
            user_cmds_view(r@) == user_diff(self@.prefix, self.channel_list(), other@.prefix, other.channel_list()),
    {
        let mut cmds: Vec<UserDiffCmd> = Vec::new();
        if !bytes_equal(str_bytes(self.prefix.as_slice()), str_bytes(other.prefix.as_slice())) {
            cmds.push(UserDiffCmd::ChangePrefix(str_to_string(other.prefix.as_slice())));
        }
        let ghost head = user_cmds_view(cmds@);
        proof {
            assert(head =~= (if self@.prefix != other@.prefix {
                seq![UserDiffView::ChangePrefix(other@.prefix)]
            } else {
                Seq::empty()
            }));
        }
        let mut i: usize = 0;
        while i < other.channels.len()
            invariant
                0 <= i <= other.channels@.len(),
                user_cmds_view(cmds@) == head + not_in(other.channels@.take(i as int), self.channels@).map_values(
                    |x: u64| UserDiffView::AddChannel(x),
                ),
            decreases other.channels.len() - i,
        {
            let x = other.channels[i];
            let ghost before = cmds@;
            proof {
                assert(other.channels@.take(i + 1).drop_last() =~= other.channels@.take(i as int));
                assert(other.channels@.take(i + 1).last() == x);
            }
            if !set_contains(&self.channels, x) {
                cmds.push(UserDiffCmd::AddChannel(ChannelId(x)));
                proof {
                    assert(user_cmds_view(cmds@) =~= user_cmds_view(before).push(UserDiffView::AddChannel(x)));
                    assert(not_in(other.channels@.take(i + 1), self.channels@).map_values(|x: u64| UserDiffView::AddChannel(x))
                        =~= not_in(other.channels@.take(i as int), self.channels@).map_values(|x: u64| UserDiffView::AddChannel(x)).push(UserDiffView::AddChannel(x)));
                }
            }
            i = i + 1;
        }
        proof {
            assert(other.channels@.take(i as int) =~= other.channels@);
        }
        let ghost mid = user_cmds_view(cmds@);
        let mut j: usize = 0;
        while j < self.channels.len()
            invariant
                0 <= j <= self.channels@.len(),
                user_cmds_view(cmds@) == mid + not_in(self.channels@.take(j as int), other.channels@).map_values(
                    |x: u64| UserDiffView::RemoveChannel(x),
                ),
            decreases self.channels.len() - j,
        {
            let x = self.channels[j];
            let ghost before = cmds@;
            proof {
                assert(self.channels@.take(j + 1).drop_last() =~= self.channels@.take(j as int));
                assert(self.channels@.take(j + 1).last() == x);
            }
            if !set_contains(&other.channels, x) {
                cmds.push(UserDiffCmd::RemoveChannel(ChannelId(x)));
                proof {
                    assert(user_cmds_view(cmds@) =~= user_cmds_view(before).push(UserDiffView::RemoveChannel(x)));
                    assert(not_in(self.channels@.take(j + 1), other.channels@).map_values(|x: u64| UserDiffView::RemoveChannel(x))
                        =~= not_in(self.channels@.take(j as int), other.channels@).map_values(|x: u64| UserDiffView::RemoveChannel(x)).push(UserDiffView::RemoveChannel(x)));
                }
            }
            j = j + 1;
        }
        proof {
            assert(self.channels@.take(j as int) =~= self.channels@);
            assert(not_in(Seq::<u64>::empty(), self.channels@) =~= Seq::<u64>::empty());
        }
        cmds
    }

    /// This user with the changes applied, in order.
    pub fn patch(&self, diff: &Vec<UserDiffCmd>) -> (r: User)
        requires
            self.channel_list().no_duplicates(),
        ensures
            r@ == user_patched(self@, user_cmds_view(diff@)),
            r.uid() == self.uid(),
            r.channel_list().no_duplicates(),
    {
        let mut other = User { id: self.id, prefix: self.prefix.to_owned(), channels: copy_ids(&self.channels) };
        let mut i: usize = 0;
        while i < diff.len()
            invariant
                0 <= i <= diff@.len(),
                other@ == user_patched(self@, user_cmds_view(diff@).take(i as int)),
                other.id == self.id,
                other.channels@.no_duplicates(),
            decreases diff.len() - i,
        {
            proof {
                assert(user_cmds_view(diff@).take(i + 1).drop_last() =~= user_cmds_view(diff@).take(i as int));
                assert(user_cmds_view(diff@).take(i + 1).last() == user_cmd_view(diff@[i as int]));
            }
            match &diff[i] {
                UserDiffCmd::ChangePrefix(prefix_str) => {
                    other.prefix = IrcMsgPrefix::new(prefix_str.clone());
                },
                UserDiffCmd::AddChannel(chan_id) => {
                    set_insert(&mut other.channels, chan_id.0);
                },
                UserDiffCmd::RemoveChannel(chan_id) => {
                    set_remove(&mut other.channels, chan_id.0);
                },
            }
            i = i + 1;
        }
        proof {
            assert(user_cmds_view(diff@).take(i as int) =~= user_cmds_view(diff@));
        }
        other
    }
}


impl Channel {
    /// The number of the channel.
    pub closed spec fn cid(&self) -> u64 {
        self.id.0
    }

    /// The users of the channel, in the order they are kept.
    pub closed spec fn user_list(&self) -> Seq<u64> {
        self.users@
    }

    /// The users are those of the list.
    pub proof fn lemma_users(&self)
        ensures
            self@.users == seq_set(self.user_list()),
    {
    }

    /// The changes that turn the topic and users of this channel into those
    /// of `other`.
    pub fn diff(&self, other: &Channel) -> (r: Vec<ChannelDiffCmd>)
        ensures
            channel_cmds_view(r@) == channel_diff(self@.topic, self.user_list(), other@.topic, other.user_list()),
    {
        let mut cmds: Vec<ChannelDiffCmd> = Vec::new();
        if !bytes_equal(string_bytes(&self.topic), string_bytes(&other.topic)) {
            cmds.push(ChannelDiffCmd::ChangeTopic(other.topic.clone()));
        }
        let ghost head = channel_cmds_view(cmds@);
        proof {
            assert(head =~= (if self@.topic != other@.topic {
                seq![ChannelDiffView::ChangeTopic(other@.topic)]
            } else {
                Seq::empty()
            }));
        }
        let mut i: usize = 0;
        while i < other.users.len()
            invariant
                0 <= i <= other.users@.len(),
                channel_cmds_view(cmds@) == head + not_in(other.users@.take(i as int), self.users@).map_values(
                    |x: u64| ChannelDiffView::AddUser(x),
                ),
            decreases other.users.len() - i,
        {
            let x = other.users[i];
            let ghost before = cmds@;
            proof {
                assert(other.users@.take(i + 1).drop_last() =~= other.users@.take(i as int));
                assert(other.users@.take(i + 1).last() == x);
            }
            if !set_contains(&self.users, x) {
                cmds.push(ChannelDiffCmd::AddUser(UserId(x)));
                proof {
                    assert(channel_cmds_view(cmds@) =~= channel_cmds_view(before).push(ChannelDiffView::AddUser(x)));
                    assert(not_in(other.users@.take(i + 1), self.users@).map_values(|x: u64| ChannelDiffView::AddUser(x))
                        =~= not_in(other.users@.take(i as int), self.users@).map_values(|x: u64| ChannelDiffView::AddUser(x)).push(ChannelDiffView::AddUser(x)));
                }
            }
            i = i + 1;
        }
        proof {
            assert(other.users@.take(i as int) =~= other.users@);
        }
        let ghost mid = channel_cmds_view(cmds@);
        let mut j: usize = 0;
        while j < self.users.len()
            invariant
                0 <= j <= self.users@.len(),
                channel_cmds_view(cmds@) == mid + not_in(self.users@.take(j as int), other.users@).map_values(
                    |x: u64| ChannelDiffView::RemoveUser(x),
                ),
            decreases self.users.len() - j,
        {
            let x = self.users[j];
            let ghost before = cmds@;
            proof {
                assert(self.users@.take(j + 1).drop_last() =~= self.users@.take(j as int));
                assert(self.users@.take(j + 1).last() == x);
            }
            if !set_contains(&other.users, x) {
                cmds.push(ChannelDiffCmd::RemoveUser(UserId(x)));
                proof {
                    assert(channel_cmds_view(cmds@) =~= channel_cmds_view(before).push(ChannelDiffView::RemoveUser(x)));
                    assert(not_in(self.users@.take(j + 1), other.users@).map_values(|x: u64| ChannelDiffView::RemoveUser(x))
                        =~= not_in(self.users@.take(j as int), other.users@).map_values(|x: u64| ChannelDiffView::RemoveUser(x)).push(ChannelDiffView::RemoveUser(x)));
                }
            }
            j = j + 1;
        }
        proof {
            assert(self.users@.take(j as int) =~= self.users@);
        }
        cmds
    }

    /// This channel with the changes applied, in order.
    pub fn patch(&self, diff: &Vec<ChannelDiffCmd>) -> (r: Channel)
        requires
            self.user_list().no_duplicates(),
        ensures
            r@ == channel_patched(self@, channel_cmds_view(diff@)),
            r.cid() == self.cid(),
            r.user_list().no_duplicates(),
    {
        let mut other = Channel {
            id: self.id,
            name: self.name.clone(),
            topic: self.topic.clone(),
            users: copy_ids(&self.users),
        };
        let mut i: usize = 0;
        while i < diff.len()
            invariant
                0 <= i <= diff@.len(),
                other@ == channel_patched(self@, channel_cmds_view(diff@).take(i as int)),
                other.id == self.id,
                other.users@.no_duplicates(),
            decreases diff.len() - i,
        {
            proof {
                assert(channel_cmds_view(diff@).take(i + 1).drop_last() =~= channel_cmds_view(diff@).take(i as int));
                assert(channel_cmds_view(diff@).take(i + 1).last() == channel_cmd_view(diff@[i as int]));
            }
            match &diff[i] {
                ChannelDiffCmd::ChangeTopic(topic) => {
                    other.topic = topic.clone();
                },
                ChannelDiffCmd::AddUser(user_id) => {
                    set_insert(&mut other.users, user_id.0);
                },
                ChannelDiffCmd::RemoveUser(user_id) => {
                    set_remove(&mut other.users, user_id.0);
                },
            }
            i = i + 1;
        }
        proof {
            assert(channel_cmds_view(diff@).take(i as int) =~= channel_cmds_view(diff@));
        }
        other
    }
}

/// Patching a user with its difference to another user gives the other
/// user, under the first user's number.
pub proof fn lemma_user_diff_round_trip(a: &User, b: &User)
    ensures
        user_patched(a@, user_diff(a@.prefix, a.channel_list(), b@.prefix, b.channel_list())) == b@,
{
    a.lemma_channels();
    b.lemma_channels();
    lemma_user_patch_diff(a@.prefix, a.channel_list(), b@.prefix, b.channel_list());
    assert(a@ == UserView { prefix: a@.prefix, channels: seq_set(a.channel_list()) });
    assert(b@ == UserView { prefix: b@.prefix, channels: seq_set(b.channel_list()) });
}

/// Patching a channel with its difference to a channel of the same name
/// gives that channel.
pub proof fn lemma_channel_diff_round_trip(a: &Channel, b: &Channel)
    requires
        a@.name == b@.name,
    ensures
        channel_patched(a@, channel_diff(a@.topic, a.user_list(), b@.topic, b.user_list())) == b@,
{
    a.lemma_users();
    b.lemma_users();
    lemma_channel_patch_diff(a@.name, a@.topic, a.user_list(), b@.topic, b.user_list());
    assert(a@ == ChannelView { name: a@.name, topic: a@.topic, users: seq_set(a.user_list()) });
    assert(b@ == ChannelView { name: b@.name, topic: b@.topic, users: seq_set(b.user_list()) });
}

} // verus!

verus! {

/// A user as a change to the state brings it in: its number and prefix.
#[derive(Debug)]
pub struct UserInfo {
    id: UserId,
    prefix: IrcMsgPrefix,
}

pub struct UserInfoView {
    pub id: u64,
    pub prefix: Seq<u8>,
}

impl View for UserInfo {
    type V = UserInfoView;

    closed spec fn view(&self) -> UserInfoView {
        UserInfoView { id: self.id.0, prefix: self.prefix@ }
    }
}

impl UserInfo {
    fn from_internal(user: &User) -> (r: UserInfo)
        ensures
            r@ == (UserInfoView { id: user.uid(), prefix: user@.prefix }),
    {
        UserInfo { id: user.id, prefix: user.prefix.to_owned() }
    }

    /// The nick: the prefix up to its first `!`.
    fn get_nick(&self) -> (r: &str)
        ensures
            r.spec_bytes() == user_nick(self@.prefix),
    {
        let prefix = self.prefix.as_slice();
        let bytes = str_bytes(prefix);
        match find_character(bytes, 0x21, 0) {
            Some(idx) => {
                proof {
                    lemma_ends_are_boundaries(bytes@);
                    lemma_ascii_boundaries(bytes@, idx as int);
                }
                str_range(prefix, 0, idx)
            },
            None => prefix,
        }
    }
}

/// A channel as a change to the state brings it in: its number, name and
/// topic.
#[derive(Debug)]
pub struct ChannelInfo {
    id: ChannelId,
    name: String,
    topic: String,
}

pub struct ChannelInfoView {
    pub id: u64,
    pub name: Seq<u8>,
    pub topic: Seq<u8>,
}

impl View for ChannelInfo {
    type V = ChannelInfoView;

    closed spec fn view(&self) -> ChannelInfoView {
        ChannelInfoView { id: self.id.0, name: encode_utf8(self.name@), topic: encode_utf8(self.topic@) }
    }
}

impl ChannelInfo {
    fn from_internal(chan: &Channel) -> (r: ChannelInfo)
        ensures
            r@ == (ChannelInfoView { id: chan.cid(), name: chan@.name, topic: chan@.topic }),
    {
        ChannelInfo { id: chan.id, name: chan.name.clone(), topic: chan.topic.clone() }
    }

    /// The channel a join result names, under number `id`.
    fn from_join(id: ChannelId, join: &crate::watchers::join::JoinSuccess) -> (r: ChannelInfo)
        requires
            valid_utf8(join.channel@),
            valid_utf8(join_topic(join)),
        ensures
            r@ == (ChannelInfoView { id: id.0, name: join.channel@, topic: join_topic(join) }),
    {
        let topic_bytes = match &join.topic {
            Some(t) => crate::text::bytes_to_vec(t.text.as_slice()),
            None => Vec::new(),
        };
        proof {
            assert(topic_bytes@ == join_topic(join));
            lemma_decode_encode(topic_bytes@);
            lemma_decode_encode(join.channel@);
        }
        let channel_name = as_text(join.channel.as_slice());
        ChannelInfo { id: id, name: str_to_string(channel_name), topic: into_text(topic_bytes) }
    }
}

impl User {
    fn from_info(info: &UserInfo) -> (r: User)
        ensures
            r.uid() == info@.id,
            r@ == (UserView { prefix: info@.prefix, channels: Set::empty() }),
            r.channel_list() == Seq::<u64>::empty(),
    {
        let r = User { id: info.id, prefix: info.prefix.to_owned(), channels: Vec::new() };
        proof {
            assert(r@.channels =~= Set::<u64>::empty());
        }
        r
    }

    /// A copy of this user.
    fn copy(&self) -> (r: User)
        ensures
            r.id == self.id,
            r@ == self@,
            r.channels@ == self.channels@,
    {
        User { id: self.id, prefix: self.prefix.to_owned(), channels: copy_ids(&self.channels) }
    }
}

impl Channel {
    fn from_info(info: &ChannelInfo) -> (r: Channel)
        ensures
            r.cid() == info@.id,
            r@ == (ChannelView { name: info@.name, topic: info@.topic, users: Set::empty() }),
            r.user_list() == Seq::<u64>::empty(),
    {
        let r = Channel { id: info.id, name: info.name.clone(), topic: info.topic.clone(), users: Vec::new() };
        proof {
            assert(r@.users =~= Set::<u64>::empty());
        }
        r
    }

    /// A copy of this channel.
    fn copy(&self) -> (r: Channel)
        ensures
            r.id == self.id,
            r@ == self@,
            r.users@ == self.users@,
    {
        Channel { id: self.id, name: self.name.clone(), topic: self.topic.clone(), users: copy_ids(&self.users) }
    }
}

fn copy_users(v: &Vec<User>) -> (r: Vec<User>)
    ensures
        user_pairs(r@) == user_pairs(v@),
        r@.len() == v@.len(),
        forall|i: int| 0 <= i < v@.len() ==> (#[trigger] r@[i]).channels@ == v@[i].channels@,
{
    let mut out: Vec<User> = Vec::new();
    let mut i: usize = 0;
    while i < v.len()
        invariant
            0 <= i <= v.len(),
            out@.len() == i,
            forall|j: int| 0 <= j < i ==> (#[trigger] out@[j]).id == v@[j].id && out@[j]@ == v@[j]@ && out@[j].channels@ == v@[j].channels@,
        decreases v.len() - i,
    {
        out.push(v[i].copy());
        i = i + 1;
    }
    proof {
        assert(user_pairs(out@) =~= user_pairs(v@));
    }
    out
}

fn copy_channels(v: &Vec<Channel>) -> (r: Vec<Channel>)
    ensures
        channel_pairs(r@) == channel_pairs(v@),
        r@.len() == v@.len(),
        forall|i: int| 0 <= i < v@.len() ==> (#[trigger] r@[i]).users@ == v@[i].users@,
{
    let mut out: Vec<Channel> = Vec::new();
    let mut i: usize = 0;
    while i < v.len()
        invariant
            0 <= i <= v.len(),
            out@.len() == i,
            forall|j: int| 0 <= j < i ==> (#[trigger] out@[j]).id == v@[j].id && out@[j]@ == v@[j]@ && out@[j].users@ == v@[j].users@,
        decreases v.len() - i,
    {
        out.push(v[i].copy());
        i = i + 1;
    }
    proof {
        assert(channel_pairs(out@) =~= channel_pairs(v@));
    }
    out
}

fn copy_umap(v: &Vec<(IrcIdentifier, UserId)>) -> (r: Vec<(IrcIdentifier, UserId)>)
    ensures
        umap_pairs(r@) == umap_pairs(v@),
{
    let mut out: Vec<(IrcIdentifier, UserId)> = Vec::new();
    let mut i: usize = 0;
    while i < v.len()
        invariant
            0 <= i <= v.len(),
            out@.len() == i,
            forall|j: int| 0 <= j < i ==> (#[trigger] out@[j]).0@ == v@[j].0@ && out@[j].1 == v@[j].1,
        decreases v.len() - i,
    {
        let key = IrcIdentifier(str_to_string(v[i].0.as_slice()));
        proof {
            encode_utf8_decode_utf8(v@[i as int].0.0@);
        }
        out.push((key, v[i].1));
        i = i + 1;
    }
    proof {
        assert(umap_pairs(out@) =~= umap_pairs(v@));
    }
    out
}

fn copy_cmap(v: &Vec<(IrcIdentifier, ChannelId)>) -> (r: Vec<(IrcIdentifier, ChannelId)>)
    ensures
        cmap_pairs(r@) == cmap_pairs(v@),
{
    let mut out: Vec<(IrcIdentifier, ChannelId)> = Vec::new();
    let mut i: usize = 0;
    while i < v.len()
        invariant
            0 <= i <= v.len(),
            out@.len() == i,
            forall|j: int| 0 <= j < i ==> (#[trigger] out@[j]).0@ == v@[j].0@ && out@[j].1 == v@[j].1,
        decreases v.len() - i,
    {
        let key = IrcIdentifier(str_to_string(v[i].0.as_slice()));
        proof {
            encode_utf8_decode_utf8(v@[i as int].0.0@);
        }
        out.push((key, v[i].1));
        i = i + 1;
    }
    proof {
        assert(cmap_pairs(out@) =~= cmap_pairs(v@));
    }
    out
}

impl Clone for State {
    fn clone(&self) -> (r: State)
        ensures
            r@ == self@,
            self.inv() ==> r.inv(),
    {
        State {
            user_seq: self.user_seq,
            channel_seq: self.channel_seq,
            self_nick: self.self_nick.clone(),
            self_id: self.self_id,
            user_map: copy_umap(&self.user_map),
            users: copy_users(&self.users),
            channel_map: copy_cmap(&self.channel_map),
            channels: copy_channels(&self.channels),
            generation: self.generation,
        }
    }
}

/// A copy of the state that no longer changes.
pub struct FrozenState(State);

impl FrozenState {
    pub closed spec fn state(&self) -> State {
        self.0
    }
}

impl core::ops::Deref for FrozenState {
    type Target = State;

    fn deref(&self) -> (r: &State)
        ensures
            *r == self.state(),
    {
        &self.0
    }
}

impl State {
    /// A frozen copy of the state.
    pub fn clone_frozen(&self) -> (r: FrozenState)
        ensures
            r.state()@ == self@,
            self.inv() ==> r.state().inv(),
    {
        FrozenState(self.clone())
    }
}

} // verus!

verus! {

/// One change to the state.
#[derive(Debug)]
pub enum StateCommand {
    CreateUser(UserInfo),
    UpdateUser(UserId, Vec<UserDiffCmd>),
    RemoveUser(UserId),
    CreateChannel(ChannelInfo),
    UpdateChannel(ChannelId, Vec<ChannelDiffCmd>),
    RemoveChannel(ChannelId),
    UpdateSelfNick(String),
    SetGeneration(u64),
}

/// One change to the state, by its contents.
pub enum StateCommandView {
    CreateUser(UserInfoView),
    UpdateUser(u64, Seq<UserDiffView>),
    RemoveUser(u64),
    CreateChannel(ChannelInfoView),
    UpdateChannel(u64, Seq<ChannelDiffView>),
    RemoveChannel(u64),
    UpdateSelfNick(Seq<u8>),
    SetGeneration(u64),
}

pub open spec fn state_cmd_view(c: StateCommand) -> StateCommandView {
    match c {
        StateCommand::CreateUser(info) => StateCommandView::CreateUser(info@),
        StateCommand::UpdateUser(id, diff) => StateCommandView::UpdateUser(id.0, user_cmds_view(diff@)),
        StateCommand::RemoveUser(id) => StateCommandView::RemoveUser(id.0),
        StateCommand::CreateChannel(info) => StateCommandView::CreateChannel(info@),
        StateCommand::UpdateChannel(id, diff) => StateCommandView::UpdateChannel(id.0, channel_cmds_view(diff@)),
        StateCommand::RemoveChannel(id) => StateCommandView::RemoveChannel(id.0),
        StateCommand::UpdateSelfNick(nick) => StateCommandView::UpdateSelfNick(encode_utf8(nick@)),
        StateCommand::SetGeneration(g) => StateCommandView::SetGeneration(g),
    }
}

pub open spec fn state_cmds_view(v: Seq<StateCommand>) -> Seq<StateCommandView> {
    v.map_values(|c: StateCommand| state_cmd_view(c))
}

/// The changes that lead from one state to another.
#[derive(Debug)]
pub struct StateDiff {
    from_generation: u64,
    to_generation: u64,
    commands: Vec<StateCommand>,
}

pub struct StateDiffView {
    pub from_generation: u64,
    pub to_generation: u64,
    pub commands: Seq<StateCommandView>,
}

impl View for StateDiff {
    type V = StateDiffView;

    closed spec fn view(&self) -> StateDiffView {
        StateDiffView {
            from_generation: self.from_generation,
            to_generation: self.to_generation,
            commands: state_cmds_view(self.commands@),
        }
    }
}

/// The key a user is found under: its nick in IRC lower case.
pub open spec fn user_key(prefix: Seq<u8>) -> Seq<u8> {
    ident(user_nick(prefix))
}

pub open spec fn larger(a: u64, b: u64) -> u64 {
    if a < b {
        b
    } else {
        a
    }
}

/// The state after one change.
pub open spec fn command_applied(v: StateView, c: StateCommandView) -> StateView {
    match c {
        StateCommandView::UpdateSelfNick(nick) => StateView {
            self_nick: nick,
            user_map: v.user_map.remove(ident(v.self_nick)).insert(ident(nick), v.self_id),
            ..v
        },
        StateCommandView::SetGeneration(g) => StateView { generation: g, ..v },
        StateCommandView::CreateUser(info) => StateView {
            user_seq: larger(v.user_seq, info.id),
            users: v.users.insert(info.id, UserView { prefix: info.prefix, channels: Set::empty() }),
            user_map: v.user_map.insert(user_key(info.prefix), info.id),
            ..v
        },
        StateCommandView::UpdateUser(id, diff) => if v.users.contains_key(id) {
            let u = user_patched(v.users[id], diff);
            let old_key = user_key(v.users[id].prefix);
            let new_key = user_key(u.prefix);
            StateView {
                users: v.users.insert(id, u),
                user_map: if old_key != new_key {
                    v.user_map.remove(old_key).insert(new_key, id)
                } else {
                    v.user_map
                },
                ..v
            }
        } else {
            v
        },
        StateCommandView::RemoveUser(id) => StateView {
            users: v.users.remove(id),
            user_map: v.user_map.remove(user_key(v.users[id].prefix)),
            ..v
        },
        StateCommandView::CreateChannel(info) => StateView {
            channel_seq: larger(v.channel_seq, info.id),
            channels: v.channels.insert(info.id, ChannelView { name: info.name, topic: info.topic, users: Set::empty() }),
            channel_map: v.channel_map.insert(ident(info.name), info.id),
            ..v
        },
        StateCommandView::UpdateChannel(id, diff) => if v.channels.contains_key(id) {
            StateView { channels: v.channels.insert(id, channel_patched(v.channels[id], diff)), ..v }
        } else {
            v
        },
        StateCommandView::RemoveChannel(id) => after_remove_channel(v, id),
    }
}

/// The user map holds `id` under `key`.
pub open spec fn maps_to(m: Map<Seq<u8>, u64>, key: Seq<u8>, id: u64) -> bool {
    m.contains_key(key) && m[key] == id
}

/// Applying a change fails: our nick can only be changed while we have
/// none and the empty nick is a key (the key of our old nick is taken out
/// twice); a user whose nick key changes must be found under the old key;
/// a user to remove must be known and found under its key; a channel to
/// remove must have known members.
pub open spec fn command_faults(v: StateView, c: StateCommandView) -> bool {
    match c {
        StateCommandView::UpdateSelfNick(_) => v.self_nick != Seq::<u8>::empty() || !v.user_map.contains_key(
            ident(v.self_nick),
        ),
        StateCommandView::UpdateUser(id, diff) => v.users.contains_key(id) && {
            let old_key = user_key(v.users[id].prefix);
            old_key != user_key(user_patched(v.users[id], diff).prefix) && !maps_to(v.user_map, old_key, id)
        },
        StateCommandView::RemoveUser(id) => !v.users.contains_key(id) || !maps_to(
            v.user_map,
            user_key(v.users[id].prefix),
            id,
        ),
        StateCommandView::RemoveChannel(id) => remove_channel_faults(v, id),
        _ => false,
    }
}

/// The state after some changes, in order.
pub open spec fn state_commands_applied(v: StateView, cmds: Seq<StateCommandView>) -> StateView
    decreases cmds.len(),
{
    if cmds.len() == 0 {
        v
    } else {
        command_applied(state_commands_applied(v, cmds.drop_last()), cmds.last())
    }
}

/// Applying some changes in order fails at one of them.
pub open spec fn state_commands_fault(v: StateView, cmds: Seq<StateCommandView>) -> bool
    decreases cmds.len(),
{
    cmds.len() > 0 && (state_commands_fault(v, cmds.drop_last()) || command_faults(
        state_commands_applied(v, cmds.drop_last()),
        cmds.last(),
    ))
}

proof fn lemma_commands_fault_prefix(v: StateView, cmds: Seq<StateCommandView>, n: int)
    requires
        0 <= n <= cmds.len(),
        !state_commands_fault(v, cmds),
    ensures
        !state_commands_fault(v, cmds.take(n)),
    decreases cmds.len(),
{
    if n < cmds.len() {
        lemma_commands_fault_prefix(v, cmds.drop_last(), n);
        assert(cmds.drop_last().take(n) =~= cmds.take(n));
    } else {
        assert(cmds.take(n) =~= cmds);
    }
}

impl State {
    fn apply_update_self_nick(&mut self, new_nick_str: &str)
        requires
            old(self).inv(),
            !command_faults(old(self)@, StateCommandView::UpdateSelfNick(new_nick_str.spec_bytes())),
        ensures
            final(self).inv(),
            final(self)@ == command_applied(old(self)@, StateCommandView::UpdateSelfNick(new_nick_str.spec_bytes())),
    {
        let new_nick = IrcIdentifier::from_str(new_nick_str);
        let old_nick = IrcIdentifier::from_str(self.self_nick.as_str());
        let _removed = self.umap_take(old_nick.key_bytes());
        self.set_self_nick(new_nick_str);
        let self_id = self.self_id.0;
        self.umap_put(new_nick, self_id);
    }

    fn apply_remove_channel(&mut self, id: u64)
        requires
            old(self).inv(),
            !remove_channel_faults(old(self)@, id),
        ensures
            final(self).inv(),
            final(self)@ == after_remove_channel(old(self)@, id),
    {
        self.remove_channel_by_id(id);
    }

    fn apply_create_chan(&mut self, chan_info: &ChannelInfo)
        requires
            old(self).inv(),
        ensures
            final(self).inv(),
            final(self)@ == command_applied(old(self)@, StateCommandView::CreateChannel(chan_info@)),
    {
        let chan_id = chan_info.id.0;
        if self.channel_seq < chan_id {
            self.channel_seq = chan_id;
        }
        self.put_channel(Channel::from_info(chan_info));
        proof {
            encode_utf8_decode_utf8(chan_info.name@);
        }
        let channel_name = IrcIdentifier::from_str(chan_info.name.as_str());
        self.cmap_put(channel_name, chan_id);
    }

    fn apply_update_chan(&mut self, id: u64, diff: &Vec<ChannelDiffCmd>)
        requires
            old(self).inv(),
        ensures
            final(self).inv(),
            final(self)@ == command_applied(old(self)@, StateCommandView::UpdateChannel(id, channel_cmds_view(diff@))),
    {
        match self.find_channel(id) {
            Some(i) => {
                let channel_state = self.channels[i].patch(diff);
                self.put_channel(channel_state);
            },
            None => {},
        }
    }

    fn apply_create_user(&mut self, user_info: &UserInfo)
        requires
            old(self).inv(),
        ensures
            final(self).inv(),
            final(self)@ == command_applied(old(self)@, StateCommandView::CreateUser(user_info@)),
    {
        let user_id = user_info.id.0;
        if self.user_seq < user_id {
            self.user_seq = user_id;
        }
        self.put_user(User::from_info(user_info));
        let nick = IrcIdentifier::from_str(user_info.get_nick());
        self.umap_put(nick, user_id);
    }

    fn apply_update_user(&mut self, id: u64, diff: &Vec<UserDiffCmd>)
        requires
            old(self).inv(),
            !command_faults(old(self)@, StateCommandView::UpdateUser(id, user_cmds_view(diff@))),
        ensures
            final(self).inv(),
            final(self)@ == command_applied(old(self)@, StateCommandView::UpdateUser(id, user_cmds_view(diff@))),
    {
        match self.find_user(id) {
            Some(i) => {
                let old_nick = IrcIdentifier::from_str(self.users[i].get_nick());
                let new_user = self.users[i].patch(diff);
                let new_nick = IrcIdentifier::from_str(new_user.get_nick());
                if !bytes_equal(old_nick.key_bytes(), new_nick.key_bytes()) {
                    let _removed = self.umap_take(old_nick.key_bytes());
                    self.umap_put(new_nick, id);
                }
                self.put_user(new_user);
            },
            None => {},
        }
    }

    fn apply_remove_user(&mut self, id: u64)
        requires
            old(self).inv(),
            !command_faults(old(self)@, StateCommandView::RemoveUser(id)),
        ensures
            final(self).inv(),
            final(self)@ == command_applied(old(self)@, StateCommandView::RemoveUser(id)),
    {
        let i = self.find_user(id).unwrap();
        let user_nick = IrcIdentifier::from_str(self.users[i].get_nick());
        self.drop_user(id);
        let _removed = self.umap_take(user_nick.key_bytes());
    }

    fn apply_command(&mut self, cmd: &StateCommand)
        requires
            old(self).inv(),
            !command_faults(old(self)@, state_cmd_view(*cmd)),
        ensures
            final(self).inv(),
            final(self)@ == command_applied(old(self)@, state_cmd_view(*cmd)),
    {
        match cmd {
            StateCommand::UpdateSelfNick(new_nick) => self.apply_update_self_nick(new_nick.as_str()),
            StateCommand::SetGeneration(generation) => {
                self.generation = *generation;
            },
            StateCommand::CreateUser(info) => self.apply_create_user(info),
            StateCommand::UpdateUser(id, diff) => self.apply_update_user(id.0, diff),
            StateCommand::RemoveUser(id) => self.apply_remove_user(id.0),
            StateCommand::CreateChannel(info) => self.apply_create_chan(info),
            StateCommand::UpdateChannel(id, diff) => self.apply_update_chan(id.0, diff),
            StateCommand::RemoveChannel(id) => self.apply_remove_channel(id.0),
        }
    }

    /// This state with the changes of `diff` applied, in order; the diff
    /// must start from the generation of this state.
    pub fn patch(&self, diff: &StateDiff) -> (r: State)
        requires
            self.inv(),
            self@.generation == diff@.from_generation,
            !state_commands_fault(self@, diff@.commands),
        ensures
            r.inv(),
            r@ == state_commands_applied(self@, diff@.commands),
    {
        let mut new = self.clone();
        let ghost cmds = diff@.commands;
        let mut i: usize = 0;
        while i < diff.commands.len()
            invariant
                0 <= i <= diff.commands@.len(),
                cmds == state_cmds_view(diff.commands@),
                !state_commands_fault(self@, cmds),
                new.inv(),
                new@ == state_commands_applied(self@, cmds.take(i as int)),
            decreases diff.commands.len() - i,
        {
            proof {
                lemma_commands_fault_prefix(self@, cmds, i + 1);
                assert(cmds.take(i + 1).drop_last() =~= cmds.take(i as int));
                assert(cmds.take(i + 1).last() == state_cmd_view(diff.commands@[i as int]));
            }
            new.apply_command(&diff.commands[i]);
            i = i + 1;
        }
        proof {
            assert(cmds.take(i as int) =~= cmds);
        }
        new
    }
}

} // verus!

verus! {

/// Both lists hold the same numbers.
fn same_members(a: &Vec<u64>, b: &Vec<u64>) -> (r: bool)
    ensures
        r == (seq_set(a@) == seq_set(b@)),
{
    let mut i: usize = 0;
    while i < a.len()
        invariant
            0 <= i <= a.len(),
            forall|j: int| 0 <= j < i ==> seq_set(b@).contains(#[trigger] a@[j]),
        decreases a.len() - i,
    {
        if !set_contains(b, a[i]) {
            proof {
                assert(seq_set(a@).contains(a@[i as int]));
            }
            return false;
        }
        i = i + 1;
    }
    let mut k: usize = 0;
    while k < b.len()
        invariant
            0 <= k <= b.len(),
            forall|j: int| 0 <= j < a@.len() ==> seq_set(b@).contains(#[trigger] a@[j]),
            forall|j: int| 0 <= j < k ==> seq_set(a@).contains(#[trigger] b@[j]),
        decreases b.len() - k,
    {
        if !set_contains(a, b[k]) {
            proof {
                assert(seq_set(b@).contains(b@[k as int]));
            }
            return false;
        }
        k = k + 1;
    }
    proof {
        assert forall|x: u64| seq_set(a@).contains(x) == seq_set(b@).contains(x) by {
            if seq_set(a@).contains(x) {
                let j = choose|j: int| 0 <= j < a@.len() && a@[j] == x;
                assert(seq_set(b@).contains(a@[j]));
            }
            if seq_set(b@).contains(x) {
                let j = choose|j: int| 0 <= j < b@.len() && b@[j] == x;
                assert(seq_set(a@).contains(b@[j]));
            }
        }
        assert(seq_set(a@) =~= seq_set(b@));
    }
    true
}

impl User {
    fn same_as(&self, other: &User) -> (r: bool)
        ensures
            r == (self@ == other@),
    {
        bytes_equal(str_bytes(self.prefix.as_slice()), str_bytes(other.prefix.as_slice())) && same_members(
            &self.channels,
            &other.channels,
        )
    }
}

impl Channel {
    fn same_as(&self, other: &Channel) -> (r: bool)
        ensures
            r == (self@ == other@),
    {
        bytes_equal(string_bytes(&self.name), string_bytes(&other.name)) && bytes_equal(
            string_bytes(&self.topic),
            string_bytes(&other.topic),
        ) && same_members(&self.users, &other.users)
    }
}

fn add_channel_cmds(ids: &Vec<u64>) -> (r: Vec<UserDiffCmd>)
    ensures
        user_cmds_view(r@) == ids@.map_values(|x: u64| UserDiffView::AddChannel(x)),
{
    let mut out: Vec<UserDiffCmd> = Vec::new();
    let mut i: usize = 0;
    while i < ids.len()
        invariant
            0 <= i <= ids.len(),
            out@.len() == i,
            forall|j: int| 0 <= j < i ==> user_cmd_view(#[trigger] out@[j]) == UserDiffView::AddChannel(ids@[j]),
        decreases ids.len() - i,
    {
        out.push(UserDiffCmd::AddChannel(ChannelId(ids[i])));
        i = i + 1;
    }
    proof {
        assert(user_cmds_view(out@) =~= ids@.map_values(|x: u64| UserDiffView::AddChannel(x)));
    }
    out
}

fn add_user_cmds(ids: &Vec<u64>) -> (r: Vec<ChannelDiffCmd>)
    ensures
        channel_cmds_view(r@) == ids@.map_values(|x: u64| ChannelDiffView::AddUser(x)),
{
    let mut out: Vec<ChannelDiffCmd> = Vec::new();
    let mut i: usize = 0;
    while i < ids.len()
        invariant
            0 <= i <= ids.len(),
            out@.len() == i,
            forall|j: int| 0 <= j < i ==> channel_cmd_view(#[trigger] out@[j]) == ChannelDiffView::AddUser(ids@[j]),
        decreases ids.len() - i,
    {
        out.push(ChannelDiffCmd::AddUser(UserId(ids[i])));
        i = i + 1;
    }
    proof {
        assert(channel_cmds_view(out@) =~= ids@.map_values(|x: u64| ChannelDiffView::AddUser(x)));
    }
    out
}

/// Some channel of the list has number `id`.
pub open spec fn lists_channel(s: Seq<Channel>, id: u64) -> bool {
    exists|i: int| 0 <= i < s.len() && s[i].cid() == id
}

/// The channel of the list with number `id`.
pub open spec fn listed_channel(s: Seq<Channel>, id: u64) -> Channel {
    s[choose|i: int| 0 <= i < s.len() && s[i].cid() == id]
}

/// Some user of the list has number `id`.
pub open spec fn lists_user(s: Seq<User>, id: u64) -> bool {
    exists|i: int| 0 <= i < s.len() && s[i].uid() == id
}

/// The user of the list with number `id`.
pub open spec fn listed_user(s: Seq<User>, id: u64) -> User {
    s[choose|i: int| 0 <= i < s.len() && s[i].uid() == id]
}

/// The changes for one channel of the new state: its difference to the
/// old channel of that number when they differ; or, for a new channel, its
/// creation, then its users.
pub open spec fn channel_commands(olds: Seq<Channel>, c: Channel) -> Seq<StateCommandView> {
    if lists_channel(olds, c.cid()) {
        let o = listed_channel(olds, c.cid());
        if o@ == c@ {
            Seq::empty()
        } else {
            seq![StateCommandView::UpdateChannel(c.cid(), channel_diff(o@.topic, o.user_list(), c@.topic, c.user_list()))]
        }
    } else {
        seq![StateCommandView::CreateChannel(ChannelInfoView { id: c.cid(), name: c@.name, topic: c@.topic })] + (
        if c.user_list().len() > 0 {
            seq![StateCommandView::UpdateChannel(c.cid(), c.user_list().map_values(|x: u64| ChannelDiffView::AddUser(x)))]
        } else {
            Seq::empty()
        })
    }
}

/// The changes for the channels of the new state, in their order.
pub open spec fn channels_commands(olds: Seq<Channel>, news: Seq<Channel>) -> Seq<StateCommandView>
    decreases news.len(),
{
    if news.len() == 0 {
        Seq::empty()
    } else {
        channels_commands(olds, news.drop_last()) + channel_commands(olds, news.last())
    }
}

/// The removals of the old channels that the new state lacks, in their
/// order.
pub open spec fn channel_removals(olds: Seq<Channel>, new: StateView) -> Seq<StateCommandView>
    decreases olds.len(),
{
    if olds.len() == 0 {
        Seq::empty()
    } else {
        channel_removals(olds.drop_last(), new) + (if new.channels.contains_key(olds.last().cid()) {
            Seq::empty()
        } else {
            seq![StateCommandView::RemoveChannel(olds.last().cid())]
        })
    }
}

/// The changes for one user of the new state: its difference to the old
/// user of that number when they differ; or, for a new user, its creation,
/// then its channels.
pub open spec fn user_commands(olds: Seq<User>, u: User) -> Seq<StateCommandView> {
    if lists_user(olds, u.uid()) {
        let o = listed_user(olds, u.uid());
        if o@ == u@ {
            Seq::empty()
        } else {
            seq![StateCommandView::UpdateUser(u.uid(), user_diff(o@.prefix, o.channel_list(), u@.prefix, u.channel_list()))]
        }
    } else {
        seq![StateCommandView::CreateUser(UserInfoView { id: u.uid(), prefix: u@.prefix })] + (
        if u.channel_list().len() > 0 {
            seq![StateCommandView::UpdateUser(u.uid(), u.channel_list().map_values(|x: u64| UserDiffView::AddChannel(x)))]
        } else {
            Seq::empty()
        })
    }
}

/// The changes for the users of the new state, in their order.
pub open spec fn users_commands(olds: Seq<User>, news: Seq<User>) -> Seq<StateCommandView>
    decreases news.len(),
{
    if news.len() == 0 {
        Seq::empty()
    } else {
        users_commands(olds, news.drop_last()) + user_commands(olds, news.last())
    }
}

/// The removals of the old users that the new state lacks, in their order.
pub open spec fn user_removals(olds: Seq<User>, new: StateView) -> Seq<StateCommandView>
    decreases olds.len(),
{
    if olds.len() == 0 {
        Seq::empty()
    } else {
        user_removals(olds.drop_last(), new) + (if new.users.contains_key(olds.last().uid()) {
            Seq::empty()
        } else {
            seq![StateCommandView::RemoveUser(olds.last().uid())]
        })
    }
}

impl State {
    /// The users, in the order they are kept.
    pub closed spec fn user_list(&self) -> Seq<User> {
        self.users@
    }

    /// The channels, in the order they are kept.
    pub closed spec fn channel_list(&self) -> Seq<Channel> {
        self.channels@
    }
}

/// The changes from state `a` to state `b`: our new nick when it differs;
/// the channels of `b` that are new or differ, then the removal of those it
/// lacks; the same for the users; the generation of `b` when it differs.
pub open spec fn state_diff(a: &State, b: &State) -> Seq<StateCommandView> {
    (if a@.self_nick != b@.self_nick {
        seq![StateCommandView::UpdateSelfNick(b@.self_nick)]
    } else {
        Seq::empty()
    }) + channels_commands(a.channel_list(), b.channel_list()) + channel_removals(a.channel_list(), b@)
        + users_commands(a.user_list(), b.user_list()) + user_removals(a.user_list(), b@) + (
    if a@.generation != b@.generation {
        seq![StateCommandView::SetGeneration(b@.generation)]
    } else {
        Seq::empty()
    })
}

impl State {
    proof fn lemma_channel_listed(&self, i: int)
        requires
            self.inv(),
            0 <= i < self.channels@.len(),
        ensures
            lists_channel(self.channels@, self.channels@[i].id.0),
            listed_channel(self.channels@, self.channels@[i].id.0) == self.channels@[i],
    {
        let id = self.channels@[i].id.0;
        assert(self.channels@[i].cid() == id);
        let k = choose|k: int| 0 <= k < self.channels@.len() && self.channels@[k].cid() == id;
        assert(channel_pairs(self.channels@)[k].0 == id);
        assert(channel_pairs(self.channels@)[i].0 == id);
    }

    proof fn lemma_channel_unlisted(&self, id: u64)
        requires
            self.inv(),
            !self@.channels.contains_key(id),
        ensures
            !lists_channel(self.channels@, id),
    {
        if lists_channel(self.channels@, id) {
            let k = choose|k: int| 0 <= k < self.channels@.len() && self.channels@[k].cid() == id;
            self.lemma_channel_at(k);
        }
    }

    proof fn lemma_user_listed(&self, i: int)
        requires
            self.inv(),
            0 <= i < self.users@.len(),
        ensures
            lists_user(self.users@, self.users@[i].id.0),
            listed_user(self.users@, self.users@[i].id.0) == self.users@[i],
    {
        let id = self.users@[i].id.0;
        assert(self.users@[i].uid() == id);
        let k = choose|k: int| 0 <= k < self.users@.len() && self.users@[k].uid() == id;
        assert(user_pairs(self.users@)[k].0 == id);
        assert(user_pairs(self.users@)[i].0 == id);
    }

    proof fn lemma_user_unlisted(&self, id: u64)
        requires
            self.inv(),
            !self@.users.contains_key(id),
        ensures
            !lists_user(self.users@, id),
    {
        if lists_user(self.users@, id) {
            let k = choose|k: int| 0 <= k < self.users@.len() && self.users@[k].uid() == id;
            self.lemma_user_at(k);
        }
    }
}

} // verus!

verus! {

impl State {
    /// The changes that turn this state into `other`.
    pub fn diff(&self, other: &State) -> (r: StateDiff)
        requires
            self.inv(),
            other.inv(),
        ensures
            r@ == (StateDiffView {
                from_generation: self@.generation,
                to_generation: other@.generation,
                commands: state_diff(self, other),
            }),
    {
        let mut commands: Vec<StateCommand> = Vec::new();
        if !bytes_equal(string_bytes(&self.self_nick), string_bytes(&other.self_nick)) {
            commands.push(StateCommand::UpdateSelfNick(other.self_nick.clone()));
        }
        let ghost head = state_cmds_view(commands@);
        proof {
            assert(head =~= (if self@.self_nick != other@.self_nick {
                seq![StateCommandView::UpdateSelfNick(other@.self_nick)]
            } else {
                Seq::empty()
            }));
        }
        let mut i: usize = 0;
        while i < other.channels.len()
            invariant
                0 <= i <= other.channels@.len(),
                self.inv(),
                other.inv(),
                state_cmds_view(commands@) == head + channels_commands(self.channels@, other.channels@.take(i as int)),
            decreases other.channels.len() - i,
        {
            let ghost before = state_cmds_view(commands@);
            let c = &other.channels[i];
            proof {
                assert(other.channels@.take(i + 1).drop_last() =~= other.channels@.take(i as int));
                assert(other.channels@.take(i + 1).last() == *c);
            }
            match self.find_channel(c.id.0) {
                Some(j) => {
                    let o = &self.channels[j];
                    proof {
                        self.lemma_channel_listed(j as int);
                    }
                    if !o.same_as(c) {
                        commands.push(StateCommand::UpdateChannel(c.id, o.diff(c)));
                        proof {
                            assert(state_cmds_view(commands@) =~= before + channel_commands(self.channels@, *c));
                        }
                    } else {
                        proof {
                            assert(channel_commands(self.channels@, *c) =~= Seq::<StateCommandView>::empty());
                            assert(before + channel_commands(self.channels@, *c) =~= before);
                        }
                    }
                },
                None => {
                    proof {
                        self.lemma_channel_unlisted(c.id.0);
                    }
                    commands.push(StateCommand::CreateChannel(ChannelInfo::from_internal(c)));
                    if c.users.len() > 0 {
                        commands.push(StateCommand::UpdateChannel(c.id, add_user_cmds(&c.users)));
                    }
                    proof {
                        assert(state_cmds_view(commands@) =~= before + channel_commands(self.channels@, *c));
                    }
                },
            }
            i = i + 1;
        }
        proof {
            assert(other.channels@.take(i as int) =~= other.channels@);
        }
        let ghost mid = state_cmds_view(commands@);
        let mut k: usize = 0;
        while k < self.channels.len()
            invariant
                0 <= k <= self.channels@.len(),
                self.inv(),
                other.inv(),
                state_cmds_view(commands@) == mid + channel_removals(self.channels@.take(k as int), other@),
            decreases self.channels.len() - k,
        {
            let ghost before = state_cmds_view(commands@);
            let id = self.channels[k].id;
            proof {
                assert(self.channels@.take(k + 1).drop_last() =~= self.channels@.take(k as int));
                assert(self.channels@.take(k + 1).last() == self.channels@[k as int]);
            }
            if other.find_channel(id.0).is_none() {
                commands.push(StateCommand::RemoveChannel(id));
                proof {
                    assert(state_cmds_view(commands@) =~= before.push(StateCommandView::RemoveChannel(id.0)));
                }
            }
            proof {
                assert(mid + channel_removals(self.channels@.take(k + 1), other@) =~= state_cmds_view(commands@));
            }
            k = k + 1;
        }
        proof {
            assert(self.channels@.take(k as int) =~= self.channels@);
        }
        let ghost mid2 = state_cmds_view(commands@);
        let mut i: usize = 0;
        while i < other.users.len()
            invariant
                0 <= i <= other.users@.len(),
                self.inv(),
                other.inv(),
                state_cmds_view(commands@) == mid2 + users_commands(self.users@, other.users@.take(i as int)),
            decreases other.users.len() - i,
        {
            let ghost before = state_cmds_view(commands@);
            let u = &other.users[i];
            proof {
                assert(other.users@.take(i + 1).drop_last() =~= other.users@.take(i as int));
                assert(other.users@.take(i + 1).last() == *u);
            }
            match self.find_user(u.id.0) {
                Some(j) => {
                    let o = &self.users[j];
                    proof {
                        self.lemma_user_listed(j as int);
                    }
                    if !o.same_as(u) {
                        commands.push(StateCommand::UpdateUser(u.id, o.diff(u)));
                        proof {
                            assert(state_cmds_view(commands@) =~= before + user_commands(self.users@, *u));
                        }
                    } else {
                        proof {
                            assert(user_commands(self.users@, *u) =~= Seq::<StateCommandView>::empty());
                            assert(before + user_commands(self.users@, *u) =~= before);
                        }
                    }
                },
                None => {
                    proof {
                        self.lemma_user_unlisted(u.id.0);
                    }
                    commands.push(StateCommand::CreateUser(UserInfo::from_internal(u)));
                    if u.channels.len() > 0 {
                        commands.push(StateCommand::UpdateUser(u.id, add_channel_cmds(&u.channels)));
                    }
                    proof {
                        assert(state_cmds_view(commands@) =~= before + user_commands(self.users@, *u));
                    }
                },
            }
            i = i + 1;
        }
        proof {
            assert(other.users@.take(i as int) =~= other.users@);
        }
        let ghost mid3 = state_cmds_view(commands@);
        let mut k: usize = 0;
        while k < self.users.len()
            invariant
                0 <= k <= self.users@.len(),
                self.inv(),
                other.inv(),
                state_cmds_view(commands@) == mid3 + user_removals(self.users@.take(k as int), other@),
            decreases self.users.len() - k,
        {
            let ghost before = state_cmds_view(commands@);
            let id = self.users[k].id;
            proof {
                assert(self.users@.take(k + 1).drop_last() =~= self.users@.take(k as int));
                assert(self.users@.take(k + 1).last() == self.users@[k as int]);
            }
            if other.find_user(id.0).is_none() {
                commands.push(StateCommand::RemoveUser(id));
                proof {
                    assert(state_cmds_view(commands@) =~= before.push(StateCommandView::RemoveUser(id.0)));
                }
            }
            proof {
                assert(mid3 + user_removals(self.users@.take(k + 1), other@) =~= state_cmds_view(commands@));
            }
            k = k + 1;
        }
        proof {
            assert(self.users@.take(k as int) =~= self.users@);
        }
        let ghost mid4 = state_cmds_view(commands@);
        if self.generation != other.generation {
            commands.push(StateCommand::SetGeneration(other.generation));
        }
        proof {
            assert(state_cmds_view(commands@) =~= state_diff(self, other));
        }
        StateDiff { from_generation: self.generation, to_generation: other.generation, commands: commands }
    }
}

} // verus!

verus! {

/// Every name key leads to a known channel of that name, and every channel
/// is found under the key of its name.
pub open spec fn channels_indexed(v: StateView) -> bool {
    &&& forall|k: Seq<u8>| #[trigger] v.channel_map.contains_key(k) ==> v.channels.contains_key(v.channel_map[k])
        && ident(v.channels[v.channel_map[k]].name) == k
    &&& forall|id: u64| #[trigger] v.channels.contains_key(id) ==> maps_to(v.channel_map, ident(v.channels[id].name), id)
}

/// Every nick key leads to a known user of that nick, and every user is
/// found under the key of its nick.
pub open spec fn users_indexed(v: StateView) -> bool {
    &&& forall|k: Seq<u8>| #[trigger] v.user_map.contains_key(k) ==> v.users.contains_key(v.user_map[k])
        && user_key(v.users[v.user_map[k]].prefix) == k
    &&& forall|id: u64| #[trigger] v.users.contains_key(id) ==> maps_to(v.user_map, user_key(v.users[id].prefix), id)
}

/// The members of the channels are known users.
pub open spec fn members_known(v: StateView) -> bool {
    forall|id: u64, u: u64| v.channels.contains_key(id) && #[trigger] v.channels[id].users.contains(u) ==> v.users.contains_key(u)
}

/// The channels of the users are known channels.
pub open spec fn channels_known(v: StateView) -> bool {
    forall|id: u64, c: u64| v.users.contains_key(id) && #[trigger] v.users[id].channels.contains(c) ==> v.channels.contains_key(c)
}

/// The numbers of a list of channels.
pub open spec fn cids(s: Seq<Channel>) -> Seq<u64> {
    s.map_values(|c: Channel| c.cid())
}

/// The numbers of a list of users.
pub open spec fn uids(s: Seq<User>) -> Seq<u64> {
    s.map_values(|u: User| u.uid())
}

/// The name keys of `b` that lead to channels of `p` that `a` lacks.
pub open spec fn fresh_channel_keys(a: StateView, b: StateView, p: Set<u64>) -> Map<Seq<u8>, u64> {
    Map::new(
        |k: Seq<u8>| b.channel_map.contains_key(k) && p.contains(b.channel_map[k]) && !a.channels.contains_key(b.channel_map[k]),
        |k: Seq<u8>| b.channel_map[k],
    )
}

proof fn lemma_applied_concat(v: StateView, s1: Seq<StateCommandView>, s2: Seq<StateCommandView>)
    ensures
        state_commands_applied(v, s1 + s2) == state_commands_applied(state_commands_applied(v, s1), s2),
        state_commands_fault(v, s1 + s2) == (state_commands_fault(v, s1) || state_commands_fault(
            state_commands_applied(v, s1),
            s2,
        )),
    decreases s2.len(),
{
    if s2.len() == 0 {
        assert(s1 + s2 =~= s1);
    } else {
        lemma_applied_concat(v, s1, s2.drop_last());
        assert((s1 + s2).drop_last() =~= s1 + s2.drop_last());
        assert((s1 + s2).last() == s2.last());
    }
}

proof fn lemma_applied_one(v: StateView, x: StateCommandView)
    ensures
        state_commands_applied(v, seq![x]) == command_applied(v, x),
        state_commands_fault(v, seq![x]) == command_faults(v, x),
{
    let e = seq![x].drop_last();
    assert(e =~= Seq::<StateCommandView>::empty());
    lemma_applied_none(v);
    assert(seq![x].last() == x);
}

proof fn lemma_applied_none(v: StateView)
    ensures
        state_commands_applied(v, Seq::<StateCommandView>::empty()) == v,
        !state_commands_fault(v, Seq::<StateCommandView>::empty()),
{
}

proof fn lemma_applied_two(v: StateView, x: StateCommandView, y: StateCommandView)
    ensures
        state_commands_applied(v, seq![x, y]) == command_applied(command_applied(v, x), y),
        state_commands_fault(v, seq![x, y]) == (command_faults(v, x) || command_faults(command_applied(v, x), y)),
{
    lemma_applied_concat(v, seq![x], seq![y]);
    assert(seq![x] + seq![y] =~= seq![x, y]);
    lemma_applied_one(v, x);
    lemma_applied_one(command_applied(v, x), y);
}

} // verus!

verus! {

/// The channels of state `b` take in the channels of `a` that have the same
/// number, under the same name.
pub open spec fn same_channel_names(a: StateView, b: StateView) -> bool {
    forall|id: u64| a.channels.contains_key(id) && b.channels.contains_key(id) ==> #[trigger] a.channels[id].name
        == #[trigger] b.channels[id].name
}

proof fn lemma_cids_take(s: Seq<Channel>, n: int)
    requires
        0 < n <= s.len(),
    ensures
        seq_set(cids(s.take(n))) == seq_set(cids(s.take(n - 1))).insert(s[n - 1].cid()),
{
    assert(cids(s.take(n)) =~= cids(s.take(n - 1)).push(s[n - 1].cid()));
    crate::assoc::lemma_seq_set_push(cids(s.take(n - 1)), s[n - 1].cid());
}

impl State {
    proof fn lemma_channel_new_in_prefix(&self, n: int)
        requires
            self.inv(),
            0 < n <= self.channels@.len(),
        ensures
            !seq_set(cids(self.channels@.take(n - 1))).contains(self.channels@[n - 1].cid()),
    {
        if seq_set(cids(self.channels@.take(n - 1))).contains(self.channels@[n - 1].cid()) {
            let ids = cids(self.channels@.take(n - 1));
            let j = choose|j: int| 0 <= j < ids.len() && #[trigger] ids[j] == self.channels@[n - 1].cid();
            assert(channel_pairs(self.channels@)[j].0 == channel_pairs(self.channels@)[n - 1].0);
        }
    }
}

proof fn lemma_phase_channels(a: &State, b: &State, n: int)
    requires
        a.inv(),
        b.inv(),
        channels_indexed(b@),
        same_channel_names(a@, b@),
        0 <= n <= b.channels@.len(),
    ensures
        ({
            let cmds = channels_commands(a.channels@, b.channels@.take(n));
            let v = state_commands_applied(a@, cmds);
            let p = seq_set(cids(b.channels@.take(n)));
            &&& !state_commands_fault(a@, cmds)
            &&& v == (StateView {
                channel_seq: v.channel_seq,
                channels: a@.channels.union_prefer_right(b@.channels.restrict(p)),
                channel_map: a@.channel_map.union_prefer_right(fresh_channel_keys(a@, b@, p)),
                ..a@
            })
        }),
    decreases n,
{
    let p = seq_set(cids(b.channels@.take(n)));
    if n == 0 {
        assert(b.channels@.take(0) =~= Seq::<Channel>::empty());
        assert(p =~= Set::<u64>::empty());
        lemma_applied_none(a@);
        assert(a@.channels.union_prefer_right(b@.channels.restrict(p)) =~= a@.channels);
        assert(a@.channel_map.union_prefer_right(fresh_channel_keys(a@, b@, p)) =~= a@.channel_map);
    } else {
        lemma_phase_channels(a, b, n - 1);
        let s = b.channels@.take(n);
        assert(s.drop_last() =~= b.channels@.take(n - 1));
        let c = b.channels@[n - 1];
        assert(s.last() == c);
        let prev = channels_commands(a.channels@, b.channels@.take(n - 1));
        let here = channel_commands(a.channels@, c);
        assert(channels_commands(a.channels@, s) == prev + here);
        lemma_applied_concat(a@, prev, here);
        let v0 = state_commands_applied(a@, prev);
        let p0 = seq_set(cids(b.channels@.take(n - 1)));
        lemma_cids_take(b.channels@, n);
        b.lemma_channel_at(n - 1);
        b.lemma_channel_new_in_prefix(n);
        let id = c.cid();
        assert(c.id.0 == id);
        assert(p == p0.insert(id));
        assert(!p0.contains(id));
        assert(b@.channels[id] == c@);
        if lists_channel(a.channels@, id) {
            let k = choose|k: int| 0 <= k < a.channels@.len() && a.channels@[k].cid() == id;
            a.lemma_channel_listed(k);
            a.lemma_channel_at(k);
            let o = listed_channel(a.channels@, id);
            assert(o == a.channels@[k]);
            assert(a@.channels[id] == o@);
            assert(v0.channels[id] == o@);
            assert(fresh_channel_keys(a@, b@, p) =~= fresh_channel_keys(a@, b@, p0));
            if o@ == c@ {
                lemma_applied_none(v0);
                assert(here =~= Seq::<StateCommandView>::empty());
                assert(a@.channels.union_prefer_right(b@.channels.restrict(p)) =~= v0.channels);
            } else {
                let d = channel_diff(o@.topic, o.user_list(), c@.topic, c.user_list());
                lemma_applied_one(v0, StateCommandView::UpdateChannel(id, d));
                lemma_channel_diff_round_trip(&o, &c);
                assert(a@.channels.union_prefer_right(b@.channels.restrict(p)) =~= v0.channels.insert(id, c@));
            }
        } else {
            assert(!a@.channels.contains_key(id)) by {
                if a@.channels.contains_key(id) {
                    let k = choose|k: int| 0 <= k < channel_pairs(a.channels@).len() && channel_pairs(a.channels@)[k].0 == id;
                    assert(a.channels@[k].cid() == id);
                }
            }
            let info = ChannelInfoView { id: id, name: c@.name, topic: c@.topic };
            let v1 = command_applied(v0, StateCommandView::CreateChannel(info));
            let key = ident(c@.name);
            assert(maps_to(b@.channel_map, key, id));
            assert(fresh_channel_keys(a@, b@, p) =~= fresh_channel_keys(a@, b@, p0).insert(key, id)) by {
                assert forall|k: Seq<u8>| #[trigger] fresh_channel_keys(a@, b@, p).contains_key(k) && k != key implies fresh_channel_keys(a@, b@, p0).contains_key(k) by {
                    if b@.channel_map[k] == id {
                        assert(ident(b@.channels[b@.channel_map[k]].name) == k);
                    }
                }
            }
            assert(a@.channel_map.union_prefer_right(fresh_channel_keys(a@, b@, p)) =~= v1.channel_map);
            c.lemma_users();
            if c.user_list().len() > 0 {
                let adds = c.user_list().map_values(|x: u64| ChannelDiffView::AddUser(x));
                lemma_applied_two(v0, StateCommandView::CreateChannel(info), StateCommandView::UpdateChannel(id, adds));
                assert(here =~= seq![StateCommandView::CreateChannel(info), StateCommandView::UpdateChannel(id, adds)]);
                lemma_channel_adds(v1.channels[id], c.user_list());
                assert(Set::<u64>::empty().union(seq_set(c.user_list())) =~= seq_set(c.user_list()));
                assert(a@.channels.union_prefer_right(b@.channels.restrict(p)) =~= v1.channels.insert(id, c@));
            } else {
                lemma_applied_one(v0, StateCommandView::CreateChannel(info));
                assert(seq_set(c.user_list()) =~= Set::<u64>::empty());
                assert(here =~= seq![StateCommandView::CreateChannel(info)]);
                assert(a@.channels.union_prefer_right(b@.channels.restrict(p)) =~= v1.channels);
            }
        }
    }
}

} // verus!

verus! {

/// The channels of `r` that user `u` was a member of, in state `a`.
pub open spec fn gone_with(a: StateView, r: Set<u64>, u: u64) -> Set<u64> {
    Set::new(|c: u64| r.contains(c) && a.channels[c].users.contains(u))
}

/// The name keys of `a` that lead to channels of `r`.
pub open spec fn channel_keys_of(a: StateView, r: Set<u64>) -> Set<Seq<u8>> {
    Set::new(|k: Seq<u8>| a.channel_map.contains_key(k) && r.contains(a.channel_map[k]))
}

/// The channels among the first `n` of `a` that `b` lacks.
pub open spec fn removed_channels(a: &State, b: StateView, n: int) -> Set<u64> {
    Set::new(|c: u64| seq_set(cids(a.channel_list().take(n))).contains(c) && !b.channels.contains_key(c))
}

proof fn lemma_phase_channel_removals(a: &State, b: &State, w0: StateView, n: int)
    requires
        a.inv(),
        b.inv(),
        channels_indexed(a@),
        members_known(a@),
        w0 == (StateView {
            channel_seq: w0.channel_seq,
            channels: a@.channels.union_prefer_right(b@.channels.restrict(seq_set(cids(b.channels@)))),
            channel_map: w0.channel_map,
            ..a@
        }),
        0 <= n <= a.channels@.len(),
    ensures
        ({
            let cmds = channel_removals(a.channels@.take(n), b@);
            let w = state_commands_applied(w0, cmds);
            let r = removed_channels(a, b@, n);
            &&& !state_commands_fault(w0, cmds)
            &&& w == (StateView {
                users: Map::new(
                    |u: u64| a@.users.contains_key(u),
                    |u: u64| UserView { channels: a@.users[u].channels.difference(gone_with(a@, r, u)), ..a@.users[u] },
                ),
                channels: w0.channels.remove_keys(r),
                channel_map: w0.channel_map.remove_keys(channel_keys_of(a@, r)),
                ..w0
            })
        }),
    decreases n,
{
    let r = removed_channels(a, b@, n);
    if n == 0 {
        assert(a.channels@.take(0) =~= Seq::<Channel>::empty());
        assert(r =~= Set::<u64>::empty());
        lemma_applied_none(w0);
        assert(w0.channels.remove_keys(r) =~= w0.channels);
        assert(channel_keys_of(a@, r) =~= Set::<Seq<u8>>::empty());
        assert(w0.channel_map.remove_keys(channel_keys_of(a@, r)) =~= w0.channel_map);
        assert forall|u: u64| a@.users.contains_key(u) implies a@.users[u].channels.difference(gone_with(a@, r, u)) =~= a@.users[u].channels by {}
        assert(Map::new(
            |u: u64| a@.users.contains_key(u),
            |u: u64| UserView { channels: a@.users[u].channels.difference(gone_with(a@, r, u)), ..a@.users[u] },
        ) =~= a@.users);
    } else {
        lemma_phase_channel_removals(a, b, w0, n - 1);
        let s = a.channels@.take(n);
        assert(s.drop_last() =~= a.channels@.take(n - 1));
        let c = a.channels@[n - 1];
        assert(s.last() == c);
        let id = c.cid();
        assert(c.id.0 == id);
        let prev = channel_removals(a.channels@.take(n - 1), b@);
        let here: Seq<StateCommandView> = if b@.channels.contains_key(id) {
            Seq::empty()
        } else {
            seq![StateCommandView::RemoveChannel(id)]
        };
        assert(channel_removals(s, b@) == prev + here);
        lemma_applied_concat(w0, prev, here);
        let w = state_commands_applied(w0, prev);
        let r0 = removed_channels(a, b@, n - 1);
        lemma_cids_take(a.channels@, n);
        a.lemma_channel_new_in_prefix(n);
        a.lemma_channel_at(n - 1);
        if b@.channels.contains_key(id) {
            lemma_applied_none(w);
            assert(r =~= r0);
        } else {
            assert(r =~= r0.insert(id));
            assert(!r0.contains(id));
            lemma_applied_one(w, StateCommandView::RemoveChannel(id));
            assert(w.channels[id] == a@.channels[id]);
            assert(!remove_channel_faults(w, id));
            let members = a@.channels[id].users;
            assert(w.channels.remove(id) =~= w0.channels.remove_keys(r));
            let key = ident(a@.channels[id].name);
            assert(maps_to(a@.channel_map, key, id));
            assert(channel_keys_of(a@, r) =~= channel_keys_of(a@, r0).insert(key)) by {
                assert forall|k: Seq<u8>| #[trigger] channel_keys_of(a@, r).contains(k) && k != key implies channel_keys_of(a@, r0).contains(k) by {
                    if a@.channel_map[k] == id {
                        assert(ident(a@.channels[a@.channel_map[k]].name) == k);
                    }
                }
            }
            assert(w.channel_map.remove(key) =~= w0.channel_map.remove_keys(channel_keys_of(a@, r)));
            assert forall|u: u64| a@.users.contains_key(u) implies #[trigger] drop_channel_of(w.users, id, members)[u] == (UserView { channels: a@.users[u].channels.difference(gone_with(a@, r, u)), ..a@.users[u] }) by {
                assert(gone_with(a@, r, u) =~= if members.contains(u) { gone_with(a@, r0, u).insert(id) } else { gone_with(a@, r0, u) });
                assert(drop_channel_of(w.users, id, members)[u].channels =~= a@.users[u].channels.difference(gone_with(a@, r, u)));
            }
            assert(drop_channel_of(w.users, id, members) =~= Map::new(
                |u: u64| a@.users.contains_key(u),
                |u: u64| UserView { channels: a@.users[u].channels.difference(gone_with(a@, r, u)), ..a@.users[u] },
            ));
        }
    }
}

} // verus!

verus! {

proof fn lemma_user_patch_diff_on(a_prefix: Seq<u8>, a_channels: Seq<u64>, b_prefix: Seq<u8>, b_channels: Seq<u64>, s: Set<u64>)
    ensures
        user_patched(UserView { prefix: a_prefix, channels: s }, user_diff(a_prefix, a_channels, b_prefix, b_channels))
            == (UserView {
            prefix: b_prefix,
            channels: s.union(seq_set(b_channels).difference(seq_set(a_channels))).difference(
                seq_set(a_channels).difference(seq_set(b_channels)),
            ),
        }),
{
    let u = UserView { prefix: a_prefix, channels: s };
    let head: Seq<UserDiffView> = if a_prefix != b_prefix {
        seq![UserDiffView::ChangePrefix(b_prefix)]
    } else {
        Seq::empty()
    };
    let adds = not_in(b_channels, a_channels);
    let removes = not_in(a_channels, b_channels);
    let add_cmds = adds.map_values(|x: u64| UserDiffView::AddChannel(x));
    let remove_cmds = removes.map_values(|x: u64| UserDiffView::RemoveChannel(x));
    lemma_user_patched_concat(u, head + add_cmds, remove_cmds);
    lemma_user_patched_concat(u, head, add_cmds);
    let u1 = user_patched(u, head);
    assert(user_patched(u, Seq::<UserDiffView>::empty()) == u);
    if a_prefix != b_prefix {
        assert(head.drop_last() =~= Seq::<UserDiffView>::empty());
        assert(head.last() == UserDiffView::ChangePrefix(b_prefix));
    } else {
        assert(head.len() == 0);
    }
    assert(u1 == UserView { prefix: b_prefix, ..u });
    lemma_user_adds(u1, adds);
    let u2 = user_patched(u1, add_cmds);
    lemma_user_removes(u2, removes);
    lemma_not_in_set(b_channels, a_channels);
    lemma_not_in_set(a_channels, b_channels);
}

/// No nick key passes from one user of `a` to another user of `b`.
pub open spec fn no_nick_moves(a: StateView, b: StateView) -> bool {
    forall|i: u64, j: u64| a.users.contains_key(i) && b.users.contains_key(j) && i != j ==> #[trigger] user_key(
        a.users[i].prefix,
    ) != #[trigger] user_key(b.users[j].prefix)
}

/// No name key passes from one channel of `a` to another channel of `b`.
pub open spec fn no_name_moves(a: StateView, b: StateView) -> bool {
    forall|i: u64, j: u64| a.channels.contains_key(i) && b.channels.contains_key(j) && i != j ==> #[trigger] ident(
        a.channels[i].name,
    ) != #[trigger] ident(b.channels[j].name)
}

/// The nick keys of `a` of the users of `p` whose key differs in `b`.
pub open spec fn moved_user_keys(a: StateView, b: StateView, p: Set<u64>) -> Set<Seq<u8>> {
    Set::new(
        |k: Seq<u8>| a.user_map.contains_key(k) && p.contains(a.user_map[k]) && b.users.contains_key(a.user_map[k])
            && user_key(b.users[a.user_map[k]].prefix) != k,
    )
}

/// The nick keys of `b` of the users of `p` that are new or whose key
/// differs in `a`.
pub open spec fn fresh_user_keys(a: StateView, b: StateView, p: Set<u64>) -> Map<Seq<u8>, u64> {
    Map::new(
        |k: Seq<u8>| b.user_map.contains_key(k) && p.contains(b.user_map[k]) && (!a.users.contains_key(b.user_map[k])
            || user_key(a.users[b.user_map[k]].prefix) != k),
        |k: Seq<u8>| b.user_map[k],
    )
}

/// The users of `a` once they left the channels of `r`.
pub open spec fn users_left(a: StateView, r: Set<u64>) -> Map<u64, UserView> {
    Map::new(
        |u: u64| a.users.contains_key(u),
        |u: u64| UserView { channels: a.users[u].channels.difference(gone_with(a, r, u)), ..a.users[u] },
    )
}

proof fn lemma_uids_take(s: Seq<User>, n: int)
    requires
        0 < n <= s.len(),
    ensures
        seq_set(uids(s.take(n))) == seq_set(uids(s.take(n - 1))).insert(s[n - 1].uid()),
{
    assert(uids(s.take(n)) =~= uids(s.take(n - 1)).push(s[n - 1].uid()));
    crate::assoc::lemma_seq_set_push(uids(s.take(n - 1)), s[n - 1].uid());
}

impl State {
    proof fn lemma_user_new_in_prefix(&self, n: int)
        requires
            self.inv(),
            0 < n <= self.users@.len(),
        ensures
            !seq_set(uids(self.users@.take(n - 1))).contains(self.users@[n - 1].uid()),
    {
        if seq_set(uids(self.users@.take(n - 1))).contains(self.users@[n - 1].uid()) {
            let ids = uids(self.users@.take(n - 1));
            let j = choose|j: int| 0 <= j < ids.len() && #[trigger] ids[j] == self.users@[n - 1].uid();
            assert(user_pairs(self.users@)[j].0 == user_pairs(self.users@)[n - 1].0);
        }
    }
}

} // verus!

verus! {

proof fn lemma_phase_users(a: &State, b: &State, w0: StateView, r: Set<u64>, n: int)
    requires
        a.inv(),
        b.inv(),
        users_indexed(a@),
        users_indexed(b@),
        channels_known(b@),
        no_nick_moves(a@, b@),
        forall|c: u64| #[trigger] r.contains(c) ==> !b@.channels.contains_key(c),
        w0.users == users_left(a@, r),
        w0.user_map == a@.user_map,
        0 <= n <= b.users@.len(),
    ensures
        ({
            let cmds = users_commands(a.users@, b.users@.take(n));
            let w = state_commands_applied(w0, cmds);
            let p = seq_set(uids(b.users@.take(n)));
            &&& !state_commands_fault(w0, cmds)
            &&& w == (StateView {
                user_seq: w.user_seq,
                users: users_left(a@, r).union_prefer_right(b@.users.restrict(p)),
                user_map: a@.user_map.remove_keys(moved_user_keys(a@, b@, p)).union_prefer_right(fresh_user_keys(a@, b@, p)),
                ..w0
            })
        }),
    decreases n,
{
    let p = seq_set(uids(b.users@.take(n)));
    if n == 0 {
        assert(b.users@.take(0) =~= Seq::<User>::empty());
        assert(p =~= Set::<u64>::empty());
        lemma_applied_none(w0);
        assert(users_left(a@, r).union_prefer_right(b@.users.restrict(p)) =~= w0.users);
        assert(moved_user_keys(a@, b@, p) =~= Set::<Seq<u8>>::empty());
        assert(a@.user_map.remove_keys(moved_user_keys(a@, b@, p)).union_prefer_right(fresh_user_keys(a@, b@, p)) =~= a@.user_map);
    } else {
        lemma_phase_users(a, b, w0, r, n - 1);
        let s = b.users@.take(n);
        assert(s.drop_last() =~= b.users@.take(n - 1));
        let u = b.users@[n - 1];
        assert(s.last() == u);
        let prev = users_commands(a.users@, b.users@.take(n - 1));
        let here = user_commands(a.users@, u);
        assert(users_commands(a.users@, s) == prev + here);
        lemma_applied_concat(w0, prev, here);
        let w = state_commands_applied(w0, prev);
        let p0 = seq_set(uids(b.users@.take(n - 1)));
        lemma_uids_take(b.users@, n);
        b.lemma_user_at(n - 1);
        b.lemma_user_new_in_prefix(n);
        let id = u.uid();
        assert(u.id.0 == id);
        assert(p == p0.insert(id));
        assert(!p0.contains(id));
        assert(b@.users[id] == u@);
        let kb = user_key(u@.prefix);
        assert(maps_to(b@.user_map, kb, id));
        if lists_user(a.users@, id) {
            let k = choose|k: int| 0 <= k < a.users@.len() && a.users@[k].uid() == id;
            a.lemma_user_listed(k);
            a.lemma_user_at(k);
            let o = listed_user(a.users@, id);
            assert(o == a.users@[k]);
            assert(a@.users[id] == o@);
            let ka = user_key(o@.prefix);
            assert(maps_to(a@.user_map, ka, id));
            let g = gone_with(a@, r, id);
            assert(w.users[id] == UserView { channels: o@.channels.difference(g), ..o@ });
            o.lemma_channels();
            u.lemma_channels();
            if o@ == u@ {
                lemma_applied_none(w);
                assert(here =~= Seq::<StateCommandView>::empty());
                assert(o@.channels.difference(g) =~= o@.channels) by {
                    assert forall|c: u64| #[trigger] g.contains(c) implies !o@.channels.contains(c) by {
                        if o@.channels.contains(c) {
                            assert(b@.users[id].channels.contains(c));
                        }
                    }
                }
                assert(users_left(a@, r).union_prefer_right(b@.users.restrict(p)) =~= w.users);
                assert(moved_user_keys(a@, b@, p) =~= moved_user_keys(a@, b@, p0)) by {
                    assert forall|kk: Seq<u8>| #[trigger] moved_user_keys(a@, b@, p).contains(kk) implies moved_user_keys(a@, b@, p0).contains(kk) by {
                        if a@.user_map[kk] == id {
                            assert(user_key(a@.users[a@.user_map[kk]].prefix) == kk);
                        }
                    }
                }
                assert(fresh_user_keys(a@, b@, p) =~= fresh_user_keys(a@, b@, p0)) by {
                    assert forall|kk: Seq<u8>| #[trigger] fresh_user_keys(a@, b@, p).contains_key(kk) implies fresh_user_keys(a@, b@, p0).contains_key(kk) by {
                        if b@.user_map[kk] == id {
                            assert(user_key(b@.users[b@.user_map[kk]].prefix) == kk);
                        }
                    }
                }
            } else {
                let d = user_diff(o@.prefix, o.channel_list(), u@.prefix, u.channel_list());
                let cmd = StateCommandView::UpdateUser(id, d);
                lemma_applied_one(w, cmd);
                assert(here =~= seq![cmd]);
                lemma_user_patch_diff_on(o@.prefix, o.channel_list(), u@.prefix, u.channel_list(), o@.channels.difference(g));
                let patched = user_patched(w.users[id], d);
                assert(patched.channels =~= u@.channels) by {
                    assert forall|c: u64| #[trigger] g.contains(c) implies !u@.channels.contains(c) by {
                        assert(!b@.channels.contains_key(c));
                    }
                }
                assert(patched == u@);
                // the old key still leads to this user
                assert(!moved_user_keys(a@, b@, p0).contains(ka));
                assert(!fresh_user_keys(a@, b@, p0).contains_key(ka)) by {
                    if fresh_user_keys(a@, b@, p0).contains_key(ka) {
                        let j = b@.user_map[ka];
                        assert(user_key(b@.users[j].prefix) == ka);
                        assert(j != id);
                    }
                }
                assert(maps_to(w.user_map, ka, id));
                assert(!command_faults(w, cmd));
                assert(users_left(a@, r).union_prefer_right(b@.users.restrict(p)) =~= w.users.insert(id, u@));
                if ka != kb {
                    assert(moved_user_keys(a@, b@, p) =~= moved_user_keys(a@, b@, p0).insert(ka)) by {
                        assert forall|kk: Seq<u8>| #[trigger] moved_user_keys(a@, b@, p).contains(kk) && kk != ka implies moved_user_keys(a@, b@, p0).contains(kk) by {
                            if a@.user_map[kk] == id {
                                assert(user_key(a@.users[a@.user_map[kk]].prefix) == kk);
                            }
                        }
                    }
                    assert(fresh_user_keys(a@, b@, p) =~= fresh_user_keys(a@, b@, p0).insert(kb, id)) by {
                        assert forall|kk: Seq<u8>| #[trigger] fresh_user_keys(a@, b@, p).contains_key(kk) && kk != kb implies fresh_user_keys(a@, b@, p0).contains_key(kk) by {
                            if b@.user_map[kk] == id {
                                assert(user_key(b@.users[b@.user_map[kk]].prefix) == kk);
                            }
                        }
                    }
                    assert(a@.user_map.remove_keys(moved_user_keys(a@, b@, p)).union_prefer_right(fresh_user_keys(a@, b@, p))
                        =~= w.user_map.remove(ka).insert(kb, id));
                } else {
                    assert(moved_user_keys(a@, b@, p) =~= moved_user_keys(a@, b@, p0)) by {
                        assert forall|kk: Seq<u8>| #[trigger] moved_user_keys(a@, b@, p).contains(kk) implies moved_user_keys(a@, b@, p0).contains(kk) by {
                            if a@.user_map[kk] == id {
                                assert(user_key(a@.users[a@.user_map[kk]].prefix) == kk);
                            }
                        }
                    }
                    assert(fresh_user_keys(a@, b@, p) =~= fresh_user_keys(a@, b@, p0)) by {
                        assert forall|kk: Seq<u8>| #[trigger] fresh_user_keys(a@, b@, p).contains_key(kk) implies fresh_user_keys(a@, b@, p0).contains_key(kk) by {
                            if b@.user_map[kk] == id {
                                assert(user_key(b@.users[b@.user_map[kk]].prefix) == kk);
                            }
                        }
                    }
                }
            }
        } else {
            assert(!a@.users.contains_key(id)) by {
                if a@.users.contains_key(id) {
                    let k = choose|k: int| 0 <= k < user_pairs(a.users@).len() && user_pairs(a.users@)[k].0 == id;
                    assert(a.users@[k].uid() == id);
                }
            }
            let info = UserInfoView { id: id, prefix: u@.prefix };
            let v1 = command_applied(w, StateCommandView::CreateUser(info));
            assert(moved_user_keys(a@, b@, p) =~= moved_user_keys(a@, b@, p0));
            assert(fresh_user_keys(a@, b@, p) =~= fresh_user_keys(a@, b@, p0).insert(kb, id)) by {
                assert forall|kk: Seq<u8>| #[trigger] fresh_user_keys(a@, b@, p).contains_key(kk) && kk != kb implies fresh_user_keys(a@, b@, p0).contains_key(kk) by {
                    if b@.user_map[kk] == id {
                        assert(user_key(b@.users[b@.user_map[kk]].prefix) == kk);
                    }
                }
            }
            assert(a@.user_map.remove_keys(moved_user_keys(a@, b@, p)).union_prefer_right(fresh_user_keys(a@, b@, p)) =~= v1.user_map);
            u.lemma_channels();
            if u.channel_list().len() > 0 {
                let adds = u.channel_list().map_values(|x: u64| UserDiffView::AddChannel(x));
                lemma_applied_two(w, StateCommandView::CreateUser(info), StateCommandView::UpdateUser(id, adds));
                assert(here =~= seq![StateCommandView::CreateUser(info), StateCommandView::UpdateUser(id, adds)]);
                lemma_user_adds(v1.users[id], u.channel_list());
                assert(Set::<u64>::empty().union(seq_set(u.channel_list())) =~= seq_set(u.channel_list()));
                assert(users_left(a@, r).union_prefer_right(b@.users.restrict(p)) =~= v1.users.insert(id, u@));
            } else {
                lemma_applied_one(w, StateCommandView::CreateUser(info));
                assert(seq_set(u.channel_list()) =~= Set::<u64>::empty());
                assert(here =~= seq![StateCommandView::CreateUser(info)]);
                assert(users_left(a@, r).union_prefer_right(b@.users.restrict(p)) =~= v1.users);
            }
        }
    }
}

} // verus!

verus! {

/// The users among the first `n` of `a` that `b` lacks.
pub open spec fn removed_users(a: &State, b: StateView, n: int) -> Set<u64> {
    Set::new(|c: u64| seq_set(uids(a.user_list().take(n))).contains(c) && !b.users.contains_key(c))
}

/// The nick keys of `a` that lead to users of `r`.
pub open spec fn user_keys_of(a: StateView, r: Set<u64>) -> Set<Seq<u8>> {
    Set::new(|k: Seq<u8>| a.user_map.contains_key(k) && r.contains(a.user_map[k]))
}

proof fn lemma_phase_user_removals(a: &State, b: &State, w0: StateView, r: Set<u64>, n: int)
    requires
        a.inv(),
        b.inv(),
        users_indexed(a@),
        users_indexed(b@),
        no_nick_moves(a@, b@),
        w0.users == users_left(a@, r).union_prefer_right(b@.users.restrict(seq_set(uids(b.users@)))),
        w0.user_map == a@.user_map.remove_keys(moved_user_keys(a@, b@, seq_set(uids(b.users@)))).union_prefer_right(
            fresh_user_keys(a@, b@, seq_set(uids(b.users@))),
        ),
        0 <= n <= a.users@.len(),
    ensures
        ({
            let cmds = user_removals(a.users@.take(n), b@);
            let w = state_commands_applied(w0, cmds);
            let ru = removed_users(a, b@, n);
            &&& !state_commands_fault(w0, cmds)
            &&& w == (StateView {
                users: w0.users.remove_keys(ru),
                user_map: w0.user_map.remove_keys(user_keys_of(a@, ru)),
                ..w0
            })
        }),
    decreases n,
{
    let ru = removed_users(a, b@, n);
    let q = seq_set(uids(b.users@));
    if n == 0 {
        assert(a.users@.take(0) =~= Seq::<User>::empty());
        assert(ru =~= Set::<u64>::empty());
        lemma_applied_none(w0);
        assert(w0.users.remove_keys(ru) =~= w0.users);
        assert(user_keys_of(a@, ru) =~= Set::<Seq<u8>>::empty());
        assert(w0.user_map.remove_keys(user_keys_of(a@, ru)) =~= w0.user_map);
    } else {
        lemma_phase_user_removals(a, b, w0, r, n - 1);
        let s = a.users@.take(n);
        assert(s.drop_last() =~= a.users@.take(n - 1));
        let c = a.users@[n - 1];
        assert(s.last() == c);
        let id = c.uid();
        assert(c.id.0 == id);
        let prev = user_removals(a.users@.take(n - 1), b@);
        let here: Seq<StateCommandView> = if b@.users.contains_key(id) {
            Seq::empty()
        } else {
            seq![StateCommandView::RemoveUser(id)]
        };
        assert(user_removals(s, b@) == prev + here);
        lemma_applied_concat(w0, prev, here);
        let w = state_commands_applied(w0, prev);
        let ru0 = removed_users(a, b@, n - 1);
        lemma_uids_take(a.users@, n);
        a.lemma_user_new_in_prefix(n);
        a.lemma_user_at(n - 1);
        if b@.users.contains_key(id) {
            lemma_applied_none(w);
            assert(ru =~= ru0);
        } else {
            assert(ru =~= ru0.insert(id));
            assert(!ru0.contains(id));
            let ka = user_key(a@.users[id].prefix);
            assert(maps_to(a@.user_map, ka, id));
            assert(!q.contains(id)) by {
                if q.contains(id) {
                    let ids = uids(b.users@);
                    let j = choose|j: int| 0 <= j < ids.len() && #[trigger] ids[j] == id;
                    b.lemma_user_at(j);
                }
            }
            assert(w.users[id] == users_left(a@, r)[id]);
            assert(!moved_user_keys(a@, b@, q).contains(ka));
            assert(!fresh_user_keys(a@, b@, q).contains_key(ka)) by {
                if fresh_user_keys(a@, b@, q).contains_key(ka) {
                    let j = b@.user_map[ka];
                    assert(user_key(b@.users[j].prefix) == ka);
                }
            }
            assert(!user_keys_of(a@, ru0).contains(ka));
            assert(maps_to(w.user_map, ka, id));
            lemma_applied_one(w, StateCommandView::RemoveUser(id));
            assert(w.users.remove(id) =~= w0.users.remove_keys(ru));
            assert(user_keys_of(a@, ru) =~= user_keys_of(a@, ru0).insert(ka)) by {
                assert forall|k: Seq<u8>| #[trigger] user_keys_of(a@, ru).contains(k) && k != ka implies user_keys_of(a@, ru0).contains(k) by {
                    if a@.user_map[k] == id {
                        assert(user_key(a@.users[a@.user_map[k]].prefix) == k);
                    }
                }
            }
            assert(w.user_map.remove(ka) =~= w0.user_map.remove_keys(user_keys_of(a@, ru)));
        }
    }
}

} // verus!

verus! {

impl State {
    proof fn lemma_uids_dom(&self)
        requires
            self.inv(),
        ensures
            forall|id: u64| #[trigger] seq_set(uids(self.users@)).contains(id) == self@.users.contains_key(id),
    {
        assert forall|id: u64| #[trigger] seq_set(uids(self.users@)).contains(id) == self@.users.contains_key(id) by {
            if seq_set(uids(self.users@)).contains(id) {
                let ids = uids(self.users@);
                let j = choose|j: int| 0 <= j < ids.len() && #[trigger] ids[j] == id;
                self.lemma_user_at(j);
            }
            if self@.users.contains_key(id) {
                let k = choose|k: int| 0 <= k < user_pairs(self.users@).len() && user_pairs(self.users@)[k].0 == id;
                assert(uids(self.users@)[k] == id);
            }
        }
    }

    proof fn lemma_cids_dom(&self)
        requires
            self.inv(),
        ensures
            forall|id: u64| #[trigger] seq_set(cids(self.channels@)).contains(id) == self@.channels.contains_key(id),
    {
        assert forall|id: u64| #[trigger] seq_set(cids(self.channels@)).contains(id) == self@.channels.contains_key(id) by {
            if seq_set(cids(self.channels@)).contains(id) {
                let ids = cids(self.channels@);
                let j = choose|j: int| 0 <= j < ids.len() && #[trigger] ids[j] == id;
                self.lemma_channel_at(j);
            }
            if self@.channels.contains_key(id) {
                let k = choose|k: int| 0 <= k < channel_pairs(self.channels@).len() && channel_pairs(self.channels@)[k].0 == id;
                assert(cids(self.channels@)[k] == id);
            }
        }
    }
}

/// Patching a state with its difference to another state gives the other
/// state, all but the counters from which new users and channels are
/// numbered.  Both states must be consistent (every key leads to what it
/// names and every user and channel is found under its key; the members
/// of `a`'s channels and the channels of `b`'s users are known), have the
/// same nick and number for us, keep the names of the channels they share,
/// and no nick or channel name key may pass from one number to another.
#[verifier::spinoff_prover]
#[verifier::rlimit(40)]
pub proof fn lemma_state_diff_round_trip(a: &State, b: &State)
    requires
        a.inv(),
        b.inv(),
        users_indexed(a@),
        users_indexed(b@),
        channels_indexed(a@),
        channels_indexed(b@),
        members_known(a@),
        channels_known(b@),
        a@.self_nick == b@.self_nick,
        a@.self_id == b@.self_id,
        same_channel_names(a@, b@),
        no_nick_moves(a@, b@),
        no_name_moves(a@, b@),
    ensures
        !state_commands_fault(a@, state_diff(a, b)),
        ({
            let r = state_commands_applied(a@, state_diff(a, b));
            r == (StateView { user_seq: r.user_seq, channel_seq: r.channel_seq, ..b@ })
        }),
{
    let head: Seq<StateCommandView> = Seq::empty();
    let cc = channels_commands(a.channels@, b.channels@);
    let cr = channel_removals(a.channels@, b@);
    let uc = users_commands(a.users@, b.users@);
    let ur = user_removals(a.users@, b@);
    let gen: Seq<StateCommandView> = if a@.generation != b@.generation {
        seq![StateCommandView::SetGeneration(b@.generation)]
    } else {
        Seq::empty()
    };
    assert(state_diff(a, b) =~= cc + cr + uc + ur + gen);
    assert(b.channels@.take(b.channels@.len() as int) =~= b.channels@);
    assert(a.channels@.take(a.channels@.len() as int) =~= a.channels@);
    assert(b.users@.take(b.users@.len() as int) =~= b.users@);
    assert(a.users@.take(a.users@.len() as int) =~= a.users@);
    lemma_phase_channels(a, b, b.channels@.len() as int);
    let v1 = state_commands_applied(a@, cc);
    lemma_phase_channel_removals(a, b, v1, a.channels@.len() as int);
    let v2 = state_commands_applied(v1, cr);
    let rm = removed_channels(a, b@, a.channels@.len() as int);
    assert(v2.users =~= users_left(a@, rm));
    lemma_phase_users(a, b, v2, rm, b.users@.len() as int);
    let v3 = state_commands_applied(v2, uc);
    lemma_phase_user_removals(a, b, v3, rm, a.users@.len() as int);
    let v4 = state_commands_applied(v3, ur);
    lemma_applied_concat(a@, cc, cr);
    lemma_applied_concat(a@, cc + cr, uc);
    lemma_applied_concat(a@, cc + cr + uc, ur);
    lemma_applied_concat(a@, cc + cr + uc + ur, gen);
    let v5 = state_commands_applied(v4, gen);
    if a@.generation != b@.generation {
        lemma_applied_one(v4, StateCommandView::SetGeneration(b@.generation));
    } else {
        lemma_applied_none(v4);
    }
    a.lemma_uids_dom();
    b.lemma_uids_dom();
    a.lemma_cids_dom();
    b.lemma_cids_dom();
    let qb = seq_set(uids(b.users@));
    let pb = seq_set(cids(b.channels@));
    let ru = removed_users(a, b@, a.users@.len() as int);
    // users
    assert(v5.users =~= b@.users);
    // channels
    assert(v5.channels =~= b@.channels);
    // channel names
    assert forall|k: Seq<u8>| #[trigger] b@.channel_map.contains_key(k) implies v5.channel_map.contains_key(k)
        && v5.channel_map[k] == b@.channel_map[k] by {
        let x = b@.channel_map[k];
        assert(ident(b@.channels[x].name) == k);
        if a@.channel_map.contains_key(k) {
            let y = a@.channel_map[k];
            assert(ident(a@.channels[y].name) == k);
            if y != x {
                assert(ident(a@.channels[y].name) != ident(b@.channels[x].name));
            }
        }
        if a@.channels.contains_key(x) {
            assert(a@.channels[x].name == b@.channels[x].name);
            assert(maps_to(a@.channel_map, ident(a@.channels[x].name), x));
        }
    }
    assert forall|k: Seq<u8>| #[trigger] v5.channel_map.contains_key(k) implies b@.channel_map.contains_key(k) by {
        if !b@.channel_map.contains_key(k) {
            let y = a@.channel_map[k];
            assert(ident(a@.channels[y].name) == k);
            if b@.channels.contains_key(y) {
                assert(a@.channels[y].name == b@.channels[y].name);
                assert(maps_to(b@.channel_map, ident(b@.channels[y].name), y));
            }
            assert(rm.contains(y));
        }
    }
    assert(v5.channel_map =~= b@.channel_map);
    // nick keys
    assert forall|k: Seq<u8>| #[trigger] b@.user_map.contains_key(k) implies v5.user_map.contains_key(k)
        && v5.user_map[k] == b@.user_map[k] by {
        let x = b@.user_map[k];
        assert(user_key(b@.users[x].prefix) == k);
        if a@.user_map.contains_key(k) {
            let y = a@.user_map[k];
            assert(user_key(a@.users[y].prefix) == k);
            if y != x {
                assert(user_key(a@.users[y].prefix) != user_key(b@.users[x].prefix));
            }
        }
        if a@.users.contains_key(x) {
            assert(maps_to(a@.user_map, user_key(a@.users[x].prefix), x));
        }
    }
    assert forall|k: Seq<u8>| #[trigger] v5.user_map.contains_key(k) implies b@.user_map.contains_key(k) by {
        if !b@.user_map.contains_key(k) {
            let y = a@.user_map[k];
            assert(user_key(a@.users[y].prefix) == k);
            if b@.users.contains_key(y) {
                assert(maps_to(b@.user_map, user_key(b@.users[y].prefix), y));
                assert(moved_user_keys(a@, b@, qb).contains(k));
            } else {
                assert(ru.contains(y));
                assert(user_keys_of(a@, ru).contains(k));
            }
        }
    }
    assert(v5.user_map =~= b@.user_map);
}

} // verus!

verus! {

/// The state is consistent as the tracker checks it: a channel's members
/// are known users that have the channel among theirs, and the other way
/// round; every name key leads to a known channel of that name, and every
/// nick key to a known user of that nick.
pub open spec fn state_valid(v: StateView) -> bool {
    &&& forall|c: u64, u: u64| v.channels.contains_key(c) && #[trigger] v.channels[c].users.contains(u) ==> v.users.contains_key(u)
        && v.users[u].channels.contains(c)
    &&& forall|u: u64, c: u64| v.users.contains_key(u) && #[trigger] v.users[u].channels.contains(c) ==> v.channels.contains_key(c)
        && v.channels[c].users.contains(u)
    &&& forall|k: Seq<u8>| #[trigger] v.channel_map.contains_key(k) ==> v.channels.contains_key(v.channel_map[k])
        && ident(v.channels[v.channel_map[k]].name) == k
    &&& forall|k: Seq<u8>| #[trigger] v.user_map.contains_key(k) ==> v.users.contains_key(v.user_map[k])
        && user_key(v.users[v.user_map[k]].prefix) == k
}

proof fn lemma_valid_remove_user(v: StateView, id: u64)
    requires
        state_valid(v),
        !remove_user_faults(v, id),
    ensures
        state_valid(after_remove_user(v, id)),
{
    if v.users.contains_key(id) {
        let u = v.users[id];
        let w = after_remove_user(v, id);
        assert(nick_key(u.prefix) == user_key(u.prefix));
        assert forall|c: u64, x: u64| w.channels.contains_key(c) && #[trigger] w.channels[c].users.contains(x) implies w.users.contains_key(x)
            && w.users[x].channels.contains(c) by {
            if x == id {
                assert(v.channels[c].users.contains(id));
                assert(u.channels.contains(c));
            }
        }
        assert forall|x: u64, c: u64| w.users.contains_key(x) && #[trigger] w.users[x].channels.contains(c) implies w.channels.contains_key(c)
            && w.channels[c].users.contains(x) by {
            assert(v.channels[c].users.contains(x));
        }
        assert forall|k: Seq<u8>| #[trigger] w.user_map.contains_key(k) implies w.users.contains_key(w.user_map[k])
            && user_key(w.users[w.user_map[k]].prefix) == k by {
            assert(v.user_map.contains_key(k));
        }
    }
}

proof fn lemma_valid_remove_channel(v: StateView, id: u64)
    requires
        state_valid(v),
    ensures
        state_valid(after_remove_channel(v, id)),
{
    if v.channels.contains_key(id) {
        let c = v.channels[id];
        let w = after_remove_channel(v, id);
        assert forall|x: u64, ch: u64| w.users.contains_key(x) && #[trigger] w.users[x].channels.contains(ch) implies w.channels.contains_key(ch)
            && w.channels[ch].users.contains(x) by {
            if ch == id {
                assert(v.users[x].channels.contains(id));
                assert(c.users.contains(x));
            }
        }
        assert forall|ch: u64, x: u64| w.channels.contains_key(ch) && #[trigger] w.channels[ch].users.contains(x) implies w.users.contains_key(x)
            && w.users[x].channels.contains(ch) by {
            assert(v.users[x].channels.contains(ch));
        }
        assert forall|k: Seq<u8>| #[trigger] w.channel_map.contains_key(k) implies w.channels.contains_key(w.channel_map[k])
            && ident(w.channels[w.channel_map[k]].name) == k by {
            assert(v.channel_map.contains_key(k));
        }
    }
}

} // verus!

verus! {

proof fn lemma_valid_unlink(v: StateView, uid: u64, chid: u64)
    requires
        state_valid(v),
        !unlink_faults(v, uid, chid),
    ensures
        state_valid(after_unlink(v, uid, chid)),
{
    let w = unlink_user_side(v, uid, chid);
    let f = after_unlink(v, uid, chid);
    if only(v.users[uid].channels, chid) {
        lemma_valid_remove_user(v, uid);
        assert(!w.channels[chid].users.contains(uid));
        assert(!only(w.channels[chid].users, uid));
        assert(w.channels[chid].users.remove(uid) =~= w.channels[chid].users);
        assert(f.channels =~= w.channels);
        assert(f == w);
    } else {
        if only(w.channels[chid].users, uid) {
            assert forall|x: u64, ch: u64| f.users.contains_key(x) && #[trigger] f.users[x].channels.contains(ch) implies f.channels.contains_key(ch)
                && f.channels[ch].users.contains(x) by {
                assert(v.users[x].channels.contains(ch));
                if ch == chid {
                    assert(v.channels[chid].users.contains(x));
                    assert(w.channels[chid].users.contains(x));
                }
            }
            assert forall|ch: u64, x: u64| f.channels.contains_key(ch) && #[trigger] f.channels[ch].users.contains(x) implies f.users.contains_key(x)
                && f.users[x].channels.contains(ch) by {
                assert(v.channels[ch].users.contains(x));
            }
            assert forall|k: Seq<u8>| #[trigger] f.channel_map.contains_key(k) implies f.channels.contains_key(f.channel_map[k])
                && ident(f.channels[f.channel_map[k]].name) == k by {
                assert(v.channel_map.contains_key(k));
            }
            assert forall|k: Seq<u8>| #[trigger] f.user_map.contains_key(k) implies f.users.contains_key(f.user_map[k])
                && user_key(f.users[f.user_map[k]].prefix) == k by {
                assert(v.user_map.contains_key(k));
            }
        } else {
            assert forall|x: u64, ch: u64| f.users.contains_key(x) && #[trigger] f.users[x].channels.contains(ch) implies f.channels.contains_key(ch)
                && f.channels[ch].users.contains(x) by {
                assert(v.users[x].channels.contains(ch));
            }
            assert forall|ch: u64, x: u64| f.channels.contains_key(ch) && #[trigger] f.channels[ch].users.contains(x) implies f.users.contains_key(x)
                && f.users[x].channels.contains(ch) by {
                assert(v.channels[ch].users.contains(x));
            }
            assert forall|k: Seq<u8>| #[trigger] f.user_map.contains_key(k) implies f.users.contains_key(f.user_map[k])
                && user_key(f.users[f.user_map[k]].prefix) == k by {
                assert(v.user_map.contains_key(k));
            }
        }
    }
}

} // verus!

verus! {

/// Every user and channel number is below the next one handed out, and so
/// is our own.
pub open spec fn numbers_fresh(v: StateView) -> bool {
    &&& forall|id: u64| #[trigger] v.users.contains_key(id) ==> id < v.user_seq
    &&& forall|id: u64| #[trigger] v.channels.contains_key(id) ==> id < v.channel_seq
    &&& v.self_id < v.user_seq
}

proof fn lemma_nick_key_is_user_key(p: Seq<u8>)
    requires
        prefix_nick(p) is Some,
    ensures
        nick_key(p) == user_key(p),
{
}

proof fn lemma_renamed_marks(prefix: Seq<u8>, new_nick: Seq<u8>)
    requires
        prefix_marks(prefix) is Some,
    ensures
        prefix_nick(renamed_prefix(prefix, new_nick)) is Some,
{
    let p = renamed_prefix(prefix, new_nick);
    let user = crate::parse::parse::prefix_user(prefix).unwrap();
    assert(p[new_nick.len() as int] == 0x21);
    lemma_find(p, 0x21, 0);
    let e = spec_find(p, 0x21, 0)->Some_0;
    let at: int = (new_nick.len() + 1 + user.len()) as int;
    assert(p[at] == 0x40);
    lemma_find(p, 0x40, e + 1);
}

proof fn lemma_valid_topic(v: StateView, cname: Seq<u8>, body: Seq<u8>)
    requires
        state_valid(v),
        !topic_faults(v, cname),
    ensures
        state_valid(after_topic(v, cname, body)),
{
    let f = after_topic(v, cname, body);
    assert forall|x: u64, ch: u64| f.users.contains_key(x) && #[trigger] f.users[x].channels.contains(ch) implies f.channels.contains_key(ch)
        && f.channels[ch].users.contains(x) by {
        assert(v.users[x].channels.contains(ch));
    }
    assert forall|ch: u64, x: u64| f.channels.contains_key(ch) && #[trigger] f.channels[ch].users.contains(x) implies f.users.contains_key(x)
        && f.users[x].channels.contains(ch) by {
        assert(v.channels[ch].users.contains(x));
    }
    assert forall|k: Seq<u8>| #[trigger] f.channel_map.contains_key(k) implies f.channels.contains_key(f.channel_map[k])
        && ident(f.channels[f.channel_map[k]].name) == k by {
        assert(v.channel_map.contains_key(k));
    }
}

proof fn lemma_valid_nick(v: StateView, nick: Seq<u8>, new_nick: Seq<u8>)
    requires
        state_valid(v),
        !nick_faults(v, nick),
    ensures
        state_valid(after_nick(v, nick, new_nick)),
{
    let f = after_nick(v, nick, new_nick);
    let uid = v.user_map[ident(nick)];
    let u = v.users[uid];
    let p = renamed_prefix(u.prefix, new_nick);
    lemma_renamed_marks(u.prefix, new_nick);
    lemma_nick_key_is_user_key(p);
    lemma_nick_key_is_user_key(u.prefix);
    assert forall|x: u64, ch: u64| f.users.contains_key(x) && #[trigger] f.users[x].channels.contains(ch) implies f.channels.contains_key(ch)
        && f.channels[ch].users.contains(x) by {
        assert(v.users[x].channels.contains(ch));
    }
    assert forall|ch: u64, x: u64| f.channels.contains_key(ch) && #[trigger] f.channels[ch].users.contains(x) implies f.users.contains_key(x)
        && f.users[x].channels.contains(ch) by {
        assert(v.channels[ch].users.contains(x));
    }
    assert forall|k: Seq<u8>| #[trigger] f.user_map.contains_key(k) implies f.users.contains_key(f.user_map[k])
        && user_key(f.users[f.user_map[k]].prefix) == k by {
        if k != nick_key(p) {
            assert(v.user_map.contains_key(k));
            if v.user_map[k] == uid {
                assert(k == user_key(u.prefix));
            }
        }
    }
}

proof fn lemma_valid_other_join(v: StateView, cname: Seq<u8>, nick: Seq<u8>, prefix: Seq<u8>)
    requires
        state_valid(v),
        numbers_fresh(v),
        !other_join_faults(v, cname, nick),
        user_key(prefix) == ident(nick),
    ensures
        state_valid(after_other_join(v, cname, nick, prefix)),
        numbers_fresh(after_other_join(v, cname, nick, prefix)),
{
    let f = after_other_join(v, cname, nick, prefix);
    let cid = v.channel_map[ident(cname)];
    let uid = joiner_id(v, nick);
    let v1 = with_joiner(v, nick, prefix);
    assert(v1.users.contains_key(uid));
    assert(v1.channels == v.channels);
    assert forall|x: u64, ch: u64| f.users.contains_key(x) && #[trigger] f.users[x].channels.contains(ch) implies f.channels.contains_key(ch)
        && f.channels[ch].users.contains(x) by {
        if !(x == uid && ch == cid) {
            assert(v1.users[x].channels.contains(ch));
            assert(v.users.contains_key(x));
            assert(v.users[x].channels.contains(ch));
        }
    }
    assert forall|ch: u64, x: u64| f.channels.contains_key(ch) && #[trigger] f.channels[ch].users.contains(x) implies f.users.contains_key(x)
        && f.users[x].channels.contains(ch) by {
        if !(x == uid && ch == cid) {
            assert(v.channels[ch].users.contains(x));
        }
    }
    assert forall|k: Seq<u8>| #[trigger] f.channel_map.contains_key(k) implies f.channels.contains_key(f.channel_map[k])
        && ident(f.channels[f.channel_map[k]].name) == k by {
        assert(v.channel_map.contains_key(k));
    }
    assert forall|k: Seq<u8>| #[trigger] f.user_map.contains_key(k) implies f.users.contains_key(f.user_map[k])
        && user_key(f.users[f.user_map[k]].prefix) == k by {
        if v.user_map.contains_key(k) {
            assert(v.users.contains_key(v.user_map[k]));
        }
    }
}

proof fn lemma_valid_self_join(v: StateView, channel: Seq<u8>, topic: Seq<u8>)
    requires
        state_valid(v),
        numbers_fresh(v),
        !v.channel_map.contains_key(ident(channel)) ==> v.channel_seq < u64::MAX,
    ensures
        state_valid(after_self_join(v, channel, topic)),
        numbers_fresh(after_self_join(v, channel, topic)),
{
    let f = after_self_join(v, channel, topic);
    if !v.channel_map.contains_key(ident(channel)) {
        assert forall|x: u64, ch: u64| f.users.contains_key(x) && #[trigger] f.users[x].channels.contains(ch) implies f.channels.contains_key(ch)
            && f.channels[ch].users.contains(x) by {
            assert(v.channels.contains_key(ch));
        }
        assert forall|ch: u64, x: u64| f.channels.contains_key(ch) && #[trigger] f.channels[ch].users.contains(x) implies f.users.contains_key(x)
            && f.users[x].channels.contains(ch) by {
            assert(v.channels[ch].users.contains(x));
        }
        assert forall|k: Seq<u8>| #[trigger] f.channel_map.contains_key(k) implies f.channels.contains_key(f.channel_map[k])
            && ident(f.channels[f.channel_map[k]].name) == k by {
            if k != ident(channel) {
                assert(v.channel_map.contains_key(k));
            }
        }
    }
}

/// A welcome naming us `nick` keeps the tracker consistent: if we are known
/// already, we are in no channel; the key of our old nick leads to us, or is
/// the key of `nick`, or we had no nick; a key that leads to us is the key
/// of `nick` or of our old nick; and the prefix we give ourselves has the
/// key of `nick`.
pub open spec fn welcome_fits(v: StateView, nick: Seq<u8>) -> bool {
    let me = v.self_id;
    let old_key = ident(v.self_nick);
    let new_key = ident(nick);
    &&& v.users.contains_key(me) ==> v.users[me].channels == Set::<u64>::empty()
    &&& v.self_nick == Seq::<u8>::empty() || old_key == new_key || maps_to(v.user_map, old_key, me)
    &&& v.users.contains_key(me) && maps_to(v.user_map, user_key(v.users[me].prefix), me) ==> (user_key(
        v.users[me].prefix,
    ) == new_key || (v.self_nick != Seq::<u8>::empty() && user_key(v.users[me].prefix) == old_key))
    &&& user_key(nick + self_prefix_tail()) == new_key
}

proof fn lemma_valid_init_self(v: StateView, nick: Seq<u8>)
    requires
        state_valid(v),
        numbers_fresh(v),
        !init_self_faults(v, nick),
        welcome_fits(v, nick),
    ensures
        state_valid(after_init_self(v, nick)),
        numbers_fresh(after_init_self(v, nick)),
{
    let f = after_init_self(v, nick);
    let sid = v.self_id;
    assert(f.users == v.users.insert(sid, UserView { prefix: nick + self_prefix_tail(), channels: Set::empty() }));
    assert(f.channels == v.channels);
    assert forall|x: u64, ch: u64| f.users.contains_key(x) && #[trigger] f.users[x].channels.contains(ch) implies f.channels.contains_key(ch)
        && f.channels[ch].users.contains(x) by {
        assert(x != sid);
        assert(v.users[x].channels.contains(ch));
    }
    assert forall|ch: u64, x: u64| f.channels.contains_key(ch) && #[trigger] f.channels[ch].users.contains(x) implies f.users.contains_key(x)
        && f.users[x].channels.contains(ch) by {
        assert(v.channels[ch].users.contains(x));
        assert(v.users[x].channels.contains(ch));
    }
    assert forall|k: Seq<u8>| #[trigger] f.channel_map.contains_key(k) implies f.channels.contains_key(f.channel_map[k])
        && ident(f.channels[f.channel_map[k]].name) == k by {
        assert(v.channel_map.contains_key(k));
    }
    assert forall|k: Seq<u8>| #[trigger] f.user_map.contains_key(k) implies f.users.contains_key(f.user_map[k])
        && user_key(f.users[f.user_map[k]].prefix) == k by {
        if k != ident(nick) {
            assert(v.user_map.contains_key(k));
            assert(v.users.contains_key(v.user_map[k]));
            if v.user_map[k] == sid {
                assert(user_key(v.users[sid].prefix) == k);
            }
        }
    }
}

} // verus!

verus! {

proof fn lemma_fresh_kept(v: StateView, w: StateView)
    requires
        numbers_fresh(v),
        w.user_seq == v.user_seq,
        w.channel_seq == v.channel_seq,
        w.self_id == v.self_id,
        forall|id: u64| #[trigger] w.users.contains_key(id) ==> v.users.contains_key(id),
        forall|id: u64| #[trigger] w.channels.contains_key(id) ==> v.channels.contains_key(id),
    ensures
        numbers_fresh(w),
{
}

/// Every line the tracker follows keeps it consistent and keeps the next
/// numbers fresh, but for a welcome that would name us differently from
/// how we are already known.
pub proof fn lemma_message_keeps_valid(v: StateView, m: IrcMsgView)
    requires
        state_valid(v),
        numbers_fresh(v),
        !message_faults(v, m),
        command_bytes(m) == code_welcome() ==> welcome_fits(v, arg_bytes(m, 0)),
    ensures
        state_valid(after_message(v, m)),
        numbers_fresh(after_message(v, m)),
{
    let f = after_message(v, m);
    let is_self = is_self_msg(v, m);
    match crate::message_types::server::spec_incoming_kind(m) {
        crate::message_types::server::IncomingKind::Part => {
            if is_self {
                lemma_valid_remove_channel(v, v.channel_map[ident(arg_bytes(m, 0))]);
            } else {
                let cn = ident(arg_bytes(m, 0));
                let un = ident(crate::message_types::server::bang_nick(m));
                if v.channel_map.contains_key(cn) && v.user_map.contains_key(un) {
                    lemma_valid_unlink(v, v.user_map[un], v.channel_map[cn]);
                }
            }
            lemma_fresh_kept(v, f);
        },
        crate::message_types::server::IncomingKind::Quit => {
            if !is_self {
                lemma_valid_remove_user(v, v.user_map[ident(crate::message_types::server::bang_nick(m))]);
                lemma_fresh_kept(v, f);
            } else {
                assert(command_bytes(m) != code_welcome());
            }
        },
        crate::message_types::server::IncomingKind::Join => {
            if !is_self {
                let p = prefix_bytes(m);
                lemma_find(p, 0x21, 0);
                assert(crate::message_types::server::bang_nick(m) == user_nick(p));
                lemma_valid_other_join(v, arg_bytes(m, 0), crate::message_types::server::bang_nick(m), p);
            } else {
                assert(command_bytes(m) != code_welcome());
            }
        },
        crate::message_types::server::IncomingKind::Topic => {
            lemma_valid_topic(v, arg_bytes(m, 0), arg_bytes(m, 1));
            lemma_fresh_kept(v, f);
        },
        crate::message_types::server::IncomingKind::Nick => {
            lemma_valid_nick(v, crate::message_types::server::bang_nick(m), arg_bytes(m, 0));
            lemma_fresh_kept(v, f);
        },
        crate::message_types::server::IncomingKind::Kick => {
            let cn = ident(arg_bytes(m, 0));
            let un = ident(arg_bytes(m, 1));
            if v.channel_map.contains_key(cn) && v.user_map.contains_key(un) {
                lemma_valid_unlink(v, v.user_map[un], v.channel_map[cn]);
            }
            lemma_fresh_kept(v, f);
        },
        _ => {
            if command_bytes(m) == code_welcome() {
                lemma_valid_init_self(v, arg_bytes(m, 0));
            }
        },
    }
}

} // verus!

verus! {

/// Listed user `i` of a plan is known under its nick, or is one of the new
/// users.
pub open spec fn plan_id_known(um: Map<Seq<u8>, u64>, recs: Seq<crate::watchers::who::WhoRecordView>, p: WhoPlan, i: int) -> bool {
    ||| um.contains_key(ident(encode_utf8(recs[i].nick))) && um[ident(encode_utf8(recs[i].nick))] == p.ids[i]
    ||| exists|j: int| 0 <= j < p.news.len() && p.news[j].0 == p.ids[i]
}

proof fn lemma_plan_shape(um: Map<Seq<u8>, u64>, seq0: int, recs: Seq<crate::watchers::who::WhoRecordView>)
    ensures
        ({
            let p = who_plan(um, seq0, recs);
            &&& p.next == seq0 + p.news.len()
            &&& forall|j: int| 0 <= j < p.news.len() ==> (#[trigger] p.news[j]).0 == (seq0 + j) as u64
            &&& forall|i: int| 0 <= i < p.ids.len() ==> #[trigger] plan_id_known(um, recs, p, i)
            &&& p.ids.len() == recs.len()
        }),
    decreases recs.len(),
{
    let p = who_plan(um, seq0, recs);
    if recs.len() > 0 {
        lemma_plan_shape(um, seq0, recs.drop_last());
        let p0 = who_plan(um, seq0, recs.drop_last());
        assert forall|j: int| 0 <= j < p.news.len() implies (#[trigger] p.news[j]).0 == (seq0 + j) as u64 by {
            if j < p0.news.len() {
                assert(p.news[j] == p0.news[j]);
            }
        }
        assert forall|i: int| 0 <= i < p.ids.len() implies #[trigger] plan_id_known(um, recs, p, i) by {
            if i < p0.ids.len() {
                assert(plan_id_known(um, recs.drop_last(), p0, i));
                assert(recs.drop_last()[i] == recs[i]);
                assert(p.ids[i] == p0.ids[i]);
                if !(um.contains_key(ident(encode_utf8(recs[i].nick))) && um[ident(encode_utf8(recs[i].nick))] == p.ids[i]) {
                    let j = choose|j: int| 0 <= j < p0.news.len() && p0.news[j].0 == p0.ids[i];
                    assert(p.news[j] == p0.news[j]);
                }
            } else {
                assert(recs[i] == recs.last());
                if !um.contains_key(ident(encode_utf8(recs.last().nick))) {
                    let j = p0.news.len() as int;
                    assert(p.news[j].0 == p.ids[i]);
                }
            }
        }
    }
}

proof fn lemma_insert_news(v: StateView, news: Seq<(u64, Seq<u8>)>)
    requires
        !insert_news_faults(v, news),
        forall|k: Seq<u8>| #[trigger] v.user_map.contains_key(k) ==> v.users.contains_key(v.user_map[k]) && user_key(
            v.users[v.user_map[k]].prefix,
        ) == k,
    ensures
        ({
            let w = insert_news(v, news);
            &&& w == (StateView { users: w.users, user_map: w.user_map, ..v })
            &&& forall|x: u64| #[trigger] w.users.contains_key(x) <==> (v.users.contains_key(x) || exists|j: int|
                0 <= j < news.len() && news[j].0 == x)
            &&& forall|x: u64| #[trigger] v.users.contains_key(x) ==> w.users[x] == v.users[x]
            &&& forall|x: u64| #[trigger] w.users.contains_key(x) && !v.users.contains_key(x) ==> w.users[x].channels
                == Set::<u64>::empty()
            &&& forall|k: Seq<u8>| #[trigger] w.user_map.contains_key(k) ==> w.users.contains_key(w.user_map[k])
                && user_key(w.users[w.user_map[k]].prefix) == k
        }),
    decreases news.len(),
{
    if news.len() > 0 {
        lemma_insert_news(v, news.drop_last());
        let w0 = insert_news(v, news.drop_last());
        let w = insert_news(v, news);
        let (id, p) = news.last();
        lemma_nick_key_is_user_key(p);
        assert forall|x: u64| #[trigger] w.users.contains_key(x) <==> (v.users.contains_key(x) || exists|j: int|
            0 <= j < news.len() && news[j].0 == x) by {
            if exists|j: int| 0 <= j < news.len() && news[j].0 == x {
                let j = choose|j: int| 0 <= j < news.len() && news[j].0 == x;
                if j < news.len() - 1 {
                    assert(news.drop_last()[j] == news[j]);
                }
            }
            if w0.users.contains_key(x) && !v.users.contains_key(x) {
                let j = choose|j: int| 0 <= j < news.drop_last().len() && news.drop_last()[j].0 == x;
                assert(news[j] == news.drop_last()[j]);
            }
        }
        assert forall|k: Seq<u8>| #[trigger] w.user_map.contains_key(k) implies w.users.contains_key(w.user_map[k])
            && user_key(w.users[w.user_map[k]].prefix) == k by {
            if k != nick_key(p) {
                assert(w0.user_map.contains_key(k));
            }
        }
    }
}

proof fn lemma_link_ids_effect(v: StateView, ids: Seq<u64>, cid: u64)
    ensures
        forall|x: u64| #[trigger] v.users.contains_key(x) ==> link_ids(v, ids, cid).users[x] == (UserView {
            channels: if ids.contains(x) {
                v.users[x].channels.insert(cid)
            } else {
                v.users[x].channels
            },
            ..v.users[x]
        }),
        link_ids(v, ids, cid) == (StateView { users: link_ids(v, ids, cid).users, ..v }),
    decreases ids.len(),
{
    lemma_link_ids_dom(v, ids, cid);
    if ids.len() > 0 {
        lemma_link_ids_effect(v, ids.drop_last(), cid);
        let w = link_ids(v, ids.drop_last(), cid);
        assert forall|x: u64| #[trigger] v.users.contains_key(x) implies link_ids(v, ids, cid).users[x] == (UserView {
            channels: if ids.contains(x) {
                v.users[x].channels.insert(cid)
            } else {
                v.users[x].channels
            },
            ..v.users[x]
        }) by {
            assert(ids.contains(x) == (ids.drop_last().contains(x) || ids.last() == x)) by {
                if ids.contains(x) {
                    let i = choose|i: int| 0 <= i < ids.len() && ids[i] == x;
                    if i < ids.len() - 1 {
                        assert(ids.drop_last()[i] == x);
                    }
                }
                if ids.drop_last().contains(x) {
                    let i = choose|i: int| 0 <= i < ids.drop_last().len() && ids.drop_last()[i] == x;
                    assert(ids[i] == x);
                }
                if ids.last() == x {
                    assert(ids[ids.len() - 1] == x);
                }
            }
            if ids.last() == x && ids.drop_last().contains(x) {
                assert(v.users[x].channels.insert(cid).insert(cid) =~= v.users[x].channels.insert(cid));
            }
        }
        assert(link_ids(v, ids, cid).users.dom() == v.users.dom());
    }
}

} // verus!

verus! {

proof fn lemma_valid_who(v: StateView, who: &crate::watchers::who::WhoSuccess)
    requires
        state_valid(v),
        numbers_fresh(v),
        !who_faults(v, who),
    ensures
        state_valid(after_who(v, who)),
        numbers_fresh(after_who(v, who)),
{
    let cn = ident(who.channel@);
    if v.channel_map.contains_key(cn) {
        let cid = v.channel_map[cn];
        if v.channels[cid].users == Set::<u64>::empty() {
            let recs = who_records(who);
            let plan = who_plan(v.user_map, v.user_seq as int, recs);
            let v1 = StateView { user_seq: plan.next as u64, ..v };
            let v2 = insert_news(v1, plan.news);
            let v3 = link_ids(v2, plan.ids, cid);
            let f = after_who(v, who);
            assert(f == with_channel(v3, cid, ChannelView { users: seq_set(plan.ids), ..v3.channels[cid] }));
            lemma_plan_shape(v.user_map, v.user_seq as int, recs);
            lemma_insert_news(v1, plan.news);
            lemma_link_ids_effect(v2, plan.ids, cid);
            lemma_link_ids_dom(v2, plan.ids, cid);
            assert forall|j: int| 0 <= j < plan.news.len() implies (#[trigger] plan.news[j]).0 >= v.user_seq && plan.news[j].0 < plan.next by {
            }
            assert forall|x: u64| #[trigger] v2.users.contains_key(x) && !v.users.contains_key(x) implies x >= v.user_seq && x < plan.next by {
                let j = choose|j: int| 0 <= j < plan.news.len() && plan.news[j].0 == x;
                assert(plan.news[j].0 >= v.user_seq);
            }
            assert forall|i: int| 0 <= i < plan.ids.len() implies v2.users.contains_key(#[trigger] plan.ids[i]) by {
                assert(plan_id_known(v.user_map, recs, plan, i));
                if !(exists|j: int| 0 <= j < plan.news.len() && plan.news[j].0 == plan.ids[i]) {
                    let k = ident(encode_utf8(recs[i].nick));
                    assert(v.user_map.contains_key(k));
                    assert(v.users.contains_key(v.user_map[k]));
                }
            }
            assert forall|x: u64| seq_set(plan.ids).contains(x) implies #[trigger] v2.users.contains_key(x) by {
                let i = choose|i: int| 0 <= i < plan.ids.len() && plan.ids[i] == x;
                assert(v2.users.contains_key(plan.ids[i]));
            }
            assert forall|ch: u64, x: u64| f.channels.contains_key(ch) && #[trigger] f.channels[ch].users.contains(x) implies f.users.contains_key(x)
                && f.users[x].channels.contains(ch) by {
                if ch == cid {
                    assert(v2.users.contains_key(x));
                    assert(plan.ids.contains(x));
                } else {
                    assert(v.channels[ch].users.contains(x));
                    assert(v.users[x].channels.contains(ch));
                    assert(v2.users[x] == v.users[x]);
                }
            }
            assert forall|x: u64, ch: u64| f.users.contains_key(x) && #[trigger] f.users[x].channels.contains(ch) implies f.channels.contains_key(ch)
                && f.channels[ch].users.contains(x) by {
                assert(v2.users.contains_key(x));
                if v.users.contains_key(x) {
                    assert(v2.users[x] == v.users[x]);
                    if ch == cid {
                        if !plan.ids.contains(x) {
                            assert(v.users[x].channels.contains(cid));
                            assert(v.channels[cid].users.contains(x));
                        }
                    } else {
                        assert(v.users[x].channels.contains(ch));
                        assert(v.channels[ch].users.contains(x));
                    }
                } else {
                    assert(v2.users[x].channels == Set::<u64>::empty());
                    assert(ch == cid);
                    assert(plan.ids.contains(x));
                }
            }
            assert forall|k: Seq<u8>| #[trigger] f.channel_map.contains_key(k) implies f.channels.contains_key(f.channel_map[k])
                && ident(f.channels[f.channel_map[k]].name) == k by {
                assert(v.channel_map.contains_key(k));
            }
            assert forall|k: Seq<u8>| #[trigger] f.user_map.contains_key(k) implies f.users.contains_key(f.user_map[k])
                && user_key(f.users[f.user_map[k]].prefix) == k by {
                assert(v2.user_map.contains_key(k));
                assert(v2.users.contains_key(v2.user_map[k]));
            }
            assert forall|x: u64| #[trigger] f.users.contains_key(x) implies x < f.user_seq by {
                assert(v2.users.contains_key(x));
                if v.users.contains_key(x) {
                    assert(x < v.user_seq);
                }
            }
        }
    }
}

/// Every event the tracker follows keeps it consistent and keeps the next
/// numbers fresh, but for a welcome that would name us differently from
/// how we are already known.
pub proof fn lemma_event_keeps_valid(v: StateView, e: &crate::event::IrcEvent)
    requires
        state_valid(v),
        numbers_fresh(v),
        !event_faults(v, e),
        e matches crate::event::IrcEvent::IrcMsg(m) ==> (command_bytes(m@) == code_welcome() ==> welcome_fits(
            v,
            arg_bytes(m@, 0),
        )),
    ensures
        state_valid(after_event(v, e)),
        numbers_fresh(after_event(v, e)),
{
    match e {
        crate::event::IrcEvent::IrcMsg(m) => lemma_message_keeps_valid(v, m@),
        crate::event::IrcEvent::JoinBundle(Ok(j)) => lemma_valid_self_join(v, j.channel@, join_topic(j)),
        crate::event::IrcEvent::WhoBundle(Ok(w)) => lemma_valid_who(v, w),
        _ => {},
    }
}

} // verus!

verus! {

impl State {
    /// The members of every channel are known users that have the channel.
    fn members_mutual(&self) -> (r: bool)
        requires
            self.inv(),
        ensures
            r == (forall|c: u64, u: u64| self@.channels.contains_key(c) && #[trigger] self@.channels[c].users.contains(u)
                ==> self@.users.contains_key(u) && self@.users[u].channels.contains(c)),
    {
        let mut i: usize = 0;
        while i < self.channels.len()
            invariant
                self.inv(),
                0 <= i <= self.channels@.len(),
                forall|k: int, u: u64| 0 <= k < i && #[trigger] seq_set(self.channels@[k].users@).contains(u) ==> self@.users.contains_key(u)
                    && self@.users[u].channels.contains(self.channels@[k].id.0),
            decreases self.channels.len() - i,
        {
            let c = &self.channels[i];
            let cid = c.id.0;
            proof {
                self.lemma_channel_at(i as int);
            }
            let mut j: usize = 0;
            while j < c.users.len()
                invariant
                    self.inv(),
                    0 <= i < self.channels@.len(),
                    *c == self.channels@[i as int],
                    cid == c.id.0,
                    self@.channels.contains_key(cid),
                    self@.channels[cid] == c@,
                    0 <= j <= c.users@.len(),
                    forall|jj: int| 0 <= jj < j ==> self@.users.contains_key(#[trigger] c.users@[jj]) && self@.users[c.users@[jj]].channels.contains(cid),
                decreases c.users.len() - j,
            {
                let u = c.users[j];
                proof {
                    assert(seq_set(c.users@).contains(u));
                    assert(self@.channels[cid].users.contains(u));
                }
                match self.find_user(u) {
                    Some(x) => {
                        proof {
                            self.lemma_user_at(x as int);
                        }
                        if !set_contains(&self.users[x].channels, cid) {
                            return false;
                        }
                    },
                    None => {
                        return false;
                    },
                }
                j = j + 1;
            }
            proof {
                assert forall|u: u64| #[trigger] seq_set(c.users@).contains(u) implies self@.users.contains_key(u)
                    && self@.users[u].channels.contains(cid) by {
                    let jj = choose|jj: int| 0 <= jj < c.users@.len() && c.users@[jj] == u;
                    assert(self@.users.contains_key(c.users@[jj]));
                }
            }
            i = i + 1;
        }
        proof {
            assert forall|c: u64, u: u64| self@.channels.contains_key(c) && #[trigger] self@.channels[c].users.contains(u)
                implies self@.users.contains_key(u) && self@.users[u].channels.contains(c) by {
                let k = choose|k: int| 0 <= k < channel_pairs(self.channels@).len() && channel_pairs(self.channels@)[k].0 == c;
                self.lemma_channel_at(k);
                assert(seq_set(self.channels@[k].users@).contains(u));
            }
        }
        true
    }

    /// The channels of every user are known channels that have the user.
    fn channels_mutual(&self) -> (r: bool)
        requires
            self.inv(),
        ensures
            r == (forall|u: u64, c: u64| self@.users.contains_key(u) && #[trigger] self@.users[u].channels.contains(c)
                ==> self@.channels.contains_key(c) && self@.channels[c].users.contains(u)),
    {
        let mut i: usize = 0;
        while i < self.users.len()
            invariant
                self.inv(),
                0 <= i <= self.users@.len(),
                forall|k: int, c: u64| 0 <= k < i && #[trigger] seq_set(self.users@[k].channels@).contains(c) ==> self@.channels.contains_key(c)
                    && self@.channels[c].users.contains(self.users@[k].id.0),
            decreases self.users.len() - i,
        {
            let u = &self.users[i];
            let uid = u.id.0;
            proof {
                self.lemma_user_at(i as int);
            }
            let mut j: usize = 0;
            while j < u.channels.len()
                invariant
                    self.inv(),
                    0 <= i < self.users@.len(),
                    *u == self.users@[i as int],
                    uid == u.id.0,
                    self@.users.contains_key(uid),
                    self@.users[uid] == u@,
                    0 <= j <= u.channels@.len(),
                    forall|jj: int| 0 <= jj < j ==> self@.channels.contains_key(#[trigger] u.channels@[jj]) && self@.channels[u.channels@[jj]].users.contains(uid),
                decreases u.channels.len() - j,
            {
                let c = u.channels[j];
                proof {
                    assert(seq_set(u.channels@).contains(c));
                    assert(self@.users[uid].channels.contains(c));
                }
                match self.find_channel(c) {
                    Some(x) => {
                        proof {
                            self.lemma_channel_at(x as int);
                        }
                        if !set_contains(&self.channels[x].users, uid) {
                            return false;
                        }
                    },
                    None => {
                        return false;
                    },
                }
                j = j + 1;
            }
            proof {
                assert forall|c: u64| #[trigger] seq_set(u.channels@).contains(c) implies self@.channels.contains_key(c)
                    && self@.channels[c].users.contains(uid) by {
                    let jj = choose|jj: int| 0 <= jj < u.channels@.len() && u.channels@[jj] == c;
                    assert(self@.channels.contains_key(u.channels@[jj]));
                }
            }
            i = i + 1;
        }
        proof {
            assert forall|u: u64, c: u64| self@.users.contains_key(u) && #[trigger] self@.users[u].channels.contains(c)
                implies self@.channels.contains_key(c) && self@.channels[c].users.contains(u) by {
                let k = choose|k: int| 0 <= k < user_pairs(self.users@).len() && user_pairs(self.users@)[k].0 == u;
                self.lemma_user_at(k);
                assert(seq_set(self.users@[k].channels@).contains(c));
            }
        }
        true
    }
}

} // verus!

verus! {

impl State {
    /// Every name key leads to a known channel of that name.
    fn names_indexed(&self) -> (r: bool)
        requires
            self.inv(),
        ensures
            r == (forall|k: Seq<u8>| #[trigger] self@.channel_map.contains_key(k) ==> self@.channels.contains_key(self@.channel_map[k])
                && ident(self@.channels[self@.channel_map[k]].name) == k),
    {
        let ghost pairs = cmap_pairs(self.channel_map@);
        let mut i: usize = 0;
        while i < self.channel_map.len()
            invariant
                self.inv(),
                pairs == cmap_pairs(self.channel_map@),
                0 <= i <= self.channel_map@.len(),
                forall|j: int| 0 <= j < i ==> self@.channels.contains_key(#[trigger] pairs[j].1) && ident(self@.channels[pairs[j].1].name)
                    == pairs[j].0,
            decreases self.channel_map.len() - i,
        {
            let id = self.channel_map[i].1.0;
            proof {
                assert(pairs[i as int] == (self.channel_map@[i as int].0@, id));
                lemma_assoc_index(pairs, i as int);
            }
            match self.find_channel(id) {
                Some(x) => {
                    proof {
                        self.lemma_channel_at(x as int);
                        encode_utf8_decode_utf8(self.channels@[x as int].name@);
                    }
                    let key = IrcIdentifier::from_str(self.channels[x].name.as_str());
                    if !bytes_equal(key.key_bytes(), self.channel_map[i].0.key_bytes()) {
                        proof {
                            let k = pairs[i as int].0;
                            assert(self@.channel_map.contains_key(k) && self@.channel_map[k] == id);
                            assert(ident(self@.channels[id].name) != k);
                        }
                        return false;
                    }
                },
                None => {
                    proof {
                        let k = pairs[i as int].0;
                        assert(self@.channel_map.contains_key(k) && self@.channel_map[k] == id);
                    }
                    return false;
                },
            }
            i = i + 1;
        }
        proof {
            assert forall|k: Seq<u8>| #[trigger] self@.channel_map.contains_key(k) implies self@.channels.contains_key(self@.channel_map[k])
                && ident(self@.channels[self@.channel_map[k]].name) == k by {
                let j = choose|j: int| 0 <= j < pairs.len() && pairs[j].0 == k;
                lemma_assoc_index(pairs, j);
                assert(self@.channels.contains_key(pairs[j].1));
            }
        }
        true
    }

    /// Every nick key leads to a known user of that nick.
    fn nicks_indexed(&self) -> (r: bool)
        requires
            self.inv(),
        ensures
            r == (forall|k: Seq<u8>| #[trigger] self@.user_map.contains_key(k) ==> self@.users.contains_key(self@.user_map[k])
                && user_key(self@.users[self@.user_map[k]].prefix) == k),
    {
        let ghost pairs = umap_pairs(self.user_map@);
        let mut i: usize = 0;
        while i < self.user_map.len()
            invariant
                self.inv(),
                pairs == umap_pairs(self.user_map@),
                0 <= i <= self.user_map@.len(),
                forall|j: int| 0 <= j < i ==> self@.users.contains_key(#[trigger] pairs[j].1) && user_key(self@.users[pairs[j].1].prefix)
                    == pairs[j].0,
            decreases self.user_map.len() - i,
        {
            let id = self.user_map[i].1.0;
            proof {
                assert(pairs[i as int] == (self.user_map@[i as int].0@, id));
                lemma_assoc_index(pairs, i as int);
            }
            match self.find_user(id) {
                Some(x) => {
                    proof {
                        self.lemma_user_at(x as int);
                    }
                    let key = IrcIdentifier::from_str(self.users[x].get_nick());
                    if !bytes_equal(key.key_bytes(), self.user_map[i].0.key_bytes()) {
                        proof {
                            let k = pairs[i as int].0;
                            assert(self@.user_map.contains_key(k) && self@.user_map[k] == id);
                            assert(user_key(self@.users[id].prefix) != k);
                        }
                        return false;
                    }
                },
                None => {
                    proof {
                        let k = pairs[i as int].0;
                        assert(self@.user_map.contains_key(k) && self@.user_map[k] == id);
                    }
                    return false;
                },
            }
            i = i + 1;
        }
        proof {
            assert forall|k: Seq<u8>| #[trigger] self@.user_map.contains_key(k) implies self@.users.contains_key(self@.user_map[k])
                && user_key(self@.users[self@.user_map[k]].prefix) == k by {
                let j = choose|j: int| 0 <= j < pairs.len() && pairs[j].0 == k;
                lemma_assoc_index(pairs, j);
                assert(self@.users.contains_key(pairs[j].1));
            }
        }
        true
    }

    /// Checks that the state is consistent: the members of each channel are
    /// known users that have the channel, the channels of each user are
    /// known channels that have the user, and each name or nick key leads to
    /// a known channel or user under that key.  The text of a refusal says
    /// which of these fails.
    pub fn validate_state_internal(&self) -> (r: Result<(), String>)
        requires
            self.inv(),
        ensures
            r is Ok <==> state_valid(self@),
    {
        if !self.members_mutual() {
            return Err(str_to_string("a channel holds a user that does not hold it"));
        }
        if !self.channels_mutual() {
            return Err(str_to_string("a user holds a channel that does not hold it"));
        }
        if !self.names_indexed() {
            return Err(str_to_string("channel map inconsistent"));
        }
        if !self.nicks_indexed() {
            return Err(str_to_string("user map inconsistent"));
        }
        Ok(())
    }
}

} // verus!

verus! {

/// Leaving fails exactly when the user is unknown, the channel is unknown,
/// or the user leaves its last channel and removing it fails.
proof fn lemma_unlink_faults_reduce(v: StateView, uid: u64, chid: u64)
    ensures
        unlink_faults(v, uid, chid) == (!v.users.contains_key(uid) || (only(v.users[uid].channels, chid)
            && remove_user_faults(v, uid)) || !v.channels.contains_key(chid)),
{
    if v.users.contains_key(uid) && !(only(v.users[uid].channels, chid) && remove_user_faults(v, uid)) {
        let w = unlink_user_side(v, uid, chid);
        let u = v.users[uid];
        if only(u.channels, chid) {
            assert(u.channels.contains(chid));
            assert(w.channels.dom() =~= v.channels.dom());
            if w.channels.contains_key(chid) {
                assert(!w.channels[chid].users.contains(uid));
                assert(!only(w.channels[chid].users, uid)) by {
                    if only(w.channels[chid].users, uid) {
                        assert(w.channels[chid].users.contains(uid));
                    }
                }
            }
        } else {
            assert(w.channels == v.channels);
            if only(w.channels[chid].users, uid) {
                assert(w.users.contains_key(uid));
                assert(!remove_channel_faults(w, chid)) by {
                    if remove_channel_faults(w, chid) {
                        let x = choose|x: u64| w.channels[chid].users.contains(x) && !w.users.contains_key(x);
                        assert(w.channels[chid].users.contains(x));
                    }
                }
            }
        }
    }
}

impl State {
    /// Whether removing user `id` faults.
    fn user_removal_faults(&self, id: u64) -> (r: bool)
        requires
            self.inv(),
        ensures
            r == remove_user_faults(self@, id),
    {
        if id == self.self_id.0 {
            return true;
        }
        let iu = match self.find_user(id) {
            Some(i) => i,
            None => {
                return false;
            },
        };
        let user = &self.users[iu];
        let nick = match user.prefix.nick() {
            Some(n) => n,
            None => {
                return true;
            },
        };
        let mut j: usize = 0;
        while j < user.channels.len()
            invariant
                0 <= j <= user.channels.len(),
                self.inv(),
                self@.users.contains_key(id),
                self@.users[id] == user@,
                forall|k: int| 0 <= k < j ==> self@.channels.contains_key(#[trigger] user.channels@[k]),
            decreases user.channels.len() - j,
        {
            if self.find_channel(user.channels[j]).is_none() {
                proof {
                    assert(user.channels@.contains(user.channels@[j as int]));
                    assert(self@.users[id].channels.contains(user.channels@[j as int]));
                }
                return true;
            }
            j = j + 1;
        }
        proof {
            assert forall|c: u64| self@.users[id].channels.contains(c) implies self@.channels.contains_key(c) by {
                let k = choose|k: int| 0 <= k < user.channels@.len() && user.channels@[k] == c;
            }
        }
        let key = IrcIdentifier::from_str(nick);
        self.umap_get(key.key_bytes()).is_none()
    }

    /// Whether user `uid` leaving channel `chid` faults.
    fn unlink_would_fault(&self, uid: u64, chid: u64) -> (r: bool)
        requires
            self.inv(),
        ensures
            r == unlink_faults(self@, uid, chid),
    {
        proof {
            lemma_unlink_faults_reduce(self@, uid, chid);
        }
        let iu = match self.find_user(uid) {
            Some(i) => i,
            None => {
                return true;
            },
        };
        if self.find_channel(chid).is_none() {
            return true;
        }
        proof {
            lemma_only(self.users@[iu as int].channels@, chid);
        }
        let last = self.users[iu].channels.len() == 1 && self.users[iu].channels[0] == chid;
        last && self.user_removal_faults(uid)
    }
}

impl State {
    /// Whether removing channel `id` faults.
    fn channel_removal_faults(&self, id: u64) -> (r: bool)
        requires
            self.inv(),
        ensures
            r == remove_channel_faults(self@, id),
    {
        let ic = match self.find_channel(id) {
            Some(i) => i,
            None => {
                return false;
            },
        };
        let chan = &self.channels[ic];
        let mut j: usize = 0;
        while j < chan.users.len()
            invariant
                0 <= j <= chan.users.len(),
                self.inv(),
                self@.channels.contains_key(id),
                self@.channels[id] == chan@,
                forall|k: int| 0 <= k < j ==> self@.users.contains_key(#[trigger] chan.users@[k]),
            decreases chan.users.len() - j,
        {
            if self.find_user(chan.users[j]).is_none() {
                proof {
                    assert(chan.users@.contains(chan.users@[j as int]));
                    assert(self@.channels[id].users.contains(chan.users@[j as int]));
                }
                return true;
            }
            j = j + 1;
        }
        proof {
            assert forall|u: u64| self@.channels[id].users.contains(u) implies self@.users.contains_key(u) by {
                let k = choose|k: int| 0 <= k < chan.users@.len() && chan.users@[k] == u;
            }
        }
        false
    }

    /// Whether `nick` leaving channel `cname` faults.
    fn leave_would_fault(&self, cname: &str, nick: &str) -> (r: bool)
        requires
            self.inv(),
        ensures
            r == leave_faults(self@, cname.spec_bytes(), nick.spec_bytes()),
    {
        let channel_name = IrcIdentifier::from_str(cname);
        let user_nick = IrcIdentifier::from_str(nick);
        let chan_id = match self.cmap_get(channel_name.key_bytes()) {
            Some(id) => id,
            None => {
                return false;
            },
        };
        let user_id = match self.umap_get(user_nick.key_bytes()) {
            Some(id) => id,
            None => {
                return false;
            },
        };
        self.unlink_would_fault(user_id, chan_id)
    }

    /// Whether leaving channel `name` ourselves faults.
    fn self_part_would_fault(&self, name: &str) -> (r: bool)
        requires
            self.inv(),
        ensures
            r == self_part_faults(self@, name.spec_bytes()),
    {
        let key = IrcIdentifier::from_str(name);
        let chan_id = match self.cmap_get(key.key_bytes()) {
            Some(id) => id,
            None => {
                return true;
            },
        };
        if self.find_channel(chan_id).is_none() {
            return true;
        }
        self.channel_removal_faults(chan_id)
    }

    /// Whether `nick` quitting faults.
    fn quit_would_fault(&self, nick: &str) -> (r: bool)
        requires
            self.inv(),
        ensures
            r == quit_faults(self@, nick.spec_bytes()),
    {
        let key = IrcIdentifier::from_str(nick);
        let user_id = match self.umap_get(key.key_bytes()) {
            Some(id) => id,
            None => {
                return true;
            },
        };
        if self.find_user(user_id).is_none() {
            return true;
        }
        self.user_removal_faults(user_id)
    }

    /// Whether `nick` joining channel `cname` faults.
    fn other_join_would_fault(&self, cname: &str, nick: &str) -> (r: bool)
        requires
            self.inv(),
        ensures
            r == other_join_faults(self@, cname.spec_bytes(), nick.spec_bytes()),
    {
        let channel_name = IrcIdentifier::from_str(cname);
        let user_nick = IrcIdentifier::from_str(nick);
        let chan_id = match self.cmap_get(channel_name.key_bytes()) {
            Some(id) => id,
            None => {
                return true;
            },
        };
        match self.umap_get(user_nick.key_bytes()) {
            Some(uid) => {
                if self.find_user(uid).is_none() {
                    return true;
                }
            },
            None => {
                if self.user_seq == u64::MAX {
                    return true;
                }
            },
        }
        self.find_channel(chan_id).is_none()
    }

    /// Whether a topic for channel `cname` faults.
    fn topic_would_fault(&self, cname: &str) -> (r: bool)
        requires
            self.inv(),
        ensures
            r == topic_faults(self@, cname.spec_bytes()),
    {
        let key = IrcIdentifier::from_str(cname);
        let chan_id = match self.cmap_get(key.key_bytes()) {
            Some(id) => id,
            None => {
                return true;
            },
        };
        self.find_channel(chan_id).is_none()
    }

    /// Whether `nick` changing nick faults.
    fn nick_would_fault(&self, nick: &str) -> (r: bool)
        requires
            self.inv(),
        ensures
            r == nick_faults(self@, nick.spec_bytes()),
    {
        let key = IrcIdentifier::from_str(nick);
        let user_id = match self.umap_get(key.key_bytes()) {
            Some(id) => id,
            None => {
                return true;
            },
        };
        let iu = match self.find_user(user_id) {
            Some(i) => i,
            None => {
                return true;
            },
        };
        self.users[iu].prefix.nick().is_none()
    }
}

impl State {
    /// Whether the welcome reply `msg` faults: its first parameter is not
    /// text, or we hold a nick whose key the reply does not give us.
    fn welcome_would_fault(&self, msg: &IrcMsg) -> (r: bool)
        requires
            self.inv(),
        ensures
            r == (command_bytes(msg@) == code_welcome() && (!valid_utf8(arg_bytes(msg@, 0))
                || init_self_faults(self@, arg_bytes(msg@, 0)))),
    {
        proof {
            use_type_invariant(msg);
        }
        let welcome = crate::message_types::commands::code_bytes(0x30, 0x30, 0x31);
        if !bytes_equal(msg.command_as_bytes(), welcome.as_slice()) {
            return false;
        }
        let nick = match crate::text::str_from_utf8(msg.index(0)) {
            Ok(n) => n,
            Err(_) => {
                return true;
            },
        };
        if string_bytes(&self.self_nick).len() == 0 {
            return false;
        }
        let own = IrcIdentifier::from_str(self.self_nick.as_str());
        let given = IrcIdentifier::from_str(nick);
        if bytes_equal(own.key_bytes(), given.key_bytes()) {
            return false;
        }
        self.umap_get(own.key_bytes()).is_none()
    }

    /// Whether following `msg` faults; `on_message` must not be given such
    /// a line.
    pub fn message_would_fault(&self, msg: &IrcMsg) -> (r: bool)
        requires
            self.inv(),
        ensures
            r == message_faults(self@, msg@),
    {
        if crate::message_types::util::incoming_would_fault(msg) {
            return true;
        }
        let is_self = self.msg_is_self(msg);
        match IncomingMsg::from_msg(msg.clone()) {
            IncomingMsg::Part(part) => {
                if is_self {
                    self.self_part_would_fault(part.get_channel())
                } else {
                    self.leave_would_fault(part.get_channel(), part.get_nick())
                }
            },
            IncomingMsg::Quit(quit) => {
                if !is_self {
                    let prefix = msg.get_prefix_raw();
                    if find_character(prefix, 0x21, 0).is_none() {
                        return true;
                    }
                    self.quit_would_fault(quit.get_nick())
                } else {
                    self.welcome_would_fault(msg)
                }
            },
            IncomingMsg::Join(join) => {
                if !is_self {
                    self.other_join_would_fault(join.get_channel(), join.get_nick())
                } else {
                    self.welcome_would_fault(msg)
                }
            },
            IncomingMsg::Topic(topic) => self.topic_would_fault(topic.get_channel()),
            IncomingMsg::Nick(nick) => self.nick_would_fault(nick.get_nick()),
            IncomingMsg::Kick(kick) => self.leave_would_fault(kick.get_channel(), kick.get_kicked_nick()),
            _ => self.welcome_would_fault(msg),
        }
    }
}

} // verus!

verus! {

/// The nick holds no `!`.
pub open spec fn nick_has_no_bang(nick: Seq<char>) -> bool {
    forall|j: int| 0 <= j < encode_utf8(nick).len() ==> #[trigger] encode_utf8(nick)[j] != 0x21
}

/// The key a listed user's nick is known by.
pub open spec fn record_key(r: crate::watchers::who::WhoRecordView) -> Seq<u8> {
    ident(encode_utf8(r.nick))
}

proof fn lemma_record_nick(r: crate::watchers::who::WhoRecordView)
    requires
        nick_has_no_bang(r.nick),
    ensures
        user_nick(crate::watchers::who::record_prefix(r)) == encode_utf8(r.nick),
{
    let p = crate::watchers::who::record_prefix(r);
    let n = encode_utf8(r.nick);
    assert(p[n.len() as int] == 0x21);
    assert forall|j: int| 0 <= j < n.len() implies p[j] != 0x21 by {
        assert(p[j] == n[j]);
    }
    lemma_find(p, 0x21, 0);
    assert(spec_find(p, 0x21, 0) == Some(n.len() as int));
    assert(p.subrange(0, n.len() as int) =~= n);
}

proof fn lemma_plan_entries(um: Map<Seq<u8>, u64>, seq0: int, recs: Seq<crate::watchers::who::WhoRecordView>)
    ensures
        ({
            let p = who_plan(um, seq0, recs);
            &&& p.ids.len() == recs.len()
            &&& forall|i: int| 0 <= i < recs.len() && um.contains_key(record_key(#[trigger] recs[i])) ==> p.ids[i] == um[record_key(recs[i])]
            &&& forall|i: int| 0 <= i < recs.len() && !um.contains_key(record_key(#[trigger] recs[i])) ==> exists|j: int|
                0 <= j < p.news.len() && p.news[j] == (p.ids[i], crate::watchers::who::record_prefix(recs[i]))
        }),
    decreases recs.len(),
{
    let p = who_plan(um, seq0, recs);
    if recs.len() > 0 {
        lemma_plan_entries(um, seq0, recs.drop_last());
        let p0 = who_plan(um, seq0, recs.drop_last());
        assert forall|i: int| 0 <= i < recs.len() && um.contains_key(record_key(#[trigger] recs[i])) implies p.ids[i] == um[record_key(recs[i])] by {
            if i < recs.len() - 1 {
                assert(recs.drop_last()[i] == recs[i]);
                assert(p.ids[i] == p0.ids[i]);
            }
        }
        assert forall|i: int| 0 <= i < recs.len() && !um.contains_key(record_key(#[trigger] recs[i])) implies exists|j: int|
            0 <= j < p.news.len() && p.news[j] == (p.ids[i], crate::watchers::who::record_prefix(recs[i])) by {
            if i < recs.len() - 1 {
                assert(recs.drop_last()[i] == recs[i]);
                assert(p.ids[i] == p0.ids[i]);
                let j = choose|j: int| 0 <= j < p0.news.len() && p0.news[j] == (p0.ids[i], crate::watchers::who::record_prefix(recs.drop_last()[i]));
                assert(p.news[j] == p0.news[j]);
            } else {
                assert(recs[i] == recs.last());
                assert(p.news[p0.news.len() as int] == (p.ids[i], crate::watchers::who::record_prefix(recs[i])));
            }
        }
    }
}

proof fn lemma_insert_news_keys(v: StateView, news: Seq<(u64, Seq<u8>)>)
    requires
        !insert_news_faults(v, news),
    ensures
        ({
            let w = insert_news(v, news);
            &&& w.channel_map == v.channel_map
            &&& w.channels == v.channels
            &&& forall|k: Seq<u8>| #[trigger] v.user_map.contains_key(k) ==> w.user_map.contains_key(k) && w.user_map[k] == v.user_map[k]
            &&& forall|j: int| 0 <= j < news.len() ==> prefix_nick(#[trigger] news[j].1) is Some
            &&& forall|j: int| 0 <= j < news.len() ==> w.user_map.contains_key(nick_key(#[trigger] news[j].1))
                && w.user_map[nick_key(news[j].1)] == news[j].0
        }),
    decreases news.len(),
{
    if news.len() > 0 {
        lemma_insert_news_keys(v, news.drop_last());
        let w0 = insert_news(v, news.drop_last());
        let w = insert_news(v, news);
        let (id, p) = news.last();
        assert forall|j: int| 0 <= j < news.len() implies prefix_nick(#[trigger] news[j].1) is Some by {
            if j < news.len() - 1 {
                assert(news.drop_last()[j] == news[j]);
            }
        }
        assert forall|j: int| 0 <= j < news.len() implies w.user_map.contains_key(nick_key(#[trigger] news[j].1))
            && w.user_map[nick_key(news[j].1)] == news[j].0 by {
            if j < news.len() - 1 {
                assert(news.drop_last()[j] == news[j]);
                assert(w0.user_map.contains_key(nick_key(news[j].1)));
            }
        }
    }
}

/// A `WHO` listing for a channel we know but whose members we do not know
/// yet makes every listed nick known, keeps the number of each nick known
/// before, and makes the channel's members exactly the listed users.  (A
/// listed nick holding `!` is keyed by its part before the `!`, so it is
/// left out.)
pub proof fn lemma_who_lists_members(v: StateView, who: &crate::watchers::who::WhoSuccess)
    requires
        !who_faults(v, who),
        v.channel_map.contains_key(ident(who.channel@)),
        v.channels[v.channel_map[ident(who.channel@)]].users == Set::<u64>::empty(),
        forall|i: int| 0 <= i < who_records(who).len() ==> nick_has_no_bang(#[trigger] who_records(who)[i].nick),
    ensures
        ({
            let f = after_who(v, who);
            let cid = v.channel_map[ident(who.channel@)];
            let recs = who_records(who);
            &&& f.channel_map == v.channel_map
            &&& forall|k: Seq<u8>| #[trigger] v.user_map.contains_key(k) ==> f.user_map.contains_key(k) && f.user_map[k] == v.user_map[k]
            &&& forall|i: int| 0 <= i < recs.len() ==> f.user_map.contains_key(record_key(#[trigger] recs[i]))
                && f.channels[cid].users.contains(f.user_map[record_key(recs[i])])
            &&& forall|u: u64| #[trigger] f.channels[cid].users.contains(u) ==> exists|i: int|
                0 <= i < recs.len() && f.user_map.contains_key(record_key(recs[i])) && f.user_map[record_key(recs[i])] == u
        }),
{
    let cn = ident(who.channel@);
    let cid = v.channel_map[cn];
    let recs = who_records(who);
    let plan = who_plan(v.user_map, v.user_seq as int, recs);
    let v1 = StateView { user_seq: plan.next as u64, ..v };
    let v2 = insert_news(v1, plan.news);
    let v3 = link_ids(v2, plan.ids, cid);
    let f = after_who(v, who);
    assert(f == with_channel(v3, cid, ChannelView { users: seq_set(plan.ids), ..v3.channels[cid] }));
    lemma_plan_entries(v.user_map, v.user_seq as int, recs);
    lemma_insert_news_keys(v1, plan.news);
    lemma_link_ids_dom(v2, plan.ids, cid);
    assert(f.user_map == v2.user_map);
    assert(v1.user_map == v.user_map);
    assert(!insert_news_faults(v1, plan.news));
    lemma_link_ids_effect(v2, plan.ids, cid);
    assert(v3.channel_map == v2.channel_map);
    assert(f.channel_map == v.channel_map);
    assert forall|k: Seq<u8>| #[trigger] v.user_map.contains_key(k) implies f.user_map.contains_key(k) && f.user_map[k] == v.user_map[k] by {
        assert(v1.user_map.contains_key(k));
    }
    assert forall|i: int| 0 <= i < recs.len() implies f.user_map.contains_key(record_key(#[trigger] recs[i]))
        && f.user_map[record_key(recs[i])] == plan.ids[i] by {
        let r = recs[i];
        if v.user_map.contains_key(record_key(r)) {
            assert(v1.user_map.contains_key(record_key(r)));
        } else {
            let j = choose|j: int| 0 <= j < plan.news.len() && plan.news[j] == (plan.ids[i], crate::watchers::who::record_prefix(r));
            assert(prefix_nick(plan.news[j].1) is Some);
            lemma_nick_key_is_user_key(plan.news[j].1);
            lemma_record_nick(r);
            assert(nick_key(plan.news[j].1) == record_key(r));
        }
    }
    assert forall|i: int| 0 <= i < recs.len() implies f.channels[cid].users.contains(f.user_map[record_key(#[trigger] recs[i])]) by {
        assert(f.user_map[record_key(recs[i])] == plan.ids[i]);
        assert(plan.ids.contains(plan.ids[i]));
    }
    assert forall|u: u64| #[trigger] f.channels[cid].users.contains(u) implies exists|i: int|
        0 <= i < recs.len() && f.user_map.contains_key(record_key(recs[i])) && f.user_map[record_key(recs[i])] == u by {
        let i = choose|i: int| 0 <= i < plan.ids.len() && plan.ids[i] == u;
        assert(f.user_map[record_key(recs[i])] == plan.ids[i]);
    }
}

/// A `WHO` listing for a channel we do not know, or whose members we know
/// already, changes nothing.
pub proof fn lemma_who_leaves_known_members(v: StateView, who: &crate::watchers::who::WhoSuccess)
    requires
        !v.channel_map.contains_key(ident(who.channel@)) || v.channels[v.channel_map[ident(who.channel@)]].users
            != Set::<u64>::empty(),
    ensures
        after_who(v, who) == v,
{
}

/// A topic line for a channel we are in sets that channel's topic to the
/// line's text (made valid), and changes nothing else.
pub proof fn lemma_topic_sets_topic(v: StateView, cname: Seq<u8>, body: Seq<u8>)
    requires
        !topic_faults(v, cname),
    ensures
        ({
            let f = after_topic(v, cname, body);
            let cid = v.channel_map[ident(cname)];
            &&& f.channels.contains_key(cid)
            &&& f.channels[cid].topic == encode_utf8(crate::text::utf8_lossy(body))
            &&& f.channels[cid].name == v.channels[cid].name
            &&& f.channels[cid].users == v.channels[cid].users
            &&& forall|c: u64| c != cid ==> #[trigger] f.channels.contains_key(c) == v.channels.contains_key(c)
            &&& forall|c: u64| c != cid && v.channels.contains_key(c) ==> #[trigger] f.channels[c] == v.channels[c]
            &&& f.users == v.users
            &&& f.user_map == v.user_map
            &&& f.channel_map == v.channel_map
        }),
{
}

/// Someone joining a channel we are in becomes known under its nick (the
/// number it had, or the next free one with the line's prefix) and a
/// member of the channel, on both sides.
pub proof fn lemma_other_join_makes_member(v: StateView, cname: Seq<u8>, nick: Seq<u8>, prefix: Seq<u8>)
    requires
        !other_join_faults(v, cname, nick),
    ensures
        ({
            let f = after_other_join(v, cname, nick, prefix);
            let cid = v.channel_map[ident(cname)];
            &&& f.user_map.contains_key(ident(nick))
            &&& v.user_map.contains_key(ident(nick)) ==> f.user_map[ident(nick)] == v.user_map[ident(nick)]
            &&& !v.user_map.contains_key(ident(nick)) ==> f.user_map[ident(nick)] == v.user_seq && f.users[v.user_seq].prefix == prefix
            &&& f.channels.contains_key(cid)
            &&& f.channels[cid].users.contains(f.user_map[ident(nick)])
            &&& f.users.contains_key(f.user_map[ident(nick)])
            &&& f.users[f.user_map[ident(nick)]].channels.contains(cid)
            &&& forall|k: Seq<u8>| #[trigger] v.user_map.contains_key(k) ==> f.user_map.contains_key(k) && f.user_map[k] == v.user_map[k]
            &&& f.channel_map == v.channel_map
        }),
{
}

/// A member leaving a channel (a part or a kick) is no longer a member of
/// it on either side, and every other member stays.  When the channel or
/// the user is unknown, nothing changes.
pub proof fn lemma_leave_unlinks(v: StateView, cname: Seq<u8>, nick: Seq<u8>)
    requires
        !leave_faults(v, cname, nick),
    ensures
        !(v.channel_map.contains_key(ident(cname)) && v.user_map.contains_key(ident(nick))) ==> after_leave(v, cname, nick) == v,
        v.channel_map.contains_key(ident(cname)) && v.user_map.contains_key(ident(nick)) ==> ({
            let f = after_leave(v, cname, nick);
            let cid = v.channel_map[ident(cname)];
            let uid = v.user_map[ident(nick)];
            &&& f.channels.contains_key(cid) ==> !f.channels[cid].users.contains(uid)
            &&& f.users.contains_key(uid) ==> !f.users[uid].channels.contains(cid)
            &&& f.channels.contains_key(cid) ==> forall|x: u64| x != uid ==> (#[trigger] f.channels[cid].users.contains(x)
                == v.channels[cid].users.contains(x))
        }),
{
    let cn = ident(cname);
    let un = ident(nick);
    if v.channel_map.contains_key(cn) && v.user_map.contains_key(un) {
        let cid = v.channel_map[cn];
        let uid = v.user_map[un];
        lemma_unlink_faults_reduce(v, uid, cid);
        let u = v.users[uid];
        let w = unlink_user_side(v, uid, cid);
        let f = after_leave(v, cname, nick);
        assert(f == after_unlink(v, uid, cid));
        if only(u.channels, cid) {
            assert(u.channels.contains(cid));
            assert(w.channels[cid].users == v.channels[cid].users.remove(uid));
            assert(!only(w.channels[cid].users, uid)) by {
                if only(w.channels[cid].users, uid) {
                    assert(w.channels[cid].users.contains(uid));
                }
            }
            assert(!f.users.contains_key(uid));
        } else {
            assert(w.channels == v.channels);
            if only(w.channels[cid].users, uid) {
                assert(!f.channels.contains_key(cid));
                assert(w.channels[cid].users.contains(uid));
                assert(f.users[uid].channels == w.users[uid].channels.remove(cid));
            }
        }
    }
}

/// Someone quitting is forgotten: its number, its nick and its place in
/// every channel go.
pub proof fn lemma_quit_forgets_user(v: StateView, nick: Seq<u8>)
    requires
        state_valid(v),
        !quit_faults(v, nick),
    ensures
        ({
            let f = after_quit(v, nick);
            let uid = v.user_map[ident(nick)];
            &&& !f.users.contains_key(uid)
            &&& !f.user_map.contains_key(ident(nick))
            &&& forall|c: u64| #[trigger] f.channels.contains_key(c) ==> !f.channels[c].users.contains(uid)
            &&& f.channels.dom() == v.channels.dom()
        }),
{
    let uid = v.user_map[ident(nick)];
    let u = v.users[uid];
    let f = after_quit(v, nick);
    lemma_nick_key_is_user_key(u.prefix);
    assert(nick_key(u.prefix) == ident(nick));
    assert forall|c: u64| #[trigger] f.channels.contains_key(c) implies !f.channels[c].users.contains(uid) by {
        if !u.channels.contains(c) {
            if v.channels[c].users.contains(uid) {
                assert(v.users[uid].channels.contains(c));
            }
        }
    }
    assert(f.channels.dom() =~= v.channels.dom());
}

proof fn lemma_renamed_nick(prefix: Seq<u8>, new_nick: Seq<u8>)
    requires
        prefix_marks(prefix) is Some,
        forall|j: int| 0 <= j < new_nick.len() ==> #[trigger] new_nick[j] != 0x21,
    ensures
        prefix_nick(renamed_prefix(prefix, new_nick)) == Some(new_nick),
{
    let p = renamed_prefix(prefix, new_nick);
    let user = crate::parse::parse::prefix_user(prefix).unwrap();
    let (e0, a0) = prefix_marks(prefix)->Some_0;
    lemma_find(prefix, 0x21, 0);
    lemma_find(prefix, 0x40, e0 + 1);
    assert(user == prefix.subrange(e0 + 1, a0));
    let n = new_nick.len() as int;
    assert(p[n] == 0x21);
    assert forall|j: int| 0 <= j < n implies p[j] != 0x21 by {
        assert(p[j] == new_nick[j]);
    }
    lemma_find(p, 0x21, 0);
    assert(spec_find(p, 0x21, 0) == Some(n));
    let at: int = n + 1 + user.len();
    assert(p[at] == 0x40);
    assert forall|j: int| n + 1 <= j < at implies p[j] != 0x40 by {
        assert(p[j] == user[j - n - 1]);
        assert(prefix[e0 + 1 + (j - n - 1)] != 0x40);
    }
    lemma_find(p, 0x40, n + 1);
    assert(spec_find(p, 0x40, n + 1) == Some(at));
    assert(p.subrange(0, n) =~= new_nick);
}

/// A nick change keeps the user's number, channels and the rest of its
/// prefix: the user is known under the new nick, and no longer under the
/// old one when the two keys differ.
pub proof fn lemma_nick_renames(v: StateView, nick: Seq<u8>, new_nick: Seq<u8>)
    requires
        state_valid(v),
        !nick_faults(v, nick),
        forall|j: int| 0 <= j < new_nick.len() ==> #[trigger] new_nick[j] != 0x21,
    ensures
        ({
            let f = after_nick(v, nick, new_nick);
            let uid = v.user_map[ident(nick)];
            &&& f.user_map.contains_key(ident(new_nick))
            &&& f.user_map[ident(new_nick)] == uid
            &&& ident(new_nick) != ident(nick) ==> !f.user_map.contains_key(ident(nick))
            &&& f.users.contains_key(uid)
            &&& prefix_nick(f.users[uid].prefix) == Some(new_nick)
            &&& f.users[uid].channels == v.users[uid].channels
            &&& f.channels == v.channels
            &&& f.users.dom() == v.users.dom()
        }),
{
    let uid = v.user_map[ident(nick)];
    let u = v.users[uid];
    lemma_renamed_nick(u.prefix, new_nick);
    lemma_nick_key_is_user_key(u.prefix);
    assert(nick_key(u.prefix) == ident(nick));
    let f = after_nick(v, nick, new_nick);
    assert(f.users.dom() =~= v.users.dom());
}

/// Leaving a channel ourselves forgets it: its name and number go.
pub proof fn lemma_self_part_forgets_channel(v: StateView, cname: Seq<u8>)
    requires
        state_valid(v),
        !self_part_faults(v, cname),
    ensures
        ({
            let f = after_self_part(v, cname);
            let cid = v.channel_map[ident(cname)];
            &&& !f.channels.contains_key(cid)
            &&& !f.channel_map.contains_key(ident(cname))
            &&& forall|u: u64| #[trigger] f.users.contains_key(u) ==> !f.users[u].channels.contains(cid)
            &&& f.users.dom() == v.users.dom()
        }),
{
    let cid = v.channel_map[ident(cname)];
    let f = after_self_part(v, cname);
    assert(ident(v.channels[cid].name) == ident(cname));
    assert forall|u: u64| #[trigger] f.users.contains_key(u) implies !f.users[u].channels.contains(cid) by {
        if !v.channels[cid].users.contains(u) {
            if v.users[u].channels.contains(cid) {
                assert(v.channels[cid].users.contains(u));
            }
        }
    }
    assert(f.users.dom() =~= v.users.dom());
}

/// What each kind of line does to the tracker, for a line that reads as
/// that kind: someone else's `JOIN` makes the sender a member of the
/// channel (parameter 0); a `PART` from someone else, or a `KICK` of
/// parameter 1, takes that user out of the channel; our own `PART` forgets
/// the channel; someone else's `QUIT` forgets the sender; a `TOPIC` sets the
/// channel's topic to parameter 1; a `NICK` moves the sender to the new nick
/// (parameter 0).
pub proof fn lemma_message_effects(v: StateView, m: IrcMsgView)
    requires
        state_valid(v),
        !message_faults(v, m),
    ensures
        ({
            let k = crate::message_types::server::spec_incoming_kind(m);
            let f = after_message(v, m);
            let sender = crate::message_types::server::bang_nick(m);
            let is_self = is_self_msg(v, m);
            &&& k == crate::message_types::server::IncomingKind::Join && !is_self ==> f.user_map.contains_key(ident(sender))
                && f.channels[v.channel_map[ident(arg_bytes(m, 0))]].users.contains(f.user_map[ident(sender)])
            &&& k == crate::message_types::server::IncomingKind::Part && !is_self && v.channel_map.contains_key(ident(arg_bytes(m, 0)))
                && v.user_map.contains_key(ident(sender)) && f.channels.contains_key(v.channel_map[ident(arg_bytes(m, 0))])
                ==> !f.channels[v.channel_map[ident(arg_bytes(m, 0))]].users.contains(v.user_map[ident(sender)])
            &&& k == crate::message_types::server::IncomingKind::Kick && v.channel_map.contains_key(ident(arg_bytes(m, 0)))
                && v.user_map.contains_key(ident(arg_bytes(m, 1))) && f.channels.contains_key(v.channel_map[ident(arg_bytes(m, 0))])
                ==> !f.channels[v.channel_map[ident(arg_bytes(m, 0))]].users.contains(v.user_map[ident(arg_bytes(m, 1))])
            &&& k == crate::message_types::server::IncomingKind::Part && is_self ==> !f.channel_map.contains_key(ident(arg_bytes(m, 0)))
            &&& k == crate::message_types::server::IncomingKind::Quit && !is_self ==> !f.user_map.contains_key(ident(sender))
            &&& k == crate::message_types::server::IncomingKind::Topic ==> f.channels[v.channel_map[ident(arg_bytes(m, 0))]].topic
                == encode_utf8(crate::text::utf8_lossy(arg_bytes(m, 1)))
            &&& k == crate::message_types::server::IncomingKind::Nick && (forall|j: int| 0 <= j < arg_bytes(m, 0).len() ==> #[trigger] arg_bytes(m, 0)[j] != 0x21)
                ==> f.user_map.contains_key(ident(arg_bytes(m, 0))) && f.user_map[ident(arg_bytes(m, 0))] == v.user_map[ident(sender)]
        }),
{
    let k = crate::message_types::server::spec_incoming_kind(m);
    let sender = crate::message_types::server::bang_nick(m);
    let is_self = is_self_msg(v, m);
    if k == crate::message_types::server::IncomingKind::Join && !is_self {
        lemma_other_join_makes_member(v, arg_bytes(m, 0), sender, prefix_bytes(m));
    }
    if k == crate::message_types::server::IncomingKind::Part && !is_self {
        lemma_leave_unlinks(v, arg_bytes(m, 0), sender);
    }
    if k == crate::message_types::server::IncomingKind::Kick {
        lemma_leave_unlinks(v, arg_bytes(m, 0), arg_bytes(m, 1));
    }
    if k == crate::message_types::server::IncomingKind::Part && is_self {
        lemma_self_part_forgets_channel(v, arg_bytes(m, 0));
    }
    if k == crate::message_types::server::IncomingKind::Quit && !is_self {
        lemma_quit_forgets_user(v, sender);
    }
    if k == crate::message_types::server::IncomingKind::Topic {
        lemma_topic_sets_topic(v, arg_bytes(m, 0), arg_bytes(m, 1));
    }
    if k == crate::message_types::server::IncomingKind::Nick && (forall|j: int| 0 <= j < arg_bytes(m, 0).len() ==> #[trigger] arg_bytes(m, 0)[j] != 0x21) {
        lemma_nick_renames(v, sender, arg_bytes(m, 0));
    }
}

/// Our own join makes the channel known, under the next channel number
/// with the joined topic and no members yet, unless it was known already.
pub proof fn lemma_self_join_knows_channel(v: StateView, channel: Seq<u8>, topic: Seq<u8>)
    ensures
        after_self_join(v, channel, topic).channel_map.contains_key(ident(channel)),
        v.channel_map.contains_key(ident(channel)) ==> after_self_join(v, channel, topic) == v,
        !v.channel_map.contains_key(ident(channel)) ==> ({
            let f = after_self_join(v, channel, topic);
            &&& f.channel_map[ident(channel)] == v.channel_seq
            &&& f.channels[v.channel_seq].name == channel
            &&& f.channels[v.channel_seq].topic == topic
            &&& f.channels[v.channel_seq].users == Set::<u64>::empty()
            &&& f.users == v.users
            &&& f.user_map == v.user_map
        }),
{
}

/// The first welcome names us: our nick becomes the one it gives, known
/// under our own number with the prefix `nick!someone@somewhere`.
pub proof fn lemma_welcome_names_us(v: StateView, nick: Seq<u8>)
    requires
        v.self_nick == Seq::<u8>::empty(),
    ensures
        ({
            let f = after_init_self(v, nick);
            &&& f.self_nick == nick
            &&& f.user_map.contains_key(ident(nick))
            &&& f.user_map[ident(nick)] == v.self_id
            &&& f.users.contains_key(v.self_id)
            &&& f.users[v.self_id].prefix == nick + self_prefix_tail()
            &&& f.channels == v.channels
        }),
{
}

} // verus!
