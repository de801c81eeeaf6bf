//! IRCv3 capabilities, kept by name with names compared without case.

use vstd::prelude::*;
use vstd::string::*;
use vstd::utf8::*;
use crate::text::{str_bytes, string_bytes, str_to_string, bytes_equal, as_text, str_from_utf8, push_bytes, into_text, lemma_decode_encode, lemma_ascii_boundaries, lemma_ends_are_boundaries, lemma_boundary_slice_utf8};
use crate::split::{split_bytes, split_slice, lemma_split_text};
use crate::parse::compose::{vec_from_array, lemma_ascii_utf8, is_ascii_bytes};

verus! {

/// The available IRCv3 capability negotiation versions.
#[derive(Clone, Copy, Debug, PartialEq, Eq, Structural)]
pub enum NegotiationVersion {
    /// IRCv3.1
    V301,
    /// IRCv3.2
    V302,
}

/// Whether two names are equal without case, as `unicase` compares them.
pub uninterp spec fn unicase_equal(a: Seq<char>, b: Seq<char>) -> bool;

/// ASCII bytes equal when each is taken in lower case.
pub open spec fn ascii_eq_ignore_case(a: Seq<u8>, b: Seq<u8>) -> bool {
    a.len() == b.len() && forall|i: int| 0 <= i < a.len() ==> crate::mtype2::ascii_fold(#[trigger] a[i]) == crate::mtype2::ascii_fold(b[i])
}

/// `unicase::eq`: whether `UniCase::new(a) == UniCase::new(b)`.  The source
/// compares two ASCII strings with `eq_ignore_ascii_case`, and other strings
/// by Unicode case folding; the result is named `unicase_equal`, and a
/// string equals itself.
#[verifier::external_body]
fn unicase_eq(a: &str, b: &str) -> (r: bool)
    ensures
        r == unicase_equal(a@, b@),
        a@ == b@ ==> r,
        is_ascii_bytes(a.spec_bytes()) && is_ascii_bytes(b.spec_bytes()) ==> (r == ascii_eq_ignore_case(a.spec_bytes(), b.spec_bytes())),
{
    unicase::eq(a, b)
}

/// A capability that can be named, written and read back.
pub trait Capability: Sized {
    /// The name of the capability.
    spec fn spec_name() -> Seq<char>;

    /// How the capability is written.
    spec fn spec_serialized(&self) -> Seq<char>;

    /// The written form of the capability that `cap` reads as, if it reads
    /// as one.
    spec fn spec_parse(cap: Seq<u8>) -> Option<Seq<char>>;

    fn capability_name() -> (r: &'static str)
        ensures
            r@ == Self::spec_name(),
    ;

    fn serialize_capability(&self) -> (r: String)
        ensures
            r@ == self.spec_serialized(),
    ;

    fn parse_capability(cap: &[u8]) -> (r: Result<Self, ()>)
        ensures
            match r {
                Ok(c) => Self::spec_parse(cap@) == Some(c.spec_serialized()),
                Err(()) => Self::spec_parse(cap@) is None,
            },
    ;
}

/// A capability that can be written out as text.
pub trait CapabilityFormat: Sized {
    /// The text written for the capability.
    spec fn spec_formatted(&self) -> Seq<char>;

    fn fmt_capability(&self) -> (r: String)
        ensures
            r@ == self.spec_formatted(),
    ;
}

/// The `multi-prefix` capability.
#[derive(Clone, Copy, Debug, PartialEq, Eq, Structural)]
pub struct MultiPrefix;

impl Capability for MultiPrefix {
    open spec fn spec_name() -> Seq<char> {
        "multi-prefix"@
    }

    open spec fn spec_serialized(&self) -> Seq<char> {
        "multi-prefix"@
    }

    open spec fn spec_parse(cap: Seq<u8>) -> Option<Seq<char>> {
        if cap == encode_utf8("multi-prefix"@) {
            Some("multi-prefix"@)
        } else {
            None
        }
    }

    fn capability_name() -> (r: &'static str) {
        "multi-prefix"
    }

    fn serialize_capability(&self) -> (r: String) {
        str_to_string(Self::capability_name())
    }

    fn parse_capability(cap: &[u8]) -> (r: Result<MultiPrefix, ()>) {
        if bytes_equal(cap, str_bytes(Self::capability_name())) {
            return Ok(MultiPrefix);
        }
        Err(())
    }
}

impl CapabilityFormat for MultiPrefix {
    open spec fn spec_formatted(&self) -> Seq<char> {
        "extended-join"@
    }

    fn fmt_capability(&self) -> (r: String) {
        str_to_string(ExtendedJoin::capability_name())
    }
}

/// The `extended-join` capability.
#[derive(Clone, Copy, Debug, PartialEq, Eq, Structural)]
pub struct ExtendedJoin;

impl Capability for ExtendedJoin {
    open spec fn spec_name() -> Seq<char> {
        "extended-join"@
    }

    open spec fn spec_serialized(&self) -> Seq<char> {
        "extended-join"@
    }

    open spec fn spec_parse(cap: Seq<u8>) -> Option<Seq<char>> {
        if cap == encode_utf8("extended-join"@) {
            Some("extended-join"@)
        } else {
            None
        }
    }

    fn capability_name() -> (r: &'static str) {
        "extended-join"
    }

    fn serialize_capability(&self) -> (r: String) {
        str_to_string(Self::capability_name())
    }

    fn parse_capability(cap: &[u8]) -> (r: Result<ExtendedJoin, ()>) {
        if bytes_equal(cap, str_bytes(Self::capability_name())) {
            return Ok(ExtendedJoin);
        }
        Err(())
    }
}

impl CapabilityFormat for ExtendedJoin {
    open spec fn spec_formatted(&self) -> Seq<char> {
        "extended-join"@
    }

    fn fmt_capability(&self) -> (r: String) {
        str_to_string(ExtendedJoin::capability_name())
    }
}

/// The `account-notify` capability.
#[derive(Clone, Copy, Debug, PartialEq, Eq, Structural)]
pub struct AccountNotify;

impl Capability for AccountNotify {
    open spec fn spec_name() -> Seq<char> {
        "account-notify"@
    }

    open spec fn spec_serialized(&self) -> Seq<char> {
        "account-notify"@
    }

    open spec fn spec_parse(cap: Seq<u8>) -> Option<Seq<char>> {
        if cap == encode_utf8("account-notify"@) {
            Some("account-notify"@)
        } else {
            None
        }
    }

    fn capability_name() -> (r: &'static str) {
        "account-notify"
    }

    fn serialize_capability(&self) -> (r: String) {
        str_to_string(Self::capability_name())
    }

    fn parse_capability(cap: &[u8]) -> (r: Result<AccountNotify, ()>) {
        if bytes_equal(cap, str_bytes(Self::capability_name())) {
            return Ok(AccountNotify);
        }
        Err(())
    }
}

impl CapabilityFormat for AccountNotify {
    open spec fn spec_formatted(&self) -> Seq<char> {
        "account-notify"@
    }

    fn fmt_capability(&self) -> (r: String) {
        str_to_string(AccountNotify::capability_name())
    }
}

/// The `batch` capability.
#[derive(Clone, Copy, Debug, PartialEq, Eq, Structural)]
pub struct Batch;

impl Capability for Batch {
    open spec fn spec_name() -> Seq<char> {
        "batch"@
    }

    open spec fn spec_serialized(&self) -> Seq<char> {
        "batch"@
    }

    open spec fn spec_parse(cap: Seq<u8>) -> Option<Seq<char>> {
        if cap == encode_utf8("batch"@) {
            Some("batch"@)
        } else {
            None
        }
    }

    fn capability_name() -> (r: &'static str) {
        "batch"
    }

    fn serialize_capability(&self) -> (r: String) {
        str_to_string(Self::capability_name())
    }

    fn parse_capability(cap: &[u8]) -> (r: Result<Batch, ()>) {
        if bytes_equal(cap, str_bytes(Self::capability_name())) {
            return Ok(Batch);
        }
        Err(())
    }
}

impl CapabilityFormat for Batch {
    open spec fn spec_formatted(&self) -> Seq<char> {
        "batch"@
    }

    fn fmt_capability(&self) -> (r: String) {
        str_to_string(Batch::capability_name())
    }
}

/// The `invite-notify` capability.
#[derive(Clone, Copy, Debug, PartialEq, Eq, Structural)]
pub struct InviteNotify;

impl Capability for InviteNotify {
    open spec fn spec_name() -> Seq<char> {
        "invite-notify"@
    }

    open spec fn spec_serialized(&self) -> Seq<char> {
        "invite-notify"@
    }

    open spec fn spec_parse(cap: Seq<u8>) -> Option<Seq<char>> {
        if cap == encode_utf8("invite-notify"@) {
            Some("invite-notify"@)
        } else {
            None
        }
    }

    fn capability_name() -> (r: &'static str) {
        "invite-notify"
    }

    fn serialize_capability(&self) -> (r: String) {
        str_to_string(Self::capability_name())
    }

    fn parse_capability(cap: &[u8]) -> (r: Result<InviteNotify, ()>) {
        if bytes_equal(cap, str_bytes(Self::capability_name())) {
            return Ok(InviteNotify);
        }
        Err(())
    }
}

impl CapabilityFormat for InviteNotify {
    open spec fn spec_formatted(&self) -> Seq<char> {
        "invite-notify"@
    }

    fn fmt_capability(&self) -> (r: String) {
        str_to_string(InviteNotify::capability_name())
    }
}

/// The `tls` capability.
#[derive(Clone, Copy, Debug, PartialEq, Eq, Structural)]
pub struct Tls;

impl Capability for Tls {
    open spec fn spec_name() -> Seq<char> {
        "tls"@
    }

    open spec fn spec_serialized(&self) -> Seq<char> {
        "tls"@
    }

    open spec fn spec_parse(cap: Seq<u8>) -> Option<Seq<char>> {
        if cap == encode_utf8("tls"@) {
            Some("tls"@)
        } else {
            None
        }
    }

    fn capability_name() -> (r: &'static str) {
        "tls"
    }

    fn serialize_capability(&self) -> (r: String) {
        str_to_string(Self::capability_name())
    }

    fn parse_capability(cap: &[u8]) -> (r: Result<Tls, ()>) {
        if bytes_equal(cap, str_bytes(Self::capability_name())) {
            return Ok(Tls);
        }
        Err(())
    }
}

impl CapabilityFormat for Tls {
    open spec fn spec_formatted(&self) -> Seq<char> {
        "tls"@
    }

    fn fmt_capability(&self) -> (r: String) {
        str_to_string(Tls::capability_name())
    }
}

/// The `cap-notify` capability.
#[derive(Clone, Copy, Debug, PartialEq, Eq, Structural)]
pub struct CapNotify;

impl Capability for CapNotify {
    open spec fn spec_name() -> Seq<char> {
        "cap-notify"@
    }

    open spec fn spec_serialized(&self) -> Seq<char> {
        "cap-notify"@
    }

    open spec fn spec_parse(cap: Seq<u8>) -> Option<Seq<char>> {
        if cap == encode_utf8("cap-notify"@) {
            Some("cap-notify"@)
        } else {
            None
        }
    }

    fn capability_name() -> (r: &'static str) {
        "cap-notify"
    }

    fn serialize_capability(&self) -> (r: String) {
        str_to_string(Self::capability_name())
    }

    fn parse_capability(cap: &[u8]) -> (r: Result<CapNotify, ()>) {
        if bytes_equal(cap, str_bytes(Self::capability_name())) {
            return Ok(CapNotify);
        }
        Err(())
    }
}

impl CapabilityFormat for CapNotify {
    open spec fn spec_formatted(&self) -> Seq<char> {
        "cap-notify"@
    }

    fn fmt_capability(&self) -> (r: String) {
        str_to_string(CapNotify::capability_name())
    }
}

/// The `server-time` capability.
#[derive(Clone, Copy, Debug, PartialEq, Eq, Structural)]
pub struct ServerTime;

impl Capability for ServerTime {
    open spec fn spec_name() -> Seq<char> {
        "server-time"@
    }

    open spec fn spec_serialized(&self) -> Seq<char> {
        "server-time"@
    }

    open spec fn spec_parse(cap: Seq<u8>) -> Option<Seq<char>> {
        if cap == encode_utf8("server-time"@) {
            Some("server-time"@)
        } else {
            None
        }
    }

    fn capability_name() -> (r: &'static str) {
        "server-time"
    }

    fn serialize_capability(&self) -> (r: String) {
        str_to_string(Self::capability_name())
    }

    fn parse_capability(cap: &[u8]) -> (r: Result<ServerTime, ()>) {
        if bytes_equal(cap, str_bytes(Self::capability_name())) {
            return Ok(ServerTime);
        }
        Err(())
    }
}

impl CapabilityFormat for ServerTime {
    open spec fn spec_formatted(&self) -> Seq<char> {
        "server-time"@
    }

    fn fmt_capability(&self) -> (r: String) {
        str_to_string(ServerTime::capability_name())
    }
}

/// The `userhost-in-names` capability.
#[derive(Clone, Copy, Debug, PartialEq, Eq, Structural)]
pub struct UserhostInNames;

impl Capability for UserhostInNames {
    open spec fn spec_name() -> Seq<char> {
        "userhost-in-names"@
    }

    open spec fn spec_serialized(&self) -> Seq<char> {
        "userhost-in-names"@
    }

    open spec fn spec_parse(cap: Seq<u8>) -> Option<Seq<char>> {
        if cap == encode_utf8("userhost-in-names"@) {
            Some("userhost-in-names"@)
        } else {
            None
        }
    }

    fn capability_name() -> (r: &'static str) {
        "userhost-in-names"
    }

    fn serialize_capability(&self) -> (r: String) {
        str_to_string(Self::capability_name())
    }

    fn parse_capability(cap: &[u8]) -> (r: Result<UserhostInNames, ()>) {
        if bytes_equal(cap, str_bytes(Self::capability_name())) {
            return Ok(UserhostInNames);
        }
        Err(())
    }
}

impl CapabilityFormat for UserhostInNames {
    open spec fn spec_formatted(&self) -> Seq<char> {
        "userhost-in-names"@
    }

    fn fmt_capability(&self) -> (r: String) {
        str_to_string(UserhostInNames::capability_name())
    }
}

/// `sasl`
pub open spec fn sasl_bytes() -> Seq<u8> {
    seq![0x73u8, 0x61, 0x73, 0x6c]
}

/// `sasl=`
pub open spec fn sasl_eq_bytes() -> Seq<u8> {
    seq![0x73u8, 0x61, 0x73, 0x6c, 0x3d]
}

/// How SASL with the arguments `args` is written: `sasl`, or `sasl=` and
/// the arguments.
pub open spec fn sasl_wire(args: Seq<u8>) -> Seq<u8> {
    if args.len() == 0 {
        sasl_bytes()
    } else {
        sasl_eq_bytes() + args
    }
}

/// The mechanisms that SASL arguments list: none for no arguments, else
/// the arguments cut at each comma.
pub open spec fn sasl_protocols(args: Seq<u8>) -> Seq<Seq<u8>> {
    if args.len() == 0 {
        Seq::empty()
    } else {
        split_bytes(args, 0x2c)
    }
}

/// The `sasl` capability and the mechanisms it lists.
#[derive(Clone, Debug)]
pub struct Sasl {
    args: String,
}

impl Sasl {
    /// The arguments, as bytes.
    pub closed spec fn args(&self) -> Seq<u8> {
        encode_utf8(self.args@)
    }

    /// SASL with the arguments `args`.
    pub fn new(args: &str) -> (r: Sasl)
        ensures
            r.args() == args.spec_bytes(),
    {
        Sasl { args: str_to_string(args) }
    }

    /// The mechanisms listed, if any: the arguments cut at each comma, and
    /// none when there are no arguments.
    pub fn protocols(&self) -> (r: Vec<&str>)
        ensures
            r@.len() == sasl_protocols(self.args()).len(),
            forall|i: int| 0 <= i < r@.len() ==> (#[trigger] r@[i]).spec_bytes() == sasl_protocols(self.args())[i],
    {
        let bytes = string_bytes(&self.args);
        if bytes.len() == 0 {
            return Vec::new();
        }
        let pieces = split_slice(bytes, 0x2c);
        proof {
            lemma_split_text(bytes@, 0x2c);
        }
        let mut out: Vec<&str> = Vec::new();
        let mut i: usize = 0;
        while i < pieces.len()
            invariant
                0 <= i <= pieces@.len(),
                pieces@.len() == split_bytes(bytes@, 0x2c).len(),
                forall|k: int| 0 <= k < pieces@.len() ==> (#[trigger] pieces@[k])@ == split_bytes(bytes@, 0x2c)[k],
                forall|k: int| 0 <= k < split_bytes(bytes@, 0x2c).len() ==> valid_utf8(#[trigger] split_bytes(bytes@, 0x2c)[k]),
                out@.len() == i,
                forall|k: int| 0 <= k < i ==> (#[trigger] out@[k]).spec_bytes() == split_bytes(bytes@, 0x2c)[k],
            decreases pieces.len() - i,
        {
            proof {
                assert(valid_utf8(split_bytes(bytes@, 0x2c)[i as int]));
            }
            out.push(as_text(pieces[i]));
            i = i + 1;
        }
        out
    }
}

impl Capability for Sasl {
    open spec fn spec_name() -> Seq<char> {
        "sasl"@
    }

    open spec fn spec_serialized(&self) -> Seq<char> {
        decode_utf8(sasl_wire(self.args()))
    }

    open spec fn spec_parse(cap: Seq<u8>) -> Option<Seq<char>> {
        if cap == sasl_bytes() {
            Some(decode_utf8(sasl_bytes()))
        } else if cap.len() >= 5 && cap.take(5) == sasl_eq_bytes() && valid_utf8(cap.skip(5)) {
            Some(decode_utf8(sasl_wire(cap.skip(5))))
        } else {
            None
        }
    }

    fn capability_name() -> (r: &'static str) {
        "sasl"
    }

    fn serialize_capability(&self) -> (r: String) {
        self.fmt_capability()
    }

    fn parse_capability(cap: &[u8]) -> (r: Result<Sasl, ()>) {
        let name = vec_from_array([0x73u8, 0x61, 0x73, 0x6c]);
        if bytes_equal(cap, name.as_slice()) {
            let r = Sasl { args: String::new() };
            proof {
                assert(r.args() =~= Seq::<u8>::empty());
            }
            return Ok(r);
        }
        let prefix = vec_from_array([0x73u8, 0x61, 0x73, 0x6c, 0x3d]);
        if cap.len() >= 5 && bytes_equal(vstd::slice::slice_subrange(cap, 0, 5), prefix.as_slice()) {
            let rest = vstd::slice::slice_subrange(cap, 5, cap.len());
            proof {
                assert(rest@ =~= cap@.skip(5));
            }
            match str_from_utf8(rest) {
                Ok(args) => {
                    return Ok(Sasl { args: str_to_string(args) });
                },
                Err(_) => {
                    return Err(());
                },
            }
        }
        Err(())
    }
}

impl CapabilityFormat for Sasl {
    open spec fn spec_formatted(&self) -> Seq<char> {
        decode_utf8(sasl_wire(self.args()))
    }

    fn fmt_capability(&self) -> (r: String) {
        let args = string_bytes(&self.args);
        proof {
            encode_utf8_valid_utf8(self.args@);
        }
        if args.len() == 0 {
            let out = vec_from_array([0x73u8, 0x61, 0x73, 0x6c]);
            proof {
                lemma_ascii_utf8(out@);
            }
            into_text(out)
        } else {
            let mut out: Vec<u8> = vec_from_array([0x73u8, 0x61, 0x73, 0x6c, 0x3d]);
            proof {
                lemma_ascii_utf8(out@);
            }
            push_bytes(&mut out, args);
            proof {
                vstd::utf8::valid_utf8_concat(sasl_eq_bytes(), args@);
            }
            into_text(out)
        }
    }
}

/// Written SASL reads back as the same SASL.
pub proof fn lemma_sasl_round_trip(s: Sasl)
    ensures
        Sasl::spec_parse(encode_utf8(s.spec_serialized())) == Some(s.spec_serialized()),
{
    let a = s.args();
    encode_utf8_valid_utf8(s.args@);
    lemma_ascii_utf8(sasl_bytes());
    lemma_ascii_utf8(sasl_eq_bytes());
    vstd::utf8::valid_utf8_concat(sasl_eq_bytes(), a);
    let wire = sasl_wire(a);
    vstd::utf8::decode_utf8_encode_utf8(wire);
    if a.len() > 0 {
        assert(wire.len() > 4);
        assert(wire.take(5) =~= sasl_eq_bytes());
        assert(wire.skip(5) =~= a);
    }
}

/// The written form of the capability reads back as the same capability.
pub open spec fn reads_back<C: Capability>(c: C) -> bool {
    C::spec_parse(encode_utf8(c.spec_serialized())) == Some(c.spec_serialized())
}

/// A capability without arguments is written as its name, and that name
/// reads back as the capability.
pub open spec fn flag_reads_back<C: Capability>(c: C) -> bool {
    &&& c.spec_serialized() == C::spec_name()
    &&& reads_back(c)
}

/// Looking up a capability after setting it finds its written form, and
/// that form reads back as the capability set.
pub proof fn lemma_capability_get_after_set<C: Capability>(items: Seq<(Seq<char>, Seq<char>)>, c: C)
    requires
        reads_back(c),
    ensures
        ({
            let after = entries_set(items, C::spec_name(), c.spec_serialized());
            &&& first_match(after, C::spec_name()) matches Some(i)
            &&& C::spec_parse(encode_utf8(after[i].1)) == Some(c.spec_serialized())
        }),
{
    lemma_get_after_set(items, C::spec_name(), c.spec_serialized());
}

/// Written SASL reads back as the same SASL.
pub proof fn lemma_sasl_reads_back(s: Sasl)
    ensures
        reads_back(s),
{
    lemma_sasl_round_trip(s);
}

/// `MultiPrefix` is written as its name and reads back.
pub proof fn lemma_multi_prefix_reads_back(c: MultiPrefix)
    ensures
        flag_reads_back(c),
{
}

/// `ExtendedJoin` is written as its name and reads back.
pub proof fn lemma_extended_join_reads_back(c: ExtendedJoin)
    ensures
        flag_reads_back(c),
{
}

/// `AccountNotify` is written as its name and reads back.
pub proof fn lemma_account_notify_reads_back(c: AccountNotify)
    ensures
        flag_reads_back(c),
{
}

/// `Batch` is written as its name and reads back.
pub proof fn lemma_batch_reads_back(c: Batch)
    ensures
        flag_reads_back(c),
{
}

/// `InviteNotify` is written as its name and reads back.
pub proof fn lemma_invite_notify_reads_back(c: InviteNotify)
    ensures
        flag_reads_back(c),
{
}

/// `Tls` is written as its name and reads back.
pub proof fn lemma_tls_reads_back(c: Tls)
    ensures
        flag_reads_back(c),
{
}

/// `CapNotify` is written as its name and reads back.
pub proof fn lemma_cap_notify_reads_back(c: CapNotify)
    ensures
        flag_reads_back(c),
{
}

/// `ServerTime` is written as its name and reads back.
pub proof fn lemma_server_time_reads_back(c: ServerTime)
    ensures
        flag_reads_back(c),
{
}

/// `UserhostInNames` is written as its name and reads back.
pub proof fn lemma_userhost_in_names_reads_back(c: UserhostInNames)
    ensures
        flag_reads_back(c),
{
}

/// The capabilities announced, by name; names are compared without case.
#[derive(Debug)]
pub struct Capabilities {
    items: Vec<(String, String)>,
}

/// Two names match: they are the same, or equal without case.
pub open spec fn names_match(a: Seq<char>, b: Seq<char>) -> bool {
    a == b || unicase_equal(a, b)
}

/// No stored name matches a name stored after it.
pub open spec fn names_distinct(items: Seq<(Seq<char>, Seq<char>)>) -> bool {
    forall|i: int, j: int| 0 <= i < j < items.len() ==> !names_match(#[trigger] items[i].0, #[trigger] items[j].0)
}

/// The first entry at or after `k` whose name matches `name`.
pub open spec fn first_match_from(items: Seq<(Seq<char>, Seq<char>)>, name: Seq<char>, k: int) -> Option<int>
    decreases items.len() - k,
{
    if k < 0 || k >= items.len() {
        None
    } else if names_match(items[k].0, name) {
        Some(k)
    } else {
        first_match_from(items, name, k + 1)
    }
}

/// The first entry whose name matches `name`.
pub open spec fn first_match(items: Seq<(Seq<char>, Seq<char>)>, name: Seq<char>) -> Option<int> {
    first_match_from(items, name, 0)
}

proof fn lemma_first_match_from(items: Seq<(Seq<char>, Seq<char>)>, name: Seq<char>, k: int)
    requires
        0 <= k,
    ensures
        match first_match_from(items, name, k) {
            Some(i) => k <= i < items.len() && names_match(items[i].0, name) && forall|j: int|
                k <= j < i ==> !names_match(#[trigger] items[j].0, name),
            None => forall|j: int| k <= j < items.len() ==> !names_match(#[trigger] items[j].0, name),
        },
    decreases items.len() - k,
{
    if k < items.len() && !names_match(items[k].0, name) {
        lemma_first_match_from(items, name, k + 1);
    }
}

/// The entries after setting `name` to `value`: the first matching entry
/// takes the value and keeps its name; with no matching entry, the entry is
/// added at the end.
pub open spec fn entries_set(items: Seq<(Seq<char>, Seq<char>)>, name: Seq<char>, value: Seq<char>) -> Seq<(Seq<char>, Seq<char>)> {
    match first_match(items, name) {
        Some(i) => items.update(i, (items[i].0, value)),
        None => items.push((name, value)),
    }
}

proof fn lemma_first_match_at(items: Seq<(Seq<char>, Seq<char>)>, name: Seq<char>, i: int)
    requires
        0 <= i < items.len(),
        names_match(items[i].0, name),
        forall|j: int| 0 <= j < i ==> !names_match(#[trigger] items[j].0, name),
    ensures
        first_match(items, name) == Some(i),
{
    lemma_first_match_from(items, name, 0);
}

proof fn lemma_no_match(items: Seq<(Seq<char>, Seq<char>)>, name: Seq<char>)
    requires
        forall|j: int| 0 <= j < items.len() ==> !names_match(#[trigger] items[j].0, name),
    ensures
        first_match(items, name) is None,
{
    lemma_first_match_from(items, name, 0);
}

/// After a name is set, looking it up finds the value set.
pub proof fn lemma_get_after_set(items: Seq<(Seq<char>, Seq<char>)>, name: Seq<char>, value: Seq<char>)
    ensures
        first_match(entries_set(items, name, value), name) matches Some(i) && entries_set(
            items,
            name,
            value,
        )[i].1 == value,
{
    let after = entries_set(items, name, value);
    lemma_first_match_from(items, name, 0);
    match first_match(items, name) {
        Some(i) => {
            lemma_first_match_at(items, name, i);
            assert forall|j: int| 0 <= j < i implies !names_match(#[trigger] after[j].0, name) by {
                assert(after[j] == items[j]);
            }
            lemma_first_match_at(after, name, i);
        },
        None => {
            assert forall|j: int| 0 <= j < items.len() implies !names_match(#[trigger] after[j].0, name) by {
                assert(after[j] == items[j]);
            }
            lemma_first_match_at(after, name, items.len() as int);
        },
    }
}

impl View for Capabilities {
    type V = Seq<(Seq<char>, Seq<char>)>;

    closed spec fn view(&self) -> Seq<(Seq<char>, Seq<char>)> {
        self.items@.map_values(|p: (String, String)| (p.0@, p.1@))
    }
}

impl Capabilities {
    #[verifier::type_invariant]
    closed spec fn inv(self) -> bool {
        names_distinct(self@)
    }

    pub fn new() -> (r: Capabilities)
        ensures
            r@ == Seq::<(Seq<char>, Seq<char>)>::empty(),
            names_distinct(r@),
    {
        let r = Capabilities { items: Vec::new() };
        proof {
            assert(r@ =~= Seq::<(Seq<char>, Seq<char>)>::empty());
        }
        r
    }

    /// The index of the first entry whose name matches `name`.
    fn find(&self, name: &str) -> (r: Option<usize>)
        ensures
            self@.len() == self.items@.len(),
            match r {
                Some(i) => first_match(self@, name@) == Some(i as int) && i < self@.len(),
                None => first_match(self@, name@) is None,
            },
    {
        let mut i: usize = 0;
        while i < self.items.len()
            invariant
                0 <= i <= self.items@.len(),
                forall|j: int| 0 <= j < i ==> !names_match(#[trigger] self@[j].0, name@),
            decreases self.items.len() - i,
        {
            proof {
                assert(self@[i as int] == (self.items@[i as int].0@, self.items@[i as int].1@));
            }
            if unicase_eq(self.items[i].0.as_str(), name) {
                proof {
                    lemma_first_match_at(self@, name@, i as int);
                }
                return Some(i);
            }
            i = i + 1;
        }
        proof {
            lemma_no_match(self@, name@);
        }
        None
    }

    /// Sets a capability under its name.
    pub fn set<C: Capability>(&mut self, value: C)
        ensures
            final(self)@ == entries_set(old(self)@, C::spec_name(), value.spec_serialized()),
            names_distinct(final(self)@),
    {
        proof {
            use_type_invariant(&*self);
        }
        let key = C::capability_name();
        let item = value.serialize_capability();
        let ghost old_view = self@;
        let found = self.find(key);
        let mut items: Vec<(String, String)> = Vec::new();
        std::mem::swap(&mut items, &mut self.items);
        let ghost before = items@;
        proof {
            assert(old_view == before.map_values(|p: (String, String)| (p.0@, p.1@)));
        }
        match found {
            Some(i) => {
                let name = items[i].0.clone();
                items.set(i, (name, item));
                proof {
                    assert(items@.map_values(|p: (String, String)| (p.0@, p.1@)) =~= old_view.update(i as int, (old_view[i as int].0, item@)));
                }
            },
            None => {
                items.push((str_to_string(key), item));
                proof {
                    assert(items@.map_values(|p: (String, String)| (p.0@, p.1@)) =~= old_view.push((key@, item@)));
                    lemma_first_match_from(old_view, key@, 0);
                }
            },
        }
        self.items = items;
    }

    /// The capability set under its name, if any, read back from its
    /// written form.
    pub fn get<C: Capability>(&self) -> (r: Option<C>)
        ensures
            match first_match(self@, C::spec_name()) {
                Some(i) => match C::spec_parse(encode_utf8(self@[i].1)) {
                    Some(t) => r matches Some(c) && c.spec_serialized() == t,
                    None => r is None,
                },
                None => r is None,
            },
    {
        let key = C::capability_name();
        match self.find(key) {
            Some(i) => {
                proof {
                    assert(self@[i as int] == (self.items@[i as int].0@, self.items@[i as int].1@));
                }
                match C::parse_capability(string_bytes(&self.items[i].1)) {
                    Ok(c) => Some(c),
                    Err(()) => None,
                }
            },
            None => None,
        }
    }

    /// The written forms of all capabilities.
    pub fn iter_raw(&self) -> (r: Vec<&str>)
        ensures
            r@.len() == self@.len(),
            forall|i: int| 0 <= i < r@.len() ==> (#[trigger] r@[i])@ == self@[i].1,
    {
        let mut out: Vec<&str> = Vec::new();
        let mut i: usize = 0;
        while i < self.items.len()
            invariant
                0 <= i <= self.items@.len(),
                out@.len() == i,
                forall|k: int| 0 <= k < i ==> (#[trigger] out@[k])@ == self@[k].1,
            decreases self.items.len() - i,
        {
            proof {
                assert(self@[i as int] == (self.items@[i as int].0@, self.items@[i as int].1@));
            }
            out.push(self.items[i].1.as_str());
            i = i + 1;
        }
        out
    }
}

} // verus!
