//! The IRC line grammar as a byte-at-a-time state machine, in spec form.
//!
//! RFC 2812 2.3: a message is an optional `:prefix`, a command and its
//! parameters, separated by one or more spaces; a parameter that starts with
//! `:` takes the rest of the line.

use vstd::prelude::*;

verus! {

/// At most this many parameters are kept; one more is an error.
pub const IRCMSG_MAX_ARGS: usize = 20;

pub const SPACE: u8 = 0x20;
pub const COLON: u8 = 0x3a;
pub const LF: u8 = 0x0a;
pub const CR: u8 = 0x0d;

/// Where the parser stands in the line.
#[derive(Copy, Clone, PartialEq, Eq, Debug, Structural)]
pub enum IrcParserState {
    Initial,
    Prefix,
    CommandStart,
    Command,
    ArgStart,
    Arg,
    RestArg,
    ArgOverflow,
    EndOfLine,
}

/// The parser's bookkeeping after some bytes: offsets of the prefix, the
/// command, the finished parameters and the parameter in progress.
pub struct ParserModel {
    pub byte_idx: int,
    pub prefix_start: int,
    pub prefix_end: int,
    pub command_start: int,
    pub command_end: int,
    pub arg_start: int,
    pub args: Seq<(int, int)>,
    pub state: IrcParserState,
}

pub open spec fn parser_init() -> ParserModel {
    ParserModel {
        byte_idx: 0,
        prefix_start: 0,
        prefix_end: 0,
        command_start: 0,
        command_end: 0,
        arg_start: 0,
        args: Seq::empty(),
        state: IrcParserState::Initial,
    }
}

/// Closes the parameter in progress and moves to `next`, unless the table of
/// parameters is full, which is an overflow.
pub open spec fn parser_finalize(m: ParserModel, next: IrcParserState) -> ParserModel {
    if m.args.len() >= IRCMSG_MAX_ARGS {
        ParserModel { state: IrcParserState::ArgOverflow, ..m }
    } else {
        ParserModel {
            args: m.args.push((m.arg_start, m.byte_idx)),
            arg_start: 0,
            state: next,
            ..m
        }
    }
}

/// One byte of input.
pub open spec fn parser_step(m: ParserModel, b: u8) -> ParserModel {
    let n = match m.state {
        IrcParserState::Initial => if b == SPACE {
            m
        } else if b == COLON {
            ParserModel { prefix_start: m.byte_idx + 1, state: IrcParserState::Prefix, ..m }
        } else {
            ParserModel { command_start: m.byte_idx, state: IrcParserState::Command, ..m }
        },
        IrcParserState::Prefix => if b == SPACE {
            ParserModel { prefix_end: m.byte_idx, state: IrcParserState::CommandStart, ..m }
        } else {
            m
        },
        IrcParserState::CommandStart => if b == SPACE {
            m
        } else {
            ParserModel { command_start: m.byte_idx, state: IrcParserState::Command, ..m }
        },
        IrcParserState::Command => if b == SPACE {
            ParserModel { command_end: m.byte_idx, state: IrcParserState::ArgStart, ..m }
        } else {
            m
        },
        IrcParserState::ArgStart => if b == SPACE {
            m
        } else if b == COLON {
            ParserModel { arg_start: m.byte_idx + 1, state: IrcParserState::RestArg, ..m }
        } else {
            ParserModel { arg_start: m.byte_idx, state: IrcParserState::Arg, ..m }
        },
        IrcParserState::Arg => if b == SPACE {
            parser_finalize(m, IrcParserState::ArgStart)
        } else if b == LF {
            parser_finalize(m, IrcParserState::EndOfLine)
        } else {
            m
        },
        IrcParserState::RestArg => if b == LF {
            parser_finalize(m, IrcParserState::EndOfLine)
        } else {
            m
        },
        IrcParserState::ArgOverflow => m,
        IrcParserState::EndOfLine => m,
    };
    ParserModel { byte_idx: m.byte_idx + 1, ..n }
}

/// The parser after feeding it `s`, starting from `m`.
pub open spec fn parser_run_from(m: ParserModel, s: Seq<u8>) -> ParserModel
    decreases s.len(),
{
    if s.len() == 0 {
        m
    } else {
        parser_step(parser_run_from(m, s.drop_last()), s.last())
    }
}

/// The parser after feeding it `s` from the start.
pub open spec fn parser_run(s: Seq<u8>) -> ParserModel {
    parser_run_from(parser_init(), s)
}

/// The parameters once the line has ended: a parameter still in progress
/// is closed at the end of the input.
pub open spec fn finished_args(m: ParserModel) -> Seq<(int, int)> {
    if m.state == IrcParserState::Arg || m.state == IrcParserState::RestArg {
        m.args.push((m.arg_start, m.byte_idx))
    } else {
        m.args
    }
}

/// The line ended before the command was complete.
pub open spec fn is_truncated_state(st: IrcParserState) -> bool {
    st == IrcParserState::Initial || st == IrcParserState::Prefix || st
        == IrcParserState::CommandStart || st == IrcParserState::Command
}

/// A parameter still open at the end of the line that no longer fits in
/// the table of parameters.
pub open spec fn overflows_at_end(m: ParserModel) -> bool {
    (m.state == IrcParserState::Arg || m.state == IrcParserState::RestArg) && m.args.len()
        >= IRCMSG_MAX_ARGS
}

/// Inputs on which closing the line goes wrong: a complete command without
/// any parameter.
pub open spec fn parse_faults(s: Seq<u8>) -> bool {
    let m = parser_run(s);
    &&& !is_truncated_state(m.state)
    &&& m.state != IrcParserState::ArgOverflow
    &&& !overflows_at_end(m)
    &&& finished_args(m).len() == 0
}

/// A parsed message: the kept bytes and the offsets of its parts.
pub struct IrcMsgView {
    pub data: Seq<u8>,
    pub prefix: (int, int),
    pub command: (int, int),
    pub args: Seq<(int, int)>,
}

/// Why a line is refused.
pub enum ParseOutcome {
    TooShort,
    TooManyArguments,
    Parsed(IrcMsgView),
}

/// The result of parsing `s`: the line is cut after its last parameter, and
/// a carriage return at the end of that parameter is dropped.
pub open spec fn spec_parse(s: Seq<u8>) -> ParseOutcome {
    let m = parser_run(s);
    if is_truncated_state(m.state) {
        ParseOutcome::TooShort
    } else if m.state == IrcParserState::ArgOverflow || overflows_at_end(m) {
        ParseOutcome::TooManyArguments
    } else {
        let args = finished_args(m);
        let last = args.last();
        let end = if s[last.1 - 1] == CR {
            last.1 - 1
        } else {
            last.1
        };
        ParseOutcome::Parsed(
            IrcMsgView {
                data: s.take(end),
                prefix: (m.prefix_start, m.prefix_end),
                command: (m.command_start, m.command_end),
                args: args.update(args.len() - 1, (last.0, end)),
            },
        )
    }
}

/// The offsets of a message lie inside its bytes, in order.
pub open spec fn view_ranges_ok(v: IrcMsgView) -> bool {
    &&& 0 <= v.prefix.0 <= v.prefix.1 <= v.command.0 <= v.command.1 <= v.data.len()
    &&& 1 <= v.args.len() <= IRCMSG_MAX_ARGS
    &&& forall|i: int|
        0 <= i < v.args.len() ==> v.command.1 < (#[trigger] v.args[i]).0 <= v.args[i].1
            <= v.data.len()
}

/// What the parser knows about its offsets after reading `s`.
pub open spec fn run_inv(s: Seq<u8>, m: ParserModel) -> bool {
    &&& m.byte_idx == s.len()
    &&& m.args.len() <= IRCMSG_MAX_ARGS
    &&& match m.state {
        IrcParserState::Initial => m.prefix_start == 0 && m.prefix_end == 0 && m.command_start == 0
            && m.command_end == 0 && m.args.len() == 0,
        IrcParserState::Prefix => 1 <= m.prefix_start <= m.byte_idx && m.prefix_end == 0
            && m.command_start == 0 && m.command_end == 0 && m.args.len() == 0,
        IrcParserState::CommandStart => 0 <= m.prefix_start <= m.prefix_end < m.byte_idx
            && m.command_start == 0 && m.command_end == 0 && m.args.len() == 0,
        IrcParserState::Command => 0 <= m.prefix_start <= m.prefix_end <= m.command_start
            < m.byte_idx && m.args.len() == 0,
        _ => 0 <= m.prefix_start <= m.prefix_end <= m.command_start <= m.command_end
            < m.byte_idx,
    }
    &&& forall|i: int|
        0 <= i < m.args.len() ==> m.command_end < (#[trigger] m.args[i]).0 <= m.args[i].1
            < m.byte_idx
    &&& forall|i: int, j: int| 0 <= i < j < m.args.len() ==> m.args[i].1 < m.args[j].0
    &&& forall|i: int|
        0 <= i < m.args.len() && (#[trigger] m.args[i]).0 == m.args[i].1 ==> s[m.args[i].0 - 1]
            == COLON
    &&& (m.state == IrcParserState::Arg || m.state == IrcParserState::RestArg) ==> {
        &&& m.command_end < m.arg_start <= m.byte_idx
        &&& forall|i: int| 0 <= i < m.args.len() ==> (#[trigger] m.args[i]).1 < m.arg_start
    }
    &&& m.state == IrcParserState::RestArg ==> s[m.arg_start - 1] == COLON
    &&& m.state == IrcParserState::Arg ==> m.arg_start < m.byte_idx
}

pub proof fn lemma_step_inv(s: Seq<u8>, m: ParserModel, b: u8)
    requires
        run_inv(s, m),
    ensures
        run_inv(s.push(b), parser_step(m, b)),
{
    let t = s.push(b);
    let n = parser_step(m, b);
    assert(t.len() == s.len() + 1);
    assert forall|i: int| 0 <= i < s.len() implies t[i] == s[i] by {}
    assert(n.args.len() <= IRCMSG_MAX_ARGS);
}

pub proof fn lemma_run_inv(s: Seq<u8>)
    ensures
        run_inv(s, parser_run(s)),
    decreases s.len(),
{
    if s.len() > 0 {
        lemma_run_inv(s.drop_last());
        lemma_step_inv(s.drop_last(), parser_run(s.drop_last()), s.last());
        assert(s.drop_last().push(s.last()) =~= s);
    }
}

/// A successful parse keeps a prefix of the input, and every offset lies
/// inside the kept bytes.
pub proof fn lemma_parse_ranges(s: Seq<u8>)
    requires
        !parse_faults(s),
        spec_parse(s) is Parsed,
    ensures
        view_ranges_ok(spec_parse(s)->Parsed_0),
        (spec_parse(s)->Parsed_0).data == s.take((spec_parse(s)->Parsed_0).data.len() as int),
        (spec_parse(s)->Parsed_0).data.len() <= s.len(),
        (spec_parse(s)->Parsed_0).data.len() == (spec_parse(s)->Parsed_0).args.last().1,
        forall|i: int, j: int|
            0 <= i < j < (spec_parse(s)->Parsed_0).args.len() ==> (#[trigger] (spec_parse(
                s,
            )->Parsed_0).args[i]).1 < (#[trigger] (spec_parse(s)->Parsed_0).args[j]).0,
{
    let m = parser_run(s);
    lemma_run_inv(s);
    let args = finished_args(m);
    let last = args.last();
    let v = spec_parse(s)->Parsed_0;
    assert(args.len() >= 1);
    assert(last.1 >= 1);
    if m.state == IrcParserState::Arg || m.state == IrcParserState::RestArg {
        assert(args[args.len() - 1] == (m.arg_start, m.byte_idx));
        if s[last.1 - 1] == CR && m.state == IrcParserState::RestArg {
            assert(m.arg_start < m.byte_idx);
        }
    } else {
        assert(args[args.len() - 1] == m.args[m.args.len() - 1]);
    }
    assert(last.0 <= v.data.len());
    assert forall|i: int, j: int| 0 <= i < j < v.args.len() implies (#[trigger] v.args[i]).1 < (
    #[trigger] v.args[j]).0 by {
        assert(v.args[i] == args[i]);
        assert(v.args[j].0 == args[j].0);
        if m.state == IrcParserState::Arg || m.state == IrcParserState::RestArg {
            assert(args[i] == m.args[i]);
            if j < m.args.len() {
                assert(args[j] == m.args[j]);
            }
        } else {
            assert(args[i] == m.args[i]);
            assert(args[j] == m.args[j]);
        }
    }
    assert forall|i: int| 0 <= i < v.args.len() implies v.command.1 < (#[trigger] v.args[i]).0
        <= v.args[i].1 <= v.data.len() by {
        if i < args.len() - 1 {
            if m.state == IrcParserState::Arg || m.state == IrcParserState::RestArg {
                assert(args[i] == m.args[i]);
            } else {
                assert(m.args[i].1 < m.args[m.args.len() - 1].0);
            }
        }
    }
}

} // verus!
