//! Chat lines typed by the player: commands start with `/`.
use vstd::prelude::*;

verus! {

/// What a chat line asks for; the argument is the rest of the line after
/// the command word, untrimmed.
#[derive(Clone, Copy, PartialEq, Eq, Debug)]
pub enum TextCommand<'a> {
    /// `/join <address>`: join a session.
    Join(&'a str),
    /// `/new <seed>`: start a new world (only the host may).
    New(&'a str),
    /// `/host <port>`: host a session.
    Host(&'a str),
    /// A `/` line that is no command this player may use.
    Ignore,
    /// Any other line: a chat message.
    Say,
}

/// `b` starts with the bytes `p`.
pub open spec fn has_prefix(b: Seq<u8>, p: Seq<u8>) -> bool {
    p.len() <= b.len() && b.subrange(0, p.len() as int) == p
}

/// `/join`
pub open spec fn join_word() -> Seq<u8> {
    seq![0x2fu8, 0x6au8, 0x6fu8, 0x69u8, 0x6eu8]
}

/// `/new`
pub open spec fn new_word() -> Seq<u8> {
    seq![0x2fu8, 0x6eu8, 0x65u8, 0x77u8]
}

/// `/host`
pub open spec fn host_word() -> Seq<u8> {
    seq![0x2fu8, 0x68u8, 0x6fu8, 0x73u8, 0x74u8]
}

/// `/`
pub open spec fn slash_word() -> Seq<u8> {
    seq![0x2fu8]
}

/// The kinds of chat line.
pub enum CommandKind {
    Join,
    New,
    Host,
    Ignore,
    Say,
}

/// The command a line with bytes `b` asks for, with the byte offset at which
/// its argument starts.
pub open spec fn spec_command(b: Seq<u8>, is_host: bool) -> (CommandKind, int) {
    if !has_prefix(b, slash_word()) {
        (CommandKind::Say, 0)
    } else if has_prefix(b, join_word()) {
        (CommandKind::Join, 5)
    } else if has_prefix(b, new_word()) && is_host {
        (CommandKind::New, 4)
    } else if has_prefix(b, host_word()) {
        (CommandKind::Host, 5)
    } else {
        (CommandKind::Ignore, 0)
    }
}

/// The bytes `b` start with the bytes of `p`.
fn starts_with(b: &[u8], p: &[u8]) -> (r: bool)
    ensures
        r == has_prefix(b@, p@),
{
    if p.len() > b.len() {
        return false;
    }
    let mut i: usize = 0;
    while i < p.len()
        invariant
            p@.len() <= b@.len(),
            i <= p@.len(),
            forall|j: int| 0 <= j < i ==> b@[j] == p@[j],
        decreases p@.len() - i,
    {
        if b[i] != p[i] {
            assert(b@.subrange(0, p@.len() as int)[i as int] != p@[i as int]);
            return false;
        }
        i = i + 1;
    }
    assert(b@.subrange(0, p@.len() as int) =~= p@);
    true
}

/// In valid UTF-8, the end of a run of ASCII bytes at the start is a
/// character boundary.
proof fn lemma_ascii_prefix_boundary(b: Seq<u8>, n: int)
    requires
        vstd::utf8::valid_utf8(b),
        0 <= n <= b.len(),
        forall|i: int| 0 <= i < n ==> b[i] <= 0x7f,
    ensures
        vstd::utf8::is_char_boundary(b, n),
    decreases n,
{
    if n > 0 {
        assert(vstd::utf8::is_leading_byte_width_1(b[0]));
        assert(vstd::utf8::length_of_first_scalar(b) == 1);
        let rest = vstd::utf8::pop_first_scalar(b);
        assert(rest =~= b.subrange(1, b.len() as int));
        lemma_ascii_prefix_boundary(rest, n - 1);
    }
}

/// Reads a chat line: `/join`, `/new` (for the host only) and `/host`
/// commands, in that order of precedence, carry the rest of the line as
/// their argument; other `/` lines are ignored and any other line is a
/// message.
pub fn parse_text(msg: &str, is_host: bool) -> (c: TextCommand<'_>)
    ensures
        ({
            let b = vstd::string::StringSliceAdditionalSpecFns::spec_bytes(msg);
            let (kind, at) = spec_command(b, is_host);
            &&& kind is Join <==> c is Join
            &&& kind is New <==> c is New
            &&& kind is Host <==> c is Host
            &&& kind is Ignore <==> c is Ignore
            &&& kind is Say <==> c is Say
            &&& c matches TextCommand::Join(a) ==> vstd::string::StringSliceAdditionalSpecFns::spec_bytes(a) == b.subrange(at, b.len() as int)
            &&& c matches TextCommand::New(a) ==> vstd::string::StringSliceAdditionalSpecFns::spec_bytes(a) == b.subrange(at, b.len() as int)
            &&& c matches TextCommand::Host(a) ==> vstd::string::StringSliceAdditionalSpecFns::spec_bytes(a) == b.subrange(at, b.len() as int)
        }),
{
    let b = msg.as_bytes();
    let ghost bytes = b@;
    proof {
        vstd::utf8::encode_utf8_valid_utf8(msg@);
    }
    let slash: [u8; 1] = [0x2f];
    let join: [u8; 5] = [0x2f, 0x6a, 0x6f, 0x69, 0x6e];
    let new: [u8; 4] = [0x2f, 0x6e, 0x65, 0x77];
    let host: [u8; 5] = [0x2f, 0x68, 0x6f, 0x73, 0x74];
    proof {
        assert(slash@ =~= slash_word());
        assert(join@ =~= join_word());
        assert(new@ =~= new_word());
        assert(host@ =~= host_word());
    }
    if !starts_with(b, slash.as_slice()) {
        return TextCommand::Say;
    }
    if starts_with(b, join.as_slice()) {
        proof {
            assert forall|i: int| 0 <= i < 5 implies bytes[i] <= 0x7f by {
                assert(bytes.subrange(0, 5)[i] == join_word()[i]);
            }
            lemma_ascii_prefix_boundary(bytes, 5);
        }
        let (_, rest) = msg.split_at(5);
        return TextCommand::Join(rest);
    }
    if is_host && starts_with(b, new.as_slice()) {
        proof {
            assert forall|i: int| 0 <= i < 4 implies bytes[i] <= 0x7f by {
                assert(bytes.subrange(0, 4)[i] == new_word()[i]);
            }
            lemma_ascii_prefix_boundary(bytes, 4);
        }
        let (_, rest) = msg.split_at(4);
        return TextCommand::New(rest);
    }
    if starts_with(b, host.as_slice()) {
        proof {
            assert forall|i: int| 0 <= i < 5 implies bytes[i] <= 0x7f by {
                assert(bytes.subrange(0, 5)[i] == host_word()[i]);
            }
            lemma_ascii_prefix_boundary(bytes, 5);
        }
        let (_, rest) = msg.split_at(5);
        return TextCommand::Host(rest);
    }
    TextCommand::Ignore
}

/// The port a hosted session listens on unless told otherwise.
pub const DEFAULT_PORT: u16 = 5463;

/// A character with the Unicode `White_Space` property.
pub open spec fn is_white_space(c: char) -> bool {
    let u = c as u32;
    ||| 0x9 <= u <= 0xd
    ||| u == 0x20
    ||| u == 0x85
    ||| u == 0xa0
    ||| u == 0x1680
    ||| 0x2000 <= u <= 0x200a
    ||| u == 0x2028
    ||| u == 0x2029
    ||| u == 0x202f
    ||| u == 0x205f
    ||| u == 0x3000
}

/// `s` without its leading whitespace.
pub open spec fn trim_start_ws(s: Seq<char>) -> Seq<char>
    decreases s.len(),
{
    if s.len() > 0 && is_white_space(s[0]) {
        trim_start_ws(s.drop_first())
    } else {
        s
    }
}

/// `s` without its trailing whitespace.
pub open spec fn trim_end_ws(s: Seq<char>) -> Seq<char>
    decreases s.len(),
{
    if s.len() > 0 && is_white_space(s.last()) {
        trim_end_ws(s.drop_last())
    } else {
        s
    }
}

/// What `str::trim` returns for a string: it without its leading and
/// trailing whitespace.
pub open spec fn trimmed(s: Seq<char>) -> Seq<char> {
    trim_end_ws(trim_start_ws(s))
}

/// The value of a string of decimal digits.
pub open spec fn decimal_value(s: Seq<char>) -> int
    decreases s.len(),
{
    if s.len() == 0 {
        0
    } else {
        decimal_value(s.drop_last()) * 10 + ((s.last() as u32) - 0x30)
    }
}

/// The value of an unsigned decimal number as `str::parse` reads it: an
/// optional `+` sign followed by one or more ASCII digits, and nothing else.
pub open spec fn unsigned_decimal(s: Seq<char>) -> Option<int> {
    let t = if s.len() > 0 && s[0] == '+' {
        s.drop_first()
    } else {
        s
    };
    if t.len() > 0 && forall|i: int| 0 <= i < t.len() ==> '0' <= #[trigger] t[i] <= '9' {
        Some(decimal_value(t))
    } else {
        None
    }
}

/// What `str::parse::<u16>` gives for a string, `None` for an error: the
/// number, if the string is one and it fits.
pub open spec fn parsed_u16(s: Seq<char>) -> Option<u16> {
    match unsigned_decimal(s) {
        Some(v) => if v <= u16::MAX {
            Some(v as u16)
        } else {
            None
        },
        None => None,
    }
}

/// What `str::parse::<usize>` gives for a string, `None` for an error: the
/// number, if the string is one and it fits.
pub open spec fn parsed_usize(s: Seq<char>) -> Option<usize> {
    match unsigned_decimal(s) {
        Some(v) => if v <= usize::MAX {
            Some(v as usize)
        } else {
            None
        },
        None => None,
    }
}

/// Calls `str::trim`, which removes the leading and trailing characters
/// with the Unicode `White_Space` property.
#[verifier::external_body]
fn trim_str(s: &str) -> (t: &str)
    ensures
        t@ == trimmed(s@),
{
    s.trim()
}

/// Calls `str::parse::<u16>` and keeps the value, if any: std reads an
/// optional `+` followed by decimal digits only, and fails on anything else
/// or on a value above `u16::MAX`.
#[verifier::external_body]
fn parse_u16(s: &str) -> (r: Option<u16>)
    ensures
        r == parsed_u16(s@),
{
    s.parse::<u16>().ok()
}

/// Calls `str::parse::<usize>` and keeps the value, if any: std reads an
/// optional `+` followed by decimal digits only, and fails on anything else
/// or on a value above `usize::MAX`.
#[verifier::external_body]
fn parse_usize(s: &str) -> (r: Option<usize>)
    ensures
        r == parsed_usize(s@),
{
    s.parse::<usize>().ok()
}

/// The port to host on for a parsed `/host` argument: the port given, or
/// [`DEFAULT_PORT`] when none could be read.
pub fn port_or_default(parsed: Option<u16>) -> (p: u16)
    ensures
        p == match parsed {
            Some(v) => v,
            None => DEFAULT_PORT,
        },
{
    match parsed {
        Some(v) => v,
        None => DEFAULT_PORT,
    }
}

/// The port a `/host` argument asks for: the argument, trimmed, read as a
/// port, or [`DEFAULT_PORT`] when it is not one.
pub fn host_port(arg: &str) -> (p: u16)
    ensures
        p == match parsed_u16(trimmed(arg@)) {
            Some(v) => v,
            None => DEFAULT_PORT,
        },
{
    let t = trim_str(arg);
    port_or_default(parse_u16(t))
}

/// The world seed a `/new` argument asks for, if the argument, trimmed,
/// reads as one.
pub fn seed_arg(arg: &str) -> (r: Option<usize>)
    ensures
        r == parsed_usize(trimmed(arg@)),
{
    let t = trim_str(arg);
    parse_usize(t)
}

/// A line starting with `/join` joins, whoever types it, with the rest of
/// the line as the address; one starting with `/host` hosts, with the rest
/// as the port; `/new` starts a new world only for the host, and is
/// ignored for anyone else; a line not starting with `/` is a message.
pub proof fn lemma_command_words(b: Seq<u8>, is_host: bool)
    ensures
        b.len() >= 5 && b[0] == 0x2f && b[1] == 0x6a && b[2] == 0x6f && b[3] == 0x69 && b[4] == 0x6e
            ==> spec_command(b, is_host) == (CommandKind::Join, 5int),
        b.len() >= 5 && b[0] == 0x2f && b[1] == 0x68 && b[2] == 0x6f && b[3] == 0x73 && b[4] == 0x74
            ==> spec_command(b, is_host) == (CommandKind::Host, 5int),
        b.len() >= 4 && b[0] == 0x2f && b[1] == 0x6e && b[2] == 0x65 && b[3] == 0x77
            ==> spec_command(b, is_host) == if is_host {
            (CommandKind::New, 4int)
        } else {
            (CommandKind::Ignore, 0int)
        },
        b.len() == 0 || b[0] != 0x2f ==> spec_command(b, is_host) == (CommandKind::Say, 0int),
        b.len() >= 1 && b[0] == 0x2f ==> !(spec_command(b, is_host).0 is Say),
{
    if b.len() >= 1 {
        if b[0] == 0x2f {
            assert(b.subrange(0, 1) =~= slash_word());
        } else {
            assert(b.subrange(0, 1)[0] != slash_word()[0]);
        }
    }
    if b.len() >= 5 && b[0] == 0x2f && b[1] == 0x6a && b[2] == 0x6f && b[3] == 0x69 && b[4] == 0x6e {
        assert(b.subrange(0, 5) =~= join_word());
    }
    if b.len() >= 5 && b[0] == 0x2f && b[1] == 0x68 && b[2] == 0x6f && b[3] == 0x73 && b[4] == 0x74 {
        assert(b.subrange(0, 5) =~= host_word());
        assert(b.subrange(0, 5)[1] != join_word()[1]);
        if b.len() >= 4 {
            assert(b.subrange(0, 4)[1] != new_word()[1]);
        }
    }
    if b.len() >= 4 && b[0] == 0x2f && b[1] == 0x6e && b[2] == 0x65 && b[3] == 0x77 {
        assert(b.subrange(0, 4) =~= new_word());
        if b.len() >= 5 {
            assert(b.subrange(0, 5)[1] != join_word()[1]);
            assert(b.subrange(0, 5)[1] != host_word()[1]);
        }
    }
}

} // verus!
