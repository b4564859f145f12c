//! Client side of the state machine: parsing the local command line into
//! protocol values, and the decisions each state takes on one local line or
//! one server reply. The surrounding loop — reading standard input, writing
//! to the socket, draining server frames — is I/O and lives with the caller.
//!
//! A command line is trimmed of surrounding whitespace and split on single
//! spaces: `join` takes the following token as the name (nothing following is
//! a rejected command), `send` takes the rest of the line trimmed, `leave`
//! takes nothing, and anything else is rejected.

use vstd::prelude::*;
use vstd::string::{StrSliceExecFns, StringExecFns};

use crate::codec::str_eq;
use crate::msg::{ChatState, ClientMsgV, FromClient, FromServer, ServerMsgV};

verus! {

/// The characters `str::trim` strips: Unicode whitespace.
pub open spec fn is_ws(c: char) -> bool {
    c == ' ' || c == '\t' || c == '\n' || c == '\u{0b}' || c == '\u{0c}' || c == '\r' || c
        == '\u{85}' || c == '\u{a0}' || c == '\u{1680}' || c == '\u{2000}' || c == '\u{2001}' || c
        == '\u{2002}' || c == '\u{2003}' || c == '\u{2004}' || c == '\u{2005}' || c == '\u{2006}'
        || c == '\u{2007}' || c == '\u{2008}' || c == '\u{2009}' || c == '\u{200a}' || c
        == '\u{2028}' || c == '\u{2029}' || c == '\u{202f}' || c == '\u{205f}' || c == '\u{3000}'
}

/// `s` with leading whitespace removed.
pub open spec fn trim_front(s: Seq<char>) -> Seq<char>
    decreases s.len(),
{
    if s.len() > 0 && is_ws(s[0]) {
        trim_front(s.skip(1))
    } else {
        s
    }
}

/// `s` with trailing whitespace removed.
pub open spec fn trim_back(s: Seq<char>) -> Seq<char>
    decreases s.len(),
{
    if s.len() > 0 && is_ws(s[s.len() - 1]) {
        trim_back(s.take(s.len() - 1))
    } else {
        s
    }
}

/// `s` with whitespace removed from both ends, as `str::trim` leaves it.
pub open spec fn spec_trim(s: Seq<char>) -> Seq<char> {
    trim_back(trim_front(s))
}

/// The part of `s` before its first space (all of `s` if it has none).
pub open spec fn head_token(s: Seq<char>) -> Seq<char>
    decreases s.len(),
{
    if s.len() == 0 {
        Seq::empty()
    } else if s[0] == ' ' {
        Seq::empty()
    } else {
        seq![s[0]] + head_token(s.skip(1))
    }
}

/// What follows the first space of `s`, if `s` has one.
pub open spec fn after_first_space(s: Seq<char>) -> Option<Seq<char>>
    decreases s.len(),
{
    if s.len() == 0 {
        None
    } else if s[0] == ' ' {
        Some(s.skip(1))
    } else {
        after_first_space(s.skip(1))
    }
}

/// What a command line means. The first space-delimited token of the trimmed
/// line, itself trimmed, picks the command; `join` with no following token is
/// rejected (`None`), as is any unknown command.
pub open spec fn spec_parse_cmd(line: Seq<char>) -> Option<ClientMsgV> {
    let t = spec_trim(line);
    let first = spec_trim(head_token(t));
    if first == ("join")@ {
        match after_first_space(t) {
            Some(rest) => Some(ClientMsgV::Join { username: head_token(rest) }),
            None => None,
        }
    } else if first == ("send")@ {
        Some(
            ClientMsgV::Send {
                message: match after_first_space(t) {
                    Some(rest) => spec_trim(rest),
                    None => Seq::empty(),
                },
            },
        )
    } else if first == ("leave")@ {
        Some(ClientMsgV::Leave)
    } else {
        None
    }
}

/// Decides `is_ws`.
fn is_ws_char(c: char) -> (r: bool)
    ensures
        r == is_ws(c),
{
    c == ' ' || c == '\t' || c == '\n' || c == '\u{0b}' || c == '\u{0c}' || c == '\r' || c
        == '\u{85}' || c == '\u{a0}' || c == '\u{1680}' || c == '\u{2000}' || c == '\u{2001}' || c
        == '\u{2002}' || c == '\u{2003}' || c == '\u{2004}' || c == '\u{2005}' || c == '\u{2006}'
        || c == '\u{2007}' || c == '\u{2008}' || c == '\u{2009}' || c == '\u{200a}' || c
        == '\u{2028}' || c == '\u{2029}' || c == '\u{202f}' || c == '\u{205f}' || c == '\u{3000}'
}

/// Dropping `a` leading whitespace characters, up to a non-whitespace one,
/// is what `trim_front` does.
proof fn lemma_trim_front(s: Seq<char>, a: int)
    requires
        0 <= a <= s.len(),
        forall|j: int| 0 <= j < a ==> is_ws(#[trigger] s[j]),
        a == s.len() || !is_ws(s[a]),
    ensures
        trim_front(s) == s.skip(a),
    decreases a,
{
    if a == 0 {
        assert(s.skip(0) =~= s);
    } else {
        assert(is_ws(s[0]));
        lemma_trim_front(s.skip(1), a - 1);
        assert(s.skip(1).skip(a - 1) =~= s.skip(a));
    }
}

/// Keeping the first `b` characters, the last of which is not whitespace and
/// after which all are, is what `trim_back` does.
proof fn lemma_trim_back(s: Seq<char>, b: int)
    requires
        0 <= b <= s.len(),
        forall|j: int| b <= j < s.len() ==> is_ws(#[trigger] s[j]),
        b == 0 || !is_ws(s[b - 1]),
    ensures
        trim_back(s) == s.take(b),
    decreases s.len(),
{
    if b == s.len() {
        assert(s.take(b) =~= s);
    } else {
        assert(is_ws(s[s.len() - 1]));
        lemma_trim_back(s.take(s.len() - 1), b);
        assert(s.take(s.len() - 1).take(b) =~= s.take(b));
    }
}

/// The first space of `s` stands at `p`: the head token is what precedes it.
proof fn lemma_head_token(s: Seq<char>, p: int)
    requires
        0 <= p <= s.len(),
        forall|j: int| 0 <= j < p ==> (#[trigger] s[j]) != ' ',
        p == s.len() || s[p] == ' ',
    ensures
        head_token(s) == s.take(p),
        after_first_space(s) == (if p < s.len() {
            Some(s.skip(p + 1))
        } else {
            None::<Seq<char>>
        }),
    decreases s.len(),
{
    if s.len() == 0 {
        assert(s.take(0) =~= Seq::<char>::empty());
    } else if s[0] == ' ' {
        assert(p == 0);
        assert(s.take(0) =~= Seq::<char>::empty());
    } else {
        assert(p > 0);
        lemma_head_token(s.skip(1), p - 1);
        assert(seq![s[0]] + s.skip(1).take(p - 1) =~= s.take(p));
        if p < s.len() {
            assert(s.skip(1).skip(p - 1 + 1) =~= s.skip(p + 1));
        }
    }
}

/// Parses one command line into the protocol value it means, if any.
pub fn parse_cmd(line: &str) -> (r: Option<FromClient>)
    ensures
        match r {
            Some(m) => spec_parse_cmd(line@) == Some(m@),
            None => spec_parse_cmd(line@) is None,
        },
{
    let n = line.unicode_len();
    let mut a: usize = 0;
    while a < n && is_ws_char(line.get_char(a))
        invariant
            n == line@.len(),
            a <= n,
            forall|j: int| 0 <= j < a ==> is_ws(#[trigger] line@[j]),
        decreases n - a,
    {
        a = a + 1;
    }
    let mut b: usize = n;
    while b > a && is_ws_char(line.get_char(b - 1))
        invariant
            n == line@.len(),
            a <= b <= n,
            forall|j: int| b <= j < n ==> is_ws(#[trigger] line@[j]),
        decreases b,
    {
        b = b - 1;
    }
    let ghost t = line@.subrange(a as int, b as int);
    proof {
        lemma_trim_front(line@, a as int);
        lemma_trim_back(line@.skip(a as int), b - a);
        assert(line@.skip(a as int).take(b - a) =~= t);
        assert(spec_trim(line@) == t);
    }
    // the first space inside the trimmed region
    let mut p: usize = a;
    while p < b && line.get_char(p) != ' '
        invariant
            n == line@.len(),
            a <= p <= b <= n,
            forall|j: int| a <= j < p ==> (#[trigger] line@[j]) != ' ',
        decreases b - p,
    {
        p = p + 1;
    }
    proof {
        lemma_head_token(t, p - a);
        assert(t.take(p - a) =~= line@.subrange(a as int, p as int));
    }
    // the first token, trimmed of its own trailing whitespace
    let mut q: usize = p;
    while q > a && is_ws_char(line.get_char(q - 1))
        invariant
            n == line@.len(),
            a <= q <= p <= b <= n,
            forall|j: int| q <= j < p ==> is_ws(#[trigger] line@[j]),
            forall|j: int| a <= j < p ==> (#[trigger] line@[j]) != ' ',
            b == a || !is_ws(line@[b - 1]),
        decreases q,
    {
        q = q - 1;
    }
    let ghost tok = line@.subrange(a as int, p as int);
    let ghost first = line@.subrange(a as int, q as int);
    proof {
        assert(trim_front(tok) == tok) by {
            if tok.len() > 0 {
                assert(tok[0] == line@[a as int]);
                assert(!is_ws(line@[a as int]));
            }
            lemma_trim_front(tok, 0);
        }
        lemma_trim_back(tok, q - a);
        assert(tok.take(q - a) =~= first);
        assert(spec_trim(head_token(t)) == first);
    }
    let first_str = line.substring_char(a, q);
    if str_eq(first_str, "join") {
        if p < b {
            // the token after the first space
            let mut p2: usize = p + 1;
            while p2 < b && line.get_char(p2) != ' '
                invariant
                    n == line@.len(),
                    p + 1 <= p2 <= b <= n,
                    forall|j: int| p + 1 <= j < p2 ==> (#[trigger] line@[j]) != ' ',
                decreases b - p2,
            {
                p2 = p2 + 1;
            }
            let ghost rest = line@.subrange(p as int + 1, b as int);
            proof {
                assert(after_first_space(t) == Some(rest)) by {
                    assert(t.skip(p - a + 1) =~= rest);
                }
                lemma_head_token(rest, p2 - (p + 1));
                assert(rest.take(p2 - (p + 1)) =~= line@.subrange(p as int + 1, p2 as int));
            }
            let username = String::from_str(line.substring_char(p + 1, p2));
            Some(FromClient::Join { username })
        } else {
            proof {
                assert(after_first_space(t) is None);
            }
            None
        }
    } else if str_eq(first_str, "send") {
        if p < b {
            let ghost rest = line@.subrange(p as int + 1, b as int);
            proof {
                assert(after_first_space(t) == Some(rest)) by {
                    assert(t.skip(p - a + 1) =~= rest);
                }
            }
            // trim the rest; its tail is already clean, the front may not be
            let mut a2: usize = p + 1;
            while a2 < b && is_ws_char(line.get_char(a2))
                invariant
                    n == line@.len(),
                    p + 1 <= a2 <= b <= n,
                    forall|j: int| p + 1 <= j < a2 ==> is_ws(#[trigger] line@[j]),
                decreases b - a2,
            {
                a2 = a2 + 1;
            }
            proof {
                lemma_trim_front(rest, a2 - (p + 1));
                assert(rest.skip(a2 - (p + 1)) =~= line@.subrange(a2 as int, b as int));
                let body = line@.subrange(a2 as int, b as int);
                assert(trim_back(body) == body) by {
                    assert(b - a > 0);
                    assert(!is_ws(line@[b as int - 1]));
                    lemma_trim_back(body, body.len() as int);
                }
                assert(spec_trim(rest) == body);
            }
            let message = String::from_str(line.substring_char(a2, b));
            Some(FromClient::Send { message })
        } else {
            proof {
                assert(after_first_space(t) is None);
            }
            Some(FromClient::Send { message: String::new() })
        }
    } else if str_eq(first_str, "leave") {
        Some(FromClient::Leave)
    } else {
        None
    }
}

/// What one server reply to a join attempt does to the client's state:
/// success moves it to Joined; an error, a stray message, or the stream
/// closing leave it Waiting.
pub fn join_reply_state(reply: Option<&FromServer>) -> (r: ChatState)
    ensures
        r == (match reply {
            Some(FromServer::JoinSuccess) => ChatState::Joined,
            _ => ChatState::Waiting,
        }),
{
    match reply {
        Some(FromServer::JoinSuccess) => ChatState::Joined,
        _ => ChatState::Waiting,
    }
}

/// What the Waiting client does with one local line.
pub enum WaitingDecision {
    /// Send a `Join` frame and await one reply.
    AttemptJoin { username: String },
    /// Say goodbye and stop: the session ends without ever joining.
    Quit,
    /// The line carried nothing actionable; stay Waiting.
    Stay,
}

/// Decides one local input line for a client in Waiting: `join` starts a join
/// attempt, `leave` quits, everything else (a premature `send`, an invalid
/// command) is ignored.
pub fn client_waiting_step(line: &str) -> (r: WaitingDecision)
    ensures
        match spec_parse_cmd(line@) {
            Some(ClientMsgV::Join { username: u }) => (match r {
                WaitingDecision::AttemptJoin { username } => username@ == u,
                _ => false,
            }),
            Some(ClientMsgV::Leave) => r is Quit,
            _ => r is Stay,
        },
{
    match parse_cmd(line) {
        Some(FromClient::Join { username }) => WaitingDecision::AttemptJoin { username },
        Some(FromClient::Leave) => WaitingDecision::Quit,
        _ => WaitingDecision::Stay,
    }
}

/// What the Joined client does with one local line.
pub enum JoinedDecision {
    /// Forward the text as a `Send` frame; stay Joined.
    SendText { message: String },
    /// A second `join` is rejected locally with a warning; stay Joined.
    AlreadyJoined,
    /// Forward a `Leave` frame and stop, without awaiting a reply.
    SendLeave,
    /// The line carried nothing actionable; stay Joined.
    Stay,
}

/// Decides one local input line for a client in Joined.
pub fn client_joined_step(line: &str) -> (r: JoinedDecision)
    ensures
        match spec_parse_cmd(line@) {
            Some(ClientMsgV::Send { message: t }) => (match r {
                JoinedDecision::SendText { message } => message@ == t,
                _ => false,
            }),
            Some(ClientMsgV::Join { .. }) => r is AlreadyJoined,
            Some(ClientMsgV::Leave) => r is SendLeave,
            None => r is Stay,
        },
{
    match parse_cmd(line) {
        Some(FromClient::Send { message }) => JoinedDecision::SendText { message },
        Some(FromClient::Join { .. }) => JoinedDecision::AlreadyJoined,
        Some(FromClient::Leave) => JoinedDecision::SendLeave,
        None => JoinedDecision::Stay,
    }
}

/// Where one inbound server frame goes on the client: chat lines to standard
/// output, error text to the error stream, a stray `JoinSuccess` nowhere.
pub enum Incoming {
    Print { text: String },
    Warn { text: String },
    Ignore,
}

/// Classifies one server frame for the client's drain loop.
pub fn handle_incoming(msg: FromServer) -> (r: Incoming)
    ensures
        match msg@ {
            ServerMsgV::Message { message: t } => (match r {
                Incoming::Print { text } => text@ == t,
                _ => false,
            }),
            ServerMsgV::Error { reason: t } => (match r {
                Incoming::Warn { text } => text@ == t,
                _ => false,
            }),
            ServerMsgV::JoinSuccess => r is Ignore,
        },
{
    match msg {
        FromServer::Message { message } => Incoming::Print { text: message },
        FromServer::Error(reason) => Incoming::Warn { text: reason },
        FromServer::JoinSuccess => Incoming::Ignore,
    }
}

} // verus!
