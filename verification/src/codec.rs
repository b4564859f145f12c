//! Wire codec: each protocol value is one JSON text line. Unit variants
//! serialize as a bare quoted string (`"Leave"`, `"JoinSuccess"`); variants
//! with a field as a single-key object (`{"Join":{"username":"..."}}`,
//! `{"Send":{"message":"..."}}`, `{"Message":{"message":"..."}}`); the error
//! variant carries a bare string (`{"Err":"..."}`) — that asymmetry is part of
//! the wire format and is preserved. String payloads are escaped exactly as
//! the compact JSON encoding does: `"` and `\` get a backslash, the named
//! control characters become `\b \t \n \f \r`, every other control character
//! becomes `\u00xx` with lower-case hex digits, and nothing else is touched.
//! The decoder accepts exactly the encoder's output, so a decoded line always
//! re-encodes to itself; any other line is a parse error (`None`).

use vstd::prelude::*;
use vstd::string::{StrSliceExecFns, StringExecFns};

use crate::msg::{ClientMsgV, FromClient, FromServer, ServerMsgV};

verus! {

/// The lower-case hex digit with value `v`.
pub open spec fn spec_hex_digit(v: int) -> char {
    if v == 0 {
        '0'
    } else if v == 1 {
        '1'
    } else if v == 2 {
        '2'
    } else if v == 3 {
        '3'
    } else if v == 4 {
        '4'
    } else if v == 5 {
        '5'
    } else if v == 6 {
        '6'
    } else if v == 7 {
        '7'
    } else if v == 8 {
        '8'
    } else if v == 9 {
        '9'
    } else if v == 10 {
        'a'
    } else if v == 11 {
        'b'
    } else if v == 12 {
        'c'
    } else if v == 13 {
        'd'
    } else if v == 14 {
        'e'
    } else {
        'f'
    }
}

/// Whether `c` is a lower-case hex digit.
pub open spec fn is_hex_lower(c: char) -> bool {
    (48 <= c as u32 && c as u32 <= 57) || (97 <= c as u32 && c as u32 <= 102)
}

/// The value of a lower-case hex digit.
pub open spec fn spec_hex_val(c: char) -> int {
    if 48 <= c as u32 && c as u32 <= 57 {
        c as u32 - 48
    } else {
        c as u32 - 87
    }
}

/// Whether `c` is a control character, which JSON cannot carry raw.
pub open spec fn is_control(c: char) -> bool {
    (c as u32) < 0x20
}

/// The control character with code point `v` (for `0 <= v < 0x20`).
pub open spec fn control_char(v: int) -> char {
    if v == 0x00 {
        '\u{00}'
    } else if v == 0x01 {
        '\u{01}'
    } else if v == 0x02 {
        '\u{02}'
    } else if v == 0x03 {
        '\u{03}'
    } else if v == 0x04 {
        '\u{04}'
    } else if v == 0x05 {
        '\u{05}'
    } else if v == 0x06 {
        '\u{06}'
    } else if v == 0x07 {
        '\u{07}'
    } else if v == 0x08 {
        '\u{08}'
    } else if v == 0x09 {
        '\u{09}'
    } else if v == 0x0a {
        '\u{0a}'
    } else if v == 0x0b {
        '\u{0b}'
    } else if v == 0x0c {
        '\u{0c}'
    } else if v == 0x0d {
        '\u{0d}'
    } else if v == 0x0e {
        '\u{0e}'
    } else if v == 0x0f {
        '\u{0f}'
    } else if v == 0x10 {
        '\u{10}'
    } else if v == 0x11 {
        '\u{11}'
    } else if v == 0x12 {
        '\u{12}'
    } else if v == 0x13 {
        '\u{13}'
    } else if v == 0x14 {
        '\u{14}'
    } else if v == 0x15 {
        '\u{15}'
    } else if v == 0x16 {
        '\u{16}'
    } else if v == 0x17 {
        '\u{17}'
    } else if v == 0x18 {
        '\u{18}'
    } else if v == 0x19 {
        '\u{19}'
    } else if v == 0x1a {
        '\u{1a}'
    } else if v == 0x1b {
        '\u{1b}'
    } else if v == 0x1c {
        '\u{1c}'
    } else if v == 0x1d {
        '\u{1d}'
    } else if v == 0x1e {
        '\u{1e}'
    } else {
        '\u{1f}'
    }
}

/// How one character appears inside a JSON string literal.
pub open spec fn escape_char(c: char) -> Seq<char> {
    if c == '"' {
        seq!['\\', '"']
    } else if c == '\\' {
        seq!['\\', '\\']
    } else if c == '\u{08}' {
        seq!['\\', 'b']
    } else if c == '\t' {
        seq!['\\', 't']
    } else if c == '\n' {
        seq!['\\', 'n']
    } else if c == '\u{0c}' {
        seq!['\\', 'f']
    } else if c == '\r' {
        seq!['\\', 'r']
    } else if is_control(c) {
        seq!['\\', 'u', '0', '0', spec_hex_digit(c as u32 as int / 16), spec_hex_digit(c as u32 as int % 16)]
    } else {
        seq![c]
    }
}

/// The body of the JSON string literal carrying `s`.
pub open spec fn spec_escape(s: Seq<char>) -> Seq<char>
    decreases s.len(),
{
    if s.len() == 0 {
        Seq::empty()
    } else {
        escape_char(s[0]) + spec_escape(s.skip(1))
    }
}

/// Prepends a character to the payload of a successful parse.
pub open spec fn unescape_cons(c: char, rest: Option<Seq<char>>) -> Option<Seq<char>> {
    match rest {
        Some(t) => Some(seq![c] + t),
        None => None,
    }
}

/// Inverse of `spec_escape`: reads a JSON string literal body back, accepting
/// exactly the escaper's output (named escapes where they exist, `\u00xx`
/// only for the remaining control characters, nothing else escaped).
pub open spec fn spec_unescape(s: Seq<char>) -> Option<Seq<char>>
    decreases s.len(),
{
    if s.len() == 0 {
        Some(Seq::empty())
    } else if s[0] == '\\' {
        if s.len() < 2 {
            None
        } else if s[1] == '"' {
            unescape_cons('"', spec_unescape(s.skip(2)))
        } else if s[1] == '\\' {
            unescape_cons('\\', spec_unescape(s.skip(2)))
        } else if s[1] == 'b' {
            unescape_cons('\u{08}', spec_unescape(s.skip(2)))
        } else if s[1] == 't' {
            unescape_cons('\t', spec_unescape(s.skip(2)))
        } else if s[1] == 'n' {
            unescape_cons('\n', spec_unescape(s.skip(2)))
        } else if s[1] == 'f' {
            unescape_cons('\u{0c}', spec_unescape(s.skip(2)))
        } else if s[1] == 'r' {
            unescape_cons('\r', spec_unescape(s.skip(2)))
        } else if s[1] == 'u' {
            if s.len() < 6 {
                None
            } else if s[2] == '0' && s[3] == '0' && is_hex_lower(s[4]) && is_hex_lower(s[5]) {
                let v = 16 * spec_hex_val(s[4]) + spec_hex_val(s[5]);
                if v < 0x20 && v != 0x08 && v != 0x09 && v != 0x0a && v != 0x0c && v != 0x0d {
                    unescape_cons(control_char(v), spec_unescape(s.skip(6)))
                } else {
                    None
                }
            } else {
                None
            }
        } else {
            None
        }
    } else if s[0] == '"' || is_control(s[0]) {
        None
    } else {
        unescape_cons(s[0], spec_unescape(s.skip(1)))
    }
}

/// A control character without a named escape is recovered from its two hex
/// digits.
proof fn lemma_control_round(c: char)
    requires
        is_control(c),
        c != '\u{08}',
        c != '\t',
        c != '\n',
        c != '\u{0c}',
        c != '\r',
    ensures
        ({
            let v = c as u32 as int;
            &&& 0 <= v < 0x20
            &&& v != 0x08 && v != 0x09 && v != 0x0a && v != 0x0c && v != 0x0d
            &&& control_char(v) == c
            &&& is_hex_lower(spec_hex_digit(v / 16))
            &&& is_hex_lower(spec_hex_digit(v % 16))
            &&& spec_hex_val(spec_hex_digit(v / 16)) == v / 16
            &&& spec_hex_val(spec_hex_digit(v % 16)) == v % 16
            &&& 16 * (v / 16) + v % 16 == v
        }),
{
}

/// Unescaping undoes escaping: the literal body written for `u` reads back as
/// exactly `u`.
pub proof fn lemma_unescape_escape(u: Seq<char>)
    ensures
        spec_unescape(spec_escape(u)) == Some(u),
    decreases u.len(),
{
    if u.len() == 0 {
        assert(spec_escape(u) =~= Seq::<char>::empty());
        assert(u =~= Seq::<char>::empty());
    } else {
        let c = u[0];
        let rest = u.skip(1);
        lemma_unescape_escape(rest);
        let e = escape_char(c);
        let s = spec_escape(u);
        assert(s == e + spec_escape(rest));
        if c == '"' || c == '\\' || c == '\u{08}' || c == '\t' || c == '\n' || c == '\u{0c}'
            || c == '\r' {
            assert(s[0] == '\\');
            assert(s.skip(2) =~= spec_escape(rest));
            assert(seq![c] + rest =~= u);
        } else if is_control(c) {
            let v = c as u32 as int;
            lemma_control_round(c);
            assert(s[0] == '\\' && s[1] == 'u' && s[2] == '0' && s[3] == '0');
            assert(s[4] == spec_hex_digit(v / 16) && s[5] == spec_hex_digit(v % 16));
            assert(s.skip(6) =~= spec_escape(rest));
            assert(seq![c] + rest =~= u);
        } else {
            assert(s[0] == c);
            assert(s.skip(1) =~= spec_escape(rest));
            assert(seq![c] + rest =~= u);
        }
    }
}

/// Escaping one more character extends the literal body on the right.
proof fn lemma_escape_snoc(t: Seq<char>, c: char)
    ensures
        spec_escape(t.push(c)) == spec_escape(t) + escape_char(c),
    decreases t.len(),
{
    if t.len() == 0 {
        assert(t.push(c).skip(1) =~= Seq::<char>::empty());
        assert(spec_escape(t.push(c)) == escape_char(c) + spec_escape(Seq::<char>::empty()));
        assert(escape_char(c) + Seq::<char>::empty() =~= escape_char(c));
        assert(spec_escape(t) + escape_char(c) =~= escape_char(c));
    } else {
        lemma_escape_snoc(t.skip(1), c);
        assert(t.push(c).skip(1) =~= t.skip(1).push(c));
        assert(spec_escape(t.push(c)) == escape_char(t[0]) + spec_escape(t.skip(1).push(c)));
        assert(escape_char(t[0]) + (spec_escape(t.skip(1)) + escape_char(c)) =~= (escape_char(
            t[0],
        ) + spec_escape(t.skip(1))) + escape_char(c));
    }
}

/// View equality of two string slices, decided character by character.
pub fn str_eq(a: &str, b: &str) -> (r: bool)
    ensures
        r == (a@ == b@),
{
    let na = a.unicode_len();
    let nb = b.unicode_len();
    if na != nb {
        assert(a@ != b@);
        return false;
    }
    let mut i: usize = 0;
    while i < na
        invariant
            na == a@.len(),
            na == b@.len(),
            i <= na,
            forall|j: int| 0 <= j < i ==> a@[j] == b@[j],
        decreases na - i,
    {
        if a.get_char(i) != b.get_char(i) {
            assert(a@ != b@);
            return false;
        }
        i = i + 1;
    }
    assert(a@ =~= b@);
    true
}

/// The one-character string holding the lower-case hex digit with value `v`.
fn hex_digit_str(v: u8) -> (r: &'static str)
    requires
        v < 16,
    ensures
        r@ == seq![spec_hex_digit(v as int)],
{
    if v == 0 {
        proof {
            reveal_strlit("0");
            assert(("0")@ =~= seq![spec_hex_digit(0)]);
        }
        "0"
    } else if v == 1 {
        proof {
            reveal_strlit("1");
            assert(("1")@ =~= seq![spec_hex_digit(1)]);
        }
        "1"
    } else if v == 2 {
        proof {
            reveal_strlit("2");
            assert(("2")@ =~= seq![spec_hex_digit(2)]);
        }
        "2"
    } else if v == 3 {
        proof {
            reveal_strlit("3");
            assert(("3")@ =~= seq![spec_hex_digit(3)]);
        }
        "3"
    } else if v == 4 {
        proof {
            reveal_strlit("4");
            assert(("4")@ =~= seq![spec_hex_digit(4)]);
        }
        "4"
    } else if v == 5 {
        proof {
            reveal_strlit("5");
            assert(("5")@ =~= seq![spec_hex_digit(5)]);
        }
        "5"
    } else if v == 6 {
        proof {
            reveal_strlit("6");
            assert(("6")@ =~= seq![spec_hex_digit(6)]);
        }
        "6"
    } else if v == 7 {
        proof {
            reveal_strlit("7");
            assert(("7")@ =~= seq![spec_hex_digit(7)]);
        }
        "7"
    } else if v == 8 {
        proof {
            reveal_strlit("8");
            assert(("8")@ =~= seq![spec_hex_digit(8)]);
        }
        "8"
    } else if v == 9 {
        proof {
            reveal_strlit("9");
            assert(("9")@ =~= seq![spec_hex_digit(9)]);
        }
        "9"
    } else if v == 10 {
        proof {
            reveal_strlit("a");
            assert(("a")@ =~= seq![spec_hex_digit(10)]);
        }
        "a"
    } else if v == 11 {
        proof {
            reveal_strlit("b");
            assert(("b")@ =~= seq![spec_hex_digit(11)]);
        }
        "b"
    } else if v == 12 {
        proof {
            reveal_strlit("c");
            assert(("c")@ =~= seq![spec_hex_digit(12)]);
        }
        "c"
    } else if v == 13 {
        proof {
            reveal_strlit("d");
            assert(("d")@ =~= seq![spec_hex_digit(13)]);
        }
        "d"
    } else if v == 14 {
        proof {
            reveal_strlit("e");
            assert(("e")@ =~= seq![spec_hex_digit(14)]);
        }
        "e"
    } else {
        proof {
            reveal_strlit("f");
            assert(("f")@ =~= seq![spec_hex_digit(15)]);
        }
        "f"
    }
}

/// Writes the JSON string literal body for `s`.
pub fn escape(s: &str) -> (r: String)
    ensures
        r@ == spec_escape(s@),
{
    let n = s.unicode_len();
    let mut out = String::new();
    let mut i: usize = 0;
    proof {
        assert(s@.take(0) =~= Seq::<char>::empty());
    }
    while i < n
        invariant
            n == s@.len(),
            i <= n,
            out@ == spec_escape(s@.take(i as int)),
        decreases n - i,
    {
        let c = s.get_char(i);
        if c == '"' {
            proof {
                reveal_strlit("\\\"");
                assert(("\\\"")@ =~= escape_char('"'));
            }
            out.append("\\\"");
        } else if c == '\\' {
            proof {
                reveal_strlit("\\\\");
                assert(("\\\\")@ =~= escape_char('\\'));
            }
            out.append("\\\\");
        } else if c == '\u{08}' {
            proof {
                reveal_strlit("\\b");
                assert(("\\b")@ =~= escape_char('\u{08}'));
            }
            out.append("\\b");
        } else if c == '\t' {
            proof {
                reveal_strlit("\\t");
                assert(("\\t")@ =~= escape_char('\t'));
            }
            out.append("\\t");
        } else if c == '\n' {
            proof {
                reveal_strlit("\\n");
                assert(("\\n")@ =~= escape_char('\n'));
            }
            out.append("\\n");
        } else if c == '\u{0c}' {
            proof {
                reveal_strlit("\\f");
                assert(("\\f")@ =~= escape_char('\u{0c}'));
            }
            out.append("\\f");
        } else if c == '\r' {
            proof {
                reveal_strlit("\\r");
                assert(("\\r")@ =~= escape_char('\r'));
            }
            out.append("\\r");
        } else if (c as u32) < 0x20 {
            let v = c as u32;
            let hd = hex_digit_str((v / 16) as u8);
            let ld = hex_digit_str((v % 16) as u8);
            proof {
                reveal_strlit("\\u00");
                assert(("\\u00")@ + hd@ + ld@ =~= escape_char(c));
            }
            out.append("\\u00");
            out.append(hd);
            out.append(ld);
            proof {
                assert(out@ =~= spec_escape(s@.take(i as int)) + escape_char(c));
            }
        } else {
            let piece = s.substring_char(i, i + 1);
            proof {
                assert(piece@ =~= escape_char(c));
            }
            out.append(piece);
        }
        proof {
            lemma_escape_snoc(s@.take(i as int), s@[i as int]);
            assert(s@.take(i as int + 1) =~= s@.take(i as int).push(s@[i as int]));
        }
        i = i + 1;
    }
    proof {
        assert(s@.take(n as int) =~= s@);
    }
    out
}

/// One parsing step: consuming `k` characters at position `i` that decode to
/// `ch` carries the tail relation one step forward.
proof fn lemma_unescape_step(full: Seq<char>, i: int, k: int, ch: char, pre: Seq<char>)
    requires
        0 <= i,
        1 <= k,
        i + k <= full.len(),
        spec_unescape(full.skip(i)) == unescape_cons(ch, spec_unescape(full.skip(i + k))),
        forall|t: Seq<char>|
            spec_unescape(full.skip(i)) == Some(t) ==> spec_unescape(full) == Some(pre + t),
        (spec_unescape(full.skip(i)) is None) ==> (spec_unescape(full) is None),
    ensures
        forall|t: Seq<char>|
            spec_unescape(full.skip(i + k)) == Some(t) ==> spec_unescape(full) == Some(
                (pre + seq![ch]) + t,
            ),
        (spec_unescape(full.skip(i + k)) is None) ==> (spec_unescape(full) is None),
{
    assert forall|t: Seq<char>|
        spec_unescape(full.skip(i + k)) == Some(t) implies spec_unescape(full) == Some(
        (pre + seq![ch]) + t,
    ) by {
        assert(spec_unescape(full.skip(i)) == Some(seq![ch] + t));
        assert(pre + (seq![ch] + t) =~= (pre + seq![ch]) + t);
    }
}

/// The one-character string holding the control character with code `v`.
fn control_str(v: u8) -> (r: &'static str)
    requires
        v < 0x20,
    ensures
        r@ == seq![control_char(v as int)],
{
    if v == 0x00 {
        proof {
            reveal_strlit("\u{00}");
            assert(("\u{00}")@ =~= seq![control_char(0x00)]);
        }
        "\u{00}"
    } else if v == 0x01 {
        proof {
            reveal_strlit("\u{01}");
            assert(("\u{01}")@ =~= seq![control_char(0x01)]);
        }
        "\u{01}"
    } else if v == 0x02 {
        proof {
            reveal_strlit("\u{02}");
            assert(("\u{02}")@ =~= seq![control_char(0x02)]);
        }
        "\u{02}"
    } else if v == 0x03 {
        proof {
            reveal_strlit("\u{03}");
            assert(("\u{03}")@ =~= seq![control_char(0x03)]);
        }
        "\u{03}"
    } else if v == 0x04 {
        proof {
            reveal_strlit("\u{04}");
            assert(("\u{04}")@ =~= seq![control_char(0x04)]);
        }
        "\u{04}"
    } else if v == 0x05 {
        proof {
            reveal_strlit("\u{05}");
            assert(("\u{05}")@ =~= seq![control_char(0x05)]);
        }
        "\u{05}"
    } else if v == 0x06 {
        proof {
            reveal_strlit("\u{06}");
            assert(("\u{06}")@ =~= seq![control_char(0x06)]);
        }
        "\u{06}"
    } else if v == 0x07 {
        proof {
            reveal_strlit("\u{07}");
            assert(("\u{07}")@ =~= seq![control_char(0x07)]);
        }
        "\u{07}"
    } else if v == 0x08 {
        proof {
            reveal_strlit("\u{08}");
            assert(("\u{08}")@ =~= seq![control_char(0x08)]);
        }
        "\u{08}"
    } else if v == 0x09 {
        proof {
            reveal_strlit("\u{09}");
            assert(("\u{09}")@ =~= seq![control_char(0x09)]);
        }
        "\u{09}"
    } else if v == 0x0a {
        proof {
            reveal_strlit("\u{0a}");
            assert(("\u{0a}")@ =~= seq![control_char(0x0a)]);
        }
        "\u{0a}"
    } else if v == 0x0b {
        proof {
            reveal_strlit("\u{0b}");
            assert(("\u{0b}")@ =~= seq![control_char(0x0b)]);
        }
        "\u{0b}"
    } else if v == 0x0c {
        proof {
            reveal_strlit("\u{0c}");
            assert(("\u{0c}")@ =~= seq![control_char(0x0c)]);
        }
        "\u{0c}"
    } else if v == 0x0d {
        proof {
            reveal_strlit("\u{0d}");
            assert(("\u{0d}")@ =~= seq![control_char(0x0d)]);
        }
        "\u{0d}"
    } else if v == 0x0e {
        proof {
            reveal_strlit("\u{0e}");
            assert(("\u{0e}")@ =~= seq![control_char(0x0e)]);
        }
        "\u{0e}"
    } else if v == 0x0f {
        proof {
            reveal_strlit("\u{0f}");
            assert(("\u{0f}")@ =~= seq![control_char(0x0f)]);
        }
        "\u{0f}"
    } else if v == 0x10 {
        proof {
            reveal_strlit("\u{10}");
            assert(("\u{10}")@ =~= seq![control_char(0x10)]);
        }
        "\u{10}"
    } else if v == 0x11 {
        proof {
            reveal_strlit("\u{11}");
            assert(("\u{11}")@ =~= seq![control_char(0x11)]);
        }
        "\u{11}"
    } else if v == 0x12 {
        proof {
            reveal_strlit("\u{12}");
            assert(("\u{12}")@ =~= seq![control_char(0x12)]);
        }
        "\u{12}"
    } else if v == 0x13 {
        proof {
            reveal_strlit("\u{13}");
            assert(("\u{13}")@ =~= seq![control_char(0x13)]);
        }
        "\u{13}"
    } else if v == 0x14 {
        proof {
            reveal_strlit("\u{14}");
            assert(("\u{14}")@ =~= seq![control_char(0x14)]);
        }
        "\u{14}"
    } else if v == 0x15 {
        proof {
            reveal_strlit("\u{15}");
            assert(("\u{15}")@ =~= seq![control_char(0x15)]);
        }
        "\u{15}"
    } else if v == 0x16 {
        proof {
            reveal_strlit("\u{16}");
            assert(("\u{16}")@ =~= seq![control_char(0x16)]);
        }
        "\u{16}"
    } else if v == 0x17 {
        proof {
            reveal_strlit("\u{17}");
            assert(("\u{17}")@ =~= seq![control_char(0x17)]);
        }
        "\u{17}"
    } else if v == 0x18 {
        proof {
            reveal_strlit("\u{18}");
            assert(("\u{18}")@ =~= seq![control_char(0x18)]);
        }
        "\u{18}"
    } else if v == 0x19 {
        proof {
            reveal_strlit("\u{19}");
            assert(("\u{19}")@ =~= seq![control_char(0x19)]);
        }
        "\u{19}"
    } else if v == 0x1a {
        proof {
            reveal_strlit("\u{1a}");
            assert(("\u{1a}")@ =~= seq![control_char(0x1a)]);
        }
        "\u{1a}"
    } else if v == 0x1b {
        proof {
            reveal_strlit("\u{1b}");
            assert(("\u{1b}")@ =~= seq![control_char(0x1b)]);
        }
        "\u{1b}"
    } else if v == 0x1c {
        proof {
            reveal_strlit("\u{1c}");
            assert(("\u{1c}")@ =~= seq![control_char(0x1c)]);
        }
        "\u{1c}"
    } else if v == 0x1d {
        proof {
            reveal_strlit("\u{1d}");
            assert(("\u{1d}")@ =~= seq![control_char(0x1d)]);
        }
        "\u{1d}"
    } else if v == 0x1e {
        proof {
            reveal_strlit("\u{1e}");
            assert(("\u{1e}")@ =~= seq![control_char(0x1e)]);
        }
        "\u{1e}"
    } else {
        proof {
            reveal_strlit("\u{1f}");
            assert(("\u{1f}")@ =~= seq![control_char(0x1f)]);
        }
        "\u{1f}"
    }
}

/// The value of a lower-case hex digit character.
fn hex_val(c: char) -> (r: u32)
    requires
        is_hex_lower(c),
    ensures
        r == spec_hex_val(c),
        r < 16,
{
    let u = c as u32;
    if u <= 57 {
        u - 48
    } else {
        u - 87
    }
}

/// Reads a JSON string literal body back; `None` on anything the escaper
/// would not have written.
pub fn unescape(s: &str) -> (r: Option<String>)
    ensures
        match r {
            Some(out) => spec_unescape(s@) == Some(out@),
            None => spec_unescape(s@) is None,
        },
{
    let n = s.unicode_len();
    let mut out = String::new();
    let mut i: usize = 0;
    proof {
        assert(s@.skip(0) =~= s@);
        assert(out@ + Seq::<char>::empty() =~= out@);
    }
    while i < n
        invariant
            n == s@.len(),
            i <= n,
            forall|t: Seq<char>|
                spec_unescape(s@.skip(i as int)) == Some(t) ==> spec_unescape(s@) == Some(
                    out@ + t,
                ),
            (spec_unescape(s@.skip(i as int)) is None) ==> (spec_unescape(s@) is None),
        decreases n - i,
    {
        let ghost rem = s@.skip(i as int);
        let ghost pre = out@;
        let c = s.get_char(i);
        assert(rem.len() == n - i && rem[0] == c);
        if c == '\\' {
            if i + 1 == n {
                assert(spec_unescape(rem) is None);
                return None;
            }
            let d = s.get_char(i + 1);
            assert(rem[1] == d);
            if d == '"' || d == '\\' || d == 'b' || d == 't' || d == 'n' || d == 'f' || d == 'r' {
                let ch: char;
                if d == '"' {
                    proof {
                        reveal_strlit("\"");
                        assert(("\"")@ =~= seq!['"']);
                    }
                    ch = '"';
                    out.append("\"");
                } else if d == '\\' {
                    proof {
                        reveal_strlit("\\");
                        assert(("\\")@ =~= seq!['\\']);
                    }
                    ch = '\\';
                    out.append("\\");
                } else if d == 'b' {
                    proof {
                        reveal_strlit("\u{08}");
                        assert(("\u{08}")@ =~= seq!['\u{08}']);
                    }
                    ch = '\u{08}';
                    out.append("\u{08}");
                } else if d == 't' {
                    proof {
                        reveal_strlit("\t");
                        assert(("\t")@ =~= seq!['\t']);
                    }
                    ch = '\t';
                    out.append("\t");
                } else if d == 'n' {
                    proof {
                        reveal_strlit("\n");
                        assert(("\n")@ =~= seq!['\n']);
                    }
                    ch = '\n';
                    out.append("\n");
                } else if d == 'f' {
                    proof {
                        reveal_strlit("\u{0c}");
                        assert(("\u{0c}")@ =~= seq!['\u{0c}']);
                    }
                    ch = '\u{0c}';
                    out.append("\u{0c}");
                } else {
                    proof {
                        reveal_strlit("\r");
                        assert(("\r")@ =~= seq!['\r']);
                    }
                    ch = '\r';
                    out.append("\r");
                }
                proof {
                    assert(rem.skip(2) =~= s@.skip(i as int + 2));
                    assert(spec_unescape(rem) == unescape_cons(ch, spec_unescape(s@.skip(i as int + 2))));
                    lemma_unescape_step(s@, i as int, 2, ch, pre);
                    assert(out@ =~= pre + seq![ch]);
                }
                i = i + 2;
            } else if d == 'u' {
                if n - i < 6 {
                    assert(rem.len() < 6);
                    assert(spec_unescape(rem) is None);
                    return None;
                }
                let d2 = s.get_char(i + 2);
                let d3 = s.get_char(i + 3);
                let d4 = s.get_char(i + 4);
                let d5 = s.get_char(i + 5);
                assert(rem[2] == d2 && rem[3] == d3 && rem[4] == d4 && rem[5] == d5);
                let hex4 = (48 <= d4 as u32 && d4 as u32 <= 57) || (97 <= d4 as u32 && d4 as u32
                    <= 102);
                let hex5 = (48 <= d5 as u32 && d5 as u32 <= 57) || (97 <= d5 as u32 && d5 as u32
                    <= 102);
                if !(d2 == '0' && d3 == '0' && hex4 && hex5) {
                    assert(spec_unescape(rem) is None);
                    return None;
                }
                let v = 16 * hex_val(d4) + hex_val(d5);
                if !(v < 0x20 && v != 0x08 && v != 0x09 && v != 0x0a && v != 0x0c && v != 0x0d) {
                    assert(spec_unescape(rem) is None);
                    return None;
                }
                let ch = control_str(v as u8);
                out.append(ch);
                proof {
                    let cc = control_char(v as int);
                    assert(rem.skip(6) =~= s@.skip(i as int + 6));
                    assert(spec_unescape(rem) == unescape_cons(cc, spec_unescape(s@.skip(i as int + 6))));
                    lemma_unescape_step(s@, i as int, 6, cc, pre);
                    assert(out@ =~= pre + seq![cc]);
                }
                i = i + 6;
            } else {
                assert(spec_unescape(rem) is None);
                return None;
            }
        } else if c == '"' || (c as u32) < 0x20 {
            assert(spec_unescape(rem) is None);
            return None;
        } else {
            let piece = s.substring_char(i, i + 1);
            proof {
                assert(piece@ =~= seq![c]);
            }
            out.append(piece);
            proof {
                assert(rem.skip(1) =~= s@.skip(i as int + 1));
                assert(spec_unescape(rem) == unescape_cons(c, spec_unescape(s@.skip(i as int + 1))));
                lemma_unescape_step(s@, i as int, 1, c, pre);
                assert(out@ =~= pre + seq![c]);
            }
            i = i + 1;
        }
    }
    proof {
        assert(s@.skip(n as int) =~= Seq::<char>::empty());
        assert(spec_unescape(s@.skip(n as int)) == Some(Seq::<char>::empty()));
        assert(out@ + Seq::<char>::empty() =~= out@);
    }
    Some(out)
}

/// The opening text of an encoded `Join` line, up to the username.
pub open spec fn join_prefix() -> Seq<char> {
    ("{\"Join\":{\"username\":\"")@
}

/// The opening text of an encoded `Send` line, up to the message.
pub open spec fn send_prefix() -> Seq<char> {
    ("{\"Send\":{\"message\":\"")@
}

/// The opening text of an encoded `Message` line, up to the message.
pub open spec fn message_prefix() -> Seq<char> {
    ("{\"Message\":{\"message\":\"")@
}

/// The opening text of an encoded error line, up to the reason.
pub open spec fn err_prefix() -> Seq<char> {
    ("{\"Err\":\"")@
}

/// The closing text of an encoded single-key object line.
pub open spec fn object_suffix() -> Seq<char> {
    ("\"}}")@
}

/// The closing text of an encoded error line.
pub open spec fn err_suffix() -> Seq<char> {
    ("\"}")@
}

/// The JSON line (without the newline) carrying a client-to-server value.
pub open spec fn spec_encode_client(m: ClientMsgV) -> Seq<char> {
    match m {
        ClientMsgV::Join { username } => join_prefix() + spec_escape(username) + object_suffix(),
        ClientMsgV::Send { message } => send_prefix() + spec_escape(message) + object_suffix(),
        ClientMsgV::Leave => ("\"Leave\"")@,
    }
}

/// The JSON line (without the newline) carrying a server-to-client value.
pub open spec fn spec_encode_server(m: ServerMsgV) -> Seq<char> {
    match m {
        ServerMsgV::JoinSuccess => ("\"JoinSuccess\"")@,
        ServerMsgV::Message { message } => message_prefix() + spec_escape(message)
            + object_suffix(),
        ServerMsgV::Error { reason } => err_prefix() + spec_escape(reason) + err_suffix(),
    }
}

/// Reads one line back as a client-to-server value: exactly the encoder's
/// output is accepted, anything else is a parse error.
pub open spec fn spec_decode_client(s: Seq<char>) -> Option<ClientMsgV> {
    let n = s.len() as int;
    if s == ("\"Leave\"")@ {
        Some(ClientMsgV::Leave)
    } else if n >= 24 && s.subrange(0, 21) == join_prefix() && s.subrange(n - 3, n)
        == object_suffix() {
        match spec_unescape(s.subrange(21, n - 3)) {
            Some(u) => Some(ClientMsgV::Join { username: u }),
            None => None,
        }
    } else if n >= 23 && s.subrange(0, 20) == send_prefix() && s.subrange(n - 3, n)
        == object_suffix() {
        match spec_unescape(s.subrange(20, n - 3)) {
            Some(t) => Some(ClientMsgV::Send { message: t }),
            None => None,
        }
    } else {
        None
    }
}

/// Reads one line back as a server-to-client value.
pub open spec fn spec_decode_server(s: Seq<char>) -> Option<ServerMsgV> {
    let n = s.len() as int;
    if s == ("\"JoinSuccess\"")@ {
        Some(ServerMsgV::JoinSuccess)
    } else if n >= 26 && s.subrange(0, 23) == message_prefix() && s.subrange(n - 3, n)
        == object_suffix() {
        match spec_unescape(s.subrange(23, n - 3)) {
            Some(t) => Some(ServerMsgV::Message { message: t }),
            None => None,
        }
    } else if n >= 10 && s.subrange(0, 8) == err_prefix() && s.subrange(n - 2, n) == err_suffix() {
        match spec_unescape(s.subrange(8, n - 2)) {
            Some(t) => Some(ServerMsgV::Error { reason: t }),
            None => None,
        }
    } else {
        None
    }
}

/// Serializes one client-to-server value as its JSON line (no newline).
pub fn encode_from_client(m: &FromClient) -> (r: String)
    ensures
        r@ == spec_encode_client(m@),
{
    match m {
        FromClient::Join { username } => {
            let mut out = String::from_str("{\"Join\":{\"username\":\"");
            let body = escape(username.as_str());
            out.append(body.as_str());
            out.append("\"}}");
            proof {
                assert(out@ =~= join_prefix() + spec_escape(username@) + object_suffix());
            }
            out
        },
        FromClient::Send { message } => {
            let mut out = String::from_str("{\"Send\":{\"message\":\"");
            let body = escape(message.as_str());
            out.append(body.as_str());
            out.append("\"}}");
            proof {
                assert(out@ =~= send_prefix() + spec_escape(message@) + object_suffix());
            }
            out
        },
        FromClient::Leave => String::from_str("\"Leave\""),
    }
}

/// Serializes one server-to-client value as its JSON line (no newline).
pub fn encode_from_server(m: &FromServer) -> (r: String)
    ensures
        r@ == spec_encode_server(m@),
{
    match m {
        FromServer::JoinSuccess => String::from_str("\"JoinSuccess\""),
        FromServer::Message { message } => {
            let mut out = String::from_str("{\"Message\":{\"message\":\"");
            let body = escape(message.as_str());
            out.append(body.as_str());
            out.append("\"}}");
            proof {
                assert(out@ =~= message_prefix() + spec_escape(message@) + object_suffix());
            }
            out
        },
        FromServer::Error(reason) => {
            let mut out = String::from_str("{\"Err\":\"");
            let body = escape(reason.as_str());
            out.append(body.as_str());
            out.append("\"}");
            proof {
                assert(out@ =~= err_prefix() + spec_escape(reason@) + err_suffix());
            }
            out
        },
    }
}

/// Parses one line as a client-to-server value.
pub fn decode_from_client(line: &str) -> (r: Option<FromClient>)
    ensures
        match r {
            Some(m) => spec_decode_client(line@) == Some(m@),
            None => spec_decode_client(line@) is None,
        },
{
    let n = line.unicode_len();
    if str_eq(line, "\"Leave\"") {
        return Some(FromClient::Leave);
    }
    if n >= 24 && str_eq(line.substring_char(0, 21), "{\"Join\":{\"username\":\"") && str_eq(
        line.substring_char(n - 3, n),
        "\"}}",
    ) {
        let mid = line.substring_char(21, n - 3);
        match unescape(mid) {
            Some(u) => Some(FromClient::Join { username: u }),
            None => None,
        }
    } else if n >= 23 && str_eq(line.substring_char(0, 20), "{\"Send\":{\"message\":\"")
        && str_eq(line.substring_char(n - 3, n), "\"}}") {
        let mid = line.substring_char(20, n - 3);
        match unescape(mid) {
            Some(t) => Some(FromClient::Send { message: t }),
            None => None,
        }
    } else {
        None
    }
}

/// Parses one line as a server-to-client value.
pub fn decode_from_server(line: &str) -> (r: Option<FromServer>)
    ensures
        match r {
            Some(m) => spec_decode_server(line@) == Some(m@),
            None => spec_decode_server(line@) is None,
        },
{
    let n = line.unicode_len();
    if str_eq(line, "\"JoinSuccess\"") {
        return Some(FromServer::JoinSuccess);
    }
    if n >= 26 && str_eq(line.substring_char(0, 23), "{\"Message\":{\"message\":\"") && str_eq(
        line.substring_char(n - 3, n),
        "\"}}",
    ) {
        let mid = line.substring_char(23, n - 3);
        match unescape(mid) {
            Some(t) => Some(FromServer::Message { message: t }),
            None => None,
        }
    } else if n >= 10 && str_eq(line.substring_char(0, 8), "{\"Err\":\"") && str_eq(
        line.substring_char(n - 2, n),
        "\"}",
    ) {
        let mid = line.substring_char(8, n - 2);
        match unescape(mid) {
            Some(t) => Some(FromServer::Error(t)),
            None => None,
        }
    } else {
        None
    }
}

/// A control character's code point names it back.
proof fn lemma_control_char_val(v: int)
    requires
        0 <= v < 0x20,
    ensures
        control_char(v) as u32 == v,
        is_control(control_char(v)),
{
}

/// A lower-case hex digit survives the trip through its value.
proof fn lemma_hex_digit_round(c: char)
    requires
        is_hex_lower(c),
    ensures
        0 <= spec_hex_val(c) < 16,
        spec_hex_digit(spec_hex_val(c)) == c,
{
}

/// Escaping undoes unescaping: the decoder accepts only canonical escape
/// text, so whatever it reads back is exactly what the escaper writes.
proof fn lemma_escape_unescape(x: Seq<char>, u: Seq<char>)
    requires
        spec_unescape(x) == Some(u),
    ensures
        spec_escape(u) == x,
    decreases x.len(),
{
    if x.len() == 0 {
        assert(u =~= Seq::<char>::empty());
        assert(spec_escape(u) =~= x);
    } else if x[0] == '\\' {
        if x[1] == 'u' && !(x[1] == '"' || x[1] == '\\' || x[1] == 'b' || x[1] == 't' || x[1] == 'n'
            || x[1] == 'f' || x[1] == 'r') {
            let v = 16 * spec_hex_val(x[4]) + spec_hex_val(x[5]);
            let ch = control_char(v);
            let rest = x.skip(6);
            let u2 = spec_unescape(rest).unwrap();
            lemma_escape_unescape(rest, u2);
            assert(u == seq![ch] + u2);
            lemma_control_char_val(v);
            lemma_hex_digit_round(x[4]);
            lemma_hex_digit_round(x[5]);
            assert(ch != '"' && ch != '\\' && ch != '\u{08}' && ch != '\t' && ch != '\n' && ch
                != '\u{0c}' && ch != '\r');
            assert(spec_hex_digit(v / 16) == x[4] && spec_hex_digit(v % 16) == x[5]) by {
                assert(v / 16 == spec_hex_val(x[4]) && v % 16 == spec_hex_val(x[5]));
            }
            assert(escape_char(ch) =~= x.take(6));
            assert(u.skip(1) =~= u2);
            assert(spec_escape(u) == escape_char(ch) + spec_escape(u2));
            assert(x.take(6) + x.skip(6) =~= x);
        } else {
            let ch = u[0];
            let rest = x.skip(2);
            let u2 = spec_unescape(rest).unwrap();
            lemma_escape_unescape(rest, u2);
            assert(u == seq![ch] + u2);
            assert(escape_char(ch) =~= x.take(2));
            assert(u.skip(1) =~= u2);
            assert(spec_escape(u) == escape_char(ch) + spec_escape(u2));
            assert(x.take(2) + x.skip(2) =~= x);
        }
    } else {
        let rest = x.skip(1);
        let u2 = spec_unescape(rest).unwrap();
        lemma_escape_unescape(rest, u2);
        assert(u == seq![x[0]] + u2);
        assert(escape_char(x[0]) =~= x.take(1));
        assert(u.skip(1) =~= u2);
        assert(spec_escape(u) == escape_char(x[0]) + spec_escape(u2));
        assert(x.take(1) + x.skip(1) =~= x);
    }
}

/// Canonical decoding, client direction: a line that decodes re-encodes to
/// exactly itself. With the round trip below, encoding is a bijection between
/// values and the lines the codec accepts.
pub proof fn lemma_decode_canonical_client(s: Seq<char>, m: ClientMsgV)
    requires
        spec_decode_client(s) == Some(m),
    ensures
        spec_encode_client(m) == s,
{
    reveal_strlit("\"Leave\"");
    reveal_strlit("{\"Join\":{\"username\":\"");
    reveal_strlit("{\"Send\":{\"message\":\"");
    reveal_strlit("\"}}");
    let n = s.len() as int;
    if s == ("\"Leave\"")@ {
    } else if n >= 24 && s.subrange(0, 21) == join_prefix() && s.subrange(n - 3, n)
        == object_suffix() {
        let mid = s.subrange(21, n - 3);
        let u = spec_unescape(mid).unwrap();
        lemma_escape_unescape(mid, u);
        assert(spec_encode_client(m) =~= s);
    } else {
        let mid = s.subrange(20, n - 3);
        let u = spec_unescape(mid).unwrap();
        lemma_escape_unescape(mid, u);
        assert(spec_encode_client(m) =~= s);
    }
}

/// Canonical decoding, server direction: a line that decodes re-encodes to
/// exactly itself.
pub proof fn lemma_decode_canonical_server(s: Seq<char>, m: ServerMsgV)
    requires
        spec_decode_server(s) == Some(m),
    ensures
        spec_encode_server(m) == s,
{
    reveal_strlit("\"JoinSuccess\"");
    reveal_strlit("{\"Message\":{\"message\":\"");
    reveal_strlit("{\"Err\":\"");
    reveal_strlit("\"}}");
    reveal_strlit("\"}");
    let n = s.len() as int;
    if s == ("\"JoinSuccess\"")@ {
    } else if n >= 26 && s.subrange(0, 23) == message_prefix() && s.subrange(n - 3, n)
        == object_suffix() {
        let mid = s.subrange(23, n - 3);
        let u = spec_unescape(mid).unwrap();
        lemma_escape_unescape(mid, u);
        assert(spec_encode_server(m) =~= s);
    } else {
        let mid = s.subrange(8, n - 2);
        let u = spec_unescape(mid).unwrap();
        lemma_escape_unescape(mid, u);
        assert(spec_encode_server(m) =~= s);
    }
}

/// Round trip, client direction: decoding an encoded value gives it back.
pub proof fn lemma_round_trip_client(m: ClientMsgV)
    ensures
        spec_decode_client(spec_encode_client(m)) == Some(m),
{
    reveal_strlit("\"Leave\"");
    reveal_strlit("{\"Join\":{\"username\":\"");
    reveal_strlit("{\"Send\":{\"message\":\"");
    reveal_strlit("\"}}");
    match m {
        ClientMsgV::Leave => {
        },
        ClientMsgV::Join { username } => {
            lemma_unescape_escape(username);
            let e = spec_escape(username);
            let s = spec_encode_client(m);
            let n = s.len() as int;
            assert(n == 24 + e.len());
            assert(s[0] == '{');
            assert(s != ("\"Leave\"")@);
            assert(s.subrange(0, 21) =~= join_prefix());
            assert(s.subrange(n - 3, n) =~= object_suffix());
            assert(s.subrange(21, n - 3) =~= e);
        },
        ClientMsgV::Send { message } => {
            lemma_unescape_escape(message);
            let e = spec_escape(message);
            let s = spec_encode_client(m);
            let n = s.len() as int;
            assert(n == 23 + e.len());
            assert(s[0] == '{');
            assert(s != ("\"Leave\"")@);
            assert(s[2] == 'S' && join_prefix()[2] == 'J');
            if n >= 24 {
                assert(s.subrange(0, 21)[2] == 'S');
                assert(s.subrange(0, 21) != join_prefix());
            }
            assert(s.subrange(0, 20) =~= send_prefix());
            assert(s.subrange(n - 3, n) =~= object_suffix());
            assert(s.subrange(20, n - 3) =~= e);
        },
    }
}

/// Round trip, server direction: decoding an encoded value gives it back.
pub proof fn lemma_round_trip_server(m: ServerMsgV)
    ensures
        spec_decode_server(spec_encode_server(m)) == Some(m),
{
    reveal_strlit("\"JoinSuccess\"");
    reveal_strlit("{\"Message\":{\"message\":\"");
    reveal_strlit("{\"Err\":\"");
    reveal_strlit("\"}}");
    reveal_strlit("\"}");
    match m {
        ServerMsgV::JoinSuccess => {
        },
        ServerMsgV::Message { message } => {
            lemma_unescape_escape(message);
            let e = spec_escape(message);
            let s = spec_encode_server(m);
            let n = s.len() as int;
            assert(n == 26 + e.len());
            assert(s[0] == '{');
            assert(s != ("\"JoinSuccess\"")@);
            assert(s.subrange(0, 23) =~= message_prefix());
            assert(s.subrange(n - 3, n) =~= object_suffix());
            assert(s.subrange(23, n - 3) =~= e);
        },
        ServerMsgV::Error { reason } => {
            lemma_unescape_escape(reason);
            let e = spec_escape(reason);
            let s = spec_encode_server(m);
            let n = s.len() as int;
            assert(n == 10 + e.len());
            assert(s[0] == '{');
            assert(s != ("\"JoinSuccess\"")@);
            assert(s[2] == 'E' && message_prefix()[2] == 'M');
            if n >= 26 {
                assert(s.subrange(0, 23)[2] == 'E');
                assert(s.subrange(0, 23) != message_prefix());
            }
            assert(s.subrange(0, 8) =~= err_prefix());
            assert(s.subrange(n - 2, n) =~= err_suffix());
            assert(s.subrange(8, n - 2) =~= e);
        },
    }
}

} // verus!
