//! Text helpers: decimal numbers, quoted-string escaping, lines, and the
//! rendering of bytes for diagnostics.
use vstd::prelude::*;

use vstd::string::StringSliceAdditionalSpecFns;

use crate::grammar::{ascii_string, chars_of, is_ascii_bytes};

verus! {

/// The decimal digits of `n`, without leading zeros.
pub open spec fn decimal(n: nat) -> Seq<u8>
    decreases n,
{
    if n < 10 {
        seq![(0x30 + n) as u8]
    } else {
        decimal(n / 10).push((0x30 + n % 10) as u8)
    }
}

/// Appends the decimal digits of `n` to `out`.
pub fn push_decimal(out: &mut Vec<u8>, n: u32)
    ensures
        final(out)@ == old(out)@ + decimal(n as nat),
    decreases n,
{
    if n >= 10 {
        push_decimal(out, n / 10);
    }
    out.push((0x30 + n % 10) as u8);
}

/// The interior of a quoted-string for `b`: each backslash and each double
/// quote gets a backslash before it.
pub open spec fn escape_bytes(b: Seq<u8>) -> Seq<u8>
    decreases b.len(),
{
    if b.len() == 0 {
        seq![]
    } else if b[0] == 0x5C || b[0] == 0x22 {
        seq![0x5Cu8, b[0]] + escape_bytes(b.drop_first())
    } else {
        seq![b[0]] + escape_bytes(b.drop_first())
    }
}

/// The text that the interior `b` of a quoted-string stands for, read from
/// left to right: `\\` stands for a backslash and `\"` for a double quote;
/// every other byte stands for itself.
pub open spec fn unescape_bytes(b: Seq<u8>) -> Seq<u8>
    decreases b.len(),
{
    if b.len() == 0 {
        seq![]
    } else if b.len() >= 2 && b[0] == 0x5C && (b[1] == 0x5C || b[1] == 0x22) {
        seq![b[1]] + unescape_bytes(b.subrange(2, b.len() as int))
    } else {
        seq![b[0]] + unescape_bytes(b.drop_first())
    }
}

/// On the wire, unescaping the escaped bytes of a text gives them back: a
/// quoted-string that a serializer wrote reads back as what it quoted.
pub proof fn lemma_unescape_escape(b: Seq<u8>)
    ensures
        unescape_bytes(escape_bytes(b)) == b,
    decreases b.len(),
{
    if b.len() > 0 {
        lemma_unescape_escape(b.drop_first());
        let e = escape_bytes(b);
        let rest = escape_bytes(b.drop_first());
        if b[0] == 0x5C || b[0] == 0x22 {
            assert(e.subrange(2, e.len() as int) == rest);
        } else {
            assert(e.drop_first() == rest);
        }
        assert(b == seq![b[0]] + b.drop_first());
    }
}

pub proof fn lemma_unescape_ascii(b: Seq<u8>)
    requires
        is_ascii_bytes(b),
    ensures
        is_ascii_bytes(unescape_bytes(b)),
    decreases b.len(),
{
    if b.len() >= 2 && b[0] == 0x5C && (b[1] == 0x5C || b[1] == 0x22) {
        lemma_unescape_ascii(b.subrange(2, b.len() as int));
    } else if b.len() > 0 {
        lemma_unescape_ascii(b.drop_first());
    }
}

/// Appends the escaped form of `b` to `out`.
pub fn push_escaped(out: &mut Vec<u8>, b: &[u8])
    ensures
        final(out)@ == old(out)@ + escape_bytes(b@),
{
    let mut k: usize = 0;
    assert(b@.subrange(0, b@.len() as int) == b@);
    while k < b.len()
        invariant
            k <= b@.len(),
            out@ + escape_bytes(b@.subrange(k as int, b@.len() as int)) == old(out)@
                + escape_bytes(b@),
        decreases b@.len() - k,
    {
        let ghost rest = b@.subrange(k as int, b@.len() as int);
        assert(rest.drop_first() == b@.subrange(k + 1, b@.len() as int));
        if b[k] == 0x5C || b[k] == 0x22 {
            out.push(0x5C);
        }
        out.push(b[k]);
        k += 1;
        proof {
            if b@[k - 1] == 0x5C || b@[k - 1] == 0x22 {
                assert(escape_bytes(rest) == seq![0x5Cu8, b@[k - 1]] + escape_bytes(
                    rest.drop_first(),
                ));
            } else {
                assert(escape_bytes(rest) == seq![b@[k - 1]] + escape_bytes(rest.drop_first()));
            }
        }
    }
    assert(b@.subrange(k as int, b@.len() as int) == Seq::<u8>::empty());
}

/// The unescaped form of `b`.
pub fn unescaped(b: &[u8]) -> (r: Vec<u8>)
    ensures
        r@ == unescape_bytes(b@),
{
    let mut out: Vec<u8> = Vec::new();
    let mut k: usize = 0;
    assert(b@.subrange(0, b@.len() as int) == b@);
    assert(out@ + unescape_bytes(b@) == unescape_bytes(b@));
    while k < b.len()
        invariant
            k <= b@.len(),
            out@ + unescape_bytes(b@.subrange(k as int, b@.len() as int)) == unescape_bytes(
                b@,
            ),
        decreases b@.len() - k,
    {
        let ghost rest = b@.subrange(k as int, b@.len() as int);
        if k + 1 < b.len() && b[k] == 0x5C && (b[k + 1] == 0x5C || b[k + 1] == 0x22) {
            out.push(b[k + 1]);
            assert(rest.subrange(2, rest.len() as int) == b@.subrange(k + 2, b@.len() as int));
            k += 2;
        } else {
            out.push(b[k]);
            assert(rest.drop_first() == b@.subrange(k + 1, b@.len() as int));
            k += 1;
        }
    }
    assert(b@.subrange(k as int, b@.len() as int) == Seq::<u8>::empty());
    out
}

/// The bytes of an ASCII string.
pub open spec fn ascii_bytes(s: Seq<char>) -> Seq<u8> {
    s.map_values(|c: char| c as u8)
}

/// The interior of a quoted-string for the text `s`: each backslash and
/// each double quote gets a backslash before it.
pub open spec fn escape_chars(s: Seq<char>) -> Seq<char>
    decreases s.len(),
{
    if s.len() == 0 {
        seq![]
    } else if s[0] == '\\' || s[0] == '"' {
        seq!['\\', s[0]] + escape_chars(s.drop_first())
    } else {
        seq![s[0]] + escape_chars(s.drop_first())
    }
}

/// The text that the interior `s` of a quoted-string stands for, read from
/// left to right: `\\` stands for a backslash and `\"` for a double quote;
/// every other character stands for itself.
pub open spec fn unescape_chars(s: Seq<char>) -> Seq<char>
    decreases s.len(),
{
    if s.len() == 0 {
        seq![]
    } else if s.len() >= 2 && s[0] == '\\' && (s[1] == '\\' || s[1] == '"') {
        seq![s[1]] + unescape_chars(s.subrange(2, s.len() as int))
    } else {
        seq![s[0]] + unescape_chars(s.drop_first())
    }
}

/// Unescaping an escaped text gives the text back.
pub proof fn lemma_unescape_escape_chars(s: Seq<char>)
    ensures
        unescape_chars(escape_chars(s)) == s,
    decreases s.len(),
{
    if s.len() > 0 {
        lemma_unescape_escape_chars(s.drop_first());
        let e = escape_chars(s);
        let rest = escape_chars(s.drop_first());
        if s[0] == '\\' || s[0] == '"' {
            assert(e.subrange(2, e.len() as int) == rest);
        } else {
            assert(e.drop_first() == rest);
        }
        assert(s == seq![s[0]] + s.drop_first());
    }
}

/// A text without a backslash is its own interior reading.
pub proof fn lemma_unescape_plain(s: Seq<char>)
    requires
        forall|k: int| 0 <= k < s.len() ==> #[trigger] s[k] != '\\',
    ensures
        unescape_chars(s) == s,
    decreases s.len(),
{
    if s.len() > 0 {
        lemma_unescape_plain(s.drop_first());
        assert(s == seq![s[0]] + s.drop_first());
    }
}

/// Relies on `String`'s `FromIterator<&char>`: the string holds the
/// characters in order.
#[verifier::external_body]
fn string_of_chars(v: &Vec<char>) -> (r: String)
    ensures
        r@ == v@,
{
    v.iter().collect()
}

fn chars_vec(s: &str) -> (r: Vec<char>)
    ensures
        r@ == s@,
{
    let n = vstd::string::StrSliceExecFns::unicode_len(s);
    let mut out: Vec<char> = Vec::new();
    let mut k: usize = 0;
    while k < n
        invariant
            n == s@.len(),
            k <= n,
            out@ == s@.subrange(0, k as int),
        decreases n - k,
    {
        out.push(vstd::string::StrSliceExecFns::get_char(s, k));
        k += 1;
        assert(out@ == s@.subrange(0, k as int));
    }
    assert(s@.subrange(0, n as int) == s@);
    out
}

/// Escapes a text for the interior of a quoted-string: `\` becomes `\\` and
/// `"` becomes `\"`; every other character is kept.
pub fn escape_quoted(s: &str) -> (r: String)
    ensures
        r@ == escape_chars(s@),
{
    let c = chars_vec(s);
    let mut out: Vec<char> = Vec::new();
    let mut k: usize = 0;
    assert(c@.subrange(0, c@.len() as int) == c@);
    while k < c.len()
        invariant
            k <= c@.len(),
            out@ + escape_chars(c@.subrange(k as int, c@.len() as int)) == escape_chars(c@),
        decreases c@.len() - k,
    {
        let ghost rest = c@.subrange(k as int, c@.len() as int);
        assert(rest.drop_first() == c@.subrange(k + 1, c@.len() as int));
        if c[k] == '\\' || c[k] == '"' {
            out.push('\\');
        }
        out.push(c[k]);
        k += 1;
    }
    assert(c@.subrange(k as int, c@.len() as int) == Seq::<char>::empty());
    assert(out@ + Seq::<char>::empty() == out@);
    string_of_chars(&out)
}

/// Reads the interior of a quoted-string back: `\\` becomes `\` and `\"`
/// becomes `"`; every other character is kept, so a text without a
/// backslash comes back unchanged.
pub fn unescape_quoted(s: &str) -> (r: String)
    ensures
        r@ == unescape_chars(s@),
        (forall|k: int| 0 <= k < s@.len() ==> #[trigger] s@[k] != '\\') ==> r@ == s@,
{
    proof {
        if forall|k: int| 0 <= k < s@.len() ==> #[trigger] s@[k] != '\\' {
            lemma_unescape_plain(s@);
        }
    }
    let c = chars_vec(s);
    let mut out: Vec<char> = Vec::new();
    let mut k: usize = 0;
    assert(c@.subrange(0, c@.len() as int) == c@);
    assert(out@ + unescape_chars(c@) == unescape_chars(c@));
    while k < c.len()
        invariant
            k <= c@.len(),
            out@ + unescape_chars(c@.subrange(k as int, c@.len() as int)) == unescape_chars(c@),
        decreases c@.len() - k,
    {
        let ghost rest = c@.subrange(k as int, c@.len() as int);
        if k + 1 < c.len() && c[k] == '\\' && (c[k + 1] == '\\' || c[k + 1] == '"') {
            out.push(c[k + 1]);
            assert(rest.subrange(2, rest.len() as int) == c@.subrange(k + 2, c@.len() as int));
            k += 2;
        } else {
            out.push(c[k]);
            assert(rest.drop_first() == c@.subrange(k + 1, c@.len() as int));
            k += 1;
        }
    }
    assert(c@.subrange(k as int, c@.len() as int) == Seq::<char>::empty());
    assert(out@ + Seq::<char>::empty() == out@);
    string_of_chars(&out)
}

pub open spec fn hex_digit(n: u8) -> u8 {
    if n < 10 {
        (0x30 + n) as u8
    } else {
        (0x61 + n - 10) as u8
    }
}

/// How one byte is shown: `\t`, `\n` followed by a line break, `\r`, `\\`,
/// printable ASCII as itself, and any other byte as `\x` and two lower-case
/// hex digits.
pub open spec fn shown_byte(b: u8) -> Seq<u8> {
    if b == 0x09 {
        seq![0x5Cu8, 0x74u8]
    } else if b == 0x0A {
        seq![0x5Cu8, 0x6Eu8, 0x0Au8]
    } else if b == 0x0D {
        seq![0x5Cu8, 0x72u8]
    } else if b == 0x5C {
        seq![0x5Cu8, 0x5Cu8]
    } else if 0x20 <= b && b <= 0x7E {
        seq![b]
    } else {
        seq![0x5Cu8, 0x78u8, hex_digit(b / 16), hex_digit(b % 16)]
    }
}

/// How a byte sequence is shown, byte by byte.
pub open spec fn shown(b: Seq<u8>) -> Seq<u8>
    decreases b.len(),
{
    if b.len() == 0 {
        seq![]
    } else {
        shown(b.drop_last()) + shown_byte(b.last())
    }
}

fn hex(n: u8) -> (r: u8)
    requires
        n < 16,
    ensures
        r == hex_digit(n),
        r < 128,
{
    if n < 10 {
        0x30 + n
    } else {
        0x61 + n - 10
    }
}

fn push_shown(out: &mut Vec<u8>, b: u8)
    ensures
        final(out)@ == old(out)@ + shown_byte(b),
        is_ascii_bytes(shown_byte(b)),
{
    if b == 0x09 {
        out.push(0x5C);
        out.push(0x74);
    } else if b == 0x0A {
        out.push(0x5C);
        out.push(0x6E);
        out.push(0x0A);
    } else if b == 0x0D {
        out.push(0x5C);
        out.push(0x72);
    } else if b == 0x5C {
        out.push(0x5C);
        out.push(0x5C);
    } else if 0x20 <= b && b <= 0x7E {
        out.push(b);
    } else {
        out.push(0x5C);
        out.push(0x78);
        out.push(hex(b / 16));
        out.push(hex(b % 16));
    }
    assert(final(out)@ == old(out)@ + shown_byte(b));
}

/// Renders arbitrary bytes readably for diagnostics.
pub fn escape(bytes: &[u8]) -> (r: String)
    ensures
        r@ == chars_of(shown(bytes@)),
{
    let mut out: Vec<u8> = Vec::new();
    let mut k: usize = 0;
    while k < bytes.len()
        invariant
            k <= bytes@.len(),
            out@ == shown(bytes@.subrange(0, k as int)),
            is_ascii_bytes(out@),
        decreases bytes@.len() - k,
    {
        let ghost before = out@;
        push_shown(&mut out, bytes[k]);
        k += 1;
        assert(bytes@.subrange(0, k as int).drop_last() == bytes@.subrange(0, k - 1));
        assert(is_ascii_bytes(out@)) by {
            assert forall|m: int| 0 <= m < out@.len() implies #[trigger] out@[m] < 128 by {
                if m >= before.len() {
                    assert(out@[m] == shown_byte(bytes@[k - 1])[m - before.len()]);
                }
            }
        }
    }
    assert(bytes@.subrange(0, k as int) == bytes@);
    ascii_string(out.as_slice())
}

} // verus!
