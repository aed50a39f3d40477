//! The streaming grammar engine: terminals over a byte slice and a position.
//!
//! Every parser takes the whole input `s` and a position `i`, and returns the
//! position after what it matched, an `Incomplete` error when the input ends
//! before the production could be decided, or an `Invalid` error.
use vstd::prelude::*;

use crate::abnf::ByteClass;

verus! {

/// The grammar productions that an `Invalid` error names.
#[derive(Clone, Copy, Debug, PartialEq, Eq, Structural)]
pub enum Production {
    Crlf,
    Sp,
    Number,
    Base64,
    SubDomain,
    Domain,
    AddressLiteral,
    Ipv4AddressLiteral,
    Ipv6AddressLiteral,
    GeneralAddressLiteral,
    Atom,
    QuotedString,
    String,
    Path,
    Mailbox,
    EsmtpKeyword,
    EsmtpValue,
    Verb,
    Command,
    ReplyCode,
    TextString,
    Greeting,
    EhloGreet,
    EhloKeyword,
    EhloParam,
    EhloLine,
    EhloResponse,
    ReplyLines,
    Response,
    ReturnPathLine,
    ReceivedLine,
    DateTime,
    MsgId,
}

/// Why a parser produced no value.
#[derive(Clone, Copy, Debug, PartialEq, Eq, Structural)]
pub enum ParseError {
    /// The input ends inside the production: more bytes may complete it.
    Incomplete,
    /// The input cannot be extended to match: `offset` is the position of the
    /// token that failed, `production` the rule it belongs to.
    Invalid { offset: usize, production: Production },
}

pub open spec fn invalid<T>(i: int, p: Production) -> Result<T, ParseError> {
    Err(ParseError::Invalid { offset: i as usize, production: p })
}

pub open spec fn incomplete<T>() -> Result<T, ParseError> {
    Err(ParseError::Incomplete)
}

pub open spec fn ran_out<T>(r: Result<T, ParseError>) -> bool {
    r matches Err(ParseError::Incomplete)
}

/// Whether the parser ran out of input.
pub fn is_incomplete<T>(r: &Result<T, ParseError>) -> (b: bool)
    ensures
        b == ran_out(*r),
{
    matches!(r, Err(ParseError::Incomplete))
}

pub open spec fn ascii_lower(b: u8) -> u8 {
    if 0x41 <= b && b <= 0x5A {
        (b + 0x20) as u8
    } else {
        b
    }
}

pub open spec fn byte_matches(a: u8, b: u8, ci: bool) -> bool {
    if ci {
        ascii_lower(a) == ascii_lower(b)
    } else {
        a == b
    }
}

/// The bytes of `s` from `i` on agree with `lit` as far as both go.
#[verifier::opaque]
pub open spec fn agrees(s: Seq<u8>, i: int, lit: Seq<u8>, ci: bool) -> bool {
    forall|k: int|
        0 <= k < lit.len() && i + k < s.len() ==> byte_matches(#[trigger] s[i + k], lit[k], ci)
}

/// A literal, matched exactly or, with `ci`, ignoring ASCII case.
pub open spec fn spec_literal(s: Seq<u8>, i: int, lit: Seq<u8>, ci: bool, p: Production) -> Result<
    usize,
    ParseError,
> {
    if !agrees(s, i, lit, ci) {
        invalid(i, p)
    } else if s.len() < i + lit.len() {
        incomplete()
    } else {
        Ok((i + lit.len()) as usize)
    }
}

fn lower(b: u8) -> (r: u8)
    ensures
        r == ascii_lower(b),
{
    if 0x41 <= b && b <= 0x5A {
        b + 0x20
    } else {
        b
    }
}

/// The bytes of `s` from `i` to `j` are ASCII.
pub open spec fn ascii_span(s: Seq<u8>, i: int, j: int) -> bool {
    forall|k: int| i <= k < j ==> #[trigger] s[k] < 128
}

pub fn literal(s: &[u8], i: usize, lit: &[u8], ci: bool, p: Production) -> (r: Result<
    usize,
    ParseError,
>)
    requires
        i <= s@.len(),
    ensures
        r == spec_literal(s@, i as int, lit@, ci, p),
        r matches Ok(k) ==> k == i + lit@.len() && k <= s@.len() && (is_ascii_bytes(lit@)
            ==> ascii_span(s@, i as int, k as int)),
{
    reveal(agrees);
    let n = s.len();
    let mut k: usize = 0;
    while k < lit.len() && k < n - i
        invariant
            n == s@.len(),
            i <= s@.len(),
            k <= lit@.len(),
            k <= s@.len() - i,
            forall|m: int| 0 <= m < k ==> byte_matches(#[trigger] s@[i + m], lit@[m], ci),
        decreases lit@.len() - k,
    {
        let ok = if ci {
            lower(s[i + k]) == lower(lit[k])
        } else {
            s[i + k] == lit[k]
        };
        if !ok {
            reveal(agrees);
            assert(!byte_matches(s@[i + k as int], lit@[k as int], ci));
            return Err(ParseError::Invalid { offset: i, production: p });
        }
        k += 1;
    }
    reveal(agrees);
    if k < lit.len() {
        Err(ParseError::Incomplete)
    } else {
        assert(k == lit@.len());
        assert(is_ascii_bytes(lit@) ==> ascii_span(s@, i as int, i + k)) by {
            if is_ascii_bytes(lit@) {
                assert forall|m: int| i <= m < i + k implies #[trigger] s@[m] < 128 by {
                    assert(byte_matches(s@[i + (m - i)], lit@[m - i], ci));
                    assert(lit@[m - i] < 128);
                }
            }
        }
        Ok(i + k)
    }
}

/// The end of the run of bytes of class `c` that starts at `i`.
pub open spec fn scan(s: Seq<u8>, i: int, c: ByteClass) -> int
    decreases s.len() - i,
{
    if 0 <= i < s.len() && c.holds(s[i]) {
        scan(s, i + 1, c)
    } else {
        i
    }
}

pub proof fn lemma_scan_bounds(s: Seq<u8>, i: int, c: ByteClass)
    requires
        0 <= i <= s.len(),
    ensures
        i <= scan(s, i, c) <= s.len(),
        forall|k: int| i <= k < scan(s, i, c) ==> c.holds(#[trigger] s[k]),
        scan(s, i, c) < s.len() ==> !c.holds(s[scan(s, i, c)]),
    decreases s.len() - i,
{
    if i < s.len() && c.holds(s[i]) {
        lemma_scan_bounds(s, i + 1, c);
    }
}

pub fn scan_class(s: &[u8], i: usize, c: ByteClass) -> (j: usize)
    requires
        i <= s@.len(),
    ensures
        j == scan(s@, i as int, c),
        i <= j <= s@.len(),
{
    let mut j = i;
    while j < s.len() && c.contains(s[j])
        invariant
            i <= j <= s@.len(),
            scan(s@, j as int, c) == scan(s@, i as int, c),
        decreases s@.len() - j,
    {
        j += 1;
    }
    j
}

/// `*c`: a run that reaches the end of the input may go on.
pub open spec fn spec_many0(s: Seq<u8>, i: int, c: ByteClass) -> Result<usize, ParseError> {
    let j = scan(s, i, c);
    if j >= s.len() {
        incomplete()
    } else {
        Ok(j as usize)
    }
}

/// `1*c`
pub open spec fn spec_many1(s: Seq<u8>, i: int, c: ByteClass, p: Production) -> Result<
    usize,
    ParseError,
> {
    let j = scan(s, i, c);
    if j >= s.len() {
        incomplete()
    } else if j == i {
        invalid(i, p)
    } else {
        Ok(j as usize)
    }
}

/// `m*n c`: at least `m` and at most `n` bytes of class `c`.
pub open spec fn spec_many_m_n(
    s: Seq<u8>,
    i: int,
    c: ByteClass,
    m: int,
    n: int,
    p: Production,
) -> Result<usize, ParseError> {
    let j = scan(s, i, c);
    if j - i >= n {
        Ok((i + n) as usize)
    } else if j >= s.len() {
        incomplete()
    } else if j - i >= m {
        Ok(j as usize)
    } else {
        invalid(j, p)
    }
}

/// The bytes from `i` to `j` are of class `c`, and so ASCII.
pub open spec fn class_span(s: Seq<u8>, i: int, j: int, c: ByteClass) -> bool {
    &&& 0 <= i <= j <= s.len()
    &&& forall|k: int| i <= k < j ==> c.holds(#[trigger] s[k])
    &&& ascii_span(s, i, j)
}

pub proof fn lemma_run_span(s: Seq<u8>, i: int, c: ByteClass)
    requires
        0 <= i <= s.len(),
    ensures
        class_span(s, i, scan(s, i, c), c),
{
    lemma_scan_bounds(s, i, c);
    assert forall|k: int| i <= k < scan(s, i, c) implies #[trigger] s[k] < 128 by {
        crate::abnf::lemma_class_ascii(c, s[k]);
    }
}

pub fn many0(s: &[u8], i: usize, c: ByteClass) -> (r: Result<usize, ParseError>)
    requires
        i <= s@.len(),
    ensures
        r == spec_many0(s@, i as int, c),
        r matches Ok(k) ==> k < s@.len() && class_span(s@, i as int, k as int, c),
{
    proof {
        lemma_run_span(s@, i as int, c);
    }
    let j = scan_class(s, i, c);
    if j >= s.len() {
        Err(ParseError::Incomplete)
    } else {
        Ok(j)
    }
}

pub fn many1(s: &[u8], i: usize, c: ByteClass, p: Production) -> (r: Result<usize, ParseError>)
    requires
        i <= s@.len(),
    ensures
        r == spec_many1(s@, i as int, c, p),
        r matches Ok(k) ==> i < k < s@.len() && class_span(s@, i as int, k as int, c),
{
    proof {
        lemma_run_span(s@, i as int, c);
    }
    let j = scan_class(s, i, c);
    if j >= s.len() {
        Err(ParseError::Incomplete)
    } else if j == i {
        Err(ParseError::Invalid { offset: i, production: p })
    } else {
        Ok(j)
    }
}

pub fn many_m_n(s: &[u8], i: usize, c: ByteClass, m: usize, n: usize, p: Production) -> (r: Result<
    usize,
    ParseError,
>)
    requires
        i <= s@.len(),
        m <= n,
    ensures
        r == spec_many_m_n(s@, i as int, c, m as int, n as int, p),
        r matches Ok(k) ==> i + m <= k && class_span(s@, i as int, k as int, c),
{
    proof {
        lemma_run_span(s@, i as int, c);
    }
    let mut j = i;
    while j < s.len() && j - i < n && c.contains(s[j])
        invariant
            i <= j <= s@.len(),
            j - i <= n,
            scan(s@, j as int, c) == scan(s@, i as int, c),
        decreases s@.len() - j,
    {
        j += 1;
    }
    proof {
        lemma_scan_bounds(s@, j as int, c);
    }
    if j - i >= n {
        Ok(i + n)
    } else if j >= s.len() {
        Err(ParseError::Incomplete)
    } else if j - i >= m {
        Ok(j)
    } else {
        Err(ParseError::Invalid { offset: j, production: p })
    }
}

pub open spec fn crlf_bytes() -> Seq<u8> {
    seq![0x0Du8, 0x0Au8]
}

/// CRLF
pub open spec fn spec_crlf(s: Seq<u8>, i: int) -> Result<usize, ParseError> {
    spec_literal(s, i, crlf_bytes(), false, Production::Crlf)
}

pub fn crlf(s: &[u8], i: usize) -> (r: Result<usize, ParseError>)
    requires
        i <= s@.len(),
    ensures
        r == spec_crlf(s@, i as int),
        r matches Ok(k) ==> k == i + 2 && k <= s@.len() && ascii_span(s@, i as int, k as int),
{
    let lit: [u8; 2] = [0x0D, 0x0A];
    assert(lit@ == crlf_bytes());
    literal(s, i, lit.as_slice(), false, Production::Crlf)
}

/// A single byte `b`.
pub open spec fn spec_byte(s: Seq<u8>, i: int, b: u8, p: Production) -> Result<usize, ParseError> {
    if i >= s.len() {
        incomplete()
    } else if s[i] == b {
        Ok((i + 1) as usize)
    } else {
        invalid(i, p)
    }
}

pub fn byte(s: &[u8], i: usize, b: u8, p: Production) -> (r: Result<usize, ParseError>)
    requires
        i <= s@.len(),
    ensures
        r == spec_byte(s@, i as int, b, p),
        r matches Ok(k) ==> k == i + 1 && k <= s@.len() && s@[i as int] == b,
{
    if i >= s.len() {
        Err(ParseError::Incomplete)
    } else if s[i] == b {
        Ok(i + 1)
    } else {
        Err(ParseError::Invalid { offset: i, production: p })
    }
}

/// SP
pub open spec fn spec_sp(s: Seq<u8>, i: int) -> Result<usize, ParseError> {
    spec_byte(s, i, 0x20, Production::Sp)
}

pub fn sp(s: &[u8], i: usize) -> (r: Result<usize, ParseError>)
    requires
        i <= s@.len(),
    ensures
        r == spec_sp(s@, i as int),
        r matches Ok(k) ==> k == i + 1 && k <= s@.len() && s@[i as int] == 0x20,
{
    byte(s, i, 0x20, Production::Sp)
}

/// The value of a run of decimal digits.
pub open spec fn decimal_value(d: Seq<u8>) -> nat
    decreases d.len(),
{
    if d.len() == 0 {
        0
    } else {
        decimal_value(d.drop_last()) * 10 + (d.last() - 0x30) as nat
    }
}

/// number = 1*DIGIT, whose value must fit in a `u32`.
pub open spec fn spec_number(s: Seq<u8>, i: int) -> Result<(usize, u32), ParseError> {
    match spec_many1(s, i, ByteClass::Digit, Production::Number) {
        Ok(j) => if decimal_value(s.subrange(i, j as int)) <= u32::MAX {
            Ok((j, decimal_value(s.subrange(i, j as int)) as u32))
        } else {
            invalid(i, Production::Number)
        },
        Err(e) => Err(e),
    }
}

pub fn number(s: &[u8], i: usize) -> (r: Result<(usize, u32), ParseError>)
    requires
        i <= s@.len(),
    ensures
        r == spec_number(s@, i as int),
{
    let n = s.len();
    proof {
        lemma_scan_bounds(s@, i as int, ByteClass::Digit);
    }
    let j = match many1(s, i, ByteClass::Digit, Production::Number) {
        Ok(j) => j,
        Err(e) => return Err(e),
    };
    let mut k = i;
    let mut v: u64 = 0;
    while k < j
        invariant
            i <= k <= j <= s@.len(),
            j == scan(s@, i as int, ByteClass::Digit),
            spec_many1(s@, i as int, ByteClass::Digit, Production::Number) == Ok::<
                usize,
                ParseError,
            >(j),
            v == decimal_value(s@.subrange(i as int, k as int)),
            v <= u32::MAX,
            forall|m: int| i <= m < j ==> ByteClass::Digit.holds(#[trigger] s@[m]),
        decreases j - k,
    {
        let d = s[k];
        assert(s@.subrange(i as int, k + 1).drop_last() == s@.subrange(i as int, k as int));
        let w = v * 10 + (d - 0x30) as u64;
        if w > 0xFFFF_FFFF {
            proof {
                let d = s@.subrange(i as int, j as int);
                assert forall|m: int| 0 <= m < d.len() implies crate::abnf::spec_is_digit(
                    #[trigger] d[m],
                ) by {
                    assert(ByteClass::Digit.holds(s@[i + m]));
                }
                assert(decimal_value(s@.subrange(i as int, k + 1)) == w);
                lemma_decimal_grows(s@.subrange(i as int, j as int), (k + 1 - i) as int);
                assert(s@.subrange(i as int, j as int).subrange(0, k + 1 - i) == s@.subrange(
                    i as int,
                    k + 1,
                ));
                assert(decimal_value(s@.subrange(i as int, j as int)) > u32::MAX);
            }
            return Err(ParseError::Invalid { offset: i, production: Production::Number });
        }
        v = w;
        k += 1;
    }
    assert(s@.subrange(i as int, j as int) == s@.subrange(i as int, k as int));
    Ok((j, v as u32))
}

/// A longer run of digits is worth at least as much as its prefix.
pub proof fn lemma_decimal_grows(d: Seq<u8>, n: int)
    requires
        0 <= n <= d.len(),
        forall|m: int| 0 <= m < d.len() ==> crate::abnf::spec_is_digit(#[trigger] d[m]),
    ensures
        decimal_value(d) >= decimal_value(d.subrange(0, n)),
    decreases d.len() - n,
{
    if n < d.len() {
        lemma_decimal_grows(d, n + 1);
        assert(d.subrange(0, n + 1).drop_last() == d.subrange(0, n));
    } else {
        assert(d.subrange(0, n) == d);
    }
}

/// The characters that stand for the bytes of an ASCII text.
pub open spec fn chars_of(b: Seq<u8>) -> Seq<char> {
    b.map_values(|x: u8| x as char)
}

pub open spec fn is_ascii_bytes(b: Seq<u8>) -> bool {
    forall|k: int| 0 <= k < b.len() ==> #[trigger] b[k] < 128
}

/// Relies on `String::from_utf8_lossy`: ASCII bytes are valid UTF-8, and each
/// stands for the character of the same code.
#[verifier::external_body]
pub(crate) fn ascii_string(b: &[u8]) -> (r: String)
    requires
        is_ascii_bytes(b@),
    ensures
        r@ == chars_of(b@),
{
    String::from_utf8_lossy(b).into_owned()
}

/// The ASCII text `s[i..j]` as a string.
pub fn text_of(s: &[u8], i: usize, j: usize) -> (r: String)
    requires
        i <= j <= s@.len(),
        ascii_span(s@, i as int, j as int),
    ensures
        r@ == chars_of(s@.subrange(i as int, j as int)),
{
    assert forall|k: int| 0 <= k < j - i implies #[trigger] s@.subrange(i as int, j as int)[k]
        < 128 by {
        assert(s@[i + k] < 128);
    }
    ascii_string(vstd::slice::slice_subrange(s, i, j))
}

/// The view of a parse result.
pub open spec fn view_result<T: View>(r: Result<(usize, T), ParseError>) -> Result<
    (usize, T::V),
    ParseError,
> {
    match r {
        Ok((j, v)) => Ok((j, v@)),
        Err(e) => Err(e),
    }
}

/// The first of two alternatives that succeeds; otherwise `Incomplete` if
/// either ran out of input, else `Invalid` at `i` for `p`.
pub open spec fn alt2<T>(
    a: Result<T, ParseError>,
    b: Result<T, ParseError>,
    i: int,
    p: Production,
) -> Result<T, ParseError> {
    if a is Ok {
        a
    } else if b is Ok {
        b
    } else if ran_out(a) || ran_out(b) {
        incomplete()
    } else {
        invalid(i, p)
    }
}

/// The text of `s[i..j]`.
pub open spec fn str_at(s: Seq<u8>, i: int, j: int) -> Seq<char> {
    chars_of(s.subrange(i, j))
}

/// The parse of `s` is `expected`: on success, what was matched is a prefix
/// of `s`, `r` holds the bytes after it, and the value whose view was
/// expected.
pub open spec fn parsed<T: View>(
    s: Seq<u8>,
    expected: Result<(usize, T::V), ParseError>,
    r: Result<(&[u8], T), ParseError>,
) -> bool {
    match expected {
        Ok((k, v)) => match r {
            Ok((rem, x)) => k <= s.len() && rem@ == s.subrange(k as int, s.len() as int) && x@
                == v,
            Err(_) => false,
        },
        Err(e) => match r {
            Ok(_) => false,
            Err(e2) => e2 == e,
        },
    }
}

pub fn finish<'a, T: View>(input: &'a [u8], r: Result<(usize, T), ParseError>) -> (out: Result<
    (&'a [u8], T),
    ParseError,
>)
    requires
        r matches Ok((k, _)) ==> k <= input@.len(),
    ensures
        parsed(input@, view_result(r), out),
{
    match r {
        Ok((k, v)) => Ok((vstd::slice::slice_subrange(input, k, input.len()), v)),
        Err(e) => Err(e),
    }
}

/// Appends `b` to `out`.
pub fn push_bytes(out: &mut Vec<u8>, b: &[u8])
    ensures
        final(out)@ == old(out)@ + b@,
{
    let mut k: usize = 0;
    while k < b.len()
        invariant
            k <= b@.len(),
            out@ == old(out)@ + b@.subrange(0, k as int),
        decreases b@.len() - k,
    {
        out.push(b[k]);
        k += 1;
        assert(b@.subrange(0, k as int) == b@.subrange(0, k - 1).push(b@[k - 1]));
    }
    assert(b@.subrange(0, k as int) == b@);
}

} // verus!
