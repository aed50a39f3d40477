//! Domains and address literals (RFC 5321, 4.1.2 and 4.1.3).
use vstd::prelude::*;

use crate::abnf::{ByteClass, is_Let_dig, spec_is_let_dig};
use crate::grammar::{
    alt2, view_result,
    ParseError, Production, byte, literal, spec_literal, is_incomplete, ran_out, chars_of, incomplete, invalid, ascii_span, lemma_scan_bounds,
    many1, many_m_n, spec_byte, spec_many1, spec_many_m_n, text_of,
};
use crate::types::{DomainOrAddress, DomainOrAddressView};

verus! {

/// The rest of a run of bytes of class `c`, from `j`, where the byte before
/// `j` is of class `c`: a `-` (where `dash` is set) or a `.` (where `dot` is
/// set) belongs to the run only where a byte of class `c` follows it.
pub open spec fn spec_joined_run(s: Seq<u8>, j: int, c: ByteClass, dash: bool, dot: bool) -> Result<
    usize,
    ParseError,
>
    decreases s.len() - j,
{
    if j < 0 || j >= s.len() {
        incomplete()
    } else if c.holds(s[j]) {
        spec_joined_run(s, j + 1, c, dash, dot)
    } else if (dash && s[j] == 0x2D) || (dot && s[j] == 0x2E) {
        if j + 1 >= s.len() {
            incomplete()
        } else if c.holds(s[j + 1]) {
            spec_joined_run(s, j + 2, c, dash, dot)
        } else {
            Ok(j as usize)
        }
    } else {
        Ok(j as usize)
    }
}

pub proof fn lemma_joined_run(s: Seq<u8>, j: int, c: ByteClass, dash: bool, dot: bool)
    requires
        0 <= j,
        s.len() <= usize::MAX,
    ensures
        spec_joined_run(s, j, c, dash, dot) matches Ok(k) ==> j <= k < s.len(),
    decreases s.len() - j,
{
    if j < s.len() {
        if c.holds(s[j]) {
            lemma_joined_run(s, j + 1, c, dash, dot);
        } else if (dash && s[j] == 0x2D) || (dot && s[j] == 0x2E) {
            if j + 1 < s.len() && c.holds(s[j + 1]) {
                lemma_joined_run(s, j + 2, c, dash, dot);
            }
        }
    }
}

pub fn joined_run(s: &[u8], start: usize, c: ByteClass, dash: bool, dot: bool) -> (r: Result<
    usize,
    ParseError,
>)
    requires
        start <= s@.len(),
    ensures
        r == spec_joined_run(s@, start as int, c, dash, dot),
        r matches Ok(k) ==> start <= k <= s@.len() && ascii_span(s@, start as int, k as int),
{
    let n = s.len();
    let mut j = start;
    while j < n
        invariant
            n == s@.len(),
            j <= n,
            start <= j,
            spec_joined_run(s@, j as int, c, dash, dot) == spec_joined_run(
                s@,
                start as int,
                c,
                dash,
                dot,
            ),
            ascii_span(s@, start as int, j as int),
        decreases n - j,
    {
        let b = s[j];
        proof {
            crate::abnf::lemma_class_ascii(c, b);
        }
        if c.contains(b) {
            j += 1;
        } else if (dash && b == 0x2D) || (dot && b == 0x2E) {
            if j + 1 >= n {
                return Err(ParseError::Incomplete);
            } else if c.contains(s[j + 1]) {
                proof {
                    crate::abnf::lemma_class_ascii(c, s@[j + 1]);
                }
                j += 2;
            } else {
                return Ok(j);
            }
        } else {
            return Ok(j);
        }
    }
    Err(ParseError::Incomplete)
}

/// Domain = sub-domain *("." sub-domain), where
/// sub-domain = Let-dig [Ldh-str]
pub open spec fn spec_domain(s: Seq<u8>, i: int) -> Result<usize, ParseError> {
    if i >= s.len() {
        incomplete()
    } else if !spec_is_let_dig(s[i]) {
        invalid(i, Production::Domain)
    } else {
        spec_joined_run(s, i + 1, ByteClass::LetDig, true, true)
    }
}

pub fn domain(s: &[u8], i: usize) -> (r: Result<usize, ParseError>)
    requires
        i <= s@.len(),
    ensures
        r == spec_domain(s@, i as int),
        r matches Ok(k) ==> i < k <= s@.len() && ascii_span(s@, i as int, k as int),
{
    if i >= s.len() {
        Err(ParseError::Incomplete)
    } else if !is_Let_dig(s[i]) {
        Err(ParseError::Invalid { offset: i, production: Production::Domain })
    } else {
        joined_run(s, i + 1, ByteClass::LetDig, true, true)
    }
}

/// sub-domain = Let-dig [Ldh-str]
pub open spec fn spec_sub_domain(s: Seq<u8>, i: int) -> Result<usize, ParseError> {
    if i >= s.len() {
        incomplete()
    } else if !spec_is_let_dig(s[i]) {
        invalid(i, Production::SubDomain)
    } else {
        spec_joined_run(s, i + 1, ByteClass::LetDig, true, false)
    }
}

/// Matches a sub-domain at the start of `input`: the result holds the rest
/// of the input and the sub-domain.
pub fn sub_domain(input: &[u8]) -> (r: Result<(&[u8], &[u8]), ParseError>)
    ensures
        match spec_sub_domain(input@, 0) {
            Ok(k) => match r {
                Ok((rem, m)) => rem@ == input@.subrange(k as int, input@.len() as int) && m@
                    == input@.subrange(0, k as int),
                Err(_) => false,
            },
            Err(e) => match r {
                Ok(_) => false,
                Err(e2) => e2 == e,
            },
        },
{
    if input.len() == 0 {
        return Err(ParseError::Incomplete);
    }
    if !is_Let_dig(input[0]) {
        return Err(ParseError::Invalid { offset: 0, production: Production::SubDomain });
    }
    match joined_run(input, 1, ByteClass::LetDig, true, false) {
        Ok(k) => Ok(
            (
                vstd::slice::slice_subrange(input, k, input.len()),
                vstd::slice::slice_subrange(input, 0, k),
            ),
        ),
        Err(e) => Err(e),
    }
}

/// Ldh-str = *( ALPHA / DIGIT / "-" ) Let-dig, where a run may be empty.
pub open spec fn spec_ldh_str(s: Seq<u8>, i: int) -> Result<usize, ParseError> {
    spec_joined_run(s, i, ByteClass::LetDig, true, false)
}

/// Snum = 1*3DIGIT
pub open spec fn spec_snum(s: Seq<u8>, i: int) -> Result<usize, ParseError> {
    spec_many_m_n(s, i, ByteClass::Digit, 1, 3, Production::Ipv4AddressLiteral)
}

/// "." Snum
pub open spec fn spec_dot_snum(s: Seq<u8>, i: int) -> Result<usize, ParseError> {
    match spec_byte(s, i, 0x2E, Production::Ipv4AddressLiteral) {
        Ok(j) => spec_snum(s, j as int),
        Err(e) => Err(e),
    }
}

/// IPv4-address-literal = Snum 3("." Snum)
pub open spec fn spec_ipv4(s: Seq<u8>, i: int) -> Result<usize, ParseError> {
    match spec_snum(s, i) {
        Ok(j1) => match spec_dot_snum(s, j1 as int) {
            Ok(j2) => match spec_dot_snum(s, j2 as int) {
                Ok(j3) => spec_dot_snum(s, j3 as int),
                Err(e) => Err(e),
            },
            Err(e) => Err(e),
        },
        Err(e) => Err(e),
    }
}

fn dot_snum(s: &[u8], i: usize) -> (r: Result<usize, ParseError>)
    requires
        i <= s@.len(),
    ensures
        r == spec_dot_snum(s@, i as int),
        r matches Ok(k) ==> i <= k <= s@.len() && ascii_span(s@, i as int, k as int),
{
    let j = match byte(s, i, 0x2E, Production::Ipv4AddressLiteral) {
        Ok(j) => j,
        Err(e) => return Err(e),
    };
    proof {
        lemma_scan_bounds(s@, j as int, ByteClass::Digit);
    }
    many_m_n(s, j, ByteClass::Digit, 1, 3, Production::Ipv4AddressLiteral)
}

pub fn ipv4_address_literal(s: &[u8], i: usize) -> (r: Result<usize, ParseError>)
    requires
        i <= s@.len(),
    ensures
        r == spec_ipv4(s@, i as int),
        r matches Ok(k) ==> i <= k <= s@.len() && ascii_span(s@, i as int, k as int),
{
    proof {
        lemma_scan_bounds(s@, i as int, ByteClass::Digit);
    }
    let j1 = match many_m_n(s, i, ByteClass::Digit, 1, 3, Production::Ipv4AddressLiteral) {
        Ok(j) => j,
        Err(e) => return Err(e),
    };
    let j2 = match dot_snum(s, j1) {
        Ok(j) => j,
        Err(e) => return Err(e),
    };
    let j3 = match dot_snum(s, j2) {
        Ok(j) => j,
        Err(e) => return Err(e),
    };
    dot_snum(s, j3)
}

/// General-address-literal = Standardized-tag ":" 1*dcontent, where
/// Standardized-tag = Ldh-str
pub open spec fn spec_general(s: Seq<u8>, i: int) -> Result<usize, ParseError> {
    match spec_ldh_str(s, i) {
        Ok(j) => match spec_byte(s, j as int, 0x3A, Production::GeneralAddressLiteral) {
            Ok(k) => spec_many1(s, k as int, ByteClass::Dcontent, Production::GeneralAddressLiteral),
            Err(e) => Err(e),
        },
        Err(e) => Err(e),
    }
}

pub fn general_address_literal(s: &[u8], i: usize) -> (r: Result<usize, ParseError>)
    requires
        i <= s@.len(),
    ensures
        r == spec_general(s@, i as int),
        r matches Ok(k) ==> i <= k <= s@.len() && ascii_span(s@, i as int, k as int),
{
    let j = match joined_run(s, i, ByteClass::LetDig, true, false) {
        Ok(j) => j,
        Err(e) => return Err(e),
    };
    let k = match byte(s, j, 0x3A, Production::GeneralAddressLiteral) {
        Ok(k) => k,
        Err(e) => return Err(e),
    };
    proof {
        lemma_scan_bounds(s@, k as int, ByteClass::Dcontent);
    }
    many1(s, k, ByteClass::Dcontent, Production::GeneralAddressLiteral)
}

// ----- IPv6 -----

/// IPv6-hex = 1*4HEXDIG
pub open spec fn spec_hex(s: Seq<u8>, i: int) -> Result<usize, ParseError> {
    spec_many_m_n(s, i, ByteClass::HexDigit, 1, 4, Production::Ipv6AddressLiteral)
}

/// ":" IPv6-hex
pub open spec fn spec_colon_hex(s: Seq<u8>, i: int) -> Result<usize, ParseError> {
    match spec_byte(s, i, 0x3A, Production::Ipv6AddressLiteral) {
        Ok(j) => spec_hex(s, j as int),
        Err(e) => Err(e),
    }
}

/// n(":" IPv6-hex)
pub open spec fn spec_colon_hex_n(s: Seq<u8>, i: int, n: nat) -> Result<usize, ParseError>
    decreases n,
{
    if n == 0 {
        Ok(i as usize)
    } else {
        match spec_colon_hex(s, i) {
            Ok(j) => spec_colon_hex_n(s, j as int, (n - 1) as nat),
            Err(e) => Err(e),
        }
    }
}

/// *n(":" IPv6-hex): as many as match, up to `n`.
pub open spec fn spec_colon_hex_upto(s: Seq<u8>, i: int, n: nat) -> Result<usize, ParseError>
    decreases n,
{
    if n == 0 {
        Ok(i as usize)
    } else {
        match spec_colon_hex(s, i) {
            Ok(j) => spec_colon_hex_upto(s, j as int, (n - 1) as nat),
            Err(ParseError::Incomplete) => incomplete(),
            Err(_) => Ok(i as usize),
        }
    }
}

/// [IPv6-hex *n(":" IPv6-hex)]
pub open spec fn spec_hex_group(s: Seq<u8>, i: int, n: nat) -> Result<usize, ParseError> {
    match spec_hex(s, i) {
        Ok(j) => spec_colon_hex_upto(s, j as int, n),
        Err(ParseError::Incomplete) => incomplete(),
        Err(_) => Ok(i as usize),
    }
}

/// [IPv6-hex *n(":" IPv6-hex) ":"]
pub open spec fn spec_hex_group_colon(s: Seq<u8>, i: int, n: nat) -> Result<usize, ParseError> {
    match spec_hex(s, i) {
        Ok(j) => match spec_colon_hex_upto(s, j as int, n) {
            Ok(m) => match spec_byte(s, m as int, 0x3A, Production::Ipv6AddressLiteral) {
                Ok(e) => Ok(e),
                Err(ParseError::Incomplete) => incomplete(),
                Err(_) => Ok(i as usize),
            },
            Err(e) => Err(e),
        },
        Err(ParseError::Incomplete) => incomplete(),
        Err(_) => Ok(i as usize),
    }
}

/// IPv6-full = IPv6-hex 7(":" IPv6-hex)
pub open spec fn spec_ipv6_full(s: Seq<u8>, i: int) -> Result<usize, ParseError> {
    match spec_hex(s, i) {
        Ok(j) => spec_colon_hex_n(s, j as int, 7),
        Err(e) => Err(e),
    }
}

/// IPv6-comp = [IPv6-hex *5(":" IPv6-hex)] "::" [IPv6-hex *5(":" IPv6-hex)]
pub open spec fn spec_ipv6_comp(s: Seq<u8>, i: int) -> Result<usize, ParseError> {
    match spec_hex_group(s, i, 5) {
        Ok(j) => match spec_literal(s, j as int, seq![0x3Au8, 0x3A] /* "::" */, false, Production::Ipv6AddressLiteral) {
            Ok(k) => spec_hex_group(s, k as int, 5),
            Err(e) => Err(e),
        },
        Err(e) => Err(e),
    }
}

/// IPv6v4-full = IPv6-hex 5(":" IPv6-hex) ":" IPv4-address-literal
pub open spec fn spec_ipv6v4_full(s: Seq<u8>, i: int) -> Result<usize, ParseError> {
    match spec_hex(s, i) {
        Ok(j) => match spec_colon_hex_n(s, j as int, 5) {
            Ok(k) => match spec_byte(s, k as int, 0x3A, Production::Ipv6AddressLiteral) {
                Ok(m) => spec_ipv4(s, m as int),
                Err(e) => Err(e),
            },
            Err(e) => Err(e),
        },
        Err(e) => Err(e),
    }
}

/// IPv6v4-comp = [IPv6-hex *3(":" IPv6-hex)] "::"
///               [IPv6-hex *3(":" IPv6-hex) ":"] IPv4-address-literal
pub open spec fn spec_ipv6v4_comp(s: Seq<u8>, i: int) -> Result<usize, ParseError> {
    match spec_hex_group(s, i, 3) {
        Ok(j) => match spec_literal(s, j as int, seq![0x3Au8, 0x3A] /* "::" */, false, Production::Ipv6AddressLiteral) {
            Ok(k) => match spec_hex_group_colon(s, k as int, 3) {
                Ok(m) => spec_ipv4(s, m as int),
                Err(e) => Err(e),
            },
            Err(e) => Err(e),
        },
        Err(e) => Err(e),
    }
}

/// An alternative inside an address literal counts only where the closing
/// bracket follows what it matched.
pub open spec fn spec_closed(s: Seq<u8>, r: Result<usize, ParseError>) -> Result<usize, ParseError> {
    match r {
        Ok(k) => if k >= s.len() {
            incomplete()
        } else if s[k as int] == 0x5D {
            Ok(k)
        } else {
            invalid(k as int, Production::AddressLiteral)
        },
        Err(e) => Err(e),
    }
}

fn closed(s: &[u8], r: Result<usize, ParseError>) -> (out: Result<usize, ParseError>)
    requires
        r matches Ok(k) ==> k <= s@.len(),
    ensures
        out == spec_closed(s@, r),
        out matches Ok(k) ==> r == Ok::<usize, ParseError>(k),
{
    match r {
        Ok(k) => if k >= s.len() {
            Err(ParseError::Incomplete)
        } else if s[k] == 0x5D {
            Ok(k)
        } else {
            Err(ParseError::Invalid { offset: k, production: Production::AddressLiteral })
        },
        Err(e) => Err(e),
    }
}

/// IPv6-addr = IPv6-full / IPv6-comp / IPv6v4-full / IPv6v4-comp
#[verifier::opaque]
pub open spec fn spec_ipv6_addr(s: Seq<u8>, i: int) -> Result<usize, ParseError> {
    alt2(
        spec_closed(s, spec_ipv6_full(s, i)),
        alt2(
            spec_closed(s, spec_ipv6_comp(s, i)),
            alt2(
                spec_closed(s, spec_ipv6v4_full(s, i)),
                spec_closed(s, spec_ipv6v4_comp(s, i)),
                i,
                Production::Ipv6AddressLiteral,
            ),
            i,
            Production::Ipv6AddressLiteral,
        ),
        i,
        Production::Ipv6AddressLiteral,
    )
}

/// IPv6-address-literal = "IPv6:" IPv6-addr
pub open spec fn spec_ipv6(s: Seq<u8>, i: int) -> Result<usize, ParseError> {
    match spec_literal(s, i, seq![0x49u8, 0x50, 0x76, 0x36, 0x3A] /* "IPv6:" */, true, Production::Ipv6AddressLiteral) {
        Ok(j) => spec_ipv6_addr(s, j as int),
        Err(e) => Err(e),
    }
}

fn hex(s: &[u8], i: usize) -> (r: Result<usize, ParseError>)
    requires
        i <= s@.len(),
    ensures
        r == spec_hex(s@, i as int),
        r matches Ok(k) ==> i <= k <= s@.len() && ascii_span(s@, i as int, k as int),
{
    many_m_n(s, i, ByteClass::HexDigit, 1, 4, Production::Ipv6AddressLiteral)
}

fn colon_hex(s: &[u8], i: usize) -> (r: Result<usize, ParseError>)
    requires
        i <= s@.len(),
    ensures
        r == spec_colon_hex(s@, i as int),
        r matches Ok(k) ==> i <= k <= s@.len() && ascii_span(s@, i as int, k as int),
{
    match byte(s, i, 0x3A, Production::Ipv6AddressLiteral) {
        Ok(j) => hex(s, j),
        Err(e) => Err(e),
    }
}

fn colon_hex_n(s: &[u8], i: usize, n: usize) -> (r: Result<usize, ParseError>)
    requires
        i <= s@.len(),
    ensures
        r == spec_colon_hex_n(s@, i as int, n as nat),
        r matches Ok(k) ==> i <= k <= s@.len() && ascii_span(s@, i as int, k as int),
{
    let mut j = i;
    let mut c: usize = 0;
    while c < n
        invariant
            c <= n,
            i <= j <= s@.len(),
            ascii_span(s@, i as int, j as int),
            spec_colon_hex_n(s@, i as int, n as nat) == spec_colon_hex_n(
                s@,
                j as int,
                (n - c) as nat,
            ),
        decreases n - c,
    {
        match colon_hex(s, j) {
            Ok(k) => {
                j = k;
            },
            Err(e) => return Err(e),
        }
        c += 1;
    }
    Ok(j)
}

fn colon_hex_upto(s: &[u8], i: usize, n: usize) -> (r: Result<usize, ParseError>)
    requires
        i <= s@.len(),
    ensures
        r == spec_colon_hex_upto(s@, i as int, n as nat),
        r matches Ok(k) ==> i <= k <= s@.len() && ascii_span(s@, i as int, k as int),
{
    let mut j = i;
    let mut c: usize = 0;
    while c < n
        invariant
            c <= n,
            i <= j <= s@.len(),
            ascii_span(s@, i as int, j as int),
            spec_colon_hex_upto(s@, i as int, n as nat) == spec_colon_hex_upto(
                s@,
                j as int,
                (n - c) as nat,
            ),
        decreases n - c,
    {
        match colon_hex(s, j) {
            Ok(k) => {
                j = k;
            },
            Err(ParseError::Incomplete) => return Err(ParseError::Incomplete),
            Err(_) => return Ok(j),
        }
        c += 1;
    }
    Ok(j)
}

fn hex_group(s: &[u8], i: usize, n: usize) -> (r: Result<usize, ParseError>)
    requires
        i <= s@.len(),
    ensures
        r == spec_hex_group(s@, i as int, n as nat),
        r matches Ok(k) ==> i <= k <= s@.len() && ascii_span(s@, i as int, k as int),
{
    match hex(s, i) {
        Ok(j) => colon_hex_upto(s, j, n),
        Err(ParseError::Incomplete) => Err(ParseError::Incomplete),
        Err(_) => Ok(i),
    }
}

fn hex_group_colon(s: &[u8], i: usize, n: usize) -> (r: Result<usize, ParseError>)
    requires
        i <= s@.len(),
    ensures
        r == spec_hex_group_colon(s@, i as int, n as nat),
        r matches Ok(k) ==> i <= k <= s@.len() && ascii_span(s@, i as int, k as int),
{
    match hex(s, i) {
        Ok(j) => match colon_hex_upto(s, j, n) {
            Ok(m) => match byte(s, m, 0x3A, Production::Ipv6AddressLiteral) {
                Ok(e) => Ok(e),
                Err(ParseError::Incomplete) => Err(ParseError::Incomplete),
                Err(_) => Ok(i),
            },
            Err(e) => Err(e),
        },
        Err(ParseError::Incomplete) => Err(ParseError::Incomplete),
        Err(_) => Ok(i),
    }
}

fn ipv6_full(s: &[u8], i: usize) -> (r: Result<usize, ParseError>)
    requires
        i <= s@.len(),
    ensures
        r == spec_ipv6_full(s@, i as int),
        r matches Ok(k) ==> i <= k <= s@.len() && ascii_span(s@, i as int, k as int),
{
    match hex(s, i) {
        Ok(j) => colon_hex_n(s, j, 7),
        Err(e) => Err(e),
    }
}

fn ipv6_comp(s: &[u8], i: usize) -> (r: Result<usize, ParseError>)
    requires
        i <= s@.len(),
    ensures
        r == spec_ipv6_comp(s@, i as int),
        r matches Ok(k) ==> i <= k <= s@.len() && ascii_span(s@, i as int, k as int),
{
    let j = match hex_group(s, i, 5) {
        Ok(j) => j,
        Err(e) => return Err(e),
    };
    let k = match literal(s, j, [0x3Au8, 0x3A].as_slice() /* "::" */, false, Production::Ipv6AddressLiteral) {
        Ok(k) => k,
        Err(e) => return Err(e),
    };
    hex_group(s, k, 5)
}

fn ipv6v4_full(s: &[u8], i: usize) -> (r: Result<usize, ParseError>)
    requires
        i <= s@.len(),
    ensures
        r == spec_ipv6v4_full(s@, i as int),
        r matches Ok(k) ==> i <= k <= s@.len() && ascii_span(s@, i as int, k as int),
{
    let j = match hex(s, i) {
        Ok(j) => j,
        Err(e) => return Err(e),
    };
    let k = match colon_hex_n(s, j, 5) {
        Ok(k) => k,
        Err(e) => return Err(e),
    };
    let m = match byte(s, k, 0x3A, Production::Ipv6AddressLiteral) {
        Ok(m) => m,
        Err(e) => return Err(e),
    };
    ipv4_address_literal(s, m)
}

fn ipv6v4_comp(s: &[u8], i: usize) -> (r: Result<usize, ParseError>)
    requires
        i <= s@.len(),
    ensures
        r == spec_ipv6v4_comp(s@, i as int),
        r matches Ok(k) ==> i <= k <= s@.len() && ascii_span(s@, i as int, k as int),
{
    let j = match hex_group(s, i, 3) {
        Ok(j) => j,
        Err(e) => return Err(e),
    };
    let k = match literal(s, j, [0x3Au8, 0x3A].as_slice() /* "::" */, false, Production::Ipv6AddressLiteral) {
        Ok(k) => k,
        Err(e) => return Err(e),
    };
    let m = match hex_group_colon(s, k, 3) {
        Ok(m) => m,
        Err(e) => return Err(e),
    };
    ipv4_address_literal(s, m)
}

pub fn ipv6_address_literal(s: &[u8], i: usize) -> (r: Result<usize, ParseError>)
    requires
        i <= s@.len(),
    ensures
        r == spec_ipv6(s@, i as int),
        r matches Ok(k) ==> i <= k <= s@.len() && ascii_span(s@, i as int, k as int),
{
    reveal(spec_ipv6_addr);
    let j = match literal(s, i, [0x49u8, 0x50, 0x76, 0x36, 0x3A].as_slice() /* "IPv6:" */, true, Production::Ipv6AddressLiteral) {
        Ok(j) => j,
        Err(e) => return Err(e),
    };
    let a = closed(s, ipv6_full(s, j));
    if a.is_ok() {
        return a;
    }
    let b = closed(s, ipv6_comp(s, j));
    if b.is_ok() {
        return b;
    }
    let c = closed(s, ipv6v4_full(s, j));
    if c.is_ok() {
        return c;
    }
    let d = closed(s, ipv6v4_comp(s, j));
    if d.is_ok() {
        return d;
    }
    if is_incomplete(&a) || is_incomplete(&b) || is_incomplete(&c) || is_incomplete(&d) {
        Err(ParseError::Incomplete)
    } else {
        Err(ParseError::Invalid { offset: j, production: Production::Ipv6AddressLiteral })
    }
}

/// The content of an address literal: IPv4, IPv6 or a general literal.
#[verifier::opaque]
pub open spec fn spec_address_content(s: Seq<u8>, i: int) -> Result<usize, ParseError> {
    alt2(
        spec_closed(s, spec_ipv4(s, i)),
        alt2(
            spec_closed(s, spec_ipv6(s, i)),
            spec_closed(s, spec_general(s, i)),
            i,
            Production::AddressLiteral,
        ),
        i,
        Production::AddressLiteral,
    )
}

/// address-literal = "[" ( IPv4-address-literal / IPv6-address-literal /
/// General-address-literal ) "]"; the result is the position after "]".
pub open spec fn spec_address_literal(s: Seq<u8>, i: int) -> Result<usize, ParseError> {
    match spec_byte(s, i, 0x5B, Production::AddressLiteral) {
        Ok(j) => match spec_address_content(s, j as int) {
            Ok(k) => spec_byte(s, k as int, 0x5D, Production::AddressLiteral),
            Err(e) => Err(e),
        },
        Err(e) => Err(e),
    }
}

pub fn address_literal(s: &[u8], i: usize) -> (r: Result<usize, ParseError>)
    requires
        i <= s@.len(),
    ensures
        r == spec_address_literal(s@, i as int),
        r matches Ok(k) ==> i + 2 <= k <= s@.len() && ascii_span(s@, i + 1, k - 1) && s@[i as int]
            == 0x5B && s@[k - 1] == 0x5D,
{
    reveal(spec_address_content);
    let j = match byte(s, i, 0x5B, Production::AddressLiteral) {
        Ok(j) => j,
        Err(e) => return Err(e),
    };
    let a = closed(s, ipv4_address_literal(s, j));
    let k = if let Ok(k) = a {
        k
    } else {
        let c = closed(s, ipv6_address_literal(s, j));
        if let Ok(k) = c {
            k
        } else {
            let d = closed(s, general_address_literal(s, j));
            if let Ok(k) = d {
                k
            } else {
                if is_incomplete(&a) || is_incomplete(&c) || is_incomplete(&d) {
                    return Err(ParseError::Incomplete);
                } else {
                    return Err(ParseError::Invalid { offset: j, production: Production::AddressLiteral });
                }
            }
        }
    };
    byte(s, k, 0x5D, Production::AddressLiteral)
}

/// Domain / address-literal, as HELO and EHLO take it.
pub open spec fn spec_domain_or_address(s: Seq<u8>, i: int) -> Result<
    (usize, DomainOrAddressView),
    ParseError,
> {
    let d = spec_domain(s, i);
    if d is Ok {
        let k = d->Ok_0 as int;
        Ok((k as usize, DomainOrAddressView::Domain(chars_of(s.subrange(i, k)))))
    } else {
        match spec_address_literal(s, i) {
            Ok(k) => Ok((k, DomainOrAddressView::Address(chars_of(s.subrange(i + 1, k - 1))))),
            Err(e) => if ran_out(d) || e == ParseError::Incomplete {
                incomplete()
            } else {
                invalid(i, Production::Domain)
            },
        }
    }
}

pub fn domain_or_address(s: &[u8], i: usize) -> (r: Result<(usize, DomainOrAddress), ParseError>)
    requires
        i <= s@.len(),
    ensures
        view_result(r) == spec_domain_or_address(s@, i as int),
        r matches Ok((k, _)) ==> k <= s@.len(),
{
    let d = domain(s, i);
    if let Ok(k) = d {
        return Ok((k, DomainOrAddress::Domain(text_of(s, i, k))));
    }
    let a = address_literal(s, i);
    match a {
        Ok(k) => Ok((k, DomainOrAddress::Address(text_of(s, i + 1, k - 1)))),
        Err(_) => {
            if is_incomplete(&d) || is_incomplete(&a) {
                Err(ParseError::Incomplete)
            } else {
                Err(ParseError::Invalid { offset: i, production: Production::Domain })
            }
        },
    }
}

} // verus!
