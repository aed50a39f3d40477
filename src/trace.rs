//! Trace information (RFC 5321, 4.4): the Return-Path and Received lines,
//! with the date-time and msg-id productions of RFC 5322 they use.
use vstd::prelude::*;

use crate::abnf::ByteClass;
use crate::address::{
    address_literal, domain, joined_run, spec_address_literal, spec_domain, spec_joined_run,
};
use crate::command::{mailbox, path, reverse_path, spec_mailbox, spec_path, spec_reverse_path};
use crate::grammar::{
    ParseError, Production, alt2, ascii_span, byte, crlf, finish, incomplete, invalid, is_incomplete,
    literal, many0, many1, many_m_n, parsed, spec_byte, spec_crlf, spec_literal, spec_many0,
    spec_many1, spec_many_m_n, str_at, text_of,
};

verus! {

/// FWS = ([*WSP CRLF] 1*WSP): folding white space, which may hold one line
/// break.
pub open spec fn spec_fws(s: Seq<u8>, i: int) -> Result<usize, ParseError> {
    let fold = match spec_many0(s, i, ByteClass::Wsp) {
        Ok(j) => match spec_crlf(s, j as int) {
            Ok(k) => Ok(k),
            Err(ParseError::Incomplete) => incomplete(),
            Err(_) => Ok(i as usize),
        },
        Err(e) => Err(e),
    };
    match fold {
        Ok(k) => spec_many1(s, k as int, ByteClass::Wsp, Production::ReturnPathLine),
        Err(e) => Err(e),
    }
}

pub fn fws(s: &[u8], i: usize) -> (r: Result<usize, ParseError>)
    requires
        i <= s@.len(),
    ensures
        r == spec_fws(s@, i as int),
        r matches Ok(k) ==> i < k <= s@.len() && ascii_span(s@, i as int, k as int),
{
    let k = match many0(s, i, ByteClass::Wsp) {
        Ok(j) => match crlf(s, j) {
            Ok(k) => k,
            Err(ParseError::Incomplete) => return Err(ParseError::Incomplete),
            Err(_) => i,
        },
        Err(e) => return Err(e),
    };
    many1(s, k, ByteClass::Wsp, Production::ReturnPathLine)
}

/// Return-path-line = "Return-Path:" FWS Reverse-path CRLF; the result is
/// the text of the path between its brackets.
pub open spec fn spec_return_path_line(s: Seq<u8>, i: int) -> Result<(usize, Seq<char>), ParseError> {
    match spec_literal(s, i, seq![0x52u8, 0x65, 0x74, 0x75, 0x72, 0x6E, 0x2D, 0x50, 0x61, 0x74, 0x68, 0x3A] /* "Return-Path:" */, true, Production::ReturnPathLine) {
        Ok(j) => match spec_fws(s, j as int) {
            Ok(k) => match spec_reverse_path(s, k as int) {
                Ok((m, p)) => match spec_crlf(s, m as int) {
                    Ok(e) => Ok((e, p)),
                    Err(x) => Err(x),
                },
                Err(x) => Err(x),
            },
            Err(x) => Err(x),
        },
        Err(x) => Err(x),
    }
}

fn return_path_line_at(s: &[u8], i: usize) -> (r: Result<(usize, String), ParseError>)
    requires
        i <= s@.len(),
    ensures
        match r {
            Ok((e, p)) => spec_return_path_line(s@, i as int) == Ok::<(usize, Seq<char>), ParseError>(
                (e, p@),
            ) && e <= s@.len(),
            Err(x) => spec_return_path_line(s@, i as int) == Err::<(usize, Seq<char>), ParseError>(
                x,
            ),
        },
{
    let j = match literal(s, i, [0x52u8, 0x65, 0x74, 0x75, 0x72, 0x6E, 0x2D, 0x50, 0x61, 0x74, 0x68, 0x3A].as_slice() /* "Return-Path:" */, true, Production::ReturnPathLine) {
        Ok(j) => j,
        Err(x) => return Err(x),
    };
    let k = match fws(s, j) {
        Ok(k) => k,
        Err(x) => return Err(x),
    };
    let (m, p) = match reverse_path(s, k) {
        Ok(x) => x,
        Err(x) => return Err(x),
    };
    match crlf(s, m) {
        Ok(e) => Ok((e, p)),
        Err(x) => Err(x),
    }
}

/// Parses a Return-Path line from the start of `input`: the result holds the
/// reverse path, without its brackets.
pub fn return_path_line(input: &[u8]) -> (r: Result<(&[u8], String), ParseError>)
    ensures
        parsed(input@, spec_return_path_line(input@, 0), r),
{
    finish(input, return_path_line_at(input, 0))
}

// ----- Received lines -----
//
// Comments are not read: where the grammar has CFWS, folding white space
// stands for it, and a comment gives `Invalid`.

/// An optional part: where it does not match, nothing is consumed; where it
/// ran out of input, more input may decide.
pub open spec fn spec_opt(r: Result<usize, ParseError>, i: int) -> Result<usize, ParseError> {
    match r {
        Ok(k) => Ok(k),
        Err(ParseError::Incomplete) => incomplete(),
        Err(_) => Ok(i as usize),
    }
}

fn opt(r: Result<usize, ParseError>, i: usize) -> (out: Result<usize, ParseError>)
    ensures
        out == spec_opt(r, i as int),
        out matches Ok(k) ==> k == i || r == Ok::<usize, ParseError>(k),
{
    match r {
        Ok(k) => Ok(k),
        Err(ParseError::Incomplete) => Err(ParseError::Incomplete),
        Err(_) => Ok(i),
    }
}

/// A run of `n` to `m` digits.
pub open spec fn spec_digits(s: Seq<u8>, i: int, n: int, m: int) -> Result<usize, ParseError> {
    spec_many_m_n(s, i, ByteClass::Digit, n, m, Production::DateTime)
}

fn digits(s: &[u8], i: usize, n: usize, m: usize) -> (r: Result<usize, ParseError>)
    requires
        i <= s@.len(),
        n <= m,
    ensures
        r == spec_digits(s@, i as int, n as int, m as int),
        r matches Ok(k) ==> i <= k <= s@.len() && ascii_span(s@, i as int, k as int),
{
    many_m_n(s, i, ByteClass::Digit, n, m, Production::DateTime)
}

/// day-name = "Mon" / "Tue" / "Wed" / "Thu" / "Fri" / "Sat" / "Sun"
pub open spec fn spec_day_name(s: Seq<u8>, i: int) -> Result<usize, ParseError> {
    let p = Production::DateTime;
    alt2(spec_literal(s, i, seq![0x4Du8, 0x6F, 0x6E] /* "Mon" */, true, Production::DateTime),
    alt2(spec_literal(s, i, seq![0x54u8, 0x75, 0x65] /* "Tue" */, true, Production::DateTime),
    alt2(spec_literal(s, i, seq![0x57u8, 0x65, 0x64] /* "Wed" */, true, Production::DateTime),
    alt2(spec_literal(s, i, seq![0x54u8, 0x68, 0x75] /* "Thu" */, true, Production::DateTime),
    alt2(spec_literal(s, i, seq![0x46u8, 0x72, 0x69] /* "Fri" */, true, Production::DateTime),
    alt2(spec_literal(s, i, seq![0x53u8, 0x61, 0x74] /* "Sat" */, true, Production::DateTime),
    spec_literal(s, i, seq![0x53u8, 0x75, 0x6E] /* "Sun" */, true, Production::DateTime),
    i, p), i, p), i, p), i, p), i, p), i, p)
}

pub fn day_name(s: &[u8], i: usize) -> (r: Result<usize, ParseError>)
    requires
        i <= s@.len(),
    ensures
        r == spec_day_name(s@, i as int),
        r matches Ok(k) ==> i <= k <= s@.len() && ascii_span(s@, i as int, k as int),
{
    let r0 = literal(s, i, [0x4Du8, 0x6F, 0x6E].as_slice() /* "Mon" */, true, Production::DateTime);
    if r0.is_ok() {
        return r0;
    }
    let r1 = literal(s, i, [0x54u8, 0x75, 0x65].as_slice() /* "Tue" */, true, Production::DateTime);
    if r1.is_ok() {
        return r1;
    }
    let r2 = literal(s, i, [0x57u8, 0x65, 0x64].as_slice() /* "Wed" */, true, Production::DateTime);
    if r2.is_ok() {
        return r2;
    }
    let r3 = literal(s, i, [0x54u8, 0x68, 0x75].as_slice() /* "Thu" */, true, Production::DateTime);
    if r3.is_ok() {
        return r3;
    }
    let r4 = literal(s, i, [0x46u8, 0x72, 0x69].as_slice() /* "Fri" */, true, Production::DateTime);
    if r4.is_ok() {
        return r4;
    }
    let r5 = literal(s, i, [0x53u8, 0x61, 0x74].as_slice() /* "Sat" */, true, Production::DateTime);
    if r5.is_ok() {
        return r5;
    }
    let r6 = literal(s, i, [0x53u8, 0x75, 0x6E].as_slice() /* "Sun" */, true, Production::DateTime);
    if r6.is_ok() {
        return r6;
    }
    if is_incomplete(&r0)
        || is_incomplete(&r1)
        || is_incomplete(&r2)
        || is_incomplete(&r3)
        || is_incomplete(&r4)
        || is_incomplete(&r5)
        || is_incomplete(&r6) {
        Err(ParseError::Incomplete)
    } else {
        Err(ParseError::Invalid { offset: i, production: Production::DateTime })
    }
}

/// month = "Jan" / "Feb" / "Mar" / "Apr" / "May" / "Jun" / "Jul" / "Aug" /
///         "Sep" / "Oct" / "Nov" / "Dec"
pub open spec fn spec_month(s: Seq<u8>, i: int) -> Result<usize, ParseError> {
    let p = Production::DateTime;
    alt2(spec_literal(s, i, seq![0x4Au8, 0x61, 0x6E] /* "Jan" */, true, Production::DateTime),
    alt2(spec_literal(s, i, seq![0x46u8, 0x65, 0x62] /* "Feb" */, true, Production::DateTime),
    alt2(spec_literal(s, i, seq![0x4Du8, 0x61, 0x72] /* "Mar" */, true, Production::DateTime),
    alt2(spec_literal(s, i, seq![0x41u8, 0x70, 0x72] /* "Apr" */, true, Production::DateTime),
    alt2(spec_literal(s, i, seq![0x4Du8, 0x61, 0x79] /* "May" */, true, Production::DateTime),
    alt2(spec_literal(s, i, seq![0x4Au8, 0x75, 0x6E] /* "Jun" */, true, Production::DateTime),
    alt2(spec_literal(s, i, seq![0x4Au8, 0x75, 0x6C] /* "Jul" */, true, Production::DateTime),
    alt2(spec_literal(s, i, seq![0x41u8, 0x75, 0x67] /* "Aug" */, true, Production::DateTime),
    alt2(spec_literal(s, i, seq![0x53u8, 0x65, 0x70] /* "Sep" */, true, Production::DateTime),
    alt2(spec_literal(s, i, seq![0x4Fu8, 0x63, 0x74] /* "Oct" */, true, Production::DateTime),
    alt2(spec_literal(s, i, seq![0x4Eu8, 0x6F, 0x76] /* "Nov" */, true, Production::DateTime),
    spec_literal(s, i, seq![0x44u8, 0x65, 0x63] /* "Dec" */, true, Production::DateTime),
    i, p), i, p), i, p), i, p), i, p), i, p), i, p), i, p), i, p), i, p), i, p)
}

pub fn month(s: &[u8], i: usize) -> (r: Result<usize, ParseError>)
    requires
        i <= s@.len(),
    ensures
        r == spec_month(s@, i as int),
        r matches Ok(k) ==> i <= k <= s@.len() && ascii_span(s@, i as int, k as int),
{
    let r0 = literal(s, i, [0x4Au8, 0x61, 0x6E].as_slice() /* "Jan" */, true, Production::DateTime);
    if r0.is_ok() {
        return r0;
    }
    let r1 = literal(s, i, [0x46u8, 0x65, 0x62].as_slice() /* "Feb" */, true, Production::DateTime);
    if r1.is_ok() {
        return r1;
    }
    let r2 = literal(s, i, [0x4Du8, 0x61, 0x72].as_slice() /* "Mar" */, true, Production::DateTime);
    if r2.is_ok() {
        return r2;
    }
    let r3 = literal(s, i, [0x41u8, 0x70, 0x72].as_slice() /* "Apr" */, true, Production::DateTime);
    if r3.is_ok() {
        return r3;
    }
    let r4 = literal(s, i, [0x4Du8, 0x61, 0x79].as_slice() /* "May" */, true, Production::DateTime);
    if r4.is_ok() {
        return r4;
    }
    let r5 = literal(s, i, [0x4Au8, 0x75, 0x6E].as_slice() /* "Jun" */, true, Production::DateTime);
    if r5.is_ok() {
        return r5;
    }
    let r6 = literal(s, i, [0x4Au8, 0x75, 0x6C].as_slice() /* "Jul" */, true, Production::DateTime);
    if r6.is_ok() {
        return r6;
    }
    let r7 = literal(s, i, [0x41u8, 0x75, 0x67].as_slice() /* "Aug" */, true, Production::DateTime);
    if r7.is_ok() {
        return r7;
    }
    let r8 = literal(s, i, [0x53u8, 0x65, 0x70].as_slice() /* "Sep" */, true, Production::DateTime);
    if r8.is_ok() {
        return r8;
    }
    let r9 = literal(s, i, [0x4Fu8, 0x63, 0x74].as_slice() /* "Oct" */, true, Production::DateTime);
    if r9.is_ok() {
        return r9;
    }
    let r10 = literal(s, i, [0x4Eu8, 0x6F, 0x76].as_slice() /* "Nov" */, true, Production::DateTime);
    if r10.is_ok() {
        return r10;
    }
    let r11 = literal(s, i, [0x44u8, 0x65, 0x63].as_slice() /* "Dec" */, true, Production::DateTime);
    if r11.is_ok() {
        return r11;
    }
    if is_incomplete(&r0)
        || is_incomplete(&r1)
        || is_incomplete(&r2)
        || is_incomplete(&r3)
        || is_incomplete(&r4)
        || is_incomplete(&r5)
        || is_incomplete(&r6)
        || is_incomplete(&r7)
        || is_incomplete(&r8)
        || is_incomplete(&r9)
        || is_incomplete(&r10)
        || is_incomplete(&r11) {
        Err(ParseError::Incomplete)
    } else {
        Err(ParseError::Invalid { offset: i, production: Production::DateTime })
    }
}

/// date = day month year, where day = [FWS] 1*2DIGIT FWS and
/// year = FWS 4*8DIGIT FWS.
#[verifier::opaque]
pub open spec fn spec_date(s: Seq<u8>, i: int) -> Result<usize, ParseError> {
    match spec_opt(spec_fws(s, i), i) {
        Ok(a) => match spec_digits(s, a as int, 1, 2) {
            Ok(b) => match spec_fws(s, b as int) {
                Ok(c) => match spec_month(s, c as int) {
                    Ok(d) => match spec_fws(s, d as int) {
                        Ok(e) => match spec_digits(s, e as int, 4, 8) {
                            Ok(f) => spec_fws(s, f as int),
                            Err(x) => Err(x),
                        },
                        Err(x) => Err(x),
                    },
                    Err(x) => Err(x),
                },
                Err(x) => Err(x),
            },
            Err(x) => Err(x),
        },
        Err(x) => Err(x),
    }
}

pub fn date(s: &[u8], i: usize) -> (r: Result<usize, ParseError>)
    requires
        i <= s@.len(),
    ensures
        r == spec_date(s@, i as int),
        r matches Ok(k) ==> i <= k <= s@.len() && ascii_span(s@, i as int, k as int),
{
    reveal(spec_date);
    let a = opt(fws(s, i), i)?;
    let b = digits(s, a, 1, 2)?;
    let c = fws(s, b)?;
    let d = month(s, c)?;
    let e = fws(s, d)?;
    let f = digits(s, e, 4, 8)?;
    fws(s, f)
}

/// time-of-day = hour ":" minute [ ":" second ], each of two digits
pub open spec fn spec_time_of_day(s: Seq<u8>, i: int) -> Result<usize, ParseError> {
    match spec_digits(s, i, 2, 2) {
        Ok(a) => match spec_byte(s, a as int, 0x3A, Production::DateTime) {
            Ok(b) => match spec_digits(s, b as int, 2, 2) {
                Ok(c) => spec_opt(
                    match spec_byte(s, c as int, 0x3A, Production::DateTime) {
                        Ok(d) => spec_digits(s, d as int, 2, 2),
                        Err(x) => Err(x),
                    },
                    c as int,
                ),
                Err(x) => Err(x),
            },
            Err(x) => Err(x),
        },
        Err(x) => Err(x),
    }
}

/// zone = FWS ( "+" / "-" ) 4DIGIT
pub open spec fn spec_zone(s: Seq<u8>, i: int) -> Result<usize, ParseError> {
    match spec_fws(s, i) {
        Ok(a) => if a >= s.len() {
            incomplete()
        } else if s[a as int] == 0x2B || s[a as int] == 0x2D {
            spec_digits(s, a + 1, 4, 4)
        } else {
            invalid(a as int, Production::DateTime)
        },
        Err(x) => Err(x),
    }
}

/// date-time = [ day-of-week "," ] date time [CFWS], where
/// day-of-week = [FWS] day-name and time = time-of-day zone
#[verifier::opaque]
pub open spec fn spec_date_time(s: Seq<u8>, i: int) -> Result<usize, ParseError> {
    let dow = match spec_opt(spec_fws(s, i), i) {
        Ok(a) => match spec_day_name(s, a as int) {
            Ok(b) => spec_byte(s, b as int, 0x2C, Production::DateTime),
            Err(x) => Err(x),
        },
        Err(x) => Err(x),
    };
    match spec_opt(dow, i) {
        Ok(a) => match spec_date(s, a as int) {
            Ok(b) => match spec_time_of_day(s, b as int) {
                Ok(c) => match spec_zone(s, c as int) {
                    Ok(d) => spec_opt(spec_fws(s, d as int), d as int),
                    Err(x) => Err(x),
                },
                Err(x) => Err(x),
            },
            Err(x) => Err(x),
        },
        Err(x) => Err(x),
    }
}

fn time_of_day(s: &[u8], i: usize) -> (r: Result<usize, ParseError>)
    requires
        i <= s@.len(),
    ensures
        r == spec_time_of_day(s@, i as int),
        r matches Ok(k) ==> i <= k <= s@.len() && ascii_span(s@, i as int, k as int),
{
    let a = digits(s, i, 2, 2)?;
    let b = byte(s, a, 0x3A, Production::DateTime)?;
    let c = digits(s, b, 2, 2)?;
    let sec = match byte(s, c, 0x3A, Production::DateTime) {
        Ok(d) => digits(s, d, 2, 2),
        Err(x) => Err(x),
    };
    opt(sec, c)
}

fn zone(s: &[u8], i: usize) -> (r: Result<usize, ParseError>)
    requires
        i <= s@.len(),
    ensures
        r == spec_zone(s@, i as int),
        r matches Ok(k) ==> i <= k <= s@.len() && ascii_span(s@, i as int, k as int),
{
    let a = fws(s, i)?;
    if a >= s.len() {
        Err(ParseError::Incomplete)
    } else if s[a] == 0x2B || s[a] == 0x2D {
        digits(s, a + 1, 4, 4)
    } else {
        Err(ParseError::Invalid { offset: a, production: Production::DateTime })
    }
}

pub fn date_time(s: &[u8], i: usize) -> (r: Result<usize, ParseError>)
    requires
        i <= s@.len(),
    ensures
        r == spec_date_time(s@, i as int),
        r matches Ok(k) ==> i <= k <= s@.len() && ascii_span(s@, i as int, k as int),
{
    reveal(spec_date_time);
    let dow = match opt(fws(s, i), i) {
        Ok(a) => match day_name(s, a) {
            Ok(b) => byte(s, b, 0x2C, Production::DateTime),
            Err(x) => Err(x),
        },
        Err(x) => Err(x),
    };
    let a = opt(dow, i)?;
    let b = date(s, a)?;
    let c = time_of_day(s, b)?;
    let d = zone(s, c)?;
    opt(fws(s, d), d)
}

/// dot-atom-text = 1*atext *("." 1*atext)
pub open spec fn spec_dot_atom_text(s: Seq<u8>, i: int) -> Result<usize, ParseError> {
    match spec_many1(s, i, ByteClass::Atext, Production::MsgId) {
        Ok(j) => spec_joined_run(s, j as int, ByteClass::Atext, false, true),
        Err(x) => Err(x),
    }
}

fn dot_atom_text(s: &[u8], i: usize) -> (r: Result<usize, ParseError>)
    requires
        i <= s@.len(),
    ensures
        r == spec_dot_atom_text(s@, i as int),
        r matches Ok(k) ==> i <= k <= s@.len() && ascii_span(s@, i as int, k as int),
{
    let j = many1(s, i, ByteClass::Atext, Production::MsgId)?;
    joined_run(s, j, ByteClass::Atext, false, true)
}

/// no-fold-literal = "[" *dtext "]"
pub open spec fn spec_no_fold_literal(s: Seq<u8>, i: int) -> Result<usize, ParseError> {
    match spec_byte(s, i, 0x5B, Production::MsgId) {
        Ok(j) => match spec_many0(s, j as int, ByteClass::Dcontent) {
            Ok(k) => spec_byte(s, k as int, 0x5D, Production::MsgId),
            Err(x) => Err(x),
        },
        Err(x) => Err(x),
    }
}

/// msg-id = [CFWS] "<" id-left "@" id-right ">" [CFWS], where
/// id-left = dot-atom-text and id-right = dot-atom-text / no-fold-literal
#[verifier::opaque]
pub open spec fn spec_msg_id(s: Seq<u8>, i: int) -> Result<usize, ParseError> {
    match spec_opt(spec_fws(s, i), i) {
        Ok(a) => match spec_byte(s, a as int, 0x3C, Production::MsgId) {
            Ok(b) => match spec_dot_atom_text(s, b as int) {
                Ok(c) => match spec_byte(s, c as int, 0x40, Production::MsgId) {
                    Ok(d) => match alt2(
                        spec_dot_atom_text(s, d as int),
                        spec_no_fold_literal(s, d as int),
                        d as int,
                        Production::MsgId,
                    ) {
                        Ok(e) => match spec_byte(s, e as int, 0x3E, Production::MsgId) {
                            Ok(f) => spec_opt(spec_fws(s, f as int), f as int),
                            Err(x) => Err(x),
                        },
                        Err(x) => Err(x),
                    },
                    Err(x) => Err(x),
                },
                Err(x) => Err(x),
            },
            Err(x) => Err(x),
        },
        Err(x) => Err(x),
    }
}

pub fn msg_id(s: &[u8], i: usize) -> (r: Result<usize, ParseError>)
    requires
        i <= s@.len(),
    ensures
        r == spec_msg_id(s@, i as int),
        r matches Ok(k) ==> i <= k <= s@.len() && ascii_span(s@, i as int, k as int),
{
    reveal(spec_msg_id);
    let a = opt(fws(s, i), i)?;
    let b = byte(s, a, 0x3C, Production::MsgId)?;
    let c = dot_atom_text(s, b)?;
    let d = byte(s, c, 0x40, Production::MsgId)?;
    let r1 = dot_atom_text(s, d);
    let e = if let Ok(e) = r1 {
        e
    } else {
        let r2 = match byte(s, d, 0x5B, Production::MsgId) {
            Ok(j) => match many0(s, j, ByteClass::Dcontent) {
                Ok(k) => byte(s, k, 0x5D, Production::MsgId),
                Err(x) => Err(x),
            },
            Err(x) => Err(x),
        };
        match r2 {
            Ok(e) => e,
            Err(_) => {
                if is_incomplete(&r1) || is_incomplete(&r2) {
                    return Err(ParseError::Incomplete);
                } else {
                    return Err(ParseError::Invalid { offset: d, production: Production::MsgId });
                }
            },
        }
    };
    let f = byte(s, e, 0x3E, Production::MsgId)?;
    opt(fws(s, f), f)
}

/// "(" TCP-info ")" after FWS, where
/// TCP-info = address-literal / ( Domain FWS address-literal )
#[verifier::opaque]
pub open spec fn spec_tcp_info_part(s: Seq<u8>, i: int) -> Result<usize, ParseError> {
    match spec_fws(s, i) {
        Ok(a) => match spec_byte(s, a as int, 0x28, Production::ReceivedLine) {
            Ok(b) => {
                let info = alt2(
                    spec_address_literal(s, b as int),
                    match spec_domain(s, b as int) {
                        Ok(c) => match spec_fws(s, c as int) {
                            Ok(d) => spec_address_literal(s, d as int),
                            Err(x) => Err(x),
                        },
                        Err(x) => Err(x),
                    },
                    b as int,
                    Production::ReceivedLine,
                );
                match info {
                    Ok(e) => spec_byte(s, e as int, 0x29, Production::ReceivedLine),
                    Err(x) => Err(x),
                }
            },
            Err(x) => Err(x),
        },
        Err(x) => Err(x),
    }
}

fn tcp_info_part(s: &[u8], i: usize) -> (r: Result<usize, ParseError>)
    requires
        i <= s@.len(),
    ensures
        r == spec_tcp_info_part(s@, i as int),
        r matches Ok(k) ==> i <= k <= s@.len() && ascii_span(s@, i as int, k as int),
{
    reveal(spec_tcp_info_part);
    let a = fws(s, i)?;
    let b = byte(s, a, 0x28, Production::ReceivedLine)?;
    let r1 = address_literal(s, b);
    let e = if let Ok(e) = r1 {
        e
    } else {
        let r2 = match domain(s, b) {
            Ok(c) => match fws(s, c) {
                Ok(d) => address_literal(s, d),
                Err(x) => Err(x),
            },
            Err(x) => Err(x),
        };
        match r2 {
            Ok(e) => e,
            Err(_) => {
                if is_incomplete(&r1) || is_incomplete(&r2) {
                    return Err(ParseError::Incomplete);
                } else {
                    return Err(
                        ParseError::Invalid { offset: b, production: Production::ReceivedLine },
                    );
                }
            },
        }
    };
    byte(s, e, 0x29, Production::ReceivedLine)
}

/// Extended-Domain = ( Domain FWS "(" TCP-info ")" ) /
///                   ( address-literal FWS "(" TCP-info ")" ) / Domain,
/// the longer forms tried first.
#[verifier::opaque]
pub open spec fn spec_extended_domain(s: Seq<u8>, i: int) -> Result<usize, ParseError> {
    let p = Production::ReceivedLine;
    alt2(match spec_domain(s, i) {
        Ok(a) => spec_tcp_info_part(s, a as int),
        Err(x) => Err(x),
    },
    alt2(match spec_address_literal(s, i) {
        Ok(a) => spec_tcp_info_part(s, a as int),
        Err(x) => Err(x),
    },
    spec_domain(s, i),
    i, p), i, p)
}

fn extended_domain(s: &[u8], i: usize) -> (r: Result<usize, ParseError>)
    requires
        i <= s@.len(),
    ensures
        r == spec_extended_domain(s@, i as int),
        r matches Ok(k) ==> i <= k <= s@.len() && ascii_span(s@, i as int, k as int),
{
    reveal(spec_extended_domain);
    let r1 = match domain(s, i) {
        Ok(a) => tcp_info_part(s, a),
        Err(x) => Err(x),
    };
    if r1.is_ok() {
        return r1;
    }
    let r2 = match address_literal(s, i) {
        Ok(a) => tcp_info_part(s, a),
        Err(x) => Err(x),
    };
    if r2.is_ok() {
        return r2;
    }
    let r3 = domain(s, i);
    if r3.is_ok() {
        return r3;
    }
    if is_incomplete(&r1) || is_incomplete(&r2) || is_incomplete(&r3) {
        Err(ParseError::Incomplete)
    } else {
        Err(ParseError::Invalid { offset: i, production: Production::ReceivedLine })
    }
}

/// The kinds of clause of a Received line after its FROM part.
pub enum Clause {
    /// By-domain = CFWS "BY" FWS Extended-Domain
    By,
    /// Via = CFWS "VIA" FWS Link, where Link = "TCP" / Atom
    Via,
    /// With = CFWS "WITH" FWS Protocol, where Protocol = "ESMTP" / "SMTP" / Atom
    With,
    /// ID = CFWS "ID" FWS ( Atom / msg-id )
    Id,
    /// For = CFWS "FOR" FWS ( Path / Mailbox )
    For,
}

pub open spec fn clause_word(c: Clause) -> Seq<u8> {
    match c {
        Clause::By => seq![0x42u8, 0x59] /* "BY" */,
        Clause::Via => seq![0x56u8, 0x49, 0x41] /* "VIA" */,
        Clause::With => seq![0x57u8, 0x49, 0x54, 0x48] /* "WITH" */,
        Clause::Id => seq![0x49u8, 0x44] /* "ID" */,
        Clause::For => seq![0x46u8, 0x4F, 0x52] /* "FOR" */,
    }
}

/// What follows the keyword of a clause, from `i`.
#[verifier::opaque]
pub open spec fn spec_clause_value(s: Seq<u8>, i: int, c: Clause) -> Result<usize, ParseError> {
    match c {
        Clause::By => spec_extended_domain(s, i),
        Clause::Via | Clause::With => spec_many1(s, i, ByteClass::Atext, Production::ReceivedLine),
        Clause::Id => alt2(
            spec_many1(s, i, ByteClass::Atext, Production::ReceivedLine),
            spec_msg_id(s, i),
            i,
            Production::ReceivedLine,
        ),
        Clause::For => alt2(spec_path(s, i), spec_mailbox(s, i), i, Production::ReceivedLine),
    }
}

/// CFWS keyword FWS value, for a clause `c`.
#[verifier::opaque]
pub open spec fn spec_clause(s: Seq<u8>, i: int, c: Clause) -> Result<usize, ParseError> {
    match spec_fws(s, i) {
        Ok(a) => match spec_literal(s, a as int, clause_word(c), true, Production::ReceivedLine) {
            Ok(b) => match spec_fws(s, b as int) {
                Ok(d) => spec_clause_value(s, d as int, c),
                Err(x) => Err(x),
            },
            Err(x) => Err(x),
        },
        Err(x) => Err(x),
    }
}

fn clause_value(s: &[u8], i: usize, c: Clause) -> (r: Result<usize, ParseError>)
    requires
        i <= s@.len(),
    ensures
        r == spec_clause_value(s@, i as int, c),
        r matches Ok(k) ==> i <= k <= s@.len() && ascii_span(s@, i as int, k as int),
{
    reveal(spec_clause_value);
    match c {
        Clause::By => extended_domain(s, i),
        Clause::Via | Clause::With => many1(s, i, ByteClass::Atext, Production::ReceivedLine),
        Clause::Id => {
            let r1 = many1(s, i, ByteClass::Atext, Production::ReceivedLine);
            if r1.is_ok() {
                return r1;
            }
            let r2 = msg_id(s, i);
            if r2.is_ok() {
                return r2;
            }
            if is_incomplete(&r1) || is_incomplete(&r2) {
                Err(ParseError::Incomplete)
            } else {
                Err(ParseError::Invalid { offset: i, production: Production::ReceivedLine })
            }
        },
        Clause::For => {
            let r1 = path(s, i);
            if let Ok(k) = r1 {
                return Ok(k);
            }
            let r2 = mailbox(s, i);
            if r2.is_ok() {
                return r2;
            }
            if is_incomplete(&r1) || is_incomplete(&r2) {
                Err(ParseError::Incomplete)
            } else {
                Err(ParseError::Invalid { offset: i, production: Production::ReceivedLine })
            }
        },
    }
}

fn clause(s: &[u8], i: usize, c: Clause) -> (r: Result<usize, ParseError>)
    requires
        i <= s@.len(),
    ensures
        r == spec_clause(s@, i as int, c),
        r matches Ok(k) ==> i <= k <= s@.len() && ascii_span(s@, i as int, k as int),
{
    reveal(spec_clause);
    let a = fws(s, i)?;
    let b = match c {
        Clause::By => literal(s, a, [0x42u8, 0x59].as_slice() /* "BY" */, true, Production::ReceivedLine),
        Clause::Via => literal(s, a, [0x56u8, 0x49, 0x41].as_slice() /* "VIA" */, true, Production::ReceivedLine),
        Clause::With => literal(s, a, [0x57u8, 0x49, 0x54, 0x48].as_slice() /* "WITH" */, true, Production::ReceivedLine),
        Clause::Id => literal(s, a, [0x49u8, 0x44].as_slice() /* "ID" */, true, Production::ReceivedLine),
        Clause::For => literal(s, a, [0x46u8, 0x4F, 0x52].as_slice() /* "FOR" */, true, Production::ReceivedLine),
    }?;
    let d = fws(s, b)?;
    clause_value(s, d, c)
}

/// Stamp = From-domain By-domain Opt-info [CFWS] ";" FWS date-time, where
/// From-domain = "FROM" FWS Extended-Domain and
/// Opt-info = [Via] [With] [ID] [For]. Further registered clauses are not
/// read.
pub open spec fn spec_stamp(s: Seq<u8>, i: int) -> Result<usize, ParseError> {
    match spec_literal(s, i, seq![0x46u8, 0x52, 0x4F, 0x4D] /* "FROM" */, true, Production::ReceivedLine) {
        Ok(a) => match spec_fws(s, a as int) {
            Ok(b) => match spec_extended_domain(s, b as int) {
                Ok(c) => match spec_clause(s, c as int, Clause::By) {
                    Ok(d) => match spec_opt(spec_clause(s, d as int, Clause::Via), d as int) {
                        Ok(e) => match spec_opt(spec_clause(s, e as int, Clause::With), e as int) {
                            Ok(f) => match spec_opt(spec_clause(s, f as int, Clause::Id), f as int) {
                                Ok(g) => match spec_opt(
                                    spec_clause(s, g as int, Clause::For),
                                    g as int,
                                ) {
                                    Ok(h) => match spec_opt(spec_fws(s, h as int), h as int) {
                                        Ok(m) => match spec_byte(
                                            s,
                                            m as int,
                                            0x3B,
                                            Production::ReceivedLine,
                                        ) {
                                            Ok(n) => match spec_fws(s, n as int) {
                                                Ok(q) => spec_date_time(s, q as int),
                                                Err(x) => Err(x),
                                            },
                                            Err(x) => Err(x),
                                        },
                                        Err(x) => Err(x),
                                    },
                                    Err(x) => Err(x),
                                },
                                Err(x) => Err(x),
                            },
                            Err(x) => Err(x),
                        },
                        Err(x) => Err(x),
                    },
                    Err(x) => Err(x),
                },
                Err(x) => Err(x),
            },
            Err(x) => Err(x),
        },
        Err(x) => Err(x),
    }
}

fn stamp(s: &[u8], i: usize) -> (r: Result<usize, ParseError>)
    requires
        i <= s@.len(),
    ensures
        r == spec_stamp(s@, i as int),
        r matches Ok(k) ==> i <= k <= s@.len() && ascii_span(s@, i as int, k as int),
{
    let a = literal(s, i, [0x46u8, 0x52, 0x4F, 0x4D].as_slice() /* "FROM" */, true, Production::ReceivedLine)?;
    let b = fws(s, a)?;
    let c = extended_domain(s, b)?;
    let d = clause(s, c, Clause::By)?;
    let e = opt(clause(s, d, Clause::Via), d)?;
    let f = opt(clause(s, e, Clause::With), e)?;
    let g = opt(clause(s, f, Clause::Id), f)?;
    let h = opt(clause(s, g, Clause::For), g)?;
    let m = opt(fws(s, h), h)?;
    let n = byte(s, m, 0x3B, Production::ReceivedLine)?;
    let q = fws(s, n)?;
    date_time(s, q)
}

/// Time-stamp-line = "Received:" FWS Stamp CRLF; the result is the text of
/// the stamp, folds included.
pub open spec fn spec_time_stamp_line(s: Seq<u8>, i: int) -> Result<(usize, Seq<char>), ParseError> {
    match spec_literal(s, i, seq![0x52u8, 0x65, 0x63, 0x65, 0x69, 0x76, 0x65, 0x64, 0x3A] /* "Received:" */, true, Production::ReceivedLine) {
        Ok(j) => match spec_fws(s, j as int) {
            Ok(k) => match spec_stamp(s, k as int) {
                Ok(m) => match spec_crlf(s, m as int) {
                    Ok(e) => Ok((e, str_at(s, k as int, m as int))),
                    Err(x) => Err(x),
                },
                Err(x) => Err(x),
            },
            Err(x) => Err(x),
        },
        Err(x) => Err(x),
    }
}

fn time_stamp_line_at(s: &[u8], i: usize) -> (r: Result<(usize, String), ParseError>)
    requires
        i <= s@.len(),
    ensures
        match r {
            Ok((e, t)) => spec_time_stamp_line(s@, i as int) == Ok::<(usize, Seq<char>), ParseError>(
                (e, t@),
            ) && e <= s@.len(),
            Err(x) => spec_time_stamp_line(s@, i as int) == Err::<(usize, Seq<char>), ParseError>(
                x,
            ),
        },
{
    let j = literal(s, i, [0x52u8, 0x65, 0x63, 0x65, 0x69, 0x76, 0x65, 0x64, 0x3A].as_slice() /* "Received:" */, true, Production::ReceivedLine)?;
    let k = fws(s, j)?;
    let m = stamp(s, k)?;
    let e = crlf(s, m)?;
    Ok((e, text_of(s, k, m)))
}

/// Parses a Received line from the start of `input`: the result holds the
/// text of its stamp.
pub fn time_stamp_line(input: &[u8]) -> (r: Result<(&[u8], String), ParseError>)
    ensures
        parsed(input@, spec_time_stamp_line(input@, 0), r),
{
    finish(input, time_stamp_line_at(input, 0))
}

} // verus!
