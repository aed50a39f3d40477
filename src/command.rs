//! The command grammar (RFC 5321, 4.1.1 and 4.1.2) and `parse_command`.
use vstd::prelude::*;

use crate::abnf::{ByteClass, spec_is_let_dig, is_Let_dig};
use crate::address::{domain, domain_or_address, joined_run, lemma_joined_run, spec_domain, spec_domain_or_address, spec_joined_run, address_literal, spec_address_literal};
use crate::grammar::{ParseError, Production, ascii_span, byte, chars_of, crlf, incomplete, invalid, is_incomplete, lemma_scan_bounds, literal, many0, many1, ran_out, scan, sp, spec_byte, spec_crlf, spec_literal, spec_many0, spec_many1, spec_sp, text_of, agrees, scan_class, alt2, view_result, str_at, finish, parsed};
use crate::text::{unescape_bytes, unescaped};
use crate::types::{AtomOrQuoted, AtomOrQuotedView, Command, CommandView, Parameter, ParameterView};

verus! {

// ----- Atom, Quoted-string, String -----

/// Atom = 1*atext
pub open spec fn spec_atom(s: Seq<u8>, i: int) -> Result<usize, ParseError> {
    spec_many1(s, i, ByteClass::Atext, Production::Atom)
}

/// The interior of a quoted-string from `j` on: qtextSMTP bytes, and the
/// quoted pairs `\\` and `\"`.
pub open spec fn spec_qcontent_run(s: Seq<u8>, j: int) -> Result<usize, ParseError>
    decreases s.len() - j,
{
    if j < 0 || j >= s.len() {
        incomplete()
    } else if crate::abnf::spec_is_qtext_smtp(s[j]) {
        spec_qcontent_run(s, j + 1)
    } else if s[j] == 0x5C {
        if j + 1 >= s.len() {
            incomplete()
        } else if s[j + 1] == 0x5C || s[j + 1] == 0x22 {
            spec_qcontent_run(s, j + 2)
        } else {
            Ok(j as usize)
        }
    } else {
        Ok(j as usize)
    }
}

fn qcontent_run(s: &[u8], start: usize) -> (r: Result<usize, ParseError>)
    requires
        start <= s@.len(),
    ensures
        r == spec_qcontent_run(s@, start as int),
        r matches Ok(k) ==> start <= k < s@.len() && ascii_span(s@, start as int, k as int),
{
    let n = s.len();
    let mut j = start;
    while j < n
        invariant
            n == s@.len(),
            start <= j <= n,
            spec_qcontent_run(s@, j as int) == spec_qcontent_run(s@, start as int),
            ascii_span(s@, start as int, j as int),
        decreases n - j,
    {
        let b = s[j];
        if crate::abnf::is_qtextSMTP(b) {
            j += 1;
        } else if b == 0x5C {
            if j + 1 >= n {
                return Err(ParseError::Incomplete);
            } else if s[j + 1] == 0x5C || s[j + 1] == 0x22 {
                j += 2;
            } else {
                return Ok(j);
            }
        } else {
            return Ok(j);
        }
    }
    Err(ParseError::Incomplete)
}

/// Quoted-string = DQUOTE *QcontentSMTP DQUOTE; the result is the position
/// after the closing quote.
pub open spec fn spec_quoted_string(s: Seq<u8>, i: int) -> Result<usize, ParseError> {
    match spec_byte(s, i, 0x22, Production::QuotedString) {
        Ok(j) => match spec_qcontent_run(s, j as int) {
            Ok(k) => spec_byte(s, k as int, 0x22, Production::QuotedString),
            Err(e) => Err(e),
        },
        Err(e) => Err(e),
    }
}

pub fn quoted_string(s: &[u8], i: usize) -> (r: Result<usize, ParseError>)
    requires
        i <= s@.len(),
    ensures
        r == spec_quoted_string(s@, i as int),
        r matches Ok(k) ==> i + 2 <= k <= s@.len() && ascii_span(s@, i as int, k as int),
{
    let j = match byte(s, i, 0x22, Production::QuotedString) {
        Ok(j) => j,
        Err(e) => return Err(e),
    };
    let k = match qcontent_run(s, j) {
        Ok(k) => k,
        Err(e) => return Err(e),
    };
    byte(s, k, 0x22, Production::QuotedString)
}

/// String = Atom / Quoted-string; a quoted-string stands for its unescaped
/// interior.
pub open spec fn spec_string(s: Seq<u8>, i: int) -> Result<(usize, AtomOrQuotedView), ParseError> {
    let a = spec_atom(s, i);
    if a is Ok {
        let k = a->Ok_0 as int;
        Ok((k as usize, AtomOrQuotedView::Atom(str_at(s, i, k))))
    } else {
        match spec_quoted_string(s, i) {
            Ok(k) => Ok(
                (
                    k,
                    AtomOrQuotedView::Quoted(
                        chars_of(unescape_bytes(s.subrange(i + 1, k - 1))),
                    ),
                ),
            ),
            Err(e) => if ran_out(a) || e == ParseError::Incomplete {
                incomplete()
            } else {
                invalid(i, Production::String)
            },
        }
    }
}

pub fn string(s: &[u8], i: usize) -> (r: Result<(usize, AtomOrQuoted), ParseError>)
    requires
        i <= s@.len(),
    ensures
        view_result(r) == spec_string(s@, i as int),
        r matches Ok((k, _)) ==> i < k <= s@.len(),
{
    let a = many1(s, i, ByteClass::Atext, Production::Atom);
    if let Ok(k) = a {
        return Ok((k, AtomOrQuoted::Atom(text_of(s, i, k))));
    }
    let q = quoted_string(s, i);
    match q {
        Ok(k) => {
            let interior = unescaped(vstd::slice::slice_subrange(s, i + 1, k - 1));
            proof {
                crate::text::lemma_unescape_ascii(s@.subrange(i + 1, k - 1));
            }
            let v = crate::grammar::ascii_string(interior.as_slice());
            Ok((k, AtomOrQuoted::Quoted(v)))
        },
        Err(_) => {
            if is_incomplete(&a) || is_incomplete(&q) {
                Err(ParseError::Incomplete)
            } else {
                Err(ParseError::Invalid { offset: i, production: Production::String })
            }
        },
    }
}

// ----- Paths -----

/// Dot-string = Atom *("." Atom)
pub open spec fn spec_dot_string(s: Seq<u8>, i: int) -> Result<usize, ParseError> {
    match spec_atom(s, i) {
        Ok(j) => spec_joined_run(s, j as int, ByteClass::Atext, false, true),
        Err(e) => Err(e),
    }
}

/// Local-part = Dot-string / Quoted-string
pub open spec fn spec_local_part(s: Seq<u8>, i: int) -> Result<usize, ParseError> {
    alt2(spec_dot_string(s, i), spec_quoted_string(s, i), i, Production::Mailbox)
}

/// Domain / address-literal, as the end of what it matched.
pub open spec fn spec_domain_or_literal(s: Seq<u8>, i: int) -> Result<usize, ParseError> {
    alt2(spec_domain(s, i), spec_address_literal(s, i), i, Production::Mailbox)
}

/// Mailbox = Local-part "@" ( Domain / address-literal )
pub open spec fn spec_mailbox(s: Seq<u8>, i: int) -> Result<usize, ParseError> {
    match spec_local_part(s, i) {
        Ok(j) => match spec_byte(s, j as int, 0x40, Production::Mailbox) {
            Ok(k) => spec_domain_or_literal(s, k as int),
            Err(e) => Err(e),
        },
        Err(e) => Err(e),
    }
}

fn local_part(s: &[u8], i: usize) -> (r: Result<usize, ParseError>)
    requires
        i <= s@.len(),
    ensures
        r == spec_local_part(s@, i as int),
        r matches Ok(k) ==> i <= k <= s@.len() && ascii_span(s@, i as int, k as int),
{
    let a = match many1(s, i, ByteClass::Atext, Production::Atom) {
        Ok(j) => {
            let r = joined_run(s, j, ByteClass::Atext, false, true);
            r
        },
        Err(e) => Err(e),
    };
    if let Ok(k) = a {
        return Ok(k);
    }
    let q = quoted_string(s, i);
    match q {
        Ok(k) => Ok(k),
        Err(_) => {
            if is_incomplete(&a) || is_incomplete(&q) {
                Err(ParseError::Incomplete)
            } else {
                Err(ParseError::Invalid { offset: i, production: Production::Mailbox })
            }
        },
    }
}

fn domain_or_literal(s: &[u8], i: usize) -> (r: Result<usize, ParseError>)
    requires
        i <= s@.len(),
    ensures
        r == spec_domain_or_literal(s@, i as int),
        r matches Ok(k) ==> i <= k <= s@.len() && ascii_span(s@, i as int, k as int),
{
    let d = domain(s, i);
    if let Ok(k) = d {
        return Ok(k);
    }
    let a = address_literal(s, i);
    match a {
        Ok(k) => {
            assert(s@[i as int] == 0x5B && s@[k - 1] == 0x5D);
            Ok(k)
        },
        Err(_) => {
            if is_incomplete(&d) || is_incomplete(&a) {
                Err(ParseError::Incomplete)
            } else {
                Err(ParseError::Invalid { offset: i, production: Production::Mailbox })
            }
        },
    }
}

pub(crate) fn mailbox(s: &[u8], i: usize) -> (r: Result<usize, ParseError>)
    requires
        i <= s@.len(),
    ensures
        r == spec_mailbox(s@, i as int),
        r matches Ok(k) ==> i <= k <= s@.len() && ascii_span(s@, i as int, k as int),
{
    let j = match local_part(s, i) {
        Ok(j) => j,
        Err(e) => return Err(e),
    };
    let k = match byte(s, j, 0x40, Production::Mailbox) {
        Ok(k) => k,
        Err(e) => return Err(e),
    };
    domain_or_literal(s, k)
}

/// The rest of an A-d-l after an At-domain that ended at `k`:
/// *( "," "@" Domain )
pub open spec fn spec_adl_tail(s: Seq<u8>, k: int) -> Result<usize, ParseError>
    decreases s.len() - k,
    when 0 <= k <= s.len() <= usize::MAX
{
    if k >= s.len() {
        incomplete()
    } else if s[k] != 0x2C {
        Ok(k as usize)
    } else if k + 1 >= s.len() {
        incomplete()
    } else if s[k + 1] != 0x40 {
        Ok(k as usize)
    } else {
        match spec_domain(s, k + 2) {
            Ok(m) => {
                proof {
                    lemma_joined_run(s, k + 3, ByteClass::LetDig, true, true);
                }
                spec_adl_tail(s, m as int)
            },
            Err(ParseError::Incomplete) => incomplete(),
            Err(_) => Ok(k as usize),
        }
    }
}

/// A-d-l = At-domain *( "," At-domain ), where At-domain = "@" Domain
pub open spec fn spec_adl(s: Seq<u8>, i: int) -> Result<usize, ParseError> {
    match spec_byte(s, i, 0x40, Production::Path) {
        Ok(j) => match spec_domain(s, j as int) {
            Ok(k) => spec_adl_tail(s, k as int),
            Err(e) => Err(e),
        },
        Err(e) => Err(e),
    }
}

fn adl(s: &[u8], i: usize) -> (r: Result<usize, ParseError>)
    requires
        i <= s@.len(),
    ensures
        r == spec_adl(s@, i as int),
        r matches Ok(k) ==> i <= k <= s@.len() && ascii_span(s@, i as int, k as int),
{
    let j = match byte(s, i, 0x40, Production::Path) {
        Ok(j) => j,
        Err(e) => return Err(e),
    };
    let start = match domain(s, j) {
        Ok(k) => k,
        Err(e) => return Err(e),
    };
    let n = s.len();
    let mut k = start;
    loop
        invariant
            n == s@.len(),
            i <= k <= n,
            spec_adl(s@, i as int) == spec_adl_tail(s@, k as int),
            ascii_span(s@, i as int, k as int),
        decreases n - k,
    {
        if k >= n {
            return Err(ParseError::Incomplete);
        } else if s[k] != 0x2C {
            return Ok(k);
        } else if k + 1 >= n {
            return Err(ParseError::Incomplete);
        } else if s[k + 1] != 0x40 {
            return Ok(k);
        }
        match domain(s, k + 2) {
            Ok(m) => {
                k = m;
            },
            Err(ParseError::Incomplete) => return Err(ParseError::Incomplete),
            Err(_) => return Ok(k),
        }
    }
}

/// The optional source route of a path: [ A-d-l ":" ]; the result is where
/// the mailbox starts.
pub open spec fn spec_route(s: Seq<u8>, j: int) -> Result<usize, ParseError> {
    match spec_adl(s, j) {
        Ok(a) => match spec_byte(s, a as int, 0x3A, Production::Path) {
            Ok(b) => Ok(b),
            Err(ParseError::Incomplete) => incomplete(),
            Err(_) => Ok(j as usize),
        },
        Err(ParseError::Incomplete) => incomplete(),
        Err(_) => Ok(j as usize),
    }
}

/// Path = "<" [ A-d-l ":" ] Mailbox ">"; the result is the position after
/// ">".
pub open spec fn spec_path(s: Seq<u8>, i: int) -> Result<usize, ParseError> {
    match spec_byte(s, i, 0x3C, Production::Path) {
        Ok(j) => match spec_route(s, j as int) {
            Ok(m) => match spec_mailbox(s, m as int) {
                Ok(k) => spec_byte(s, k as int, 0x3E, Production::Path),
                Err(e) => Err(e),
            },
            Err(e) => Err(e),
        },
        Err(e) => Err(e),
    }
}

pub(crate) fn path(s: &[u8], i: usize) -> (r: Result<usize, ParseError>)
    requires
        i <= s@.len(),
    ensures
        r == spec_path(s@, i as int),
        r matches Ok(k) ==> i + 2 <= k <= s@.len() && ascii_span(s@, i + 1, k - 1) && s@[i as int]
            == 0x3C && s@[k - 1] == 0x3E,
{
    let j = match byte(s, i, 0x3C, Production::Path) {
        Ok(j) => j,
        Err(e) => return Err(e),
    };
    let m = match adl(s, j) {
        Ok(a) => match byte(s, a, 0x3A, Production::Path) {
            Ok(b) => b,
            Err(ParseError::Incomplete) => return Err(ParseError::Incomplete),
            Err(_) => j,
        },
        Err(ParseError::Incomplete) => return Err(ParseError::Incomplete),
        Err(_) => j,
    };
    let k = match mailbox(s, m) {
        Ok(k) => k,
        Err(e) => return Err(e),
    };
    byte(s, k, 0x3E, Production::Path)
}


/// Reverse-path = Path / "<>"; the result is the text between the brackets.
#[verifier::opaque]
pub open spec fn spec_reverse_path(s: Seq<u8>, i: int) -> Result<(usize, Seq<char>), ParseError> {
    let p = spec_path(s, i);
    if p is Ok {
        let k = p->Ok_0 as int;
        Ok((k as usize, str_at(s, i + 1, k - 1)))
    } else {
        match spec_literal(s, i, seq![0x3Cu8, 0x3E] /* "<>" */, false, Production::Path) {
            Ok(k) => Ok((k, seq![])),
            Err(e) => if ran_out(p) || e == ParseError::Incomplete {
                incomplete()
            } else {
                invalid(i, Production::Path)
            },
        }
    }
}

pub(crate) fn reverse_path(s: &[u8], i: usize) -> (r: Result<(usize, String), ParseError>)
    requires
        i <= s@.len(),
    ensures
        match r {
            Ok((k, t)) => spec_reverse_path(s@, i as int) == Ok::<(usize, Seq<char>), ParseError>(
                (k, t@),
            ),
            Err(e) => spec_reverse_path(s@, i as int) == Err::<(usize, Seq<char>), ParseError>(e),
        },
        r matches Ok((k, _)) ==> k <= s@.len(),
{
    reveal(spec_reverse_path);
    let p = path(s, i);
    if let Ok(k) = p {
        return Ok((k, text_of(s, i + 1, k - 1)));
    }
    let l = literal(s, i, [0x3Cu8, 0x3E].as_slice() /* "<>" */, false, Production::Path);
    match l {
        Ok(k) => {
            let empty = text_of(s, i, i);
            assert(s@.subrange(i as int, i as int) == Seq::<u8>::empty());
            assert(chars_of(Seq::<u8>::empty()) == Seq::<char>::empty());
            Ok((k, empty))
        },
        Err(_) => {
            if is_incomplete(&p) || is_incomplete(&l) {
                Err(ParseError::Incomplete)
            } else {
                Err(ParseError::Invalid { offset: i, production: Production::Path })
            }
        },
    }
}

/// "<Postmaster@" Domain ">", with "Postmaster" in any case.
pub open spec fn spec_postmaster_at(s: Seq<u8>, i: int) -> Result<usize, ParseError> {
    match spec_literal(s, i, seq![0x3Cu8, 0x50, 0x6F, 0x73, 0x74, 0x6D, 0x61, 0x73, 0x74, 0x65, 0x72, 0x40] /* "<Postmaster@" */, true, Production::Path) {
        Ok(j) => match spec_domain(s, j as int) {
            Ok(k) => spec_byte(s, k as int, 0x3E, Production::Path),
            Err(e) => Err(e),
        },
        Err(e) => Err(e),
    }
}

/// The argument of RCPT: "<Postmaster@" Domain ">" / "<Postmaster>" /
/// Forward-path, tried in that order; the result is the text between the
/// brackets.
#[verifier::opaque]
pub open spec fn spec_forward_path(s: Seq<u8>, i: int) -> Result<(usize, Seq<char>), ParseError> {
    match alt2(
        spec_postmaster_at(s, i),
        alt2(
            spec_literal(s, i, seq![0x3Cu8, 0x50, 0x6F, 0x73, 0x74, 0x6D, 0x61, 0x73, 0x74, 0x65, 0x72, 0x3E] /* "<Postmaster>" */, true, Production::Path),
            spec_path(s, i),
            i,
            Production::Path,
        ),
        i,
        Production::Path,
    ) {
        Ok(k) => Ok((k, str_at(s, i + 1, k - 1))),
        Err(e) => Err(e),
    }
}

fn forward_path(s: &[u8], i: usize) -> (r: Result<(usize, String), ParseError>)
    requires
        i <= s@.len(),
    ensures
        match r {
            Ok((k, t)) => spec_forward_path(s@, i as int) == Ok::<(usize, Seq<char>), ParseError>(
                (k, t@),
            ),
            Err(e) => spec_forward_path(s@, i as int) == Err::<(usize, Seq<char>), ParseError>(e),
        },
        r matches Ok((k, _)) ==> k <= s@.len(),
{
    reveal(spec_forward_path);
    let lit: [u8; 12] = [
        0x3C, 0x50, 0x6F, 0x73, 0x74, 0x6D, 0x61, 0x73, 0x74, 0x65, 0x72, 0x40,
    ];
    assert(lit@ == seq![0x3Cu8, 0x50, 0x6F, 0x73, 0x74, 0x6D, 0x61, 0x73, 0x74, 0x65, 0x72, 0x40] /* "<Postmaster@" */);
    let a = match literal(s, i, lit.as_slice(), true, Production::Path) {
        Ok(j) => match domain(s, j) {
            Ok(k) => byte(s, k, 0x3E, Production::Path),
            Err(e) => Err(e),
        },
        Err(e) => Err(e),
    };
    if let Ok(k) = a {
        return Ok((k, text_of(s, i + 1, k - 1)));
    }
    let lit2: [u8; 12] = [
        0x3C, 0x50, 0x6F, 0x73, 0x74, 0x6D, 0x61, 0x73, 0x74, 0x65, 0x72, 0x3E,
    ];
    assert(lit2@ == seq![0x3Cu8, 0x50, 0x6F, 0x73, 0x74, 0x6D, 0x61, 0x73, 0x74, 0x65, 0x72, 0x3E] /* "<Postmaster>" */);
    let b = literal(s, i, lit2.as_slice(), true, Production::Path);
    if let Ok(k) = b {
        return Ok((k, text_of(s, i + 1, k - 1)));
    }
    let c = path(s, i);
    if let Ok(k) = c {
        return Ok((k, text_of(s, i + 1, k - 1)));
    }
    if is_incomplete(&a) || is_incomplete(&b) || is_incomplete(&c) {
        Err(ParseError::Incomplete)
    } else {
        Err(ParseError::Invalid { offset: i, production: Production::Path })
    }
}

// ----- ESMTP parameters -----

/// The keyword `s[i..j]` is SIZE, in any case.
pub open spec fn is_size_keyword(s: Seq<u8>, i: int, j: int) -> bool {
    j == i + 4 && agrees(s, i, seq![0x53u8, 0x49, 0x5A, 0x45] /* "SIZE" */, true)
}

/// The parameter with keyword `s[i..j]` and value `s[v..k]`: a size where
/// the keyword is SIZE and the value is a number, which must fit in a `u32`.
pub open spec fn param_with_value(s: Seq<u8>, i: int, j: int, v: int, k: int) -> Result<
    (usize, ParameterView),
    ParseError,
> {
    if is_size_keyword(s, i, j) && scan(s, v, ByteClass::Digit) == k {
        match crate::grammar::spec_number(s, v) {
            Ok((_, n)) => Ok((k as usize, ParameterView::Size(n))),
            Err(e) => Err(e),
        }
    } else {
        Ok((k as usize, ParameterView::Other { keyword: str_at(s, i, j), value: Some(str_at(s, v, k)) }))
    }
}

/// esmtp-param = esmtp-keyword ["=" esmtp-value], where
/// esmtp-keyword = (ALPHA / DIGIT) *(ALPHA / DIGIT / "-")
pub open spec fn spec_esmtp_param(s: Seq<u8>, i: int) -> Result<(usize, ParameterView), ParseError> {
    if i >= s.len() {
        incomplete()
    } else if !spec_is_let_dig(s[i]) {
        invalid(i, Production::EsmtpKeyword)
    } else {
        match spec_many0(s, i + 1, ByteClass::KeywordTail) {
            Err(e) => Err(e),
            Ok(j) => if s[j as int] != 0x3D {
                Ok((j, ParameterView::Other { keyword: str_at(s, i, j as int), value: None }))
            } else {
                match spec_many1(s, j + 1, ByteClass::EsmtpValue, Production::EsmtpValue) {
                    Ok(k) => param_with_value(s, i, j as int, j + 1, k as int),
                    Err(ParseError::Incomplete) => incomplete(),
                    Err(_) => Ok(
                        (j, ParameterView::Other { keyword: str_at(s, i, j as int), value: None }),
                    ),
                }
            },
        }
    }
}

pub proof fn lemma_esmtp_param_progress(s: Seq<u8>, i: int)
    requires
        0 <= i <= s.len() <= usize::MAX,
    ensures
        spec_esmtp_param(s, i) matches Ok((k, _)) ==> i < k <= s.len(),
{
    if i < s.len() {
        lemma_scan_bounds(s, i + 1, ByteClass::KeywordTail);
        let j = scan(s, i + 1, ByteClass::KeywordTail);
        if j < s.len() {
            lemma_scan_bounds(s, j + 1, ByteClass::EsmtpValue);
        }
    }
}

fn esmtp_param(s: &[u8], i: usize) -> (r: Result<(usize, Parameter), ParseError>)
    requires
        i <= s@.len(),
    ensures
        view_result(r) == spec_esmtp_param(s@, i as int),
{
    if i >= s.len() {
        return Err(ParseError::Incomplete);
    }
    if !is_Let_dig(s[i]) {
        return Err(ParseError::Invalid { offset: i, production: Production::EsmtpKeyword });
    }
    let j = match many0(s, i + 1, ByteClass::KeywordTail) {
        Ok(j) => j,
        Err(e) => return Err(e),
    };
    assert(ascii_span(s@, i as int, j as int)) by {
        crate::abnf::lemma_class_ascii(ByteClass::LetDig, s@[i as int]);
    }
    if s[j] != 0x3D {
        return Ok((j, Parameter::Other { keyword: text_of(s, i, j), value: None }));
    }
    match many1(s, j + 1, ByteClass::EsmtpValue, Production::EsmtpValue) {
        Ok(k) => {
            let lit: [u8; 4] = [0x53, 0x49, 0x5A, 0x45];
            assert(lit@ == seq![0x53u8, 0x49, 0x5A, 0x45] /* "SIZE" */);
            let is_size = j - i == 4 && literal(s, i, lit.as_slice(), true, Production::EsmtpKeyword).is_ok();
            if is_size && scan_class(s, j + 1, ByteClass::Digit) == k {
                match crate::grammar::number(s, j + 1) {
                    Ok((_, n)) => Ok((k, Parameter::Size(n))),
                    Err(e) => Err(e),
                }
            } else {
                Ok((k, Parameter::Other { keyword: text_of(s, i, j), value: Some(text_of(s, j + 1, k)) }))
            }
        },
        Err(ParseError::Incomplete) => Err(ParseError::Incomplete),
        Err(_) => Ok((j, Parameter::Other { keyword: text_of(s, i, j), value: None })),
    }
}

/// [SP esmtp-param *(SP esmtp-param)] after a path that ended at `k`.
pub open spec fn spec_params(s: Seq<u8>, k: int) -> Result<(usize, Seq<ParameterView>), ParseError>
    decreases s.len() - k,
    when 0 <= k <= s.len() <= usize::MAX
{
    if k >= s.len() {
        incomplete()
    } else if s[k] != 0x20 {
        Ok((k as usize, seq![]))
    } else {
        match spec_esmtp_param(s, k + 1) {
            Ok((m, p)) => {
                proof {
                    lemma_esmtp_param_progress(s, k + 1);
                }
                match spec_params(s, m as int) {
                    Ok((e, ps)) => Ok((e, seq![p] + ps)),
                    Err(x) => Err(x),
                }
            },
            Err(ParseError::Incomplete) => incomplete(),
            Err(_) => Ok((k as usize, seq![])),
        }
    }
}

fn params(s: &[u8], start: usize) -> (r: Result<(usize, Vec<Parameter>), ParseError>)
    requires
        start <= s@.len(),
    ensures
        match r {
            Ok((k, ps)) => spec_params(s@, start as int) == Ok::<
                (usize, Seq<ParameterView>),
                ParseError,
            >((k, crate::types::params_view(ps@))),
            Err(e) => spec_params(s@, start as int) == Err::<
                (usize, Seq<ParameterView>),
                ParseError,
            >(e),
        },
        r matches Ok((k, _)) ==> k <= s@.len(),
{
    let n = s.len();
    let mut acc: Vec<Parameter> = Vec::new();
    let mut k = start;
    loop
        invariant
            n == s@.len(),
            k <= n,
            spec_params(s@, start as int) == match spec_params(s@, k as int) {
                Ok((e, ps)) => Ok((e, crate::types::params_view(acc@) + ps)),
                Err(x) => Err(x),
            },
        decreases n - k,
    {
        if k >= n {
            return Err(ParseError::Incomplete);
        }
        if s[k] != 0x20 {
            assert(crate::types::params_view(acc@) + Seq::<ParameterView>::empty()
                == crate::types::params_view(acc@));
            return Ok((k, acc));
        }
        proof {
            lemma_esmtp_param_progress(s@, k + 1);
        }
        match esmtp_param(s, k + 1) {
            Ok((m, p)) => {
                let ghost before = acc@;
                let ghost pv = p@;
                acc.push(p);
                proof {
                    assert(crate::types::params_view(acc@) == crate::types::params_view(before)
                        + seq![pv]);
                    assert forall|ps: Seq<ParameterView>| #[trigger] (crate::types::params_view(
                        before,
                    ) + (seq![pv] + ps)) == crate::types::params_view(acc@) + ps by {
                        assert(crate::types::params_view(before) + (seq![pv] + ps)
                            == crate::types::params_view(before) + seq![pv] + ps);
                    }
                }
                k = m;
            },
            Err(ParseError::Incomplete) => return Err(ParseError::Incomplete),
            Err(_) => {
                assert(crate::types::params_view(acc@) + Seq::<ParameterView>::empty()
                    == crate::types::params_view(acc@));
                return Ok((k, acc));
            },
        }
    }
}


// ----- Commands -----

/// helo = "HELO" SP ( Domain / address-literal ) CRLF, and ehlo alike.
#[verifier::opaque]
pub open spec fn spec_greet_cmd(s: Seq<u8>, i: int, verb: Seq<u8>, extended: bool) -> Result<
    (usize, CommandView),
    ParseError,
> {
    match spec_literal(s, i, verb, true, Production::Verb) {
        Ok(j) => match spec_sp(s, j as int) {
            Ok(j1) => match spec_domain_or_address(s, j1 as int) {
                Ok((k, peer)) => match spec_crlf(s, k as int) {
                    Ok(e) => Ok(
                        (
                            e,
                            if extended {
                                CommandView::Ehlo { peer }
                            } else {
                                CommandView::Helo { peer }
                            },
                        ),
                    ),
                    Err(x) => Err(x),
                },
                Err(x) => Err(x),
            },
            Err(x) => Err(x),
        },
        Err(x) => Err(x),
    }
}

fn greet_cmd(s: &[u8], i: usize, verb: &[u8], extended: bool) -> (r: Result<
    (usize, Command),
    ParseError,
>)
    requires
        i <= s@.len(),
    ensures
        view_result(r) == spec_greet_cmd(s@, i as int, verb@, extended),
        r matches Ok((k, _)) ==> k <= s@.len(),
{
    reveal(spec_greet_cmd);
    let j = match literal(s, i, verb, true, Production::Verb) {
        Ok(j) => j,
        Err(e) => return Err(e),
    };
    let j1 = match sp(s, j) {
        Ok(j1) => j1,
        Err(e) => return Err(e),
    };
    let (k, peer) = match domain_or_address(s, j1) {
        Ok(x) => x,
        Err(e) => return Err(e),
    };
    let e = match crlf(s, k) {
        Ok(e) => e,
        Err(x) => return Err(x),
    };
    if extended {
        Ok((e, Command::Ehlo { peer }))
    } else {
        Ok((e, Command::Helo { peer }))
    }
}

/// mail = "MAIL FROM:" [SP] Reverse-path [SP Mail-parameters] CRLF, and
/// rcpt = "RCPT TO:" [SP] ( "<Postmaster@" Domain ">" / "<Postmaster>" /
/// Forward-path ) [SP Rcpt-parameters] CRLF. The space after the colon is
/// not in the grammar, but some clients send it.
#[verifier::opaque]
pub open spec fn spec_path_cmd(s: Seq<u8>, i: int, verb: Seq<u8>, recipient: bool) -> Result<
    (usize, CommandView),
    ParseError,
> {
    match spec_literal(s, i, verb, true, Production::Verb) {
        Ok(j) => if j >= s.len() {
            incomplete()
        } else {
            let j2 = if s[j as int] == 0x20 {
                j + 1
            } else {
                j as int
            };
            let p = if recipient {
                spec_forward_path(s, j2)
            } else {
                spec_reverse_path(s, j2)
            };
            match p {
                Ok((k, path)) => match spec_params(s, k as int) {
                    Ok((m, ps)) => match spec_crlf(s, m as int) {
                        Ok(e) => Ok(
                            (
                                e,
                                if recipient {
                                    CommandView::Rcpt { forward_path: path, parameters: ps }
                                } else {
                                    CommandView::Mail { reverse_path: path, parameters: ps }
                                },
                            ),
                        ),
                        Err(x) => Err(x),
                    },
                    Err(x) => Err(x),
                },
                Err(x) => Err(x),
            }
        },
        Err(x) => Err(x),
    }
}

fn path_cmd(s: &[u8], i: usize, verb: &[u8], recipient: bool) -> (r: Result<
    (usize, Command),
    ParseError,
>)
    requires
        i <= s@.len(),
    ensures
        view_result(r) == spec_path_cmd(s@, i as int, verb@, recipient),
        r matches Ok((k, _)) ==> k <= s@.len(),
{
    reveal(spec_path_cmd);
    let j = match literal(s, i, verb, true, Production::Verb) {
        Ok(j) => j,
        Err(e) => return Err(e),
    };
    if j >= s.len() {
        return Err(ParseError::Incomplete);
    }
    let j2 = if s[j] == 0x20 {
        j + 1
    } else {
        j
    };
    let (k, path) = if recipient {
        match forward_path(s, j2) {
            Ok(x) => x,
            Err(e) => return Err(e),
        }
    } else {
        match reverse_path(s, j2) {
            Ok(x) => x,
            Err(e) => return Err(e),
        }
    };
    let (m, parameters) = match params(s, k) {
        Ok(x) => x,
        Err(e) => return Err(e),
    };
    let e = match crlf(s, m) {
        Ok(e) => e,
        Err(x) => return Err(x),
    };
    if recipient {
        Ok((e, Command::Rcpt { forward_path: path, parameters }))
    } else {
        Ok((e, Command::Mail { reverse_path: path, parameters }))
    }
}

/// A verb alone: data = "DATA" CRLF, and RSET, QUIT, STARTTLS alike.
#[verifier::opaque]
pub open spec fn spec_bare_cmd(s: Seq<u8>, i: int, verb: Seq<u8>, c: CommandView) -> Result<
    (usize, CommandView),
    ParseError,
> {
    match spec_literal(s, i, verb, true, Production::Verb) {
        Ok(j) => match spec_crlf(s, j as int) {
            Ok(e) => Ok((e, c)),
            Err(x) => Err(x),
        },
        Err(x) => Err(x),
    }
}

fn bare_cmd(s: &[u8], i: usize, verb: &[u8], c: Command) -> (r: Result<(usize, Command), ParseError>)
    requires
        i <= s@.len(),
    ensures
        view_result(r) == spec_bare_cmd(s@, i as int, verb@, c@),
        r matches Ok((k, _)) ==> k <= s@.len(),
{
    reveal(spec_bare_cmd);
    let j = match literal(s, i, verb, true, Production::Verb) {
        Ok(j) => j,
        Err(e) => return Err(e),
    };
    match crlf(s, j) {
        Ok(e) => Ok((e, c)),
        Err(x) => Err(x),
    }
}

/// vrfy = "VRFY" SP String CRLF, and expn alike.
#[verifier::opaque]
pub open spec fn spec_string_cmd(s: Seq<u8>, i: int, verb: Seq<u8>, list: bool) -> Result<
    (usize, CommandView),
    ParseError,
> {
    match spec_literal(s, i, verb, true, Production::Verb) {
        Ok(j) => match spec_sp(s, j as int) {
            Ok(j1) => match spec_string(s, j1 as int) {
                Ok((k, a)) => match spec_crlf(s, k as int) {
                    Ok(e) => Ok(
                        (
                            e,
                            if list {
                                CommandView::Expn { mailing_list: a }
                            } else {
                                CommandView::Vrfy { user_or_mailbox: a }
                            },
                        ),
                    ),
                    Err(x) => Err(x),
                },
                Err(x) => Err(x),
            },
            Err(x) => Err(x),
        },
        Err(x) => Err(x),
    }
}

fn string_cmd(s: &[u8], i: usize, verb: &[u8], list: bool) -> (r: Result<
    (usize, Command),
    ParseError,
>)
    requires
        i <= s@.len(),
    ensures
        view_result(r) == spec_string_cmd(s@, i as int, verb@, list),
        r matches Ok((k, _)) ==> k <= s@.len(),
{
    reveal(spec_string_cmd);
    let j = match literal(s, i, verb, true, Production::Verb) {
        Ok(j) => j,
        Err(e) => return Err(e),
    };
    let j1 = match sp(s, j) {
        Ok(j1) => j1,
        Err(e) => return Err(e),
    };
    let (k, a) = match string(s, j1) {
        Ok(x) => x,
        Err(e) => return Err(e),
    };
    let e = match crlf(s, k) {
        Ok(e) => e,
        Err(x) => return Err(x),
    };
    if list {
        Ok((e, Command::Expn { mailing_list: a }))
    } else {
        Ok((e, Command::Vrfy { user_or_mailbox: a }))
    }
}

/// [SP String] after a verb that ended at `j`.
pub open spec fn spec_opt_string(s: Seq<u8>, j: int) -> Result<
    (usize, Option<AtomOrQuotedView>),
    ParseError,
> {
    if j >= s.len() {
        incomplete()
    } else if s[j] != 0x20 {
        Ok((j as usize, None))
    } else {
        match spec_string(s, j + 1) {
            Ok((k, a)) => Ok((k, Some(a))),
            Err(ParseError::Incomplete) => incomplete(),
            Err(_) => Ok((j as usize, None)),
        }
    }
}

/// help = "HELP" [ SP String ] CRLF, and noop alike.
#[verifier::opaque]
pub open spec fn spec_opt_string_cmd(s: Seq<u8>, i: int, verb: Seq<u8>, noop: bool) -> Result<
    (usize, CommandView),
    ParseError,
> {
    match spec_literal(s, i, verb, true, Production::Verb) {
        Ok(j) => match spec_opt_string(s, j as int) {
            Ok((k, a)) => match spec_crlf(s, k as int) {
                Ok(e) => Ok(
                    (
                        e,
                        if noop {
                            CommandView::Noop { argument: a }
                        } else {
                            CommandView::Help { argument: a }
                        },
                    ),
                ),
                Err(x) => Err(x),
            },
            Err(x) => Err(x),
        },
        Err(x) => Err(x),
    }
}

fn opt_string_cmd(s: &[u8], i: usize, verb: &[u8], noop: bool) -> (r: Result<
    (usize, Command),
    ParseError,
>)
    requires
        i <= s@.len(),
    ensures
        view_result(r) == spec_opt_string_cmd(s@, i as int, verb@, noop),
        r matches Ok((k, _)) ==> k <= s@.len(),
{
    reveal(spec_opt_string_cmd);
    let j = match literal(s, i, verb, true, Production::Verb) {
        Ok(j) => j,
        Err(e) => return Err(e),
    };
    if j >= s.len() {
        return Err(ParseError::Incomplete);
    }
    let (k, argument) = if s[j] != 0x20 {
        (j, None)
    } else {
        match string(s, j + 1) {
            Ok((k, a)) => (k, Some(a)),
            Err(ParseError::Incomplete) => return Err(ParseError::Incomplete),
            Err(_) => (j, None),
        }
    };
    let e = match crlf(s, k) {
        Ok(e) => e,
        Err(x) => return Err(x),
    };
    if noop {
        Ok((e, Command::Noop { argument }))
    } else {
        Ok((e, Command::Help { argument }))
    }
}

/// base64 = *(ALPHA / DIGIT / "+" / "/") [ "==" / "=" ]
pub open spec fn spec_base64(s: Seq<u8>, i: int) -> Result<usize, ParseError> {
    match spec_many0(s, i, ByteClass::Base64) {
        Ok(j) => if s[j as int] != 0x3D {
            Ok(j)
        } else if j + 1 < s.len() && s[j + 1] == 0x3D {
            Ok((j + 2) as usize)
        } else {
            Ok((j + 1) as usize)
        },
        Err(e) => Err(e),
    }
}

pub fn base64(s: &[u8], i: usize) -> (r: Result<usize, ParseError>)
    requires
        i <= s@.len(),
    ensures
        r == spec_base64(s@, i as int),
        r matches Ok(k) ==> i <= k <= s@.len() && ascii_span(s@, i as int, k as int),
{
    let j = match many0(s, i, ByteClass::Base64) {
        Ok(j) => j,
        Err(e) => return Err(e),
    };
    if s[j] != 0x3D {
        Ok(j)
    } else if j + 1 < s.len() && s[j + 1] == 0x3D {
        Ok(j + 2)
    } else {
        Ok(j + 1)
    }
}

/// "AUTH" SP "LOGIN" [SP base64] CRLF, and "AUTH" SP "PLAIN" alike.
#[verifier::opaque]
pub open spec fn spec_auth_cmd(s: Seq<u8>, i: int, mechanism: Seq<u8>, plain: bool) -> Result<
    (usize, CommandView),
    ParseError,
> {
    match spec_literal(s, i, seq![0x41u8, 0x55, 0x54, 0x48] /* "AUTH" */, true, Production::Verb) {
        Ok(j) => match spec_sp(s, j as int) {
            Ok(j1) => match spec_literal(s, j1 as int, mechanism, true, Production::Verb) {
                Ok(k) => {
                    let initial: Result<(usize, Option<Seq<char>>), ParseError> = if k >= s.len() {
                        incomplete()
                    } else if s[k as int] != 0x20 {
                        Ok((k, None))
                    } else {
                        match spec_base64(s, k + 1) {
                            Ok(m) => Ok((m, Some(str_at(s, k + 1, m as int)))),
                            Err(e) => Err(e),
                        }
                    };
                    match initial {
                        Ok((m, d)) => match spec_crlf(s, m as int) {
                            Ok(e) => Ok(
                                (
                                    e,
                                    if plain {
                                        CommandView::AuthPlain { initial: d }
                                    } else {
                                        CommandView::AuthLogin { initial: d }
                                    },
                                ),
                            ),
                            Err(x) => Err(x),
                        },
                        Err(x) => Err(x),
                    }
                },
                Err(x) => Err(x),
            },
            Err(x) => Err(x),
        },
        Err(x) => Err(x),
    }
}

fn auth_cmd(s: &[u8], i: usize, mechanism: &[u8], plain: bool) -> (r: Result<
    (usize, Command),
    ParseError,
>)
    requires
        i <= s@.len(),
    ensures
        view_result(r) == spec_auth_cmd(s@, i as int, mechanism@, plain),
        r matches Ok((k, _)) ==> k <= s@.len(),
{
    reveal(spec_auth_cmd);
    let j = match literal(s, i, [0x41u8, 0x55, 0x54, 0x48].as_slice() /* "AUTH" */, true, Production::Verb) {
        Ok(j) => j,
        Err(e) => return Err(e),
    };
    let j1 = match sp(s, j) {
        Ok(j1) => j1,
        Err(e) => return Err(e),
    };
    let k = match literal(s, j1, mechanism, true, Production::Verb) {
        Ok(k) => k,
        Err(e) => return Err(e),
    };
    if k >= s.len() {
        return Err(ParseError::Incomplete);
    }
    let (m, initial) = if s[k] != 0x20 {
        (k, None)
    } else {
        match base64(s, k + 1) {
            Ok(m) => (m, Some(text_of(s, k + 1, m))),
            Err(e) => return Err(e),
        }
    };
    let e = match crlf(s, m) {
        Ok(e) => e,
        Err(x) => return Err(x),
    };
    if plain {
        Ok((e, Command::AuthPlain { initial }))
    } else {
        Ok((e, Command::AuthLogin { initial }))
    }
}


/// command = helo / ehlo / mail / rcpt / data / rset / vrfy / expn / help /
/// noop / quit / starttls / auth-login / auth-plain, tried in that order.
pub open spec fn spec_command(s: Seq<u8>, i: int) -> Result<(usize, CommandView), ParseError> {
    let p = Production::Command;
    alt2(spec_greet_cmd(s, i, seq![0x48u8, 0x45, 0x4C, 0x4F] /* "HELO" */, false),
    alt2(spec_greet_cmd(s, i, seq![0x45u8, 0x48, 0x4C, 0x4F] /* "EHLO" */, true),
    alt2(spec_path_cmd(s, i, seq![0x4Du8, 0x41, 0x49, 0x4C, 0x20, 0x46, 0x52, 0x4F, 0x4D, 0x3A] /* "MAIL FROM:" */, false),
    alt2(spec_path_cmd(s, i, seq![0x52u8, 0x43, 0x50, 0x54, 0x20, 0x54, 0x4F, 0x3A] /* "RCPT TO:" */, true),
    alt2(spec_bare_cmd(s, i, seq![0x44u8, 0x41, 0x54, 0x41] /* "DATA" */, CommandView::Data),
    alt2(spec_bare_cmd(s, i, seq![0x52u8, 0x53, 0x45, 0x54] /* "RSET" */, CommandView::Rset),
    alt2(spec_string_cmd(s, i, seq![0x56u8, 0x52, 0x46, 0x59] /* "VRFY" */, false),
    alt2(spec_string_cmd(s, i, seq![0x45u8, 0x58, 0x50, 0x4E] /* "EXPN" */, true),
    alt2(spec_opt_string_cmd(s, i, seq![0x48u8, 0x45, 0x4C, 0x50] /* "HELP" */, false),
    alt2(spec_opt_string_cmd(s, i, seq![0x4Eu8, 0x4F, 0x4F, 0x50] /* "NOOP" */, true),
    alt2(spec_bare_cmd(s, i, seq![0x51u8, 0x55, 0x49, 0x54] /* "QUIT" */, CommandView::Quit),
    alt2(spec_bare_cmd(s, i, seq![0x53u8, 0x54, 0x41, 0x52, 0x54, 0x54, 0x4C, 0x53] /* "STARTTLS" */, CommandView::StartTls),
    alt2(spec_auth_cmd(s, i, seq![0x4Cu8, 0x4F, 0x47, 0x49, 0x4E] /* "LOGIN" */, false),
    spec_auth_cmd(s, i, seq![0x50u8, 0x4C, 0x41, 0x49, 0x4E] /* "PLAIN" */, true),
    i, p), i, p), i, p), i, p), i, p), i, p), i, p), i, p), i, p), i, p), i, p), i, p), i, p)
}

#[verifier::rlimit(50)]
fn command_at(s: &[u8], i: usize) -> (r: Result<(usize, Command), ParseError>)
    requires
        i <= s@.len(),
    ensures
        view_result(r) == spec_command(s@, i as int),
        r matches Ok((k, _)) ==> k <= s@.len(),
{
    let r1 = greet_cmd(s, i, [0x48u8, 0x45, 0x4C, 0x4F].as_slice() /* "HELO" */, false);
    if r1.is_ok() {
        return r1;
    }
    let r2 = greet_cmd(s, i, [0x45u8, 0x48, 0x4C, 0x4F].as_slice() /* "EHLO" */, true);
    if r2.is_ok() {
        return r2;
    }
    let r3 = path_cmd(s, i, [0x4Du8, 0x41, 0x49, 0x4C, 0x20, 0x46, 0x52, 0x4F, 0x4D, 0x3A].as_slice() /* "MAIL FROM:" */, false);
    if r3.is_ok() {
        return r3;
    }
    let r4 = path_cmd(s, i, [0x52u8, 0x43, 0x50, 0x54, 0x20, 0x54, 0x4F, 0x3A].as_slice() /* "RCPT TO:" */, true);
    if r4.is_ok() {
        return r4;
    }
    let r5 = bare_cmd(s, i, [0x44u8, 0x41, 0x54, 0x41].as_slice() /* "DATA" */, Command::Data);
    if r5.is_ok() {
        return r5;
    }
    let r6 = bare_cmd(s, i, [0x52u8, 0x53, 0x45, 0x54].as_slice() /* "RSET" */, Command::Rset);
    if r6.is_ok() {
        return r6;
    }
    let r7 = string_cmd(s, i, [0x56u8, 0x52, 0x46, 0x59].as_slice() /* "VRFY" */, false);
    if r7.is_ok() {
        return r7;
    }
    let r8 = string_cmd(s, i, [0x45u8, 0x58, 0x50, 0x4E].as_slice() /* "EXPN" */, true);
    if r8.is_ok() {
        return r8;
    }
    let r9 = opt_string_cmd(s, i, [0x48u8, 0x45, 0x4C, 0x50].as_slice() /* "HELP" */, false);
    if r9.is_ok() {
        return r9;
    }
    let r10 = opt_string_cmd(s, i, [0x4Eu8, 0x4F, 0x4F, 0x50].as_slice() /* "NOOP" */, true);
    if r10.is_ok() {
        return r10;
    }
    let r11 = bare_cmd(s, i, [0x51u8, 0x55, 0x49, 0x54].as_slice() /* "QUIT" */, Command::Quit);
    if r11.is_ok() {
        return r11;
    }
    let r12 = bare_cmd(s, i, [0x53u8, 0x54, 0x41, 0x52, 0x54, 0x54, 0x4C, 0x53].as_slice() /* "STARTTLS" */, Command::StartTls);
    if r12.is_ok() {
        return r12;
    }
    let r13 = auth_cmd(s, i, [0x4Cu8, 0x4F, 0x47, 0x49, 0x4E].as_slice() /* "LOGIN" */, false);
    if r13.is_ok() {
        return r13;
    }
    let r14 = auth_cmd(s, i, [0x50u8, 0x4C, 0x41, 0x49, 0x4E].as_slice() /* "PLAIN" */, true);
    if r14.is_ok() {
        return r14;
    }
    if is_incomplete(&r1) || is_incomplete(&r2) || is_incomplete(&r3) || is_incomplete(&r4)
        || is_incomplete(&r5) || is_incomplete(&r6) || is_incomplete(&r7) || is_incomplete(&r8)
        || is_incomplete(&r9) || is_incomplete(&r10) || is_incomplete(&r11) || is_incomplete(
        &r12,
    ) || is_incomplete(&r13) || is_incomplete(&r14) {
        Err(ParseError::Incomplete)
    } else {
        Err(ParseError::Invalid { offset: i, production: Production::Command })
    }
}

// ----- Entry points on a whole input -----

/// Parses one command from the start of `input`.
pub fn command(input: &[u8]) -> (r: Result<(&[u8], Command), ParseError>)
    ensures
        parsed(input@, spec_command(input@, 0), r),
{
    finish(input, command_at(input, 0))
}

/// helo = "HELO" SP ( Domain / address-literal ) CRLF
pub fn helo(input: &[u8]) -> (r: Result<(&[u8], Command), ParseError>)
    ensures
        parsed(input@, spec_greet_cmd(input@, 0, seq![0x48u8, 0x45, 0x4C, 0x4F] /* "HELO" */, false), r),
{
    finish(input, greet_cmd(input, 0, [0x48u8, 0x45, 0x4C, 0x4F].as_slice() /* "HELO" */, false))
}

/// ehlo = "EHLO" SP ( Domain / address-literal ) CRLF
pub fn ehlo(input: &[u8]) -> (r: Result<(&[u8], Command), ParseError>)
    ensures
        parsed(input@, spec_greet_cmd(input@, 0, seq![0x45u8, 0x48, 0x4C, 0x4F] /* "EHLO" */, true), r),
{
    finish(input, greet_cmd(input, 0, [0x45u8, 0x48, 0x4C, 0x4F].as_slice() /* "EHLO" */, true))
}

/// mail = "MAIL FROM:" Reverse-path [SP Mail-parameters] CRLF
pub fn mail(input: &[u8]) -> (r: Result<(&[u8], Command), ParseError>)
    ensures
        parsed(input@, spec_path_cmd(input@, 0, seq![0x4Du8, 0x41, 0x49, 0x4C, 0x20, 0x46, 0x52, 0x4F, 0x4D, 0x3A] /* "MAIL FROM:" */, false), r),
{
    finish(input, path_cmd(input, 0, [0x4Du8, 0x41, 0x49, 0x4C, 0x20, 0x46, 0x52, 0x4F, 0x4D, 0x3A].as_slice() /* "MAIL FROM:" */, false))
}

/// rcpt = "RCPT TO:" ( "<Postmaster@" Domain ">" / "<Postmaster>" /
/// Forward-path ) [SP Rcpt-parameters] CRLF
pub fn rcpt(input: &[u8]) -> (r: Result<(&[u8], Command), ParseError>)
    ensures
        parsed(input@, spec_path_cmd(input@, 0, seq![0x52u8, 0x43, 0x50, 0x54, 0x20, 0x54, 0x4F, 0x3A] /* "RCPT TO:" */, true), r),
{
    finish(input, path_cmd(input, 0, [0x52u8, 0x43, 0x50, 0x54, 0x20, 0x54, 0x4F, 0x3A].as_slice() /* "RCPT TO:" */, true))
}

/// data = "DATA" CRLF
pub fn data(input: &[u8]) -> (r: Result<(&[u8], Command), ParseError>)
    ensures
        parsed(input@, spec_bare_cmd(input@, 0, seq![0x44u8, 0x41, 0x54, 0x41] /* "DATA" */, CommandView::Data), r),
{
    finish(input, bare_cmd(input, 0, [0x44u8, 0x41, 0x54, 0x41].as_slice() /* "DATA" */, Command::Data))
}

/// rset = "RSET" CRLF
pub fn rset(input: &[u8]) -> (r: Result<(&[u8], Command), ParseError>)
    ensures
        parsed(input@, spec_bare_cmd(input@, 0, seq![0x52u8, 0x53, 0x45, 0x54] /* "RSET" */, CommandView::Rset), r),
{
    finish(input, bare_cmd(input, 0, [0x52u8, 0x53, 0x45, 0x54].as_slice() /* "RSET" */, Command::Rset))
}

/// vrfy = "VRFY" SP String CRLF
pub fn vrfy(input: &[u8]) -> (r: Result<(&[u8], Command), ParseError>)
    ensures
        parsed(input@, spec_string_cmd(input@, 0, seq![0x56u8, 0x52, 0x46, 0x59] /* "VRFY" */, false), r),
{
    finish(input, string_cmd(input, 0, [0x56u8, 0x52, 0x46, 0x59].as_slice() /* "VRFY" */, false))
}

/// expn = "EXPN" SP String CRLF
pub fn expn(input: &[u8]) -> (r: Result<(&[u8], Command), ParseError>)
    ensures
        parsed(input@, spec_string_cmd(input@, 0, seq![0x45u8, 0x58, 0x50, 0x4E] /* "EXPN" */, true), r),
{
    finish(input, string_cmd(input, 0, [0x45u8, 0x58, 0x50, 0x4E].as_slice() /* "EXPN" */, true))
}

/// help = "HELP" [ SP String ] CRLF
pub fn help(input: &[u8]) -> (r: Result<(&[u8], Command), ParseError>)
    ensures
        parsed(input@, spec_opt_string_cmd(input@, 0, seq![0x48u8, 0x45, 0x4C, 0x50] /* "HELP" */, false), r),
{
    finish(input, opt_string_cmd(input, 0, [0x48u8, 0x45, 0x4C, 0x50].as_slice() /* "HELP" */, false))
}

/// noop = "NOOP" [ SP String ] CRLF
pub fn noop(input: &[u8]) -> (r: Result<(&[u8], Command), ParseError>)
    ensures
        parsed(input@, spec_opt_string_cmd(input@, 0, seq![0x4Eu8, 0x4F, 0x4F, 0x50] /* "NOOP" */, true), r),
{
    finish(input, opt_string_cmd(input, 0, [0x4Eu8, 0x4F, 0x4F, 0x50].as_slice() /* "NOOP" */, true))
}

/// quit = "QUIT" CRLF
pub fn quit(input: &[u8]) -> (r: Result<(&[u8], Command), ParseError>)
    ensures
        parsed(input@, spec_bare_cmd(input@, 0, seq![0x51u8, 0x55, 0x49, 0x54] /* "QUIT" */, CommandView::Quit), r),
{
    finish(input, bare_cmd(input, 0, [0x51u8, 0x55, 0x49, 0x54].as_slice() /* "QUIT" */, Command::Quit))
}

/// starttls = "STARTTLS" CRLF
pub fn starttls(input: &[u8]) -> (r: Result<(&[u8], Command), ParseError>)
    ensures
        parsed(input@, spec_bare_cmd(input@, 0, seq![0x53u8, 0x54, 0x41, 0x52, 0x54, 0x54, 0x4C, 0x53] /* "STARTTLS" */, CommandView::StartTls), r),
{
    finish(input, bare_cmd(input, 0, [0x53u8, 0x54, 0x41, 0x52, 0x54, 0x54, 0x4C, 0x53].as_slice() /* "STARTTLS" */, Command::StartTls))
}

/// auth-login = "AUTH LOGIN" [SP base64] CRLF
pub fn auth_login(input: &[u8]) -> (r: Result<(&[u8], Command), ParseError>)
    ensures
        parsed(input@, spec_auth_cmd(input@, 0, seq![0x4Cu8, 0x4F, 0x47, 0x49, 0x4E] /* "LOGIN" */, false), r),
{
    finish(input, auth_cmd(input, 0, [0x4Cu8, 0x4F, 0x47, 0x49, 0x4E].as_slice() /* "LOGIN" */, false))
}

/// auth-plain = "AUTH PLAIN" [SP base64] CRLF
pub fn auth_plain(input: &[u8]) -> (r: Result<(&[u8], Command), ParseError>)
    ensures
        parsed(input@, spec_auth_cmd(input@, 0, seq![0x50u8, 0x4C, 0x41, 0x49, 0x4E] /* "PLAIN" */, true), r),
{
    finish(input, auth_cmd(input, 0, [0x50u8, 0x4C, 0x41, 0x49, 0x4E].as_slice() /* "PLAIN" */, true))
}

} // verus!
