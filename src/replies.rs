//! The reply grammar (RFC 5321, 4.2 and 4.1.1.1): greetings, EHLO replies
//! with their capabilities, and general replies.
use vstd::prelude::*;

use crate::abnf::{ByteClass, is_Let_dig, spec_is_let_dig};
use crate::address::{domain, domain_or_address, spec_domain, spec_domain_or_address};

use crate::grammar::{ParseError, Production, ascii_span, chars_of, crlf, incomplete, invalid, is_incomplete, lemma_scan_bounds, literal, many0, many1, number, scan, spec_crlf, spec_literal, spec_many0, spec_many1, spec_number, text_of, ascii_string, alt2, finish, parsed, str_at, view_result};
use crate::reply::{AuthMechanism, AuthMechanismView, Capability, CapabilityView, ReplyCode, TextString, code_of_value};
use crate::response::{Response, ResponseView};
use crate::types::DomainOrAddressView;

verus! {

// ----- Text -----

/// textstring = 1*(%d09 / %d32-126)
pub open spec fn spec_textstring(s: Seq<u8>, i: int) -> Result<usize, ParseError> {
    spec_many1(s, i, ByteClass::Text, Production::TextString)
}

/// [textstring]: the text, empty where there is none.
pub open spec fn spec_opt_text(s: Seq<u8>, j: int) -> Result<(usize, Seq<u8>), ParseError> {
    match spec_textstring(s, j) {
        Ok(m) => Ok((m, s.subrange(j, m as int))),
        Err(ParseError::Incomplete) => incomplete(),
        Err(_) => Ok((j as usize, seq![])),
    }
}

/// [SP textstring]: the text, empty where there is none.
pub open spec fn spec_opt_sp_text(s: Seq<u8>, j: int) -> Result<(usize, Seq<u8>), ParseError> {
    if j >= s.len() {
        incomplete()
    } else if s[j] != 0x20 {
        Ok((j as usize, seq![]))
    } else {
        match spec_textstring(s, j + 1) {
            Ok(m) => Ok((m, s.subrange(j + 1, m as int))),
            Err(ParseError::Incomplete) => incomplete(),
            Err(_) => Ok((j as usize, seq![])),
        }
    }
}

pub open spec fn text_bytes(b: Seq<u8>) -> bool {
    forall|k: int| 0 <= k < b.len() ==> ByteClass::Text.holds(#[trigger] b[k])
}

pub proof fn lemma_opt_text(s: Seq<u8>, j: int)
    requires
        0 <= j <= s.len() <= usize::MAX,
    ensures
        spec_opt_text(s, j) matches Ok((m, t)) ==> j <= m < s.len() && t == s.subrange(j, m as int)
            && text_bytes(t),
        spec_opt_sp_text(s, j) matches Ok((m, t)) ==> j <= m < s.len() && text_bytes(t),
{
    lemma_scan_bounds(s, j, ByteClass::Text);
    if j < s.len() {
        lemma_scan_bounds(s, j + 1, ByteClass::Text);
    }
}

fn opt_text(s: &[u8], j: usize) -> (r: Result<(usize, usize), ParseError>)
    requires
        j <= s@.len(),
    ensures
        match r {
            Ok((m, t)) => spec_opt_text(s@, j as int) == Ok::<(usize, Seq<u8>), ParseError>(
                (m, s@.subrange(t as int, m as int)),
            ) && j <= t <= m < s@.len(),
            Err(e) => spec_opt_text(s@, j as int) == Err::<(usize, Seq<u8>), ParseError>(e),
        },
{
    match many1(s, j, ByteClass::Text, Production::TextString) {
        Ok(m) => Ok((m, j)),
        Err(ParseError::Incomplete) => Err(ParseError::Incomplete),
        Err(_) => {
            proof {
                lemma_scan_bounds(s@, j as int, ByteClass::Text);
            }
            assert(s@.subrange(j as int, j as int) == Seq::<u8>::empty());
            Ok((j, j))
        },
    }
}

fn opt_sp_text(s: &[u8], j: usize) -> (r: Result<(usize, usize), ParseError>)
    requires
        j <= s@.len(),
    ensures
        match r {
            Ok((m, t)) => spec_opt_sp_text(s@, j as int) == Ok::<(usize, Seq<u8>), ParseError>(
                (m, s@.subrange(t as int, m as int)),
            ) && j <= t <= m < s@.len(),
            Err(e) => spec_opt_sp_text(s@, j as int) == Err::<(usize, Seq<u8>), ParseError>(e),
        },
{
    if j >= s.len() {
        return Err(ParseError::Incomplete);
    }
    if s[j] != 0x20 {
        assert(s@.subrange(j as int, j as int) == Seq::<u8>::empty());
        return Ok((j, j));
    }
    match many1(s, j + 1, ByteClass::Text, Production::TextString) {
        Ok(m) => Ok((m, j + 1)),
        Err(ParseError::Incomplete) => Err(ParseError::Incomplete),
        Err(_) => {
            assert(s@.subrange(j as int, j as int) == Seq::<u8>::empty());
            Ok((j, j))
        },
    }
}

/// A line of text of a reply, as a `TextString`.
fn text_line(s: &[u8], t: usize, m: usize) -> (r: TextString)
    requires
        t <= m <= s@.len(),
        text_bytes(s@.subrange(t as int, m as int)),
    ensures
        r@ == chars_of(s@.subrange(t as int, m as int)),
{
    TextString::from_text_bytes(vstd::slice::slice_subrange(s, t, m))
}

// ----- Greeting -----

pub open spec fn lf() -> Seq<u8> {
    seq![0x0Au8]
}

/// Lines joined by line feeds.
pub open spec fn join_lines(ls: Seq<Seq<u8>>) -> Seq<u8>
    decreases ls.len(),
{
    if ls.len() == 0 {
        seq![]
    } else if ls.len() == 1 {
        ls[0]
    } else {
        join_lines(ls.drop_last()) + lf() + ls.last()
    }
}

/// The domain of a greeting: the domain, or the content of the address
/// literal.
pub open spec fn greeting_domain(d: DomainOrAddressView) -> Seq<char> {
    match d {
        DomainOrAddressView::Domain(x) => x,
        DomainOrAddressView::Address(x) => x,
    }
}

/// *( "220-" [ textstring ] CRLF ) "220" [ SP textstring ] CRLF, from `k`:
/// the text of each line.
pub open spec fn spec_greeting_rest(s: Seq<u8>, k: int) -> Result<(usize, Seq<Seq<u8>>), ParseError>
    decreases s.len() - k,
    when 0 <= k <= s.len() <= usize::MAX
{
    let cont = match spec_literal(s, k, seq![0x32u8, 0x32, 0x30, 0x2D] /* "220-" */, false, Production::Greeting) {
        Ok(j) => match spec_opt_text(s, j as int) {
            Ok((m, t)) => match spec_crlf(s, m as int) {
                Ok(e) => Ok((e, t)),
                Err(x) => Err(x),
            },
            Err(x) => Err(x),
        },
        Err(x) => Err(x),
    };
    match cont {
        Ok((e, t)) => {
            proof {
                lemma_opt_text(s, k + 4);
            }
            match spec_greeting_rest(s, e as int) {
                Ok((z, ts)) => Ok((z, seq![t] + ts)),
                Err(x) => Err(x),
            }
        },
        Err(ParseError::Incomplete) => incomplete(),
        Err(_) => match spec_literal(s, k, seq![0x32u8, 0x32, 0x30] /* "220" */, false, Production::Greeting) {
            Ok(j) => match spec_opt_sp_text(s, j as int) {
                Ok((m, t)) => match spec_crlf(s, m as int) {
                    Ok(e) => Ok((e, seq![t])),
                    Err(x) => Err(x),
                },
                Err(x) => Err(x),
            },
            Err(x) => Err(x),
        },
    }
}

/// Greeting = ( "220 " (Domain / address-literal) [ SP textstring ] CRLF ) /
///            ( "220-" (Domain / address-literal) [ SP textstring ] CRLF
///              *( "220-" [ textstring ] CRLF )
///              "220" [ SP textstring ] CRLF )
/// The text of the lines is joined by line feeds.
#[verifier::opaque]
pub open spec fn spec_greeting(s: Seq<u8>, i: int) -> Result<(usize, ResponseView), ParseError> {
    let single = match spec_literal(s, i, seq![0x32u8, 0x32, 0x30, 0x20] /* "220 " */, false, Production::Greeting) {
        Ok(j) => match spec_domain_or_address(s, j as int) {
            Ok((k, d)) => match spec_opt_sp_text(s, k as int) {
                Ok((m, t)) => match spec_crlf(s, m as int) {
                    Ok(e) => Ok(
                        (e, ResponseView::Greeting { domain: greeting_domain(d), text: chars_of(t) }),
                    ),
                    Err(x) => Err(x),
                },
                Err(x) => Err(x),
            },
            Err(x) => Err(x),
        },
        Err(x) => Err(x),
    };
    let multi = match spec_literal(s, i, seq![0x32u8, 0x32, 0x30, 0x2D] /* "220-" */, false, Production::Greeting) {
        Ok(j) => match spec_domain_or_address(s, j as int) {
            Ok((k, d)) => match spec_opt_sp_text(s, k as int) {
                Ok((m, t)) => match spec_crlf(s, m as int) {
                    Ok(e) => match spec_greeting_rest(s, e as int) {
                        Ok((z, ts)) => Ok(
                            (
                                z,
                                ResponseView::Greeting {
                                    domain: greeting_domain(d),
                                    text: chars_of(join_lines(seq![t] + ts)),
                                },
                            ),
                        ),
                        Err(x) => Err(x),
                    },
                    Err(x) => Err(x),
                },
                Err(x) => Err(x),
            },
            Err(x) => Err(x),
        },
        Err(x) => Err(x),
    };
    alt2(single, multi, i, Production::Greeting)
}

pub open spec fn spans_view(s: Seq<u8>, spans: Seq<(usize, usize)>) -> Seq<Seq<u8>> {
    spans.map_values(|p: (usize, usize)| s.subrange(p.0 as int, p.1 as int))
}

pub open spec fn spans_text(s: Seq<u8>, spans: Seq<(usize, usize)>) -> bool {
    forall|k: int|
        0 <= k < spans.len() ==> #[trigger] spans[k].0 <= spans[k].1 <= s.len() && text_bytes(
            s.subrange(spans[k].0 as int, spans[k].1 as int),
        )
}

pub proof fn lemma_push_span(s: Seq<u8>, before: Seq<(usize, usize)>, t: usize, m: usize)
    requires
        spans_text(s, before),
        t <= m <= s.len(),
        text_bytes(s.subrange(t as int, m as int)),
    ensures
        spans_text(s, before.push((t, m))),
        spans_view(s, before.push((t, m))) == spans_view(s, before) + seq![
            s.subrange(t as int, m as int),
        ],
        forall|ts: Seq<Seq<u8>>| #[trigger] (spans_view(s, before) + (seq![s.subrange(t as int, m as int)] + ts))
            == spans_view(s, before.push((t, m))) + ts,
{
    let after = before.push((t, m));
    assert forall|q: int| 0 <= q < after.len() implies #[trigger] after[q].0 <= after[q].1
        <= s.len() && text_bytes(s.subrange(after[q].0 as int, after[q].1 as int)) by {
        if q < before.len() {
            assert(after[q] == before[q]);
        }
    }
    assert(spans_view(s, after) == spans_view(s, before) + seq![s.subrange(t as int, m as int)]);
    assert forall|ts: Seq<Seq<u8>>| #[trigger] (spans_view(s, before) + (seq![s.subrange(t as int, m as int)] + ts))
        == spans_view(s, after) + ts by {
        assert(spans_view(s, before) + (seq![s.subrange(t as int, m as int)] + ts) == spans_view(s, before) + seq![s.subrange(t as int, m as int)] + ts);
    }
}

/// The text lines after the first line of a multi-line greeting, as spans
/// of `s`.
fn greeting_rest(s: &[u8], start: usize) -> (r: Result<(usize, Vec<(usize, usize)>), ParseError>)
    requires
        start <= s@.len(),
    ensures
        match r {
            Ok((z, spans)) => spec_greeting_rest(s@, start as int) == Ok::<
                (usize, Seq<Seq<u8>>),
                ParseError,
            >((z, spans_view(s@, spans@))) && z <= s@.len() && spans_text(s@, spans@),
            Err(e) => spec_greeting_rest(s@, start as int) == Err::<
                (usize, Seq<Seq<u8>>),
                ParseError,
            >(e),
        },
{
    let n = s.len();
    let mut acc: Vec<(usize, usize)> = Vec::new();
    let mut k = start;
    loop
        invariant
            n == s@.len(),
            k <= n,
            spans_text(s@, acc@),
            spec_greeting_rest(s@, start as int) == match spec_greeting_rest(s@, k as int) {
                Ok((z, ts)) => Ok((z, spans_view(s@, acc@) + ts)),
                Err(x) => Err(x),
            },
        decreases n - k,
    {
        let cont = match literal(s, k, [0x32u8, 0x32, 0x30, 0x2D].as_slice() /* "220-" */, false, Production::Greeting) {
            Ok(j) => match opt_text(s, j) {
                Ok((m, t)) => match crlf(s, m) {
                    Ok(e) => Ok((e, t, m, j)),
                    Err(x) => Err(x),
                },
                Err(x) => Err(x),
            },
            Err(x) => Err(x),
        };
        match cont {
            Ok((e, t, m, j)) => {
                let ghost before = acc@;
                proof {
                    lemma_opt_text(s@, j as int);
                }
                assert(text_bytes(s@.subrange(t as int, m as int)));
                acc.push((t, m));
                proof {
                    lemma_push_span(s@, before, t, m);
                }
                k = e;
            },
            Err(ParseError::Incomplete) => return Err(ParseError::Incomplete),
            Err(_) => {
                let j = match literal(s, k, [0x32u8, 0x32, 0x30].as_slice() /* "220" */, false, Production::Greeting) {
                    Ok(j) => j,
                    Err(x) => return Err(x),
                };
                proof {
                    lemma_opt_text(s@, j as int);
                }
                let (m, t) = match opt_sp_text(s, j) {
                    Ok(x) => x,
                    Err(x) => return Err(x),
                };
                let e = match crlf(s, m) {
                    Ok(e) => e,
                    Err(x) => return Err(x),
                };
                assert(text_bytes(s@.subrange(t as int, m as int)));
                let ghost before = acc@;
                acc.push((t, m));
                proof {
                    lemma_push_span(s@, before, t, m);
                }
                return Ok((e, acc));
            },
        }
    }
}


/// The lines of `s` at `spans`, joined by line feeds.
fn join_spans(s: &[u8], spans: &Vec<(usize, usize)>) -> (r: Vec<u8>)
    requires
        spans_text(s@, spans@),
    ensures
        r@ == join_lines(spans_view(s@, spans@)),
        forall|k: int| 0 <= k < r@.len() ==> #[trigger] r@[k] < 128,
{
    let mut out: Vec<u8> = Vec::new();
    let mut k: usize = 0;
    while k < spans.len()
        invariant
            k <= spans@.len(),
            spans_text(s@, spans@),
            out@ == join_lines(spans_view(s@, spans@.subrange(0, k as int))),
            forall|q: int| 0 <= q < out@.len() ==> #[trigger] out@[q] < 128,
        decreases spans@.len() - k,
    {
        let (a, b) = spans[k];
        assert(spans@[k as int].0 <= spans@[k as int].1 <= s@.len());
        if k > 0 {
            out.push(0x0A);
        }
        let ghost mid = out@;
        crate::grammar::push_bytes(&mut out, vstd::slice::slice_subrange(s, a, b));
        proof {
            let line = s@.subrange(a as int, b as int);
            assert(text_bytes(line));
            assert forall|q: int| 0 <= q < out@.len() implies #[trigger] out@[q] < 128 by {
                if q >= mid.len() {
                    assert(out@[q] == line[q - mid.len()]);
                    assert(ByteClass::Text.holds(line[q - mid.len()]));
                }
            }
            let v = spans_view(s@, spans@.subrange(0, k + 1));
            assert(v.drop_last() == spans_view(s@, spans@.subrange(0, k as int)));
            assert(v.last() == line);
        }
        k += 1;
    }
    assert(spans@.subrange(0, k as int) == spans@);
    out
}

fn single_greeting(s: &[u8], i: usize) -> (r: Result<(usize, Response), ParseError>)
    requires
        i <= s@.len(),
    ensures
        view_result(r) == match spec_literal(s@, i as int, seq![0x32u8, 0x32, 0x30, 0x20] /* "220 " */, false, Production::Greeting) {
            Ok(j) => match spec_domain_or_address(s@, j as int) {
                Ok((k, d)) => match spec_opt_sp_text(s@, k as int) {
                    Ok((m, t)) => match spec_crlf(s@, m as int) {
                        Ok(e) => Ok(
                            (e, ResponseView::Greeting { domain: greeting_domain(d), text: chars_of(t) }),
                        ),
                        Err(x) => Err(x),
                    },
                    Err(x) => Err(x),
                },
                Err(x) => Err(x),
            },
            Err(x) => Err(x),
        },
        r matches Ok((k, _)) ==> k <= s@.len(),
{
    let j = match literal(s, i, [0x32u8, 0x32, 0x30, 0x20].as_slice() /* "220 " */, false, Production::Greeting) {
        Ok(j) => j,
        Err(x) => return Err(x),
    };
    let (k, d) = match domain_or_address(s, j) {
        Ok(x) => x,
        Err(x) => return Err(x),
    };
    let _n = s.len();
    proof {
        lemma_opt_text(s@, k as int);
    }
    let (m, t) = match opt_sp_text(s, k) {
        Ok(x) => x,
        Err(x) => return Err(x),
    };
    let e = match crlf(s, m) {
        Ok(e) => e,
        Err(x) => return Err(x),
    };
    let domain = match d {
        crate::types::DomainOrAddress::Domain(x) => x,
        crate::types::DomainOrAddress::Address(x) => x,
    };
    assert(ascii_span(s@, t as int, m as int)) by {
        assert forall|q: int| t <= q < m implies #[trigger] s@[q] < 128 by {
            assert(ByteClass::Text.holds(s@.subrange(t as int, m as int)[q - t]));
        }
    }
    Ok((e, Response::Greeting { domain, text: text_of(s, t, m) }))
}

fn multi_greeting(s: &[u8], i: usize) -> (r: Result<(usize, Response), ParseError>)
    requires
        i <= s@.len(),
    ensures
        view_result(r) == match spec_literal(s@, i as int, seq![0x32u8, 0x32, 0x30, 0x2D] /* "220-" */, false, Production::Greeting) {
            Ok(j) => match spec_domain_or_address(s@, j as int) {
                Ok((k, d)) => match spec_opt_sp_text(s@, k as int) {
                    Ok((m, t)) => match spec_crlf(s@, m as int) {
                        Ok(e) => match spec_greeting_rest(s@, e as int) {
                            Ok((z, ts)) => Ok(
                                (
                                    z,
                                    ResponseView::Greeting {
                                        domain: greeting_domain(d),
                                        text: chars_of(join_lines(seq![t] + ts)),
                                    },
                                ),
                            ),
                            Err(x) => Err(x),
                        },
                        Err(x) => Err(x),
                    },
                    Err(x) => Err(x),
                },
                Err(x) => Err(x),
            },
            Err(x) => Err(x),
        },
        r matches Ok((k, _)) ==> k <= s@.len(),
{
    let j = match literal(s, i, [0x32u8, 0x32, 0x30, 0x2D].as_slice() /* "220-" */, false, Production::Greeting) {
        Ok(j) => j,
        Err(x) => return Err(x),
    };
    let (k, d) = match domain_or_address(s, j) {
        Ok(x) => x,
        Err(x) => return Err(x),
    };
    let _n = s.len();
    proof {
        lemma_opt_text(s@, k as int);
    }
    let (m, t) = match opt_sp_text(s, k) {
        Ok(x) => x,
        Err(x) => return Err(x),
    };
    let e = match crlf(s, m) {
        Ok(e) => e,
        Err(x) => return Err(x),
    };
    let (z, rest) = match greeting_rest(s, e) {
        Ok(x) => x,
        Err(x) => return Err(x),
    };
    let mut spans: Vec<(usize, usize)> = Vec::new();
    spans.push((t, m));
    let ghost first = spans@;
    let mut q: usize = 0;
    while q < rest.len()
        invariant
            q <= rest@.len(),
            spans@ == first + rest@.subrange(0, q as int),
            first == seq![(t, m)],
            spans_text(s@, rest@),
            text_bytes(s@.subrange(t as int, m as int)),
            t <= m <= s@.len(),
        decreases rest@.len() - q,
    {
        spans.push(rest[q]);
        q += 1;
        assert(spans@ == first + rest@.subrange(0, q as int));
    }
    assert(rest@.subrange(0, q as int) == rest@);
    assert(spans_text(s@, spans@)) by {
        assert forall|p: int| 0 <= p < spans@.len() implies #[trigger] spans@[p].0 <= spans@[p].1
            <= s@.len() && text_bytes(s@.subrange(spans@[p].0 as int, spans@[p].1 as int)) by {
            if p > 0 {
                assert(spans@[p] == rest@[p - 1]);
            }
        }
    }
    assert(spans_view(s@, spans@) == seq![s@.subrange(t as int, m as int)] + spans_view(
        s@,
        rest@,
    ));
    let joined = join_spans(s, &spans);
    let domain = match d {
        crate::types::DomainOrAddress::Domain(x) => x,
        crate::types::DomainOrAddress::Address(x) => x,
    };
    Ok((z, Response::Greeting { domain, text: ascii_string(joined.as_slice()) }))
}

pub fn greeting_at(s: &[u8], i: usize) -> (r: Result<(usize, Response), ParseError>)
    requires
        i <= s@.len(),
    ensures
        view_result(r) == spec_greeting(s@, i as int),
        r matches Ok((k, _)) ==> k <= s@.len(),
{
    reveal(spec_greeting);
    let a = single_greeting(s, i);
    if a.is_ok() {
        return a;
    }
    let b = multi_greeting(s, i);
    if b.is_ok() {
        return b;
    }
    if is_incomplete(&a) || is_incomplete(&b) {
        Err(ParseError::Incomplete)
    } else {
        Err(ParseError::Invalid { offset: i, production: Production::Greeting })
    }
}

/// Parses a greeting from the start of `input`.
pub fn Greeting(input: &[u8]) -> (r: Result<(&[u8], Response), ParseError>)
    ensures
        parsed(input@, spec_greeting(input@, 0), r),
{
    finish(input, greeting_at(input, 0))
}


// ----- EHLO lines -----

/// ehlo-param = 1*(%d33-126)
pub open spec fn spec_ehlo_param(s: Seq<u8>, i: int) -> Result<usize, ParseError> {
    spec_many1(s, i, ByteClass::Param, Production::EhloParam)
}

/// A mechanism named by a literal, in any case.
pub open spec fn spec_mech_word(s: Seq<u8>, i: int, lit: Seq<u8>, m: AuthMechanismView) -> Result<
    (usize, AuthMechanismView),
    ParseError,
> {
    match spec_literal(s, i, lit, true, Production::EhloParam) {
        Ok(j) => Ok((j, m)),
        Err(x) => Err(x),
    }
}

/// Any other mechanism: an ehlo-param.
pub open spec fn spec_other_mech(s: Seq<u8>, i: int) -> Result<(usize, AuthMechanismView), ParseError> {
    match spec_ehlo_param(s, i) {
        Ok(j) => Ok((j, AuthMechanismView::Other(str_at(s, i, j as int)))),
        Err(x) => Err(x),
    }
}

/// The known mechanisms, by name, and otherwise any ehlo-param.
pub open spec fn spec_auth_mechanism(s: Seq<u8>, i: int) -> Result<(usize, AuthMechanismView), ParseError> {
    let p = Production::EhloParam;
    alt2(spec_mech_word(s, i, seq![0x4Cu8, 0x4F, 0x47, 0x49, 0x4E] /* "LOGIN" */, AuthMechanismView::Login),
    alt2(spec_mech_word(s, i, seq![0x50u8, 0x4C, 0x41, 0x49, 0x4E] /* "PLAIN" */, AuthMechanismView::Plain),
    alt2(spec_mech_word(s, i, seq![0x43u8, 0x52, 0x41, 0x4D, 0x2D, 0x4D, 0x44, 0x35] /* "CRAM-MD5" */, AuthMechanismView::CramMd5),
    alt2(spec_mech_word(s, i, seq![0x43u8, 0x52, 0x41, 0x4D, 0x2D, 0x53, 0x48, 0x41, 0x31] /* "CRAM-SHA1" */, AuthMechanismView::CramSha1),
    alt2(spec_mech_word(s, i, seq![0x44u8, 0x49, 0x47, 0x45, 0x53, 0x54, 0x2D, 0x4D, 0x44, 0x35] /* "DIGEST-MD5" */, AuthMechanismView::DigestMd5),
    alt2(spec_mech_word(s, i, seq![0x53u8, 0x43, 0x52, 0x41, 0x4D, 0x2D, 0x4D, 0x44, 0x35] /* "SCRAM-MD5" */, AuthMechanismView::ScramMd5),
    alt2(spec_mech_word(s, i, seq![0x47u8, 0x53, 0x53, 0x41, 0x50, 0x49] /* "GSSAPI" */, AuthMechanismView::Gssapi),
    alt2(spec_mech_word(s, i, seq![0x4Eu8, 0x54, 0x4C, 0x4D] /* "NTLM" */, AuthMechanismView::Ntlm),
    spec_other_mech(s, i),
    i, p), i, p), i, p), i, p), i, p), i, p), i, p), i, p)
}

pub proof fn lemma_mech_progress(s: Seq<u8>, i: int)
    requires
        0 <= i <= s.len() <= usize::MAX,
    ensures
        spec_auth_mechanism(s, i) matches Ok((k, _)) ==> i < k <= s.len(),
{
    lemma_scan_bounds(s, i, ByteClass::Param);
}

fn mech_word(s: &[u8], i: usize, lit: &[u8], m: AuthMechanism) -> (r: Result<(usize, AuthMechanism), ParseError>)
    requires
        i <= s@.len(),
    ensures
        view_result(r) == spec_mech_word(s@, i as int, lit@, m@),
{
    match literal(s, i, lit, true, Production::EhloParam) {
        Ok(j) => Ok((j, m)),
        Err(x) => Err(x),
    }
}

fn other_mech(s: &[u8], i: usize) -> (r: Result<(usize, AuthMechanism), ParseError>)
    requires
        i <= s@.len(),
    ensures
        view_result(r) == spec_other_mech(s@, i as int),
{
    match many1(s, i, ByteClass::Param, Production::EhloParam) {
        Ok(j) => Ok((j, AuthMechanism::Other(text_of(s, i, j)))),
        Err(x) => Err(x),
    }
}

pub fn auth_mechanism_at(s: &[u8], i: usize) -> (r: Result<(usize, AuthMechanism), ParseError>)
    requires
        i <= s@.len(),
    ensures
        view_result(r) == spec_auth_mechanism(s@, i as int),
        r matches Ok((k, _)) ==> i < k <= s@.len(),
{
    let _n = s.len();
    proof {
        lemma_mech_progress(s@, i as int);
    }
    let r0 = mech_word(s, i, [0x4Cu8, 0x4F, 0x47, 0x49, 0x4E].as_slice() /* "LOGIN" */, AuthMechanism::Login);
    if r0.is_ok() {
        return r0;
    }
    let r1 = mech_word(s, i, [0x50u8, 0x4C, 0x41, 0x49, 0x4E].as_slice() /* "PLAIN" */, AuthMechanism::Plain);
    if r1.is_ok() {
        return r1;
    }
    let r2 = mech_word(s, i, [0x43u8, 0x52, 0x41, 0x4D, 0x2D, 0x4D, 0x44, 0x35].as_slice() /* "CRAM-MD5" */, AuthMechanism::CramMd5);
    if r2.is_ok() {
        return r2;
    }
    let r3 = mech_word(s, i, [0x43u8, 0x52, 0x41, 0x4D, 0x2D, 0x53, 0x48, 0x41, 0x31].as_slice() /* "CRAM-SHA1" */, AuthMechanism::CramSha1);
    if r3.is_ok() {
        return r3;
    }
    let r4 = mech_word(s, i, [0x44u8, 0x49, 0x47, 0x45, 0x53, 0x54, 0x2D, 0x4D, 0x44, 0x35].as_slice() /* "DIGEST-MD5" */, AuthMechanism::DigestMd5);
    if r4.is_ok() {
        return r4;
    }
    let r5 = mech_word(s, i, [0x53u8, 0x43, 0x52, 0x41, 0x4D, 0x2D, 0x4D, 0x44, 0x35].as_slice() /* "SCRAM-MD5" */, AuthMechanism::ScramMd5);
    if r5.is_ok() {
        return r5;
    }
    let r6 = mech_word(s, i, [0x47u8, 0x53, 0x53, 0x41, 0x50, 0x49].as_slice() /* "GSSAPI" */, AuthMechanism::Gssapi);
    if r6.is_ok() {
        return r6;
    }
    let r7 = mech_word(s, i, [0x4Eu8, 0x54, 0x4C, 0x4D].as_slice() /* "NTLM" */, AuthMechanism::Ntlm);
    if r7.is_ok() {
        return r7;
    }
    let r8 = other_mech(s, i);
    if r8.is_ok() {
        return r8;
    }
    if is_incomplete(&r0)
        || is_incomplete(&r1)
        || is_incomplete(&r2)
        || is_incomplete(&r3)
        || is_incomplete(&r4)
        || is_incomplete(&r5)
        || is_incomplete(&r6)
        || is_incomplete(&r7)
        || is_incomplete(&r8) {
        Err(ParseError::Incomplete)
    } else {
        Err(ParseError::Invalid { offset: i, production: Production::EhloParam })
    }
}

/// *(SP auth-mechanism) after a mechanism that ended at `k`.
pub open spec fn spec_mech_more(s: Seq<u8>, k: int) -> Result<(usize, Seq<AuthMechanismView>), ParseError>
    decreases s.len() - k,
    when 0 <= k <= s.len() <= usize::MAX
{
    if k >= s.len() {
        incomplete()
    } else if s[k] != 0x20 {
        Ok((k as usize, seq![]))
    } else {
        match spec_auth_mechanism(s, k + 1) {
            Ok((m, x)) => {
                proof {
                    lemma_mech_progress(s, k + 1);
                }
                match spec_mech_more(s, m as int) {
                    Ok((e, xs)) => Ok((e, seq![x] + xs)),
                    Err(y) => Err(y),
                }
            },
            Err(ParseError::Incomplete) => incomplete(),
            Err(_) => Ok((k as usize, seq![])),
        }
    }
}

/// [auth-mechanism *(SP auth-mechanism)] from `j`.
pub open spec fn spec_mech_list(s: Seq<u8>, j: int) -> Result<(usize, Seq<AuthMechanismView>), ParseError> {
    match spec_auth_mechanism(s, j) {
        Ok((m, x)) => match spec_mech_more(s, m as int) {
            Ok((e, xs)) => Ok((e, seq![x] + xs)),
            Err(y) => Err(y),
        },
        Err(ParseError::Incomplete) => incomplete(),
        Err(_) => Ok((j as usize, seq![])),
    }
}

pub proof fn lemma_mech_more(s: Seq<u8>, k: int)
    requires
        0 <= k <= s.len() <= usize::MAX,
    ensures
        spec_mech_more(s, k) matches Ok((e, _)) ==> k <= e <= s.len(),
    decreases s.len() - k,
{
    if k < s.len() && s[k] == 0x20 {
        lemma_mech_progress(s, k + 1);
        if let Ok((m, _)) = spec_auth_mechanism(s, k + 1) {
            lemma_mech_more(s, m as int);
        }
    }
}

pub proof fn lemma_mech_list(s: Seq<u8>, j: int)
    requires
        0 <= j <= s.len() <= usize::MAX,
    ensures
        spec_mech_list(s, j) matches Ok((e, _)) ==> j <= e <= s.len(),
{
    lemma_mech_progress(s, j);
    if let Ok((m, _)) = spec_auth_mechanism(s, j) {
        lemma_mech_more(s, m as int);
    }
}

pub open spec fn mechs_of(v: Seq<AuthMechanism>) -> Seq<AuthMechanismView> {
    v.map_values(|m: AuthMechanism| m@)
}

fn mech_list(s: &[u8], j: usize) -> (r: Result<(usize, Vec<AuthMechanism>), ParseError>)
    requires
        j <= s@.len(),
    ensures
        match r {
            Ok((e, v)) => spec_mech_list(s@, j as int) == Ok::<(usize, Seq<AuthMechanismView>), ParseError>((e, mechs_of(v@))),
            Err(x) => spec_mech_list(s@, j as int) == Err::<(usize, Seq<AuthMechanismView>), ParseError>(x),
        },
        r matches Ok((e, _)) ==> j <= e <= s@.len(),
{
    let n = s.len();
    proof {
        lemma_mech_list(s@, j as int);
    }
    let mut acc: Vec<AuthMechanism> = Vec::new();
    let mut k = match auth_mechanism_at(s, j) {
        Ok((m, x)) => {
            let ghost xv = x@;
            acc.push(x);
            assert(mechs_of(acc@) == seq![xv]);
            m
        },
        Err(ParseError::Incomplete) => return Err(ParseError::Incomplete),
        Err(_) => {
            assert(mechs_of(acc@) == Seq::<AuthMechanismView>::empty());
            return Ok((j, acc));
        },
    };
    proof {
        lemma_mech_progress(s@, j as int);
    }
    loop
        invariant
            n == s@.len(),
            j <= k <= n,
            spec_mech_list(s@, j as int) == match spec_mech_more(s@, k as int) {
                Ok((e, xs)) => Ok((e, mechs_of(acc@) + xs)),
                Err(y) => Err(y),
            },
        decreases n - k,
    {
        if k >= n {
            return Err(ParseError::Incomplete);
        }
        if s[k] != 0x20 {
            assert(mechs_of(acc@) + Seq::<AuthMechanismView>::empty() == mechs_of(acc@));
            return Ok((k, acc));
        }
        proof {
            lemma_mech_progress(s@, k + 1);
        }
        match auth_mechanism_at(s, k + 1) {
            Ok((m, x)) => {
                let ghost before = acc@;
                let ghost xv = x@;
                acc.push(x);
                proof {
                    assert(mechs_of(acc@) == mechs_of(before) + seq![xv]);
                    assert forall|xs: Seq<AuthMechanismView>| #[trigger] (mechs_of(before) + (seq![xv] + xs)) == mechs_of(acc@) + xs by {
                        assert(mechs_of(before) + (seq![xv] + xs) == mechs_of(before) + seq![xv] + xs);
                    }
                }
                k = m;
            },
            Err(ParseError::Incomplete) => return Err(ParseError::Incomplete),
            Err(_) => {
                assert(mechs_of(acc@) + Seq::<AuthMechanismView>::empty() == mechs_of(acc@));
                return Ok((k, acc));
            },
        }
    }
}


/// *(SP ehlo-param) after a parameter that ended at `k`.
pub open spec fn spec_param_more(s: Seq<u8>, k: int) -> Result<(usize, Seq<Seq<char>>), ParseError>
    decreases s.len() - k,
    when 0 <= k <= s.len() <= usize::MAX
{
    if k >= s.len() {
        incomplete()
    } else if s[k] != 0x20 {
        Ok((k as usize, seq![]))
    } else {
        match spec_ehlo_param(s, k + 1) {
            Ok(m) => {
                proof {
                    lemma_scan_bounds(s, k + 1, ByteClass::Param);
                }
                match spec_param_more(s, m as int) {
                    Ok((e, xs)) => Ok((e, seq![str_at(s, k + 1, m as int)] + xs)),
                    Err(y) => Err(y),
                }
            },
            Err(ParseError::Incomplete) => incomplete(),
            Err(_) => Ok((k as usize, seq![])),
        }
    }
}

/// [ehlo-param *(SP ehlo-param)] from `j`.
pub open spec fn spec_param_list(s: Seq<u8>, j: int) -> Result<(usize, Seq<Seq<char>>), ParseError> {
    match spec_ehlo_param(s, j) {
        Ok(m) => match spec_param_more(s, m as int) {
            Ok((e, xs)) => Ok((e, seq![str_at(s, j, m as int)] + xs)),
            Err(y) => Err(y),
        },
        Err(ParseError::Incomplete) => incomplete(),
        Err(_) => Ok((j as usize, seq![])),
    }
}

pub proof fn lemma_param_more(s: Seq<u8>, k: int)
    requires
        0 <= k <= s.len() <= usize::MAX,
    ensures
        spec_param_more(s, k) matches Ok((e, _)) ==> k <= e <= s.len(),
    decreases s.len() - k,
{
    if k < s.len() && s[k] == 0x20 {
        lemma_scan_bounds(s, k + 1, ByteClass::Param);
        if let Ok(m) = spec_ehlo_param(s, k + 1) {
            lemma_param_more(s, m as int);
        }
    }
}

pub proof fn lemma_param_list(s: Seq<u8>, j: int)
    requires
        0 <= j <= s.len() <= usize::MAX,
    ensures
        spec_param_list(s, j) matches Ok((e, _)) ==> j <= e <= s.len(),
{
    lemma_scan_bounds(s, j, ByteClass::Param);
    if let Ok(m) = spec_ehlo_param(s, j) {
        lemma_param_more(s, m as int);
    }
}

pub open spec fn strs_of(v: Seq<String>) -> Seq<Seq<char>> {
    v.map_values(|x: String| x@)
}

fn param_list(s: &[u8], j: usize) -> (r: Result<(usize, Vec<String>), ParseError>)
    requires
        j <= s@.len(),
    ensures
        match r {
            Ok((e, v)) => spec_param_list(s@, j as int) == Ok::<(usize, Seq<Seq<char>>), ParseError>((e, strs_of(v@))),
            Err(x) => spec_param_list(s@, j as int) == Err::<(usize, Seq<Seq<char>>), ParseError>(x),
        },
        r matches Ok((e, _)) ==> j <= e <= s@.len(),
{
    let n = s.len();
    proof {
        lemma_param_list(s@, j as int);
    }
    let mut acc: Vec<String> = Vec::new();
    let mut k = match many1(s, j, ByteClass::Param, Production::EhloParam) {
        Ok(m) => {
            let x = text_of(s, j, m);
            let ghost xv = x@;
            acc.push(x);
            assert(strs_of(acc@) == seq![xv]);
            m
        },
        Err(ParseError::Incomplete) => return Err(ParseError::Incomplete),
        Err(_) => {
            assert(strs_of(acc@) == Seq::<Seq<char>>::empty());
            return Ok((j, acc));
        },
    };
    loop
        invariant
            n == s@.len(),
            j <= k <= n,
            spec_param_list(s@, j as int) == match spec_param_more(s@, k as int) {
                Ok((e, xs)) => Ok((e, strs_of(acc@) + xs)),
                Err(y) => Err(y),
            },
        decreases n - k,
    {
        if k >= n {
            return Err(ParseError::Incomplete);
        }
        if s[k] != 0x20 {
            assert(strs_of(acc@) + Seq::<Seq<char>>::empty() == strs_of(acc@));
            return Ok((k, acc));
        }
        match many1(s, k + 1, ByteClass::Param, Production::EhloParam) {
            Ok(m) => {
                let x = text_of(s, k + 1, m);
                let ghost before = acc@;
                let ghost xv = x@;
                acc.push(x);
                proof {
                    assert(strs_of(acc@) == strs_of(before) + seq![xv]);
                    assert forall|xs: Seq<Seq<char>>| #[trigger] (strs_of(before) + (seq![xv] + xs)) == strs_of(acc@) + xs by {
                        assert(strs_of(before) + (seq![xv] + xs) == strs_of(before) + seq![xv] + xs);
                    }
                }
                k = m;
            },
            Err(ParseError::Incomplete) => return Err(ParseError::Incomplete),
            Err(_) => {
                assert(strs_of(acc@) + Seq::<Seq<char>>::empty() == strs_of(acc@));
                return Ok((k, acc));
            },
        }
    }
}

/// A capability named by a literal, in any case.
pub open spec fn spec_cap_word(s: Seq<u8>, i: int, lit: Seq<u8>, c: CapabilityView) -> Result<
    (usize, CapabilityView),
    ParseError,
> {
    match spec_literal(s, i, lit, true, Production::EhloLine) {
        Ok(j) => Ok((j, c)),
        Err(x) => Err(x),
    }
}

/// "SIZE" SP number
#[verifier::opaque]
pub open spec fn spec_size_cap(s: Seq<u8>, i: int) -> Result<(usize, CapabilityView), ParseError> {
    match spec_literal(s, i, seq![0x53u8, 0x49, 0x5A, 0x45, 0x20] /* "SIZE " */, true, Production::EhloLine) {
        Ok(j) => match spec_number(s, j as int) {
            Ok((k, n)) => Ok((k, CapabilityView::Size(n))),
            Err(x) => Err(x),
        },
        Err(x) => Err(x),
    }
}

/// "AUTH" ( SP / "=" ) [auth-mechanism *(SP auth-mechanism)]; the "=" is not
/// in the grammar, but some servers send it. "AUTH" at the end of its line
/// announces no mechanisms.
#[verifier::opaque]
pub open spec fn spec_auth_cap(s: Seq<u8>, i: int) -> Result<(usize, CapabilityView), ParseError> {
    match spec_literal(s, i, seq![0x41u8, 0x55, 0x54, 0x48] /* "AUTH" */, true, Production::EhloLine) {
        Ok(j) => if j >= s.len() {
            incomplete()
        } else if s[j as int] == 0x0D {
            Ok((j, CapabilityView::Auth(seq![])))
        } else if s[j as int] != 0x20 && s[j as int] != 0x3D {
            invalid(j as int, Production::EhloLine)
        } else {
            match spec_mech_list(s, j + 1) {
                Ok((k, ms)) => Ok((k, CapabilityView::Auth(ms))),
                Err(x) => Err(x),
            }
        },
        Err(x) => Err(x),
    }
}

/// ehlo-keyword [ ( SP / "=" ) [ehlo-param *(SP ehlo-param)] ], where
/// ehlo-keyword = (ALPHA / DIGIT) *(ALPHA / DIGIT / "-"); the "=" is not in
/// the grammar, but some servers send it.
#[verifier::opaque]
pub open spec fn spec_other_cap(s: Seq<u8>, i: int) -> Result<(usize, CapabilityView), ParseError> {
    if i >= s.len() {
        incomplete()
    } else if !spec_is_let_dig(s[i]) {
        invalid(i, Production::EhloKeyword)
    } else {
        match spec_many0(s, i + 1, ByteClass::KeywordTail) {
            Ok(j) => if s[j as int] != 0x20 && s[j as int] != 0x3D {
                Ok((j, CapabilityView::Other { keyword: str_at(s, i, j as int), params: seq![] }))
            } else {
                match spec_param_list(s, j + 1) {
                    Ok((k, ps)) => Ok(
                        (k, CapabilityView::Other { keyword: str_at(s, i, j as int), params: ps }),
                    ),
                    Err(x) => Err(x),
                }
            },
            Err(x) => Err(x),
        }
    }
}

/// ehlo-line = ehlo-keyword *( SP ehlo-param ), where the keywords of the
/// known extensions, in any case, come first.
#[verifier::opaque]
pub open spec fn spec_ehlo_line(s: Seq<u8>, i: int) -> Result<(usize, CapabilityView), ParseError> {
    let p = Production::EhloLine;
    alt2(spec_cap_word(s, i, seq![0x45u8, 0x58, 0x50, 0x4E] /* "EXPN" */, CapabilityView::ExpN),
    alt2(spec_cap_word(s, i, seq![0x48u8, 0x45, 0x4C, 0x50] /* "HELP" */, CapabilityView::Help),
    alt2(spec_cap_word(s, i, seq![0x38u8, 0x42, 0x49, 0x54, 0x4D, 0x49, 0x4D, 0x45] /* "8BITMIME" */, CapabilityView::EightBitMime),
    alt2(spec_size_cap(s, i),
    alt2(spec_cap_word(s, i, seq![0x43u8, 0x48, 0x55, 0x4E, 0x4B, 0x49, 0x4E, 0x47] /* "CHUNKING" */, CapabilityView::Chunking),
    alt2(spec_cap_word(s, i, seq![0x42u8, 0x49, 0x4E, 0x41, 0x52, 0x59, 0x4D, 0x49, 0x4D, 0x45] /* "BINARYMIME" */, CapabilityView::BinaryMime),
    alt2(spec_cap_word(s, i, seq![0x43u8, 0x48, 0x45, 0x43, 0x4B, 0x50, 0x4F, 0x49, 0x4E, 0x54] /* "CHECKPOINT" */, CapabilityView::Checkpoint),
    alt2(spec_cap_word(s, i, seq![0x44u8, 0x45, 0x4C, 0x49, 0x56, 0x45, 0x52, 0x42, 0x59] /* "DELIVERBY" */, CapabilityView::DeliverBy),
    alt2(spec_cap_word(s, i, seq![0x50u8, 0x49, 0x50, 0x45, 0x4C, 0x49, 0x4E, 0x49, 0x4E, 0x47] /* "PIPELINING" */, CapabilityView::Pipelining),
    alt2(spec_cap_word(s, i, seq![0x44u8, 0x53, 0x4E] /* "DSN" */, CapabilityView::Dsn),
    alt2(spec_cap_word(s, i, seq![0x45u8, 0x54, 0x52, 0x4E] /* "ETRN" */, CapabilityView::Etrn),
    alt2(spec_cap_word(s, i, seq![0x45u8, 0x4E, 0x48, 0x41, 0x4E, 0x43, 0x45, 0x44, 0x53, 0x54, 0x41, 0x54, 0x55, 0x53, 0x43, 0x4F, 0x44, 0x45, 0x53] /* "ENHANCEDSTATUSCODES" */, CapabilityView::EnhancedStatusCodes),
    alt2(spec_cap_word(s, i, seq![0x53u8, 0x54, 0x41, 0x52, 0x54, 0x54, 0x4C, 0x53] /* "STARTTLS" */, CapabilityView::StartTls),
    alt2(spec_cap_word(s, i, seq![0x4Du8, 0x54, 0x52, 0x4B] /* "MTRK" */, CapabilityView::Mtrk),
    alt2(spec_cap_word(s, i, seq![0x41u8, 0x54, 0x52, 0x4E] /* "ATRN" */, CapabilityView::Atrn),
    alt2(spec_auth_cap(s, i),
    alt2(spec_cap_word(s, i, seq![0x42u8, 0x55, 0x52, 0x4C] /* "BURL" */, CapabilityView::Burl),
    alt2(spec_cap_word(s, i, seq![0x53u8, 0x4D, 0x54, 0x50, 0x55, 0x54, 0x46, 0x38] /* "SMTPUTF8" */, CapabilityView::SmtpUtf8),
    alt2(spec_cap_word(s, i, seq![0x52u8, 0x52, 0x56, 0x53] /* "RRVS" */, CapabilityView::Rrvs),
    alt2(spec_cap_word(s, i, seq![0x52u8, 0x45, 0x51, 0x55, 0x49, 0x52, 0x45, 0x54, 0x4C, 0x53] /* "REQUIRETLS" */, CapabilityView::RequireTls),
    spec_other_cap(s, i),
    i, p), i, p), i, p), i, p), i, p), i, p), i, p), i, p), i, p), i, p), i, p), i, p), i, p), i, p), i, p), i, p), i, p), i, p), i, p), i, p)
}

pub open spec fn ends_within<T>(r: Result<(usize, T), ParseError>, i: int, n: int) -> bool {
    r matches Ok((k, _)) ==> i <= k <= n
}

proof fn lemma_ehlo_line_parts(s: Seq<u8>, i: int)
    requires
        0 <= i <= s.len() <= usize::MAX,
    ensures
        ends_within(spec_size_cap(s, i), i, s.len() as int),
        ends_within(spec_auth_cap(s, i), i, s.len() as int),
        ends_within(spec_other_cap(s, i), i, s.len() as int),
{
    reveal(spec_size_cap);
    reveal(spec_auth_cap);
    reveal(spec_other_cap);
    if i + 5 <= s.len() {
        lemma_scan_bounds(s, i + 5, ByteClass::Digit);
        lemma_mech_list(s, i + 5);
    }
    if i < s.len() {
        lemma_scan_bounds(s, i + 1, ByteClass::KeywordTail);
        let j = scan(s, i + 1, ByteClass::KeywordTail);
        if j < s.len() {
            lemma_param_list(s, j + 1);
        }
    }
}

pub proof fn lemma_ehlo_line(s: Seq<u8>, i: int)
    requires
        0 <= i <= s.len() <= usize::MAX,
    ensures
        ends_within(spec_ehlo_line(s, i), i, s.len() as int),
{
    reveal(spec_ehlo_line);
    lemma_ehlo_line_parts(s, i);
}

fn cap_word(s: &[u8], i: usize, lit: &[u8], c: Capability) -> (r: Result<(usize, Capability), ParseError>)
    requires
        i <= s@.len(),
    ensures
        view_result(r) == spec_cap_word(s@, i as int, lit@, c@),
{
    match literal(s, i, lit, true, Production::EhloLine) {
        Ok(j) => Ok((j, c)),
        Err(x) => Err(x),
    }
}

fn size_cap(s: &[u8], i: usize) -> (r: Result<(usize, Capability), ParseError>)
    requires
        i <= s@.len(),
    ensures
        view_result(r) == spec_size_cap(s@, i as int),
{
    reveal(spec_size_cap);
    let j = match literal(s, i, [0x53u8, 0x49, 0x5A, 0x45, 0x20].as_slice() /* "SIZE " */, true, Production::EhloLine) {
        Ok(j) => j,
        Err(x) => return Err(x),
    };
    match number(s, j) {
        Ok((k, n)) => Ok((k, Capability::Size(n))),
        Err(x) => Err(x),
    }
}

fn auth_cap(s: &[u8], i: usize) -> (r: Result<(usize, Capability), ParseError>)
    requires
        i <= s@.len(),
    ensures
        view_result(r) == spec_auth_cap(s@, i as int),
{
    reveal(spec_auth_cap);
    let j = match literal(s, i, [0x41u8, 0x55, 0x54, 0x48].as_slice() /* "AUTH" */, true, Production::EhloLine) {
        Ok(j) => j,
        Err(x) => return Err(x),
    };
    if j >= s.len() {
        return Err(ParseError::Incomplete);
    }
    if s[j] == 0x0D {
        let ms: Vec<AuthMechanism> = Vec::new();
        assert(crate::reply::mechs_view(ms@) == Seq::<AuthMechanismView>::empty());
        return Ok((j, Capability::Auth(ms)));
    }
    if s[j] != 0x20 && s[j] != 0x3D {
        return Err(ParseError::Invalid { offset: j, production: Production::EhloLine });
    }
    match mech_list(s, j + 1) {
        Ok((k, ms)) => Ok((k, Capability::Auth(ms))),
        Err(x) => Err(x),
    }
}

fn other_cap(s: &[u8], i: usize) -> (r: Result<(usize, Capability), ParseError>)
    requires
        i <= s@.len(),
    ensures
        view_result(r) == spec_other_cap(s@, i as int),
{
    reveal(spec_other_cap);
    if i >= s.len() {
        return Err(ParseError::Incomplete);
    }
    if !is_Let_dig(s[i]) {
        return Err(ParseError::Invalid { offset: i, production: Production::EhloKeyword });
    }
    let j = match many0(s, i + 1, ByteClass::KeywordTail) {
        Ok(j) => j,
        Err(x) => return Err(x),
    };
    assert(ascii_span(s@, i as int, j as int)) by {
        crate::abnf::lemma_class_ascii(ByteClass::LetDig, s@[i as int]);
    }
    let keyword = text_of(s, i, j);
    if s[j] != 0x20 && s[j] != 0x3D {
        let params: Vec<String> = Vec::new();
        assert(crate::reply::words_view(params@) == Seq::<Seq<char>>::empty());
        return Ok((j, Capability::Other { keyword, params }));
    }
    match param_list(s, j + 1) {
        Ok((k, params)) => Ok((k, Capability::Other { keyword, params })),
        Err(x) => Err(x),
    }
}

#[verifier::rlimit(50)]
pub fn ehlo_line_at(s: &[u8], i: usize) -> (r: Result<(usize, Capability), ParseError>)
    requires
        i <= s@.len(),
    ensures
        view_result(r) == spec_ehlo_line(s@, i as int),
        r matches Ok((k, _)) ==> i <= k <= s@.len(),
{
    let _n = s.len();
    proof {
        lemma_ehlo_line(s@, i as int);
        reveal(spec_ehlo_line);
    }
    let r1 = cap_word(s, i, [0x45u8, 0x58, 0x50, 0x4E].as_slice() /* "EXPN" */, Capability::ExpN);
    if r1.is_ok() {
        return r1;
    }
    let r2 = cap_word(s, i, [0x48u8, 0x45, 0x4C, 0x50].as_slice() /* "HELP" */, Capability::Help);
    if r2.is_ok() {
        return r2;
    }
    let r3 = cap_word(s, i, [0x38u8, 0x42, 0x49, 0x54, 0x4D, 0x49, 0x4D, 0x45].as_slice() /* "8BITMIME" */, Capability::EightBitMime);
    if r3.is_ok() {
        return r3;
    }
    let r4 = size_cap(s, i);
    if r4.is_ok() {
        return r4;
    }
    let r5 = cap_word(s, i, [0x43u8, 0x48, 0x55, 0x4E, 0x4B, 0x49, 0x4E, 0x47].as_slice() /* "CHUNKING" */, Capability::Chunking);
    if r5.is_ok() {
        return r5;
    }
    let r6 = cap_word(s, i, [0x42u8, 0x49, 0x4E, 0x41, 0x52, 0x59, 0x4D, 0x49, 0x4D, 0x45].as_slice() /* "BINARYMIME" */, Capability::BinaryMime);
    if r6.is_ok() {
        return r6;
    }
    let r7 = cap_word(s, i, [0x43u8, 0x48, 0x45, 0x43, 0x4B, 0x50, 0x4F, 0x49, 0x4E, 0x54].as_slice() /* "CHECKPOINT" */, Capability::Checkpoint);
    if r7.is_ok() {
        return r7;
    }
    let r8 = cap_word(s, i, [0x44u8, 0x45, 0x4C, 0x49, 0x56, 0x45, 0x52, 0x42, 0x59].as_slice() /* "DELIVERBY" */, Capability::DeliverBy);
    if r8.is_ok() {
        return r8;
    }
    let r9 = cap_word(s, i, [0x50u8, 0x49, 0x50, 0x45, 0x4C, 0x49, 0x4E, 0x49, 0x4E, 0x47].as_slice() /* "PIPELINING" */, Capability::Pipelining);
    if r9.is_ok() {
        return r9;
    }
    let r10 = cap_word(s, i, [0x44u8, 0x53, 0x4E].as_slice() /* "DSN" */, Capability::Dsn);
    if r10.is_ok() {
        return r10;
    }
    let r11 = cap_word(s, i, [0x45u8, 0x54, 0x52, 0x4E].as_slice() /* "ETRN" */, Capability::Etrn);
    if r11.is_ok() {
        return r11;
    }
    let r12 = cap_word(s, i, [0x45u8, 0x4E, 0x48, 0x41, 0x4E, 0x43, 0x45, 0x44, 0x53, 0x54, 0x41, 0x54, 0x55, 0x53, 0x43, 0x4F, 0x44, 0x45, 0x53].as_slice() /* "ENHANCEDSTATUSCODES" */, Capability::EnhancedStatusCodes);
    if r12.is_ok() {
        return r12;
    }
    let r13 = cap_word(s, i, [0x53u8, 0x54, 0x41, 0x52, 0x54, 0x54, 0x4C, 0x53].as_slice() /* "STARTTLS" */, Capability::StartTls);
    if r13.is_ok() {
        return r13;
    }
    let r14 = cap_word(s, i, [0x4Du8, 0x54, 0x52, 0x4B].as_slice() /* "MTRK" */, Capability::Mtrk);
    if r14.is_ok() {
        return r14;
    }
    let r15 = cap_word(s, i, [0x41u8, 0x54, 0x52, 0x4E].as_slice() /* "ATRN" */, Capability::Atrn);
    if r15.is_ok() {
        return r15;
    }
    let r16 = auth_cap(s, i);
    if r16.is_ok() {
        return r16;
    }
    let r17 = cap_word(s, i, [0x42u8, 0x55, 0x52, 0x4C].as_slice() /* "BURL" */, Capability::Burl);
    if r17.is_ok() {
        return r17;
    }
    let r18 = cap_word(s, i, [0x53u8, 0x4D, 0x54, 0x50, 0x55, 0x54, 0x46, 0x38].as_slice() /* "SMTPUTF8" */, Capability::SmtpUtf8);
    if r18.is_ok() {
        return r18;
    }
    let r19 = cap_word(s, i, [0x52u8, 0x52, 0x56, 0x53].as_slice() /* "RRVS" */, Capability::Rrvs);
    if r19.is_ok() {
        return r19;
    }
    let r20 = cap_word(s, i, [0x52u8, 0x45, 0x51, 0x55, 0x49, 0x52, 0x45, 0x54, 0x4C, 0x53].as_slice() /* "REQUIRETLS" */, Capability::RequireTls);
    if r20.is_ok() {
        return r20;
    }
    let r21 = other_cap(s, i);
    if r21.is_ok() {
        return r21;
    }
    if is_incomplete(&r1)
        || is_incomplete(&r2)
        || is_incomplete(&r3)
        || is_incomplete(&r4)
        || is_incomplete(&r5)
        || is_incomplete(&r6)
        || is_incomplete(&r7)
        || is_incomplete(&r8)
        || is_incomplete(&r9)
        || is_incomplete(&r10)
        || is_incomplete(&r11)
        || is_incomplete(&r12)
        || is_incomplete(&r13)
        || is_incomplete(&r14)
        || is_incomplete(&r15)
        || is_incomplete(&r16)
        || is_incomplete(&r17)
        || is_incomplete(&r18)
        || is_incomplete(&r19)
        || is_incomplete(&r20)
        || is_incomplete(&r21) {
        Err(ParseError::Incomplete)
    } else {
        Err(ParseError::Invalid { offset: i, production: Production::EhloLine })
    }
}

/// Parses one ehlo-line, without its CRLF, from the start of `input`.
pub fn ehlo_line(input: &[u8]) -> (r: Result<(&[u8], Capability), ParseError>)
    ensures
        parsed(input@, spec_ehlo_line(input@, 0), r),
{
    finish(input, ehlo_line_at(input, 0))
}

/// Parses an authentication mechanism from the start of `input`.
pub fn auth_mechanism(input: &[u8]) -> (r: Result<(&[u8], AuthMechanism), ParseError>)
    ensures
        parsed(input@, spec_auth_mechanism(input@, 0), r),
{
    finish(input, auth_mechanism_at(input, 0))
}


// ----- EHLO response -----

/// [SP ehlo-greet], where ehlo-greet = 1*(%d0-9 / %d11-12 / %d14-127)
pub open spec fn spec_opt_greet(s: Seq<u8>, k: int) -> Result<(usize, Option<Seq<char>>), ParseError> {
    if k >= s.len() {
        incomplete()
    } else if s[k] != 0x20 {
        Ok((k as usize, None))
    } else {
        match spec_many1(s, k + 1, ByteClass::Greet, Production::EhloGreet) {
            Ok(m) => Ok((m, Some(str_at(s, k + 1, m as int)))),
            Err(ParseError::Incomplete) => incomplete(),
            Err(_) => Ok((k as usize, None)),
        }
    }
}

fn opt_greet(s: &[u8], k: usize) -> (r: Result<(usize, Option<String>), ParseError>)
    requires
        k <= s@.len(),
    ensures
        match r {
            Ok((m, g)) => spec_opt_greet(s@, k as int) == Ok::<(usize, Option<Seq<char>>), ParseError>(
                (m, crate::types::opt_str_view(g)),
            ) && m <= s@.len(),
            Err(x) => spec_opt_greet(s@, k as int) == Err::<(usize, Option<Seq<char>>), ParseError>(x),
        },
{
    if k >= s.len() {
        return Err(ParseError::Incomplete);
    }
    if s[k] != 0x20 {
        return Ok((k, None));
    }
    match many1(s, k + 1, ByteClass::Greet, Production::EhloGreet) {
        Ok(m) => Ok((m, Some(text_of(s, k + 1, m)))),
        Err(ParseError::Incomplete) => Err(ParseError::Incomplete),
        Err(_) => Ok((k, None)),
    }
}

/// *( "250-" ehlo-line CRLF ) "250 " ehlo-line CRLF, from `k`.
pub open spec fn spec_ehlo_rest(s: Seq<u8>, k: int) -> Result<(usize, Seq<CapabilityView>), ParseError>
    decreases s.len() - k,
    when 0 <= k <= s.len() <= usize::MAX
{
    let cont = match spec_literal(s, k, seq![0x32u8, 0x35, 0x30, 0x2D] /* "250-" */, false, Production::EhloResponse) {
        Ok(j) => match spec_ehlo_line(s, j as int) {
            Ok((m, c)) => match spec_crlf(s, m as int) {
                Ok(e) => Ok((e, c)),
                Err(x) => Err(x),
            },
            Err(x) => Err(x),
        },
        Err(x) => Err(x),
    };
    match cont {
        Ok((e, c)) => {
            proof {
                lemma_ehlo_line(s, k + 4);
            }
            match spec_ehlo_rest(s, e as int) {
                Ok((z, cs)) => Ok((z, seq![c] + cs)),
                Err(x) => Err(x),
            }
        },
        Err(ParseError::Incomplete) => incomplete(),
        Err(_) => match spec_literal(s, k, seq![0x32u8, 0x35, 0x30, 0x20] /* "250 " */, false, Production::EhloResponse) {
            Ok(j) => match spec_ehlo_line(s, j as int) {
                Ok((m, c)) => match spec_crlf(s, m as int) {
                    Ok(e) => Ok((e, seq![c])),
                    Err(x) => Err(x),
                },
                Err(x) => Err(x),
            },
            Err(x) => Err(x),
        },
    }
}

pub open spec fn caps_of(v: Seq<Capability>) -> Seq<CapabilityView> {
    v.map_values(|c: Capability| c@)
}

fn ehlo_rest(s: &[u8], start: usize) -> (r: Result<(usize, Vec<Capability>), ParseError>)
    requires
        start <= s@.len(),
    ensures
        match r {
            Ok((z, cs)) => spec_ehlo_rest(s@, start as int) == Ok::<(usize, Seq<CapabilityView>), ParseError>(
                (z, caps_of(cs@)),
            ) && z <= s@.len(),
            Err(x) => spec_ehlo_rest(s@, start as int) == Err::<(usize, Seq<CapabilityView>), ParseError>(x),
        },
{
    let n = s.len();
    let mut acc: Vec<Capability> = Vec::new();
    let mut k = start;
    loop
        invariant
            n == s@.len(),
            k <= n,
            spec_ehlo_rest(s@, start as int) == match spec_ehlo_rest(s@, k as int) {
                Ok((z, cs)) => Ok((z, caps_of(acc@) + cs)),
                Err(x) => Err(x),
            },
        decreases n - k,
    {
        let cont = match literal(s, k, [0x32u8, 0x35, 0x30, 0x2D].as_slice() /* "250-" */, false, Production::EhloResponse) {
            Ok(j) => match ehlo_line_at(s, j) {
                Ok((m, c)) => match crlf(s, m) {
                    Ok(e) => Ok((e, c)),
                    Err(x) => Err(x),
                },
                Err(x) => Err(x),
            },
            Err(x) => Err(x),
        };
        match cont {
            Ok((e, c)) => {
                let ghost before = acc@;
                let ghost cv = c@;
                acc.push(c);
                proof {
                    assert(caps_of(acc@) == caps_of(before) + seq![cv]);
                    assert forall|cs: Seq<CapabilityView>| #[trigger] (caps_of(before) + (seq![cv] + cs)) == caps_of(acc@) + cs by {
                        assert(caps_of(before) + (seq![cv] + cs) == caps_of(before) + seq![cv] + cs);
                    }
                }
                k = e;
            },
            Err(ParseError::Incomplete) => return Err(ParseError::Incomplete),
            Err(_) => {
                let j = match literal(s, k, [0x32u8, 0x35, 0x30, 0x20].as_slice() /* "250 " */, false, Production::EhloResponse) {
                    Ok(j) => j,
                    Err(x) => return Err(x),
                };
                let (m, c) = match ehlo_line_at(s, j) {
                    Ok(x) => x,
                    Err(x) => return Err(x),
                };
                let e = match crlf(s, m) {
                    Ok(e) => e,
                    Err(x) => return Err(x),
                };
                let ghost before = acc@;
                let ghost cv = c@;
                acc.push(c);
                assert(caps_of(acc@) == caps_of(before) + seq![cv]);
                return Ok((e, acc));
            },
        }
    }
}

/// The first line of an EHLO reply: "250 " (or "250-" where more lines
/// follow) Domain [ SP ehlo-greet ] CRLF.
pub open spec fn spec_ehlo_head(s: Seq<u8>, i: int, multi: bool) -> Result<
    (usize, (Seq<char>, Option<Seq<char>>)),
    ParseError,
> {
    match spec_literal(
        s,
        i,
        if multi {
            seq![0x32u8, 0x35, 0x30, 0x2D] /* "250-" */
        } else {
            seq![0x32u8, 0x35, 0x30, 0x20] /* "250 " */
        },
        false,
        Production::EhloResponse,
    ) {
        Ok(j) => match spec_domain(s, j as int) {
            Ok(k) => match spec_opt_greet(s, k as int) {
                Ok((m, g)) => match spec_crlf(s, m as int) {
                    Ok(e) => Ok((e, (str_at(s, j as int, k as int), g))),
                    Err(x) => Err(x),
                },
                Err(x) => Err(x),
            },
            Err(x) => Err(x),
        },
        Err(x) => Err(x),
    }
}

/// ehlo-ok-rsp = ( "250 " Domain [ SP ehlo-greet ] CRLF ) /
///               ( "250-" Domain [ SP ehlo-greet ] CRLF
///                 *( "250-" ehlo-line CRLF )
///                 "250 " ehlo-line CRLF )
#[verifier::opaque]
pub open spec fn spec_ehlo_ok_rsp(s: Seq<u8>, i: int) -> Result<(usize, ResponseView), ParseError> {
    let single = match spec_ehlo_head(s, i, false) {
        Ok((e, (d, g))) => Ok((e, ResponseView::Ehlo { domain: d, greet: g, capabilities: seq![] })),
        Err(x) => Err(x),
    };
    let multi = match spec_ehlo_head(s, i, true) {
        Ok((e, (d, g))) => match spec_ehlo_rest(s, e as int) {
            Ok((z, cs)) => Ok((z, ResponseView::Ehlo { domain: d, greet: g, capabilities: cs })),
            Err(x) => Err(x),
        },
        Err(x) => Err(x),
    };
    alt2(single, multi, i, Production::EhloResponse)
}

fn ehlo_head(s: &[u8], i: usize, multi: bool) -> (r: Result<(usize, String, Option<String>), ParseError>)
    requires
        i <= s@.len(),
    ensures
        match r {
            Ok((e, d, g)) => spec_ehlo_head(s@, i as int, multi) == Ok::<
                (usize, (Seq<char>, Option<Seq<char>>)),
                ParseError,
            >((e, (d@, crate::types::opt_str_view(g)))) && e <= s@.len(),
            Err(x) => spec_ehlo_head(s@, i as int, multi) == Err::<
                (usize, (Seq<char>, Option<Seq<char>>)),
                ParseError,
            >(x),
        },
{
    let j = if multi {
        literal(s, i, [0x32u8, 0x35, 0x30, 0x2D].as_slice() /* "250-" */, false, Production::EhloResponse)
    } else {
        literal(s, i, [0x32u8, 0x35, 0x30, 0x20].as_slice() /* "250 " */, false, Production::EhloResponse)
    };
    let j = match j {
        Ok(j) => j,
        Err(x) => return Err(x),
    };
    let k = match domain(s, j) {
        Ok(k) => k,
        Err(x) => return Err(x),
    };
    let (m, g) = match opt_greet(s, k) {
        Ok(x) => x,
        Err(x) => return Err(x),
    };
    let e = match crlf(s, m) {
        Ok(e) => e,
        Err(x) => return Err(x),
    };
    Ok((e, text_of(s, j, k), g))
}

pub fn ehlo_ok_rsp_at(s: &[u8], i: usize) -> (r: Result<(usize, Response), ParseError>)
    requires
        i <= s@.len(),
    ensures
        view_result(r) == spec_ehlo_ok_rsp(s@, i as int),
        r matches Ok((k, _)) ==> k <= s@.len(),
{
    reveal(spec_ehlo_ok_rsp);
    let a = match ehlo_head(s, i, false) {
        Ok((e, domain, greet)) => {
            let capabilities: Vec<Capability> = Vec::new();
            assert(crate::response::caps_view(capabilities@) == Seq::<CapabilityView>::empty());
            Ok((e, Response::Ehlo { domain, greet, capabilities }))
        },
        Err(x) => Err(x),
    };
    if a.is_ok() {
        return a;
    }
    let b = match ehlo_head(s, i, true) {
        Ok((e, domain, greet)) => match ehlo_rest(s, e) {
            Ok((z, capabilities)) => {
                assert(crate::response::caps_view(capabilities@) == caps_of(capabilities@));
                Ok((z, Response::Ehlo { domain, greet, capabilities }))
            },
            Err(x) => Err(x),
        },
        Err(x) => Err(x),
    };
    if b.is_ok() {
        return b;
    }
    if is_incomplete(&a) || is_incomplete(&b) {
        Err(ParseError::Incomplete)
    } else {
        Err(ParseError::Invalid { offset: i, production: Production::EhloResponse })
    }
}

/// Parses a positive reply to EHLO from the start of `input`.
pub fn ehlo_ok_rsp(input: &[u8]) -> (r: Result<(&[u8], Response), ParseError>)
    ensures
        parsed(input@, spec_ehlo_ok_rsp(input@, 0), r),
{
    finish(input, ehlo_ok_rsp_at(input, 0))
}


// ----- General replies -----

/// The digit at place `k` of a reply code: %x32-35, then %x30-35, then
/// %x30-39.
pub open spec fn code_digit_ok(b: u8, k: int) -> bool {
    if k == 0 {
        0x32 <= b <= 0x35
    } else if k == 1 {
        0x30 <= b <= 0x35
    } else {
        0x30 <= b <= 0x39
    }
}

/// Reply-code = %x32-35 %x30-35 %x30-39
pub open spec fn spec_reply_code(s: Seq<u8>, i: int) -> Result<usize, ParseError> {
    if (i < s.len() && !code_digit_ok(s[i], 0)) || (i + 1 < s.len() && !code_digit_ok(s[i + 1], 1))
        || (i + 2 < s.len() && !code_digit_ok(s[i + 2], 2)) {
        invalid(i, Production::ReplyCode)
    } else if i + 3 > s.len() {
        incomplete()
    } else {
        Ok((i + 3) as usize)
    }
}

/// The number that the three digits at `i` stand for.
pub open spec fn code_number(s: Seq<u8>, i: int) -> u16 {
    ((s[i] - 0x30) * 100 + (s[i + 1] - 0x30) * 10 + (s[i + 2] - 0x30)) as u16
}

pub fn reply_code_at(s: &[u8], i: usize) -> (r: Result<(usize, u16), ParseError>)
    requires
        i <= s@.len(),
    ensures
        match r {
            Ok((k, v)) => spec_reply_code(s@, i as int) == Ok::<usize, ParseError>(k) && v
                == code_number(s@, i as int) && k == i + 3,
            Err(x) => spec_reply_code(s@, i as int) == Err::<usize, ParseError>(x),
        },
{
    let n = s.len();
    if (n - i > 0 && !(0x32 <= s[i] && s[i] <= 0x35)) || (n - i > 1 && !(0x30 <= s[i + 1]
        && s[i + 1] <= 0x35)) || (n - i > 2 && !(0x30 <= s[i + 2] && s[i + 2] <= 0x39)) {
        return Err(ParseError::Invalid { offset: i, production: Production::ReplyCode });
    }
    if n - i < 3 {
        return Err(ParseError::Incomplete);
    }
    let v = (s[i] - 0x30) as u16 * 100 + (s[i + 1] - 0x30) as u16 * 10 + (s[i + 2] - 0x30) as u16;
    Ok((i + 3, v))
}

/// The lines of a reply after a code that ended at `j`: "-" [ textstring ]
/// CRLF and the same code again, or [ SP textstring ] CRLF on the last line.
pub open spec fn spec_reply_from(s: Seq<u8>, j: int, code: Seq<u8>) -> Result<
    (usize, Seq<Seq<u8>>),
    ParseError,
>
    decreases s.len() - j,
    when 0 <= j <= s.len() <= usize::MAX
{
    if j >= s.len() {
        incomplete()
    } else if s[j] == 0x2D {
        match spec_opt_text(s, j + 1) {
            Ok((m, t)) => match spec_crlf(s, m as int) {
                Ok(e) => match spec_literal(s, e as int, code, false, Production::ReplyCode) {
                    Ok(j2) => {
                        proof {
                            lemma_opt_text(s, j + 1);
                        }
                        match spec_reply_from(s, j2 as int, code) {
                            Ok((z, ts)) => Ok((z, seq![t] + ts)),
                            Err(x) => Err(x),
                        }
                    },
                    Err(x) => Err(x),
                },
                Err(x) => Err(x),
            },
            Err(x) => Err(x),
        }
    } else {
        match spec_opt_sp_text(s, j) {
            Ok((m, t)) => match spec_crlf(s, m as int) {
                Ok(e) => Ok((e, seq![t])),
                Err(x) => Err(x),
            },
            Err(x) => Err(x),
        }
    }
}

/// The text lines of a reply: none for a single line without text.
pub open spec fn reply_texts(ts: Seq<Seq<u8>>) -> Seq<Seq<char>> {
    if ts.len() == 1 && ts[0].len() == 0 {
        seq![]
    } else {
        ts.map_values(|t: Seq<u8>| chars_of(t))
    }
}

/// Reply-line = *( Reply-code "-" [ textstring ] CRLF )
///              Reply-code [ SP textstring ] CRLF
/// where every line has the code of the first.
#[verifier::opaque]
pub open spec fn spec_reply_lines(s: Seq<u8>, i: int) -> Result<(usize, ResponseView), ParseError> {
    match spec_reply_code(s, i) {
        Ok(j) => match spec_reply_from(s, j as int, s.subrange(i, i + 3)) {
            Ok((z, ts)) => Ok(
                (
                    z,
                    ResponseView::Other {
                        code: code_of_value(code_number(s, i)),
                        lines: reply_texts(ts),
                    },
                ),
            ),
            Err(x) => Err(x),
        },
        Err(x) => Err(x),
    }
}

fn reply_from(s: &[u8], start: usize, code: &[u8]) -> (r: Result<(usize, Vec<(usize, usize)>), ParseError>)
    requires
        start <= s@.len(),
    ensures
        match r {
            Ok((z, spans)) => spec_reply_from(s@, start as int, code@) == Ok::<
                (usize, Seq<Seq<u8>>),
                ParseError,
            >((z, spans_view(s@, spans@))) && z <= s@.len() && spans_text(s@, spans@),
            Err(e) => spec_reply_from(s@, start as int, code@) == Err::<
                (usize, Seq<Seq<u8>>),
                ParseError,
            >(e),
        },
{
    let n = s.len();
    let mut acc: Vec<(usize, usize)> = Vec::new();
    let mut j = start;
    loop
        invariant
            n == s@.len(),
            j <= n,
            spans_text(s@, acc@),
            spec_reply_from(s@, start as int, code@) == match spec_reply_from(s@, j as int, code@) {
                Ok((z, ts)) => Ok((z, spans_view(s@, acc@) + ts)),
                Err(x) => Err(x),
            },
        decreases n - j,
    {
        if j >= n {
            return Err(ParseError::Incomplete);
        }
        if s[j] == 0x2D {
            proof {
                lemma_opt_text(s@, j + 1);
            }
            let (m, t) = match opt_text(s, j + 1) {
                Ok(x) => x,
                Err(x) => return Err(x),
            };
            let e = match crlf(s, m) {
                Ok(e) => e,
                Err(x) => return Err(x),
            };
            let j2 = match literal(s, e, code, false, Production::ReplyCode) {
                Ok(j2) => j2,
                Err(x) => return Err(x),
            };
            assert(text_bytes(s@.subrange(t as int, m as int)));
            let ghost before = acc@;
            acc.push((t, m));
            proof {
                lemma_push_span(s@, before, t, m);
            }
            j = j2;
        } else {
            proof {
                lemma_opt_text(s@, j as int);
            }
            let (m, t) = match opt_sp_text(s, j) {
                Ok(x) => x,
                Err(x) => return Err(x),
            };
            let e = match crlf(s, m) {
                Ok(e) => e,
                Err(x) => return Err(x),
            };
            assert(text_bytes(s@.subrange(t as int, m as int)));
            let ghost before = acc@;
            acc.push((t, m));
            proof {
                lemma_push_span(s@, before, t, m);
            }
            return Ok((e, acc));
        }
    }
}

/// The text lines at `spans`, as `TextString`s.
fn text_lines(s: &[u8], spans: &Vec<(usize, usize)>) -> (r: Vec<TextString>)
    requires
        spans_text(s@, spans@),
    ensures
        crate::response::texts_view(r@) == reply_texts(spans_view(s@, spans@)),
{
    let mut out: Vec<TextString> = Vec::new();
    if spans.len() == 1 && spans[0].0 == spans[0].1 {
        assert(crate::response::texts_view(out@) == Seq::<Seq<char>>::empty());
        return out;
    }
    let mut k: usize = 0;
    while k < spans.len()
        invariant
            k <= spans@.len(),
            spans_text(s@, spans@),
            crate::response::texts_view(out@) == spans_view(s@, spans@.subrange(0, k as int)).map_values(
                |t: Seq<u8>| chars_of(t),
            ),
        decreases spans@.len() - k,
    {
        let (a, b) = spans[k];
        assert(spans@[k as int].0 <= spans@[k as int].1 <= s@.len());
        let line = text_line(s, a, b);
        let ghost before = out@;
        out.push(line);
        proof {
            assert(crate::response::texts_view(out@) == crate::response::texts_view(before)
                + seq![line@]);
            assert(spans_view(s@, spans@.subrange(0, k + 1)).map_values(|t: Seq<u8>| chars_of(t))
                == spans_view(s@, spans@.subrange(0, k as int)).map_values(
                |t: Seq<u8>| chars_of(t),
            ) + seq![chars_of(s@.subrange(a as int, b as int))]);
        }
        k += 1;
    }
    assert(spans@.subrange(0, k as int) == spans@);
    proof {
        let v = spans_view(s@, spans@);
        if v.len() == 1 && v[0].len() == 0 {
            assert(spans@[0].0 == spans@[0].1);
        }
    }
    out
}

pub fn reply_lines_at(s: &[u8], i: usize) -> (r: Result<(usize, Response), ParseError>)
    requires
        i <= s@.len(),
    ensures
        view_result(r) == spec_reply_lines(s@, i as int),
        r matches Ok((k, _)) ==> k <= s@.len(),
{
    reveal(spec_reply_lines);
    let (j, v) = match reply_code_at(s, i) {
        Ok(x) => x,
        Err(x) => return Err(x),
    };
    let code = vstd::slice::slice_subrange(s, i, i + 3);
    let (z, spans) = match reply_from(s, j, code) {
        Ok(x) => x,
        Err(x) => return Err(x),
    };
    let lines = text_lines(s, &spans);
    Ok((z, Response::Other { code: ReplyCode::from_value(v), lines }))
}

/// Parses a general reply from the start of `input`.
pub fn Reply_line(input: &[u8]) -> (r: Result<(&[u8], Response), ParseError>)
    ensures
        parsed(input@, spec_reply_lines(input@, 0), r),
{
    finish(input, reply_lines_at(input, 0))
}

/// response = Greeting / ehlo-ok-rsp / Reply-line, tried in that order.
pub open spec fn spec_response(s: Seq<u8>, i: int) -> Result<(usize, ResponseView), ParseError> {
    alt2(
        spec_greeting(s, i),
        alt2(spec_ehlo_ok_rsp(s, i), spec_reply_lines(s, i), i, Production::Response),
        i,
        Production::Response,
    )
}

pub fn response_at(s: &[u8], i: usize) -> (r: Result<(usize, Response), ParseError>)
    requires
        i <= s@.len(),
    ensures
        view_result(r) == spec_response(s@, i as int),
        r matches Ok((k, _)) ==> k <= s@.len(),
{
    let a = greeting_at(s, i);
    if a.is_ok() {
        return a;
    }
    let b = ehlo_ok_rsp_at(s, i);
    if b.is_ok() {
        return b;
    }
    let c = reply_lines_at(s, i);
    if c.is_ok() {
        return c;
    }
    if is_incomplete(&a) || is_incomplete(&b) || is_incomplete(&c) {
        Err(ParseError::Incomplete)
    } else {
        Err(ParseError::Invalid { offset: i, production: Production::Response })
    }
}

} // verus!
