//! Responses: greetings, EHLO replies and general replies.
use vstd::prelude::*;

use crate::grammar::push_bytes;
use crate::reply::{Capability, CapabilityView, ReplyCode, TextString, code_value};
use crate::text::{decimal, push_decimal};
use crate::types::{crlf_wire, push_str, utf8};

verus! {

/// A server response.
#[derive(Clone, Debug, PartialEq, Eq)]
pub enum Response {
    /// The greeting: its lines of text are joined by line feeds.
    Greeting { domain: String, text: String },
    /// The positive reply to EHLO, with the extensions it announces.
    Ehlo { domain: String, greet: Option<String>, capabilities: Vec<Capability> },
    /// Any other reply: a code and zero or more lines of text.
    Other { code: ReplyCode, lines: Vec<TextString> },
}

pub enum ResponseView {
    Greeting { domain: Seq<char>, text: Seq<char> },
    Ehlo { domain: Seq<char>, greet: Option<Seq<char>>, capabilities: Seq<CapabilityView> },
    Other { code: ReplyCode, lines: Seq<Seq<char>> },
}

pub open spec fn caps_view(cs: Seq<Capability>) -> Seq<CapabilityView> {
    cs.map_values(|c: Capability| c@)
}

pub open spec fn texts_view(ls: Seq<TextString>) -> Seq<Seq<char>> {
    ls.map_values(|l: TextString| l@)
}

impl View for Response {
    type V = ResponseView;

    open spec fn view(&self) -> ResponseView {
        match self {
            Response::Greeting { domain, text } => ResponseView::Greeting {
                domain: domain@,
                text: text@,
            },
            Response::Ehlo { domain, greet, capabilities } => ResponseView::Ehlo {
                domain: domain@,
                greet: match greet {
                    Some(g) => Some(g@),
                    None => None,
                },
                capabilities: caps_view(capabilities@),
            },
            Response::Other { code, lines } => ResponseView::Other {
                code: *code,
                lines: texts_view(lines@),
            },
        }
    }
}

/// The lines of `b[start..]`, where the line in progress began at `start`
/// and `i` is the next byte to look at: a line feed ends a line, and the end
/// of the input ends the last line unless it is empty.
pub open spec fn lines_from(b: Seq<u8>, start: int, i: int) -> Seq<Seq<u8>>
    decreases b.len() - i,
{
    if i >= b.len() {
        if start < b.len() {
            seq![b.subrange(start, b.len() as int)]
        } else {
            seq![]
        }
    } else if b[i] == 0x0A {
        seq![b.subrange(start, i)] + lines_from(b, i + 1, i + 1)
    } else {
        lines_from(b, start, i + 1)
    }
}

/// The lines of a text: it is split at each line feed, and a line feed at
/// its end ends the last line.
pub open spec fn lines_of(b: Seq<u8>) -> Seq<Seq<u8>> {
    lines_from(b, 0, 0)
}

pub open spec fn bytes_view(ls: Seq<Vec<u8>>) -> Seq<Seq<u8>> {
    ls.map_values(|l: Vec<u8>| l@)
}

/// The lines of `b`.
pub fn split_lines(b: &[u8]) -> (r: Vec<Vec<u8>>)
    ensures
        bytes_view(r@) == lines_of(b@),
{
    let mut r: Vec<Vec<u8>> = Vec::new();
    let mut start: usize = 0;
    let mut i: usize = 0;
    while i < b.len()
        invariant
            start <= i <= b@.len(),
            bytes_view(r@) + lines_from(b@, start as int, i as int) == lines_of(b@),
        decreases b@.len() - i,
    {
        if b[i] == 0x0A {
            let line = vstd::slice::slice_to_vec(vstd::slice::slice_subrange(b, start, i));
            let ghost before = r@;
            r.push(line);
            assert(bytes_view(r@) == bytes_view(before) + seq![line@]);
            i += 1;
            start = i;
        } else {
            i += 1;
        }
    }
    if start < b.len() {
        let line = vstd::slice::slice_to_vec(vstd::slice::slice_subrange(b, start, b.len()));
        let ghost before = r@;
        r.push(line);
        assert(bytes_view(r@) == bytes_view(before) + seq![line@]);
    } else {
        assert(bytes_view(r@) + Seq::<Seq<u8>>::empty() == bytes_view(r@));
    }
    r
}

/// Lines, each after `prefix` and before CRLF.
pub open spec fn prefixed_lines(prefix: Seq<u8>, ls: Seq<Seq<u8>>) -> Seq<u8>
    decreases ls.len(),
{
    if ls.len() == 0 {
        seq![]
    } else {
        prefixed_lines(prefix, ls.drop_last()) + prefix + ls.last() + crlf_wire()
    }
}

/// The lines of a greeting for `domain` with text lines `ls`.
pub open spec fn greeting_wire(domain: Seq<u8>, ls: Seq<Seq<u8>>) -> Seq<u8> {
    if ls.len() == 0 {
        seq![0x32u8, 0x32, 0x30, 0x20] /* "220 " */ + domain + crlf_wire()
    } else if ls.len() == 1 {
        seq![0x32u8, 0x32, 0x30, 0x20] /* "220 " */ + domain + seq![0x20u8] /* " " */ + ls[0] + crlf_wire()
    } else {
        seq![0x32u8, 0x32, 0x30, 0x2D] /* "220-" */ + domain + seq![0x20u8] /* " " */ + ls[0] + crlf_wire() + prefixed_lines(
            seq![0x32u8, 0x32, 0x30, 0x2D] /* "220-" */,
            ls.subrange(1, ls.len() - 1),
        ) + seq![0x32u8, 0x32, 0x30, 0x20] /* "220 " */ + ls.last() + crlf_wire()
    }
}

/// Capabilities, each on a line of its own after "250-".
pub open spec fn caps_lines(cs: Seq<CapabilityView>) -> Seq<u8>
    decreases cs.len(),
{
    if cs.len() == 0 {
        seq![]
    } else {
        caps_lines(cs.drop_last()) + seq![0x32u8, 0x35, 0x30, 0x2D] /* "250-" */ + cs.last().wire() + crlf_wire()
    }
}

/// The lines of an EHLO reply.
pub open spec fn ehlo_wire(domain: Seq<char>, greet: Option<Seq<char>>, cs: Seq<CapabilityView>) -> Seq<
    u8,
> {
    let g = match greet {
        Some(g) => seq![0x20u8] /* " " */ + utf8(g),
        None => seq![],
    };
    if cs.len() == 0 {
        seq![0x32u8, 0x35, 0x30, 0x20] /* "250 " */ + utf8(domain) + g + crlf_wire()
    } else {
        seq![0x32u8, 0x35, 0x30, 0x2D] /* "250-" */ + utf8(domain) + g + crlf_wire() + caps_lines(cs.drop_last()) + seq![0x32u8, 0x35, 0x30, 0x20] /* "250 " */
            + cs.last().wire() + crlf_wire()
    }
}

/// Text lines, each after the code and "-".
pub open spec fn code_lines(code: Seq<u8>, ls: Seq<Seq<char>>) -> Seq<u8>
    decreases ls.len(),
{
    if ls.len() == 0 {
        seq![]
    } else {
        code_lines(code, ls.drop_last()) + code + seq![0x2Du8] /* "-" */ + utf8(ls.last()) + crlf_wire()
    }
}

/// The lines of a general reply.
pub open spec fn other_wire(code: ReplyCode, ls: Seq<Seq<char>>) -> Seq<u8> {
    let c = decimal(code_value(code) as nat);
    if ls.len() == 0 {
        c + crlf_wire()
    } else {
        code_lines(c, ls.drop_last()) + c + seq![0x20u8] /* " " */ + utf8(ls.last()) + crlf_wire()
    }
}

impl ResponseView {
    /// The lines that stand for the response.
    pub open spec fn wire(self) -> Seq<u8> {
        match self {
            ResponseView::Greeting { domain, text } => greeting_wire(
                utf8(domain),
                lines_of(utf8(text)),
            ),
            ResponseView::Ehlo { domain, greet, capabilities } => ehlo_wire(
                domain,
                greet,
                capabilities,
            ),
            ResponseView::Other { code, lines } => other_wire(code, lines),
        }
    }
}

fn push_greeting(out: &mut Vec<u8>, domain: &String, text: &String)
    ensures
        final(out)@ == old(out)@ + greeting_wire(utf8(domain@), lines_of(utf8(text@))),
{
    let lines = split_lines(text.as_str().as_bytes());
    let ghost ls = bytes_view(lines@);
    let n = lines.len();
    if n == 0 {
        push_bytes(out, [0x32u8, 0x32, 0x30, 0x20].as_slice() /* "220 " */);
        push_str(out, domain);
        push_bytes(out, [0x0Du8, 0x0A].as_slice() /* "\r\n" */);
    } else if n == 1 {
        push_bytes(out, [0x32u8, 0x32, 0x30, 0x20].as_slice() /* "220 " */);
        push_str(out, domain);
        push_bytes(out, [0x20u8].as_slice() /* " " */);
        push_bytes(out, lines[0].as_slice());
        push_bytes(out, [0x0Du8, 0x0A].as_slice() /* "\r\n" */);
    } else {
        push_bytes(out, [0x32u8, 0x32, 0x30, 0x2D].as_slice() /* "220-" */);
        push_str(out, domain);
        push_bytes(out, [0x20u8].as_slice() /* " " */);
        push_bytes(out, lines[0].as_slice());
        push_bytes(out, [0x0Du8, 0x0A].as_slice() /* "\r\n" */);
        let ghost head = out@;
        let mut k: usize = 1;
        while k < n - 1
            invariant
                1 <= k <= n - 1,
                n == lines@.len(),
                ls == bytes_view(lines@),
                out@ == head + prefixed_lines(seq![0x32u8, 0x32, 0x30, 0x2D] /* "220-" */, ls.subrange(1, k as int)),
            decreases n - k,
        {
            push_bytes(out, [0x32u8, 0x32, 0x30, 0x2D].as_slice() /* "220-" */);
            push_bytes(out, lines[k].as_slice());
            push_bytes(out, [0x0Du8, 0x0A].as_slice() /* "\r\n" */);
            k += 1;
            assert(ls.subrange(1, k as int).drop_last() == ls.subrange(1, k - 1));
        }
        push_bytes(out, [0x32u8, 0x32, 0x30, 0x20].as_slice() /* "220 " */);
        push_bytes(out, lines[n - 1].as_slice());
        push_bytes(out, [0x0Du8, 0x0A].as_slice() /* "\r\n" */);
    }
}

fn push_ehlo(out: &mut Vec<u8>, domain: &String, greet: &Option<String>, cs: &Vec<Capability>)
    ensures
        final(out)@ == old(out)@ + ehlo_wire(
            domain@,
            match greet {
                Some(g) => Some(g@),
                None => None,
            },
            caps_view(cs@),
        ),
{
    let n = cs.len();
    if n == 0 {
        push_bytes(out, [0x32u8, 0x35, 0x30, 0x20].as_slice() /* "250 " */);
    } else {
        push_bytes(out, [0x32u8, 0x35, 0x30, 0x2D].as_slice() /* "250-" */);
    }
    push_str(out, domain);
    match greet {
        Some(g) => {
            push_bytes(out, [0x20u8].as_slice() /* " " */);
            push_str(out, g);
        },
        None => {},
    }
    push_bytes(out, [0x0Du8, 0x0A].as_slice() /* "\r\n" */);
    if n > 0 {
        let ghost head = out@;
        let mut k: usize = 0;
        while k < n - 1
            invariant
                k <= n - 1,
                n == cs@.len(),
                out@ == head + caps_lines(caps_view(cs@.subrange(0, k as int))),
            decreases n - k,
        {
            push_bytes(out, [0x32u8, 0x35, 0x30, 0x2D].as_slice() /* "250-" */);
            cs[k].serialize(out);
            push_bytes(out, [0x0Du8, 0x0A].as_slice() /* "\r\n" */);
            k += 1;
            assert(caps_view(cs@.subrange(0, k as int)).drop_last() == caps_view(
                cs@.subrange(0, k - 1),
            ));
        }
        assert(caps_view(cs@.subrange(0, k as int)) == caps_view(cs@).drop_last());
        push_bytes(out, [0x32u8, 0x35, 0x30, 0x20].as_slice() /* "250 " */);
        cs[n - 1].serialize(out);
        push_bytes(out, [0x0Du8, 0x0A].as_slice() /* "\r\n" */);
    }
}

fn push_other(out: &mut Vec<u8>, code: ReplyCode, ls: &Vec<TextString>)
    ensures
        final(out)@ == old(out)@ + other_wire(code, texts_view(ls@)),
{
    let v = code.value();
    let n = ls.len();
    if n == 0 {
        push_decimal(out, v as u32);
        push_bytes(out, [0x0Du8, 0x0A].as_slice() /* "\r\n" */);
    } else {
        let ghost c = decimal(v as nat);
        let ghost head = out@;
        let mut k: usize = 0;
        while k < n - 1
            invariant
                k <= n - 1,
                n == ls@.len(),
                v == code_value(code),
                c == decimal(v as nat),
                out@ == head + code_lines(c, texts_view(ls@.subrange(0, k as int))),
            decreases n - k,
        {
            push_decimal(out, v as u32);
            push_bytes(out, [0x2Du8].as_slice() /* "-" */);
            push_bytes(out, ls[k].as_str().as_bytes());
            push_bytes(out, [0x0Du8, 0x0A].as_slice() /* "\r\n" */);
            k += 1;
            assert(texts_view(ls@.subrange(0, k as int)).drop_last() == texts_view(
                ls@.subrange(0, k - 1),
            ));
        }
        assert(texts_view(ls@.subrange(0, k as int)) == texts_view(ls@).drop_last());
        push_decimal(out, v as u32);
        push_bytes(out, [0x20u8].as_slice() /* " " */);
        push_bytes(out, ls[n - 1].as_str().as_bytes());
        push_bytes(out, [0x0Du8, 0x0A].as_slice() /* "\r\n" */);
    }
}

impl Response {
    pub fn greeting(domain: String, text: String) -> (r: Response)
        ensures
            r@ == (ResponseView::Greeting { domain: domain@, text: text@ }),
    {
        Response::Greeting { domain, text }
    }

    pub fn ehlo(domain: String, greet: Option<String>, capabilities: Vec<Capability>) -> (r:
        Response)
        ensures
            r@ == (ResponseView::Ehlo {
                domain: domain@,
                greet: match greet {
                    Some(g) => Some(g@),
                    None => None,
                },
                capabilities: caps_view(capabilities@),
            }),
    {
        Response::Ehlo { domain, greet, capabilities }
    }

    pub fn other(code: ReplyCode, lines: Vec<TextString>) -> (r: Response)
        ensures
            r@ == (ResponseView::Other { code, lines: texts_view(lines@) }),
    {
        Response::Other { code, lines }
    }

    /// Appends the response's lines to `out`: one line where there is one
    /// line of text (or capability), continuation lines where there are
    /// more.
    pub fn serialize(&self, out: &mut Vec<u8>)
        ensures
            final(out)@ == old(out)@ + self@.wire(),
    {
        match self {
            Response::Greeting { domain, text } => push_greeting(out, domain, text),
            Response::Ehlo { domain, greet, capabilities } => push_ehlo(
                out,
                domain,
                greet,
                capabilities,
            ),
            Response::Other { code, lines } => push_other(out, *code, lines),
        }
    }
}

} // verus!
