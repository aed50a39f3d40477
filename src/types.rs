//! Commands: the values a client sends, and their wire form.
use vstd::prelude::*;

use crate::grammar::push_bytes;
use crate::text::{decimal, escape_bytes, push_decimal, push_escaped};

verus! {

/// The bytes of a string on the wire: its UTF-8 encoding.
pub open spec fn utf8(s: Seq<char>) -> Seq<u8> {
    vstd::utf8::encode_utf8(s)
}

/// Appends the bytes of `s` to `out`.
pub fn push_str(out: &mut Vec<u8>, s: &String)
    ensures
        final(out)@ == old(out)@ + utf8(s@),
{
    push_bytes(out, s.as_str().as_bytes());
}

pub open spec fn crlf_wire() -> Seq<u8> {
    seq![0x0Du8, 0x0A] /* "\r\n" */
}

/// The argument of HELO and EHLO: a domain, or the content of an address
/// literal without its brackets.
#[derive(Clone, Debug, PartialEq, Eq)]
pub enum DomainOrAddress {
    Domain(String),
    Address(String),
}

pub enum DomainOrAddressView {
    Domain(Seq<char>),
    Address(Seq<char>),
}

impl View for DomainOrAddress {
    type V = DomainOrAddressView;

    open spec fn view(&self) -> DomainOrAddressView {
        match self {
            DomainOrAddress::Domain(d) => DomainOrAddressView::Domain(d@),
            DomainOrAddress::Address(a) => DomainOrAddressView::Address(a@),
        }
    }
}

impl DomainOrAddressView {
    pub open spec fn wire(self) -> Seq<u8> {
        match self {
            DomainOrAddressView::Domain(d) => utf8(d),
            DomainOrAddressView::Address(a) => seq![0x5Bu8] /* "[" */ + utf8(a) + seq![0x5Du8] /* "]" */,
        }
    }
}

impl DomainOrAddress {
    /// Writes the domain as it is, an address between brackets.
    pub fn serialize(&self, out: &mut Vec<u8>)
        ensures
            final(out)@ == old(out)@ + self@.wire(),
    {
        match self {
            DomainOrAddress::Domain(d) => push_str(out, d),
            DomainOrAddress::Address(a) => {
                push_bytes(out, [0x5Bu8].as_slice() /* "[" */);
                push_str(out, a);
                push_bytes(out, [0x5Du8].as_slice() /* "]" */);
            },
        }
    }
}

/// A `String` argument: an atom, or the decoded interior of a quoted-string.
#[derive(Clone, Debug, PartialEq, Eq)]
pub enum AtomOrQuoted {
    Atom(String),
    Quoted(String),
}

pub enum AtomOrQuotedView {
    Atom(Seq<char>),
    Quoted(Seq<char>),
}

impl View for AtomOrQuoted {
    type V = AtomOrQuotedView;

    open spec fn view(&self) -> AtomOrQuotedView {
        match self {
            AtomOrQuoted::Atom(a) => AtomOrQuotedView::Atom(a@),
            AtomOrQuoted::Quoted(q) => AtomOrQuotedView::Quoted(q@),
        }
    }
}

impl AtomOrQuotedView {
    pub open spec fn wire(self) -> Seq<u8> {
        match self {
            AtomOrQuotedView::Atom(a) => utf8(a),
            AtomOrQuotedView::Quoted(q) => seq![0x22u8] /* "\"" */ + escape_bytes(utf8(q)) + seq![0x22u8] /* "\"" */,
        }
    }
}

impl AtomOrQuoted {
    /// Writes an atom as it is, a quoted text between double quotes with
    /// `\` and `"` escaped.
    pub fn serialize(&self, out: &mut Vec<u8>)
        ensures
            final(out)@ == old(out)@ + self@.wire(),
    {
        match self {
            AtomOrQuoted::Atom(a) => push_str(out, a),
            AtomOrQuoted::Quoted(q) => {
                push_bytes(out, [0x22u8].as_slice() /* "\"" */);
                push_escaped(out, q.as_str().as_bytes());
                push_bytes(out, [0x22u8].as_slice() /* "\"" */);
            },
        }
    }
}

/// An ESMTP parameter of MAIL or RCPT.
#[derive(Clone, Debug, PartialEq, Eq)]
pub enum Parameter {
    /// Message size declaration (RFC 1870)
    Size(u32),
    Other { keyword: String, value: Option<String> },
}

pub enum ParameterView {
    Size(u32),
    Other { keyword: Seq<char>, value: Option<Seq<char>> },
}

impl View for Parameter {
    type V = ParameterView;

    open spec fn view(&self) -> ParameterView {
        match self {
            Parameter::Size(n) => ParameterView::Size(*n),
            Parameter::Other { keyword, value } => ParameterView::Other {
                keyword: keyword@,
                value: match value {
                    Some(v) => Some(v@),
                    None => None,
                },
            },
        }
    }
}

impl ParameterView {
    pub open spec fn wire(self) -> Seq<u8> {
        match self {
            ParameterView::Size(n) => seq![0x53u8, 0x49, 0x5A, 0x45, 0x3D] /* "SIZE=" */ + decimal(n as nat),
            ParameterView::Other { keyword, value } => match value {
                Some(v) => utf8(keyword) + seq![0x3Du8] /* "=" */ + utf8(v),
                None => utf8(keyword),
            },
        }
    }
}

impl Parameter {
    /// Writes `keyword[=value]`; a size as `SIZE=<n>`.
    pub fn serialize(&self, out: &mut Vec<u8>)
        ensures
            final(out)@ == old(out)@ + self@.wire(),
    {
        match self {
            Parameter::Size(n) => {
                push_bytes(out, [0x53u8, 0x49, 0x5A, 0x45, 0x3D].as_slice() /* "SIZE=" */);
                push_decimal(out, *n);
            },
            Parameter::Other { keyword, value } => {
                push_str(out, keyword);
                match value {
                    Some(v) => {
                        push_bytes(out, [0x3Du8].as_slice() /* "=" */);
                        push_str(out, v);
                    },
                    None => {},
                }
            },
        }
    }
}

pub open spec fn params_view(ps: Seq<Parameter>) -> Seq<ParameterView> {
    ps.map_values(|p: Parameter| p@)
}

/// The parameters as they follow a path: each after a space.
pub open spec fn params_wire(ps: Seq<ParameterView>) -> Seq<u8>
    decreases ps.len(),
{
    if ps.len() == 0 {
        seq![]
    } else {
        params_wire(ps.drop_last()) + seq![0x20u8] /* " " */ + ps.last().wire()
    }
}

fn push_params(out: &mut Vec<u8>, ps: &Vec<Parameter>)
    ensures
        final(out)@ == old(out)@ + params_wire(params_view(ps@)),
{
    let mut k: usize = 0;
    while k < ps.len()
        invariant
            k <= ps@.len(),
            out@ == old(out)@ + params_wire(params_view(ps@.subrange(0, k as int))),
        decreases ps@.len() - k,
    {
        push_bytes(out, [0x20u8].as_slice() /* " " */);
        ps[k].serialize(out);
        k += 1;
        assert(params_view(ps@.subrange(0, k as int)).drop_last() == params_view(
            ps@.subrange(0, k - 1),
        ));
    }
    assert(ps@.subrange(0, k as int) == ps@);
}

/// An SMTP command.
#[derive(Clone, Debug, PartialEq, Eq)]
pub enum Command {
    /// `HELO SP Domain CRLF`
    Helo { peer: DomainOrAddress },
    /// `EHLO SP (Domain / address-literal) CRLF`
    Ehlo { peer: DomainOrAddress },
    /// `MAIL FROM:<reverse-path> [SP parameters] CRLF`; the null path is empty.
    Mail { reverse_path: String, parameters: Vec<Parameter> },
    /// `RCPT TO:<forward-path> [SP parameters] CRLF`
    Rcpt { forward_path: String, parameters: Vec<Parameter> },
    Data,
    Rset,
    /// Asks the receiver to confirm that the argument identifies a user or
    /// mailbox.
    Vrfy { user_or_mailbox: AtomOrQuoted },
    /// Asks the receiver to confirm that the argument identifies a mailing
    /// list, and if so, to return its membership.
    Expn { mailing_list: AtomOrQuoted },
    /// Asks for helpful information, optionally on a topic.
    Help { argument: Option<AtomOrQuoted> },
    /// Asks for nothing but a "250 OK" reply.
    Noop { argument: Option<AtomOrQuoted> },
    Quit,
    StartTls,
    /// `AUTH LOGIN [SP base64] CRLF`
    AuthLogin { initial: Option<String> },
    /// `AUTH PLAIN [SP base64] CRLF`
    AuthPlain { initial: Option<String> },
}

pub enum CommandView {
    Helo { peer: DomainOrAddressView },
    Ehlo { peer: DomainOrAddressView },
    Mail { reverse_path: Seq<char>, parameters: Seq<ParameterView> },
    Rcpt { forward_path: Seq<char>, parameters: Seq<ParameterView> },
    Data,
    Rset,
    Vrfy { user_or_mailbox: AtomOrQuotedView },
    Expn { mailing_list: AtomOrQuotedView },
    Help { argument: Option<AtomOrQuotedView> },
    Noop { argument: Option<AtomOrQuotedView> },
    Quit,
    StartTls,
    AuthLogin { initial: Option<Seq<char>> },
    AuthPlain { initial: Option<Seq<char>> },
}

pub open spec fn opt_view(a: Option<AtomOrQuoted>) -> Option<AtomOrQuotedView> {
    match a {
        Some(x) => Some(x@),
        None => None,
    }
}

pub open spec fn opt_str_view(a: Option<String>) -> Option<Seq<char>> {
    match a {
        Some(x) => Some(x@),
        None => None,
    }
}

impl View for Command {
    type V = CommandView;

    open spec fn view(&self) -> CommandView {
        match self {
            Command::Helo { peer } => CommandView::Helo { peer: peer@ },
            Command::Ehlo { peer } => CommandView::Ehlo { peer: peer@ },
            Command::Mail { reverse_path, parameters } => CommandView::Mail {
                reverse_path: reverse_path@,
                parameters: params_view(parameters@),
            },
            Command::Rcpt { forward_path, parameters } => CommandView::Rcpt {
                forward_path: forward_path@,
                parameters: params_view(parameters@),
            },
            Command::Data => CommandView::Data,
            Command::Rset => CommandView::Rset,
            Command::Vrfy { user_or_mailbox } => CommandView::Vrfy {
                user_or_mailbox: user_or_mailbox@,
            },
            Command::Expn { mailing_list } => CommandView::Expn { mailing_list: mailing_list@ },
            Command::Help { argument } => CommandView::Help { argument: opt_view(*argument) },
            Command::Noop { argument } => CommandView::Noop { argument: opt_view(*argument) },
            Command::Quit => CommandView::Quit,
            Command::StartTls => CommandView::StartTls,
            Command::AuthLogin { initial } => CommandView::AuthLogin {
                initial: opt_str_view(*initial),
            },
            Command::AuthPlain { initial } => CommandView::AuthPlain {
                initial: opt_str_view(*initial),
            },
        }
    }
}

impl CommandView {
    /// The line that stands for the command, CRLF included.
    pub open spec fn wire(self) -> Seq<u8> {
        match self {
            CommandView::Helo { peer } => seq![0x48u8, 0x45, 0x4C, 0x4F, 0x20] /* "HELO " */ + peer.wire() + crlf_wire(),
            CommandView::Ehlo { peer } => seq![0x45u8, 0x48, 0x4C, 0x4F, 0x20] /* "EHLO " */ + peer.wire() + crlf_wire(),
            CommandView::Mail { reverse_path, parameters } => seq![0x4Du8, 0x41, 0x49, 0x4C, 0x20, 0x46, 0x52, 0x4F, 0x4D, 0x3A, 0x3C] /* "MAIL FROM:<" */ + utf8(
                reverse_path,
            ) + seq![0x3Eu8] /* ">" */ + params_wire(parameters) + crlf_wire(),
            CommandView::Rcpt { forward_path, parameters } => seq![0x52u8, 0x43, 0x50, 0x54, 0x20, 0x54, 0x4F, 0x3A, 0x3C] /* "RCPT TO:<" */ + utf8(forward_path)
                + seq![0x3Eu8] /* ">" */ + params_wire(parameters) + crlf_wire(),
            CommandView::Data => seq![0x44u8, 0x41, 0x54, 0x41, 0x0D, 0x0A] /* "DATA\r\n" */,
            CommandView::Rset => seq![0x52u8, 0x53, 0x45, 0x54, 0x0D, 0x0A] /* "RSET\r\n" */,
            CommandView::Vrfy { user_or_mailbox } => seq![0x56u8, 0x52, 0x46, 0x59, 0x20] /* "VRFY " */ + user_or_mailbox.wire()
                + crlf_wire(),
            CommandView::Expn { mailing_list } => seq![0x45u8, 0x58, 0x50, 0x4E, 0x20] /* "EXPN " */ + mailing_list.wire() + crlf_wire(),
            CommandView::Help { argument } => match argument {
                Some(a) => seq![0x48u8, 0x45, 0x4C, 0x50, 0x20] /* "HELP " */ + a.wire() + crlf_wire(),
                None => seq![0x48u8, 0x45, 0x4C, 0x50, 0x0D, 0x0A] /* "HELP\r\n" */,
            },
            CommandView::Noop { argument } => match argument {
                Some(a) => seq![0x4Eu8, 0x4F, 0x4F, 0x50, 0x20] /* "NOOP " */ + a.wire() + crlf_wire(),
                None => seq![0x4Eu8, 0x4F, 0x4F, 0x50, 0x0D, 0x0A] /* "NOOP\r\n" */,
            },
            CommandView::Quit => seq![0x51u8, 0x55, 0x49, 0x54, 0x0D, 0x0A] /* "QUIT\r\n" */,
            CommandView::StartTls => seq![0x53u8, 0x54, 0x41, 0x52, 0x54, 0x54, 0x4C, 0x53, 0x0D, 0x0A] /* "STARTTLS\r\n" */,
            CommandView::AuthLogin { initial } => match initial {
                Some(d) => seq![0x41u8, 0x55, 0x54, 0x48, 0x20, 0x4C, 0x4F, 0x47, 0x49, 0x4E, 0x20] /* "AUTH LOGIN " */ + utf8(d) + crlf_wire(),
                None => seq![0x41u8, 0x55, 0x54, 0x48, 0x20, 0x4C, 0x4F, 0x47, 0x49, 0x4E, 0x0D, 0x0A] /* "AUTH LOGIN\r\n" */,
            },
            CommandView::AuthPlain { initial } => match initial {
                Some(d) => seq![0x41u8, 0x55, 0x54, 0x48, 0x20, 0x50, 0x4C, 0x41, 0x49, 0x4E, 0x20] /* "AUTH PLAIN " */ + utf8(d) + crlf_wire(),
                None => seq![0x41u8, 0x55, 0x54, 0x48, 0x20, 0x50, 0x4C, 0x41, 0x49, 0x4E, 0x0D, 0x0A] /* "AUTH PLAIN\r\n" */,
            },
        }
    }
}

impl Command {
    /// The name of the command's verb.
    pub fn name(&self) -> (r: &'static str)
        ensures
            r@ == match self@ {
                CommandView::Helo { .. } => "HELO"@,
                CommandView::Ehlo { .. } => "EHLO"@,
                CommandView::Mail { .. } => "MAIL"@,
                CommandView::Rcpt { .. } => "RCPT"@,
                CommandView::Data => "DATA"@,
                CommandView::Rset => "RSET"@,
                CommandView::Vrfy { .. } => "VRFY"@,
                CommandView::Expn { .. } => "EXPN"@,
                CommandView::Help { .. } => "HELP"@,
                CommandView::Noop { .. } => "NOOP"@,
                CommandView::Quit => "QUIT"@,
                CommandView::StartTls => "STARTTLS"@,
                CommandView::AuthLogin { .. } => "AUTHLOGIN"@,
                CommandView::AuthPlain { .. } => "AUTHPLAIN"@,
            },
    {
        match self {
            Command::Helo { .. } => "HELO",
            Command::Ehlo { .. } => "EHLO",
            Command::Mail { .. } => "MAIL",
            Command::Rcpt { .. } => "RCPT",
            Command::Data => "DATA",
            Command::Rset => "RSET",
            Command::Vrfy { .. } => "VRFY",
            Command::Expn { .. } => "EXPN",
            Command::Help { .. } => "HELP",
            Command::Noop { .. } => "NOOP",
            Command::Quit => "QUIT",
            Command::StartTls => "STARTTLS",
            Command::AuthLogin { .. } => "AUTHLOGIN",
            Command::AuthPlain { .. } => "AUTHPLAIN",
        }
    }

    /// Appends the command's line, in canonical upper case and with CRLF, to
    /// `out`.
    pub fn serialize(&self, out: &mut Vec<u8>)
        ensures
            final(out)@ == old(out)@ + self@.wire(),
    {
        match self {
            Command::Helo { peer } => {
                push_bytes(out, [0x48u8, 0x45, 0x4C, 0x4F, 0x20].as_slice() /* "HELO " */);
                peer.serialize(out);
            },
            Command::Ehlo { peer } => {
                push_bytes(out, [0x45u8, 0x48, 0x4C, 0x4F, 0x20].as_slice() /* "EHLO " */);
                peer.serialize(out);
            },
            Command::Mail { reverse_path, parameters } => {
                push_bytes(out, [0x4Du8, 0x41, 0x49, 0x4C, 0x20, 0x46, 0x52, 0x4F, 0x4D, 0x3A, 0x3C].as_slice() /* "MAIL FROM:<" */);
                push_str(out, reverse_path);
                push_bytes(out, [0x3Eu8].as_slice() /* ">" */);
                push_params(out, parameters);
            },
            Command::Rcpt { forward_path, parameters } => {
                push_bytes(out, [0x52u8, 0x43, 0x50, 0x54, 0x20, 0x54, 0x4F, 0x3A, 0x3C].as_slice() /* "RCPT TO:<" */);
                push_str(out, forward_path);
                push_bytes(out, [0x3Eu8].as_slice() /* ">" */);
                push_params(out, parameters);
            },
            Command::Data => push_bytes(out, [0x44u8, 0x41, 0x54, 0x41].as_slice() /* "DATA" */),
            Command::Rset => push_bytes(out, [0x52u8, 0x53, 0x45, 0x54].as_slice() /* "RSET" */),
            Command::Vrfy { user_or_mailbox } => {
                push_bytes(out, [0x56u8, 0x52, 0x46, 0x59, 0x20].as_slice() /* "VRFY " */);
                user_or_mailbox.serialize(out);
            },
            Command::Expn { mailing_list } => {
                push_bytes(out, [0x45u8, 0x58, 0x50, 0x4E, 0x20].as_slice() /* "EXPN " */);
                mailing_list.serialize(out);
            },
            Command::Help { argument } => match argument {
                Some(a) => {
                    push_bytes(out, [0x48u8, 0x45, 0x4C, 0x50, 0x20].as_slice() /* "HELP " */);
                    a.serialize(out);
                },
                None => push_bytes(out, [0x48u8, 0x45, 0x4C, 0x50].as_slice() /* "HELP" */),
            },
            Command::Noop { argument } => match argument {
                Some(a) => {
                    push_bytes(out, [0x4Eu8, 0x4F, 0x4F, 0x50, 0x20].as_slice() /* "NOOP " */);
                    a.serialize(out);
                },
                None => push_bytes(out, [0x4Eu8, 0x4F, 0x4F, 0x50].as_slice() /* "NOOP" */),
            },
            Command::Quit => push_bytes(out, [0x51u8, 0x55, 0x49, 0x54].as_slice() /* "QUIT" */),
            Command::StartTls => push_bytes(out, [0x53u8, 0x54, 0x41, 0x52, 0x54, 0x54, 0x4C, 0x53].as_slice() /* "STARTTLS" */),
            Command::AuthLogin { initial } => match initial {
                Some(d) => {
                    push_bytes(out, [0x41u8, 0x55, 0x54, 0x48, 0x20, 0x4C, 0x4F, 0x47, 0x49, 0x4E, 0x20].as_slice() /* "AUTH LOGIN " */);
                    push_str(out, d);
                },
                None => push_bytes(out, [0x41u8, 0x55, 0x54, 0x48, 0x20, 0x4C, 0x4F, 0x47, 0x49, 0x4E].as_slice() /* "AUTH LOGIN" */),
            },
            Command::AuthPlain { initial } => match initial {
                Some(d) => {
                    push_bytes(out, [0x41u8, 0x55, 0x54, 0x48, 0x20, 0x50, 0x4C, 0x41, 0x49, 0x4E, 0x20].as_slice() /* "AUTH PLAIN " */);
                    push_str(out, d);
                },
                None => push_bytes(out, [0x41u8, 0x55, 0x54, 0x48, 0x20, 0x50, 0x4C, 0x41, 0x49, 0x4E].as_slice() /* "AUTH PLAIN" */),
            },
        }
        push_bytes(out, [0x0Du8, 0x0A].as_slice() /* "\r\n" */);
    }
}

} // verus!
