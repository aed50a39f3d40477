//! Laws that relate the parsers, the serializers and the conversions.
use vstd::prelude::*;

use crate::abnf::{spec_is_atext, spec_is_let_dig, ByteClass};
use crate::address::{spec_domain, spec_domain_or_address, spec_joined_run};
use crate::command::{spec_mailbox, spec_path, spec_auth_cmd, spec_bare_cmd, spec_command, spec_greet_cmd, spec_opt_string_cmd, spec_path_cmd, spec_string_cmd};
use crate::grammar::{ParseError, Production, agrees, ascii_lower, byte_matches, chars_of, crlf_bytes, spec_literal};
use crate::reply::{CapabilityView, ReplyCode, code_of_value, code_value, is_named, is_named_value};
use crate::text::ascii_bytes;
use crate::replies::{
    spec_ehlo_line, spec_ehlo_rest,code_number, spec_ehlo_head, spec_response, spec_ehlo_ok_rsp, spec_greeting, spec_reply_from, spec_reply_lines};
use crate::response::{ResponseView, lines_from, lines_of};
use crate::types::{AtomOrQuotedView, CommandView, DomainOrAddressView, utf8};

verus! {

/// Reading back an escaped quoted-string interior gives the text back:
/// `unescape_quoted(escape_quoted(s)) == s` for every string `s`; and a text
/// without a backslash or a double quote is left as it is by both.
pub proof fn law_quoted_involution(s: Seq<char>)
    ensures
        crate::text::unescape_chars(crate::text::escape_chars(s)) == s,
        (forall|k: int| 0 <= k < s.len() ==> #[trigger] s[k] != '\\' && s[k] != '"') ==> (
        crate::text::escape_chars(s) == s && crate::text::unescape_chars(s) == s),
{
    crate::text::lemma_unescape_escape_chars(s);
    if forall|k: int| 0 <= k < s.len() ==> #[trigger] s[k] != '\\' && s[k] != '"' {
        lemma_escape_plain(s);
        crate::text::lemma_unescape_plain(s);
    }
}

proof fn lemma_escape_plain(s: Seq<char>)
    requires
        forall|k: int| 0 <= k < s.len() ==> #[trigger] s[k] != '\\' && s[k] != '"',
    ensures
        crate::text::escape_chars(s) == s,
    decreases s.len(),
{
    if s.len() > 0 {
        lemma_escape_plain(s.drop_first());
        assert(s == seq![s[0]] + s.drop_first());
    }
}

/// Every named reply code comes back from its number, and every number
/// without a name comes back from its code (`ReplyCode::from` and
/// `u16::from` are inverse on the named codes).
pub proof fn law_reply_code_bijection(r: ReplyCode, v: u16)
    ensures
        is_named(r) ==> code_of_value(code_value(r)) == r,
        !is_named_value(v) ==> code_value(code_of_value(v)) == v,
{
}


/// A literal that stands at `i` matches there.
pub proof fn lemma_literal_here(s: Seq<u8>, i: int, lit: Seq<u8>, ci: bool, p: Production)
    requires
        0 <= i,
        i + lit.len() <= s.len() <= usize::MAX,
        s.subrange(i, i + lit.len()) == lit,
    ensures
        spec_literal(s, i, lit, ci, p) == Ok::<usize, ParseError>((i + lit.len()) as usize),
{
    reveal(agrees);
    assert forall|k: int| 0 <= k < lit.len() && i + k < s.len() implies byte_matches(
        #[trigger] s[i + k],
        lit[k],
        ci,
    ) by {
        assert(s[i + k] == s.subrange(i, i + lit.len())[k]);
    }
}

/// A literal whose `k`th byte differs from the input does not match.
pub proof fn lemma_literal_differs(s: Seq<u8>, i: int, lit: Seq<u8>, ci: bool, p: Production, k: int)
    requires
        0 <= k < lit.len(),
        0 <= i,
        i + k < s.len(),
        !byte_matches(s[i + k], lit[k], ci),
    ensures
        spec_literal(s, i, lit, ci, p) == crate::grammar::invalid::<usize>(i, p),
{
    reveal(agrees);
}

/// Where the verb of an alternative does not match, the alternative fails.
pub proof fn lemma_verb_fails(s: Seq<u8>, verb: Seq<u8>, flag: bool, c: CommandView)
    requires
        spec_literal(s, 0, verb, true, Production::Verb) is Err,
    ensures
        spec_greet_cmd(s, 0, verb, flag) is Err,
        spec_path_cmd(s, 0, verb, flag) is Err,
        spec_bare_cmd(s, 0, verb, c) is Err,
        spec_string_cmd(s, 0, verb, flag) is Err,
        spec_opt_string_cmd(s, 0, verb, flag) is Err,
{
    reveal(spec_greet_cmd);
    reveal(spec_path_cmd);
    reveal(spec_bare_cmd);
    reveal(spec_string_cmd);
    reveal(spec_opt_string_cmd);
}

/// Where the mechanism after "AUTH " does not match, the alternative fails.
pub proof fn lemma_auth_fails(s: Seq<u8>, mechanism: Seq<u8>, plain: bool)
    requires
        spec_literal(s, 0, seq![0x41u8, 0x55, 0x54, 0x48] /* "AUTH" */, true, Production::Verb) is Err || (spec_literal(
            s,
            0,
            seq![0x41u8, 0x55, 0x54, 0x48] /* "AUTH" */,
            true,
            Production::Verb,
        ) == Ok::<usize, ParseError>(4) && 4 < s.len() && s[4] == 0x20 && spec_literal(
            s,
            5,
            mechanism,
            true,
            Production::Verb,
        ) is Err),
    ensures
        spec_auth_cmd(s, 0, mechanism, plain) is Err,
{
    reveal(spec_auth_cmd);
}

/// The wire form of a bare verb.
pub open spec fn verb_line(verb: Seq<u8>) -> Seq<u8> {
    verb + crlf_bytes()
}

/// A command that is its verb alone comes back from its line.
pub proof fn lemma_bare_round_trip(verb: Seq<u8>, c: CommandView)
    requires
        verb.len() <= 16,
    ensures
        spec_bare_cmd(verb_line(verb), 0, verb, c) == Ok::<(usize, CommandView), ParseError>(
            ((verb.len() + 2) as usize, c),
        ),
{
    reveal(spec_bare_cmd);
    let w = verb_line(verb);
    assert(w.subrange(0, verb.len() as int) == verb);
    lemma_literal_here(w, 0, verb, true, Production::Verb);
    assert(w.subrange(verb.len() as int, verb.len() + 2int) == crlf_bytes());
    lemma_literal_here(w, verb.len() as int, crlf_bytes(), false, Production::Crlf);
}


proof fn lemma_data_round_trip(c: CommandView)
    requires
        c is Data,
    ensures
        spec_command(seq![0x44u8, 0x41, 0x54, 0x41, 0x0D, 0x0A] /* "DATA\r\n" */, 0) == Ok::<(usize, CommandView), ParseError>((6, c)),
{
    let w = seq![0x44u8, 0x41, 0x54, 0x41, 0x0D, 0x0A] /* "DATA\r\n" */;
    lemma_literal_differs(w, 0, seq![0x48u8, 0x45, 0x4C, 0x4F] /* "HELO" */, true, Production::Verb, 0);
    lemma_verb_fails(w, seq![0x48u8, 0x45, 0x4C, 0x4F] /* "HELO" */, false, c);
    lemma_literal_differs(w, 0, seq![0x45u8, 0x48, 0x4C, 0x4F] /* "EHLO" */, true, Production::Verb, 0);
    lemma_verb_fails(w, seq![0x45u8, 0x48, 0x4C, 0x4F] /* "EHLO" */, true, c);
    lemma_literal_differs(w, 0, seq![0x4Du8, 0x41, 0x49, 0x4C, 0x20, 0x46, 0x52, 0x4F, 0x4D, 0x3A] /* "MAIL FROM:" */, true, Production::Verb, 0);
    lemma_verb_fails(w, seq![0x4Du8, 0x41, 0x49, 0x4C, 0x20, 0x46, 0x52, 0x4F, 0x4D, 0x3A] /* "MAIL FROM:" */, false, c);
    lemma_literal_differs(w, 0, seq![0x52u8, 0x43, 0x50, 0x54, 0x20, 0x54, 0x4F, 0x3A] /* "RCPT TO:" */, true, Production::Verb, 0);
    lemma_verb_fails(w, seq![0x52u8, 0x43, 0x50, 0x54, 0x20, 0x54, 0x4F, 0x3A] /* "RCPT TO:" */, true, c);
    lemma_bare_round_trip(seq![0x44u8, 0x41, 0x54, 0x41] /* "DATA" */, c);
    assert(verb_line(seq![0x44u8, 0x41, 0x54, 0x41] /* "DATA" */) == w);
}

proof fn lemma_rset_round_trip(c: CommandView)
    requires
        c is Rset,
    ensures
        spec_command(seq![0x52u8, 0x53, 0x45, 0x54, 0x0D, 0x0A] /* "RSET\r\n" */, 0) == Ok::<(usize, CommandView), ParseError>((6, c)),
{
    let w = seq![0x52u8, 0x53, 0x45, 0x54, 0x0D, 0x0A] /* "RSET\r\n" */;
    lemma_literal_differs(w, 0, seq![0x48u8, 0x45, 0x4C, 0x4F] /* "HELO" */, true, Production::Verb, 0);
    lemma_verb_fails(w, seq![0x48u8, 0x45, 0x4C, 0x4F] /* "HELO" */, false, c);
    lemma_literal_differs(w, 0, seq![0x45u8, 0x48, 0x4C, 0x4F] /* "EHLO" */, true, Production::Verb, 0);
    lemma_verb_fails(w, seq![0x45u8, 0x48, 0x4C, 0x4F] /* "EHLO" */, true, c);
    lemma_literal_differs(w, 0, seq![0x4Du8, 0x41, 0x49, 0x4C, 0x20, 0x46, 0x52, 0x4F, 0x4D, 0x3A] /* "MAIL FROM:" */, true, Production::Verb, 0);
    lemma_verb_fails(w, seq![0x4Du8, 0x41, 0x49, 0x4C, 0x20, 0x46, 0x52, 0x4F, 0x4D, 0x3A] /* "MAIL FROM:" */, false, c);
    lemma_literal_differs(w, 0, seq![0x52u8, 0x43, 0x50, 0x54, 0x20, 0x54, 0x4F, 0x3A] /* "RCPT TO:" */, true, Production::Verb, 1);
    lemma_verb_fails(w, seq![0x52u8, 0x43, 0x50, 0x54, 0x20, 0x54, 0x4F, 0x3A] /* "RCPT TO:" */, true, c);
    lemma_literal_differs(w, 0, seq![0x44u8, 0x41, 0x54, 0x41] /* "DATA" */, true, Production::Verb, 0);
    lemma_verb_fails(w, seq![0x44u8, 0x41, 0x54, 0x41] /* "DATA" */, false, CommandView::Data);
    lemma_bare_round_trip(seq![0x52u8, 0x53, 0x45, 0x54] /* "RSET" */, c);
    assert(verb_line(seq![0x52u8, 0x53, 0x45, 0x54] /* "RSET" */) == w);
}

proof fn lemma_quit_round_trip(c: CommandView)
    requires
        c is Quit,
    ensures
        spec_command(seq![0x51u8, 0x55, 0x49, 0x54, 0x0D, 0x0A] /* "QUIT\r\n" */, 0) == Ok::<(usize, CommandView), ParseError>((6, c)),
{
    let w = seq![0x51u8, 0x55, 0x49, 0x54, 0x0D, 0x0A] /* "QUIT\r\n" */;
    lemma_literal_differs(w, 0, seq![0x48u8, 0x45, 0x4C, 0x4F] /* "HELO" */, true, Production::Verb, 0);
    lemma_verb_fails(w, seq![0x48u8, 0x45, 0x4C, 0x4F] /* "HELO" */, false, c);
    lemma_literal_differs(w, 0, seq![0x45u8, 0x48, 0x4C, 0x4F] /* "EHLO" */, true, Production::Verb, 0);
    lemma_verb_fails(w, seq![0x45u8, 0x48, 0x4C, 0x4F] /* "EHLO" */, true, c);
    lemma_literal_differs(w, 0, seq![0x4Du8, 0x41, 0x49, 0x4C, 0x20, 0x46, 0x52, 0x4F, 0x4D, 0x3A] /* "MAIL FROM:" */, true, Production::Verb, 0);
    lemma_verb_fails(w, seq![0x4Du8, 0x41, 0x49, 0x4C, 0x20, 0x46, 0x52, 0x4F, 0x4D, 0x3A] /* "MAIL FROM:" */, false, c);
    lemma_literal_differs(w, 0, seq![0x52u8, 0x43, 0x50, 0x54, 0x20, 0x54, 0x4F, 0x3A] /* "RCPT TO:" */, true, Production::Verb, 0);
    lemma_verb_fails(w, seq![0x52u8, 0x43, 0x50, 0x54, 0x20, 0x54, 0x4F, 0x3A] /* "RCPT TO:" */, true, c);
    lemma_literal_differs(w, 0, seq![0x44u8, 0x41, 0x54, 0x41] /* "DATA" */, true, Production::Verb, 0);
    lemma_verb_fails(w, seq![0x44u8, 0x41, 0x54, 0x41] /* "DATA" */, false, CommandView::Data);
    lemma_literal_differs(w, 0, seq![0x52u8, 0x53, 0x45, 0x54] /* "RSET" */, true, Production::Verb, 0);
    lemma_verb_fails(w, seq![0x52u8, 0x53, 0x45, 0x54] /* "RSET" */, false, CommandView::Rset);
    lemma_literal_differs(w, 0, seq![0x56u8, 0x52, 0x46, 0x59] /* "VRFY" */, true, Production::Verb, 0);
    lemma_verb_fails(w, seq![0x56u8, 0x52, 0x46, 0x59] /* "VRFY" */, false, c);
    lemma_literal_differs(w, 0, seq![0x45u8, 0x58, 0x50, 0x4E] /* "EXPN" */, true, Production::Verb, 0);
    lemma_verb_fails(w, seq![0x45u8, 0x58, 0x50, 0x4E] /* "EXPN" */, true, c);
    lemma_literal_differs(w, 0, seq![0x48u8, 0x45, 0x4C, 0x50] /* "HELP" */, true, Production::Verb, 0);
    lemma_verb_fails(w, seq![0x48u8, 0x45, 0x4C, 0x50] /* "HELP" */, false, c);
    lemma_literal_differs(w, 0, seq![0x4Eu8, 0x4F, 0x4F, 0x50] /* "NOOP" */, true, Production::Verb, 0);
    lemma_verb_fails(w, seq![0x4Eu8, 0x4F, 0x4F, 0x50] /* "NOOP" */, true, c);
    lemma_bare_round_trip(seq![0x51u8, 0x55, 0x49, 0x54] /* "QUIT" */, c);
    assert(verb_line(seq![0x51u8, 0x55, 0x49, 0x54] /* "QUIT" */) == w);
}

proof fn lemma_starttls_round_trip(c: CommandView)
    requires
        c is StartTls,
    ensures
        spec_command(seq![0x53u8, 0x54, 0x41, 0x52, 0x54, 0x54, 0x4C, 0x53, 0x0D, 0x0A] /* "STARTTLS\r\n" */, 0) == Ok::<(usize, CommandView), ParseError>((10, c)),
{
    let w = seq![0x53u8, 0x54, 0x41, 0x52, 0x54, 0x54, 0x4C, 0x53, 0x0D, 0x0A] /* "STARTTLS\r\n" */;
    lemma_literal_differs(w, 0, seq![0x48u8, 0x45, 0x4C, 0x4F] /* "HELO" */, true, Production::Verb, 0);
    lemma_verb_fails(w, seq![0x48u8, 0x45, 0x4C, 0x4F] /* "HELO" */, false, c);
    lemma_literal_differs(w, 0, seq![0x45u8, 0x48, 0x4C, 0x4F] /* "EHLO" */, true, Production::Verb, 0);
    lemma_verb_fails(w, seq![0x45u8, 0x48, 0x4C, 0x4F] /* "EHLO" */, true, c);
    lemma_literal_differs(w, 0, seq![0x4Du8, 0x41, 0x49, 0x4C, 0x20, 0x46, 0x52, 0x4F, 0x4D, 0x3A] /* "MAIL FROM:" */, true, Production::Verb, 0);
    lemma_verb_fails(w, seq![0x4Du8, 0x41, 0x49, 0x4C, 0x20, 0x46, 0x52, 0x4F, 0x4D, 0x3A] /* "MAIL FROM:" */, false, c);
    lemma_literal_differs(w, 0, seq![0x52u8, 0x43, 0x50, 0x54, 0x20, 0x54, 0x4F, 0x3A] /* "RCPT TO:" */, true, Production::Verb, 0);
    lemma_verb_fails(w, seq![0x52u8, 0x43, 0x50, 0x54, 0x20, 0x54, 0x4F, 0x3A] /* "RCPT TO:" */, true, c);
    lemma_literal_differs(w, 0, seq![0x44u8, 0x41, 0x54, 0x41] /* "DATA" */, true, Production::Verb, 0);
    lemma_verb_fails(w, seq![0x44u8, 0x41, 0x54, 0x41] /* "DATA" */, false, CommandView::Data);
    lemma_literal_differs(w, 0, seq![0x52u8, 0x53, 0x45, 0x54] /* "RSET" */, true, Production::Verb, 0);
    lemma_verb_fails(w, seq![0x52u8, 0x53, 0x45, 0x54] /* "RSET" */, false, CommandView::Rset);
    lemma_literal_differs(w, 0, seq![0x56u8, 0x52, 0x46, 0x59] /* "VRFY" */, true, Production::Verb, 0);
    lemma_verb_fails(w, seq![0x56u8, 0x52, 0x46, 0x59] /* "VRFY" */, false, c);
    lemma_literal_differs(w, 0, seq![0x45u8, 0x58, 0x50, 0x4E] /* "EXPN" */, true, Production::Verb, 0);
    lemma_verb_fails(w, seq![0x45u8, 0x58, 0x50, 0x4E] /* "EXPN" */, true, c);
    lemma_literal_differs(w, 0, seq![0x48u8, 0x45, 0x4C, 0x50] /* "HELP" */, true, Production::Verb, 0);
    lemma_verb_fails(w, seq![0x48u8, 0x45, 0x4C, 0x50] /* "HELP" */, false, c);
    lemma_literal_differs(w, 0, seq![0x4Eu8, 0x4F, 0x4F, 0x50] /* "NOOP" */, true, Production::Verb, 0);
    lemma_verb_fails(w, seq![0x4Eu8, 0x4F, 0x4F, 0x50] /* "NOOP" */, true, c);
    lemma_literal_differs(w, 0, seq![0x51u8, 0x55, 0x49, 0x54] /* "QUIT" */, true, Production::Verb, 0);
    lemma_verb_fails(w, seq![0x51u8, 0x55, 0x49, 0x54] /* "QUIT" */, false, CommandView::Quit);
    lemma_bare_round_trip(seq![0x53u8, 0x54, 0x41, 0x52, 0x54, 0x54, 0x4C, 0x53] /* "STARTTLS" */, c);
    assert(verb_line(seq![0x53u8, 0x54, 0x41, 0x52, 0x54, 0x54, 0x4C, 0x53] /* "STARTTLS" */) == w);
}

proof fn lemma_help_round_trip(c: CommandView)
    requires
        c == (CommandView::Help { argument: None }),
    ensures
        spec_command(seq![0x48u8, 0x45, 0x4C, 0x50, 0x0D, 0x0A] /* "HELP\r\n" */, 0) == Ok::<(usize, CommandView), ParseError>((6, c)),
{
    let w = seq![0x48u8, 0x45, 0x4C, 0x50, 0x0D, 0x0A] /* "HELP\r\n" */;
    lemma_literal_differs(w, 0, seq![0x48u8, 0x45, 0x4C, 0x4F] /* "HELO" */, true, Production::Verb, 3);
    lemma_verb_fails(w, seq![0x48u8, 0x45, 0x4C, 0x4F] /* "HELO" */, false, c);
    lemma_literal_differs(w, 0, seq![0x45u8, 0x48, 0x4C, 0x4F] /* "EHLO" */, true, Production::Verb, 0);
    lemma_verb_fails(w, seq![0x45u8, 0x48, 0x4C, 0x4F] /* "EHLO" */, true, c);
    lemma_literal_differs(w, 0, seq![0x4Du8, 0x41, 0x49, 0x4C, 0x20, 0x46, 0x52, 0x4F, 0x4D, 0x3A] /* "MAIL FROM:" */, true, Production::Verb, 0);
    lemma_verb_fails(w, seq![0x4Du8, 0x41, 0x49, 0x4C, 0x20, 0x46, 0x52, 0x4F, 0x4D, 0x3A] /* "MAIL FROM:" */, false, c);
    lemma_literal_differs(w, 0, seq![0x52u8, 0x43, 0x50, 0x54, 0x20, 0x54, 0x4F, 0x3A] /* "RCPT TO:" */, true, Production::Verb, 0);
    lemma_verb_fails(w, seq![0x52u8, 0x43, 0x50, 0x54, 0x20, 0x54, 0x4F, 0x3A] /* "RCPT TO:" */, true, c);
    lemma_literal_differs(w, 0, seq![0x44u8, 0x41, 0x54, 0x41] /* "DATA" */, true, Production::Verb, 0);
    lemma_verb_fails(w, seq![0x44u8, 0x41, 0x54, 0x41] /* "DATA" */, false, CommandView::Data);
    lemma_literal_differs(w, 0, seq![0x52u8, 0x53, 0x45, 0x54] /* "RSET" */, true, Production::Verb, 0);
    lemma_verb_fails(w, seq![0x52u8, 0x53, 0x45, 0x54] /* "RSET" */, false, CommandView::Rset);
    lemma_literal_differs(w, 0, seq![0x56u8, 0x52, 0x46, 0x59] /* "VRFY" */, true, Production::Verb, 0);
    lemma_verb_fails(w, seq![0x56u8, 0x52, 0x46, 0x59] /* "VRFY" */, false, c);
    lemma_literal_differs(w, 0, seq![0x45u8, 0x58, 0x50, 0x4E] /* "EXPN" */, true, Production::Verb, 0);
    lemma_verb_fails(w, seq![0x45u8, 0x58, 0x50, 0x4E] /* "EXPN" */, true, c);
    reveal(spec_opt_string_cmd);
    assert(w.subrange(0, 4) =~= seq![0x48u8, 0x45, 0x4C, 0x50] /* "HELP" */);
    lemma_literal_here(w, 0, seq![0x48u8, 0x45, 0x4C, 0x50] /* "HELP" */, true, Production::Verb);
    assert(w.subrange(4, 6) =~= crlf_bytes());
    lemma_literal_here(w, 4, crlf_bytes(), false, Production::Crlf);
}

proof fn lemma_noop_round_trip(c: CommandView)
    requires
        c == (CommandView::Noop { argument: None }),
    ensures
        spec_command(seq![0x4Eu8, 0x4F, 0x4F, 0x50, 0x0D, 0x0A] /* "NOOP\r\n" */, 0) == Ok::<(usize, CommandView), ParseError>((6, c)),
{
    let w = seq![0x4Eu8, 0x4F, 0x4F, 0x50, 0x0D, 0x0A] /* "NOOP\r\n" */;
    lemma_literal_differs(w, 0, seq![0x48u8, 0x45, 0x4C, 0x4F] /* "HELO" */, true, Production::Verb, 0);
    lemma_verb_fails(w, seq![0x48u8, 0x45, 0x4C, 0x4F] /* "HELO" */, false, c);
    lemma_literal_differs(w, 0, seq![0x45u8, 0x48, 0x4C, 0x4F] /* "EHLO" */, true, Production::Verb, 0);
    lemma_verb_fails(w, seq![0x45u8, 0x48, 0x4C, 0x4F] /* "EHLO" */, true, c);
    lemma_literal_differs(w, 0, seq![0x4Du8, 0x41, 0x49, 0x4C, 0x20, 0x46, 0x52, 0x4F, 0x4D, 0x3A] /* "MAIL FROM:" */, true, Production::Verb, 0);
    lemma_verb_fails(w, seq![0x4Du8, 0x41, 0x49, 0x4C, 0x20, 0x46, 0x52, 0x4F, 0x4D, 0x3A] /* "MAIL FROM:" */, false, c);
    lemma_literal_differs(w, 0, seq![0x52u8, 0x43, 0x50, 0x54, 0x20, 0x54, 0x4F, 0x3A] /* "RCPT TO:" */, true, Production::Verb, 0);
    lemma_verb_fails(w, seq![0x52u8, 0x43, 0x50, 0x54, 0x20, 0x54, 0x4F, 0x3A] /* "RCPT TO:" */, true, c);
    lemma_literal_differs(w, 0, seq![0x44u8, 0x41, 0x54, 0x41] /* "DATA" */, true, Production::Verb, 0);
    lemma_verb_fails(w, seq![0x44u8, 0x41, 0x54, 0x41] /* "DATA" */, false, CommandView::Data);
    lemma_literal_differs(w, 0, seq![0x52u8, 0x53, 0x45, 0x54] /* "RSET" */, true, Production::Verb, 0);
    lemma_verb_fails(w, seq![0x52u8, 0x53, 0x45, 0x54] /* "RSET" */, false, CommandView::Rset);
    lemma_literal_differs(w, 0, seq![0x56u8, 0x52, 0x46, 0x59] /* "VRFY" */, true, Production::Verb, 0);
    lemma_verb_fails(w, seq![0x56u8, 0x52, 0x46, 0x59] /* "VRFY" */, false, c);
    lemma_literal_differs(w, 0, seq![0x45u8, 0x58, 0x50, 0x4E] /* "EXPN" */, true, Production::Verb, 0);
    lemma_verb_fails(w, seq![0x45u8, 0x58, 0x50, 0x4E] /* "EXPN" */, true, c);
    lemma_literal_differs(w, 0, seq![0x48u8, 0x45, 0x4C, 0x50] /* "HELP" */, true, Production::Verb, 0);
    lemma_verb_fails(w, seq![0x48u8, 0x45, 0x4C, 0x50] /* "HELP" */, false, c);
    reveal(spec_opt_string_cmd);
    assert(w.subrange(0, 4) =~= seq![0x4Eu8, 0x4F, 0x4F, 0x50] /* "NOOP" */);
    lemma_literal_here(w, 0, seq![0x4Eu8, 0x4F, 0x4F, 0x50] /* "NOOP" */, true, Production::Verb);
    assert(w.subrange(4, 6) =~= crlf_bytes());
    lemma_literal_here(w, 4, crlf_bytes(), false, Production::Crlf);
}

proof fn lemma_auth_login_round_trip(c: CommandView)
    requires
        c == (CommandView::AuthLogin { initial: None }),
    ensures
        spec_command(seq![0x41u8, 0x55, 0x54, 0x48, 0x20, 0x4C, 0x4F, 0x47, 0x49, 0x4E, 0x0D, 0x0A] /* "AUTH LOGIN\r\n" */, 0) == Ok::<(usize, CommandView), ParseError>((12, c)),
{
    let w = seq![0x41u8, 0x55, 0x54, 0x48, 0x20, 0x4C, 0x4F, 0x47, 0x49, 0x4E, 0x0D, 0x0A] /* "AUTH LOGIN\r\n" */;
    lemma_literal_differs(w, 0, seq![0x48u8, 0x45, 0x4C, 0x4F] /* "HELO" */, true, Production::Verb, 0);
    lemma_verb_fails(w, seq![0x48u8, 0x45, 0x4C, 0x4F] /* "HELO" */, false, c);
    lemma_literal_differs(w, 0, seq![0x45u8, 0x48, 0x4C, 0x4F] /* "EHLO" */, true, Production::Verb, 0);
    lemma_verb_fails(w, seq![0x45u8, 0x48, 0x4C, 0x4F] /* "EHLO" */, true, c);
    lemma_literal_differs(w, 0, seq![0x4Du8, 0x41, 0x49, 0x4C, 0x20, 0x46, 0x52, 0x4F, 0x4D, 0x3A] /* "MAIL FROM:" */, true, Production::Verb, 0);
    lemma_verb_fails(w, seq![0x4Du8, 0x41, 0x49, 0x4C, 0x20, 0x46, 0x52, 0x4F, 0x4D, 0x3A] /* "MAIL FROM:" */, false, c);
    lemma_literal_differs(w, 0, seq![0x52u8, 0x43, 0x50, 0x54, 0x20, 0x54, 0x4F, 0x3A] /* "RCPT TO:" */, true, Production::Verb, 0);
    lemma_verb_fails(w, seq![0x52u8, 0x43, 0x50, 0x54, 0x20, 0x54, 0x4F, 0x3A] /* "RCPT TO:" */, true, c);
    lemma_literal_differs(w, 0, seq![0x44u8, 0x41, 0x54, 0x41] /* "DATA" */, true, Production::Verb, 0);
    lemma_verb_fails(w, seq![0x44u8, 0x41, 0x54, 0x41] /* "DATA" */, false, CommandView::Data);
    lemma_literal_differs(w, 0, seq![0x52u8, 0x53, 0x45, 0x54] /* "RSET" */, true, Production::Verb, 0);
    lemma_verb_fails(w, seq![0x52u8, 0x53, 0x45, 0x54] /* "RSET" */, false, CommandView::Rset);
    lemma_literal_differs(w, 0, seq![0x56u8, 0x52, 0x46, 0x59] /* "VRFY" */, true, Production::Verb, 0);
    lemma_verb_fails(w, seq![0x56u8, 0x52, 0x46, 0x59] /* "VRFY" */, false, c);
    lemma_literal_differs(w, 0, seq![0x45u8, 0x58, 0x50, 0x4E] /* "EXPN" */, true, Production::Verb, 0);
    lemma_verb_fails(w, seq![0x45u8, 0x58, 0x50, 0x4E] /* "EXPN" */, true, c);
    lemma_literal_differs(w, 0, seq![0x48u8, 0x45, 0x4C, 0x50] /* "HELP" */, true, Production::Verb, 0);
    lemma_verb_fails(w, seq![0x48u8, 0x45, 0x4C, 0x50] /* "HELP" */, false, c);
    lemma_literal_differs(w, 0, seq![0x4Eu8, 0x4F, 0x4F, 0x50] /* "NOOP" */, true, Production::Verb, 0);
    lemma_verb_fails(w, seq![0x4Eu8, 0x4F, 0x4F, 0x50] /* "NOOP" */, true, c);
    lemma_literal_differs(w, 0, seq![0x51u8, 0x55, 0x49, 0x54] /* "QUIT" */, true, Production::Verb, 0);
    lemma_verb_fails(w, seq![0x51u8, 0x55, 0x49, 0x54] /* "QUIT" */, false, CommandView::Quit);
    lemma_literal_differs(w, 0, seq![0x53u8, 0x54, 0x41, 0x52, 0x54, 0x54, 0x4C, 0x53] /* "STARTTLS" */, true, Production::Verb, 0);
    lemma_verb_fails(w, seq![0x53u8, 0x54, 0x41, 0x52, 0x54, 0x54, 0x4C, 0x53] /* "STARTTLS" */, false, CommandView::StartTls);
    reveal(spec_auth_cmd);
    assert(w.subrange(0, 4) =~= seq![0x41u8, 0x55, 0x54, 0x48] /* "AUTH" */);
    lemma_literal_here(w, 0, seq![0x41u8, 0x55, 0x54, 0x48] /* "AUTH" */, true, Production::Verb);
    assert(w.subrange(5, 10) =~= seq![0x4Cu8, 0x4F, 0x47, 0x49, 0x4E] /* "LOGIN" */);
    lemma_literal_here(w, 5, seq![0x4Cu8, 0x4F, 0x47, 0x49, 0x4E] /* "LOGIN" */, true, Production::Verb);
    assert(w.subrange(10, 12) =~= crlf_bytes());
    lemma_literal_here(w, 10, crlf_bytes(), false, Production::Crlf);
}

proof fn lemma_auth_plain_round_trip(c: CommandView)
    requires
        c == (CommandView::AuthPlain { initial: None }),
    ensures
        spec_command(seq![0x41u8, 0x55, 0x54, 0x48, 0x20, 0x50, 0x4C, 0x41, 0x49, 0x4E, 0x0D, 0x0A] /* "AUTH PLAIN\r\n" */, 0) == Ok::<(usize, CommandView), ParseError>((12, c)),
{
    let w = seq![0x41u8, 0x55, 0x54, 0x48, 0x20, 0x50, 0x4C, 0x41, 0x49, 0x4E, 0x0D, 0x0A] /* "AUTH PLAIN\r\n" */;
    lemma_literal_differs(w, 0, seq![0x48u8, 0x45, 0x4C, 0x4F] /* "HELO" */, true, Production::Verb, 0);
    lemma_verb_fails(w, seq![0x48u8, 0x45, 0x4C, 0x4F] /* "HELO" */, false, c);
    lemma_literal_differs(w, 0, seq![0x45u8, 0x48, 0x4C, 0x4F] /* "EHLO" */, true, Production::Verb, 0);
    lemma_verb_fails(w, seq![0x45u8, 0x48, 0x4C, 0x4F] /* "EHLO" */, true, c);
    lemma_literal_differs(w, 0, seq![0x4Du8, 0x41, 0x49, 0x4C, 0x20, 0x46, 0x52, 0x4F, 0x4D, 0x3A] /* "MAIL FROM:" */, true, Production::Verb, 0);
    lemma_verb_fails(w, seq![0x4Du8, 0x41, 0x49, 0x4C, 0x20, 0x46, 0x52, 0x4F, 0x4D, 0x3A] /* "MAIL FROM:" */, false, c);
    lemma_literal_differs(w, 0, seq![0x52u8, 0x43, 0x50, 0x54, 0x20, 0x54, 0x4F, 0x3A] /* "RCPT TO:" */, true, Production::Verb, 0);
    lemma_verb_fails(w, seq![0x52u8, 0x43, 0x50, 0x54, 0x20, 0x54, 0x4F, 0x3A] /* "RCPT TO:" */, true, c);
    lemma_literal_differs(w, 0, seq![0x44u8, 0x41, 0x54, 0x41] /* "DATA" */, true, Production::Verb, 0);
    lemma_verb_fails(w, seq![0x44u8, 0x41, 0x54, 0x41] /* "DATA" */, false, CommandView::Data);
    lemma_literal_differs(w, 0, seq![0x52u8, 0x53, 0x45, 0x54] /* "RSET" */, true, Production::Verb, 0);
    lemma_verb_fails(w, seq![0x52u8, 0x53, 0x45, 0x54] /* "RSET" */, false, CommandView::Rset);
    lemma_literal_differs(w, 0, seq![0x56u8, 0x52, 0x46, 0x59] /* "VRFY" */, true, Production::Verb, 0);
    lemma_verb_fails(w, seq![0x56u8, 0x52, 0x46, 0x59] /* "VRFY" */, false, c);
    lemma_literal_differs(w, 0, seq![0x45u8, 0x58, 0x50, 0x4E] /* "EXPN" */, true, Production::Verb, 0);
    lemma_verb_fails(w, seq![0x45u8, 0x58, 0x50, 0x4E] /* "EXPN" */, true, c);
    lemma_literal_differs(w, 0, seq![0x48u8, 0x45, 0x4C, 0x50] /* "HELP" */, true, Production::Verb, 0);
    lemma_verb_fails(w, seq![0x48u8, 0x45, 0x4C, 0x50] /* "HELP" */, false, c);
    lemma_literal_differs(w, 0, seq![0x4Eu8, 0x4F, 0x4F, 0x50] /* "NOOP" */, true, Production::Verb, 0);
    lemma_verb_fails(w, seq![0x4Eu8, 0x4F, 0x4F, 0x50] /* "NOOP" */, true, c);
    lemma_literal_differs(w, 0, seq![0x51u8, 0x55, 0x49, 0x54] /* "QUIT" */, true, Production::Verb, 0);
    lemma_verb_fails(w, seq![0x51u8, 0x55, 0x49, 0x54] /* "QUIT" */, false, CommandView::Quit);
    lemma_literal_differs(w, 0, seq![0x53u8, 0x54, 0x41, 0x52, 0x54, 0x54, 0x4C, 0x53] /* "STARTTLS" */, true, Production::Verb, 0);
    lemma_verb_fails(w, seq![0x53u8, 0x54, 0x41, 0x52, 0x54, 0x54, 0x4C, 0x53] /* "STARTTLS" */, false, CommandView::StartTls);
    assert(w.subrange(0, 4) =~= seq![0x41u8, 0x55, 0x54, 0x48] /* "AUTH" */);
    lemma_literal_here(w, 0, seq![0x41u8, 0x55, 0x54, 0x48] /* "AUTH" */, true, Production::Verb);
    lemma_literal_differs(w, 5, seq![0x4Cu8, 0x4F, 0x47, 0x49, 0x4E] /* "LOGIN" */, true, Production::Verb, 0);
    lemma_auth_fails(w, seq![0x4Cu8, 0x4F, 0x47, 0x49, 0x4E] /* "LOGIN" */, false);
    reveal(spec_auth_cmd);
    assert(w.subrange(0, 4) =~= seq![0x41u8, 0x55, 0x54, 0x48] /* "AUTH" */);
    lemma_literal_here(w, 0, seq![0x41u8, 0x55, 0x54, 0x48] /* "AUTH" */, true, Production::Verb);
    assert(w.subrange(5, 10) =~= seq![0x50u8, 0x4C, 0x41, 0x49, 0x4E] /* "PLAIN" */);
    lemma_literal_here(w, 5, seq![0x50u8, 0x4C, 0x41, 0x49, 0x4E] /* "PLAIN" */, true, Production::Verb);
    assert(w.subrange(10, 12) =~= crlf_bytes());
    lemma_literal_here(w, 10, crlf_bytes(), false, Production::Crlf);
}

/// The commands whose round trip is proved here: DATA, RSET, QUIT and
/// STARTTLS; HELO and EHLO with a domain name; MAIL FROM and RCPT TO with a
/// plain mailbox and no parameters; VRFY and EXPN with an atom; HELP and
/// NOOP without an argument or with an atom; AUTH LOGIN and AUTH PLAIN
/// without an initial response or with a base64 one.
pub open spec fn is_simple_command(c: CommandView) -> bool {
    match c {
        CommandView::Helo { peer: DomainOrAddressView::Domain(d) } => is_domain_name(d),
        CommandView::Ehlo { peer: DomainOrAddressView::Domain(d) } => is_domain_name(d),
        CommandView::Data | CommandView::Rset | CommandView::Quit | CommandView::StartTls => true,
        CommandView::Mail { reverse_path, parameters } => is_plain_mailbox(reverse_path)
            && parameters.len() == 0,
        CommandView::Rcpt { forward_path, parameters } => is_plain_mailbox(forward_path)
            && parameters.len() == 0,
        CommandView::Vrfy { user_or_mailbox: AtomOrQuotedView::Atom(a) } => is_atom_text(a),
        CommandView::Expn { mailing_list: AtomOrQuotedView::Atom(a) } => is_atom_text(a),
        CommandView::Help { argument: None } => true,
        CommandView::Noop { argument: None } => true,
        CommandView::Help { argument: Some(AtomOrQuotedView::Atom(a)) } => is_atom_text(a),
        CommandView::Noop { argument: Some(AtomOrQuotedView::Atom(a)) } => is_atom_text(a),
        CommandView::AuthLogin { initial } => initial matches Some(t) ==> is_base64_text(t),
        CommandView::AuthPlain { initial } => initial matches Some(t) ==> is_base64_text(t),
        _ => false,
    }
}

/// Parsing a serialized command gives the command back, with nothing left
/// over, for the commands of `is_simple_command`.
pub proof fn law_command_round_trip(c: CommandView)
    requires
        is_simple_command(c),
        c.wire().len() <= usize::MAX,
    ensures
        spec_command(c.wire(), 0) == Ok::<(usize, CommandView), ParseError>(
            (c.wire().len() as usize, c),
        ),
{
    match c {
        CommandView::Helo { peer: DomainOrAddressView::Domain(d) } => lemma_greet_round_trip(c, d),
        CommandView::Ehlo { peer: DomainOrAddressView::Domain(d) } => lemma_greet_round_trip(c, d),
        CommandView::Mail { reverse_path, parameters } => {
            assert(parameters =~= Seq::<crate::types::ParameterView>::empty());
            lemma_mail_round_trip(c, reverse_path);
        },
        CommandView::Rcpt { forward_path, parameters } => {
            assert(parameters =~= Seq::<crate::types::ParameterView>::empty());
            lemma_rcpt_round_trip(c, forward_path);
        },
        CommandView::Data => lemma_data_round_trip(c),
        CommandView::Rset => lemma_rset_round_trip(c),
        CommandView::Quit => lemma_quit_round_trip(c),
        CommandView::StartTls => lemma_starttls_round_trip(c),
        CommandView::Vrfy { user_or_mailbox: AtomOrQuotedView::Atom(a) } => lemma_vrfy_round_trip(c, a),
        CommandView::Expn { mailing_list: AtomOrQuotedView::Atom(a) } => lemma_expn_round_trip(c, a),
        CommandView::Help { argument: None } => lemma_help_round_trip(c),
        CommandView::Noop { argument: None } => lemma_noop_round_trip(c),
        CommandView::Help { argument: Some(AtomOrQuotedView::Atom(a)) } => lemma_help_atom_round_trip(c, a),
        CommandView::Noop { argument: Some(AtomOrQuotedView::Atom(a)) } => lemma_noop_atom_round_trip(c, a),
        CommandView::AuthLogin { initial: None } => lemma_auth_login_round_trip(c),
        CommandView::AuthPlain { initial: None } => lemma_auth_plain_round_trip(c),
        CommandView::AuthLogin { initial: Some(t) } => lemma_auth_round_trip(c, t, false),
        CommandView::AuthPlain { initial: Some(t) } => lemma_auth_round_trip(c, t, true),
        _ => {},
    }
}

/// A run as `spec_joined_run` reads it: bytes of class `c`, where each "-"
/// (with `dash`) or "." (with `dot`) is followed by a byte of class `c`,
/// starting with one.
pub open spec fn is_joined_shape(b: Seq<u8>, c: ByteClass, dash: bool, dot: bool) -> bool {
    &&& b.len() > 0
    &&& c.holds(b[0])
    &&& forall|k: int|
        0 <= k < b.len() ==> c.holds(#[trigger] b[k]) || (((dash && b[k] == 0x2D) || (dot && b[k]
            == 0x2E)) && k + 1 < b.len() && c.holds(b[k + 1]))
}

/// A domain name as the grammar reads it: letters and digits, where each
/// "-" or "." is followed by a letter or digit, starting with one.
pub open spec fn is_domain_shape(b: Seq<u8>) -> bool {
    is_joined_shape(b, ByteClass::LetDig, true, true)
}

pub open spec fn is_domain_name(d: Seq<char>) -> bool {
    vstd::utf8::is_ascii_chars(d) && is_domain_shape(ascii_bytes(d))
}

/// A byte that ends a run of class `c` joined by "-" (with `dash`) or "."
/// (with `dot`).
pub open spec fn ends_run(b: u8, c: ByteClass, dash: bool, dot: bool) -> bool {
    !c.holds(b) && !(dash && b == 0x2D) && !(dot && b == 0x2E)
}

/// A byte that ends a domain: neither a letter, a digit, "-" nor ".".
pub open spec fn ends_domain(b: u8) -> bool {
    ends_run(b, ByteClass::LetDig, true, true)
}

proof fn lemma_joined_whole(
    s: Seq<u8>,
    j0: int,
    b: Seq<u8>,
    c: ByteClass,
    dash: bool,
    dot: bool,
    q: int,
)
    requires
        0 <= j0,
        j0 + b.len() < s.len() <= usize::MAX,
        s.subrange(j0, j0 + b.len()) == b,
        ends_run(s[j0 + b.len()], c, dash, dot),
        is_joined_shape(b, c, dash, dot),
        0 <= q <= b.len(),
    ensures
        spec_joined_run(s, j0 + q, c, dash, dot) == Ok::<usize, ParseError>(
            (j0 + b.len()) as usize,
        ),
    decreases b.len() - q,
{
    if q < b.len() {
        assert(s[j0 + q] == b[q]);
        if c.holds(b[q]) {
            lemma_joined_whole(s, j0, b, c, dash, dot, q + 1);
        } else {
            assert(s[j0 + q + 1] == b[q + 1]);
            lemma_joined_whole(s, j0, b, c, dash, dot, q + 2);
        }
    }
}

/// A domain name followed by a byte that ends it is read whole.
pub proof fn lemma_domain_whole(s: Seq<u8>, j0: int, b: Seq<u8>)
    requires
        0 <= j0,
        j0 + b.len() < s.len() <= usize::MAX,
        s.subrange(j0, j0 + b.len()) == b,
        ends_domain(s[j0 + b.len()]),
        is_domain_shape(b),
    ensures
        spec_domain(s, j0) == Ok::<usize, ParseError>((j0 + b.len()) as usize),
{
    assert(s[j0] == b[0]);
    lemma_joined_whole(s, j0, b, ByteClass::LetDig, true, true, 1);
}

/// The bytes of an ASCII text stand for the text, and its UTF-8 form is
/// those bytes.
pub proof fn lemma_ascii_text(d: Seq<char>)
    requires
        vstd::utf8::is_ascii_chars(d),
    ensures
        utf8(d) == ascii_bytes(d),
        chars_of(ascii_bytes(d)) == d,
        crate::grammar::is_ascii_bytes(ascii_bytes(d)),
{
    vstd::utf8::is_ascii_chars_encode_utf8(d);
    vstd::utf8::is_ascii_chars_nat_bound(d);
    assert(utf8(d) =~= ascii_bytes(d));
    assert(chars_of(ascii_bytes(d)) =~= d);
}

pub open spec fn greet_verb(extended: bool) -> Seq<u8> {
    if extended {
        seq![0x45u8, 0x48, 0x4C, 0x4F] /* "EHLO" */
    } else {
        seq![0x48u8, 0x45, 0x4C, 0x4F] /* "HELO" */
    }
}

pub open spec fn greet_view(d: Seq<char>, extended: bool) -> CommandView {
    if extended {
        CommandView::Ehlo { peer: DomainOrAddressView::Domain(d) }
    } else {
        CommandView::Helo { peer: DomainOrAddressView::Domain(d) }
    }
}

#[verifier::rlimit(50)]
proof fn lemma_greet_cmd_reads(d: Seq<char>, extended: bool)
    requires
        is_domain_name(d),
        d.len() + 7 <= usize::MAX,
    ensures
        ({
            let w = greet_verb(extended) + seq![0x20u8] /* " " */ + ascii_bytes(d) + crlf_bytes();
            spec_greet_cmd(w, 0, greet_verb(extended), extended) == Ok::<
                (usize, CommandView),
                ParseError,
            >((w.len() as usize, greet_view(d, extended)))
        }),
{
    reveal(spec_greet_cmd);
    lemma_ascii_text(d);
    let b = ascii_bytes(d);
    let verb = greet_verb(extended);
    let w = verb + seq![0x20u8] /* " " */ + b + crlf_bytes();
    let n = b.len() as int;
    assert(w.subrange(0, 4) =~= verb);
    lemma_literal_here(w, 0, verb, true, Production::Verb);
    assert(w.subrange(5, 5 + n) =~= b);
    assert(w[5 + n] == 0x0D);
    lemma_domain_whole(w, 5, b);
    assert(w.subrange(5 + n, 7 + n) =~= crlf_bytes());
    lemma_literal_here(w, 5 + n, crlf_bytes(), false, Production::Crlf);
    assert(w.subrange(5, 5 + n) == b);
    assert(spec_domain_or_address(w, 5) == Ok::<(usize, DomainOrAddressView), ParseError>(
        ((5 + n) as usize, DomainOrAddressView::Domain(d)),
    ));
}

/// HELO or EHLO with a domain name comes back from its wire form.
proof fn lemma_greet_round_trip(c: CommandView, d: Seq<char>)
    requires
        is_domain_name(d),
        c == greet_view(d, false) || c == greet_view(d, true),
        c.wire().len() <= usize::MAX,
    ensures
        spec_command(c.wire(), 0) == Ok::<(usize, CommandView), ParseError>(
            (c.wire().len() as usize, c),
        ),
{
    let extended = c is Ehlo;
    lemma_ascii_text(d);
    let w = greet_verb(extended) + seq![0x20u8] /* " " */ + ascii_bytes(d) + crlf_bytes();
    assert(c.wire() == w);
    lemma_greet_cmd_reads(d, extended);
    if extended {
        lemma_literal_differs(w, 0, seq![0x48u8, 0x45, 0x4C, 0x4F] /* "HELO" */, true, Production::Verb, 0);
        lemma_verb_fails(w, seq![0x48u8, 0x45, 0x4C, 0x4F] /* "HELO" */, false, c);
    }
}


/// An atom: one or more atext characters.
pub open spec fn is_atom_text(a: Seq<char>) -> bool {
    &&& vstd::utf8::is_ascii_chars(a)
    &&& a.len() > 0
    &&& forall|k: int| 0 <= k < a.len() ==> spec_is_atext(#[trigger] ascii_bytes(a)[k])
}

/// A run of bytes of class `c` that a byte outside it ends is scanned whole.
pub proof fn lemma_scan_whole(s: Seq<u8>, j0: int, n: int, c: ByteClass, q: int)
    requires
        0 <= j0,
        0 <= q <= n,
        j0 + n < s.len(),
        forall|k: int| j0 <= k < j0 + n ==> c.holds(#[trigger] s[k]),
        !c.holds(s[j0 + n]),
    ensures
        crate::grammar::scan(s, j0 + q, c) == j0 + n,
    decreases n - q,
{
    if q < n {
        lemma_scan_whole(s, j0, n, c, q + 1);
    }
}

pub open spec fn string_view(a: Seq<char>, list: bool) -> CommandView {
    if list {
        CommandView::Expn { mailing_list: AtomOrQuotedView::Atom(a) }
    } else {
        CommandView::Vrfy { user_or_mailbox: AtomOrQuotedView::Atom(a) }
    }
}

pub open spec fn opt_string_view(a: Seq<char>, noop: bool) -> CommandView {
    if noop {
        CommandView::Noop { argument: Some(AtomOrQuotedView::Atom(a)) }
    } else {
        CommandView::Help { argument: Some(AtomOrQuotedView::Atom(a)) }
    }
}

proof fn lemma_atom_reads(w: Seq<u8>, a: Seq<char>)
    requires
        is_atom_text(a),
        w.len() <= usize::MAX,
        w.len() == 7 + a.len(),
        w.subrange(5, 5 + a.len() as int) == ascii_bytes(a),
        w[5 + a.len() as int] == 0x0D,
    ensures
        crate::command::spec_string(w, 5) == Ok::<(usize, AtomOrQuotedView), ParseError>(
            ((5 + a.len()) as usize, AtomOrQuotedView::Atom(a)),
        ),
{
    lemma_ascii_text(a);
    let n = a.len() as int;
    assert forall|k: int| 5 <= k < 5 + n implies ByteClass::Atext.holds(#[trigger] w[k]) by {
        assert(w[k] == ascii_bytes(a)[k - 5]);
    }
    lemma_scan_whole(w, 5, n, ByteClass::Atext, 0);
    assert(w.subrange(5, 5 + n) == ascii_bytes(a));
}

proof fn lemma_string_cmd_reads(a: Seq<char>, verb: Seq<u8>, list: bool)
    requires
        is_atom_text(a),
        verb.len() == 4,
        a.len() + 7 <= usize::MAX,
    ensures
        ({
            let w = verb + seq![0x20u8] /* " " */ + ascii_bytes(a) + crlf_bytes();
            spec_string_cmd(w, 0, verb, list) == Ok::<(usize, CommandView), ParseError>(
                (w.len() as usize, string_view(a, list)),
            )
        }),
{
    reveal(spec_string_cmd);
    let b = ascii_bytes(a);
    let w = verb + seq![0x20u8] /* " " */ + b + crlf_bytes();
    let n = b.len() as int;
    assert(w.subrange(0, 4) =~= verb);
    lemma_literal_here(w, 0, verb, true, Production::Verb);
    assert(w.subrange(5, 5 + n) =~= b);
    lemma_atom_reads(w, a);
    assert(w.subrange(5 + n, 7 + n) =~= crlf_bytes());
    lemma_literal_here(w, 5 + n, crlf_bytes(), false, Production::Crlf);
}

proof fn lemma_opt_string_cmd_reads(a: Seq<char>, verb: Seq<u8>, noop: bool)
    requires
        is_atom_text(a),
        verb.len() == 4,
        a.len() + 7 <= usize::MAX,
    ensures
        ({
            let w = verb + seq![0x20u8] /* " " */ + ascii_bytes(a) + crlf_bytes();
            spec_opt_string_cmd(w, 0, verb, noop) == Ok::<(usize, CommandView), ParseError>(
                (w.len() as usize, opt_string_view(a, noop)),
            )
        }),
{
    reveal(spec_opt_string_cmd);
    let b = ascii_bytes(a);
    let w = verb + seq![0x20u8] /* " " */ + b + crlf_bytes();
    let n = b.len() as int;
    assert(w.subrange(0, 4) =~= verb);
    lemma_literal_here(w, 0, verb, true, Production::Verb);
    assert(w.subrange(5, 5 + n) =~= b);
    lemma_atom_reads(w, a);
    assert(w.subrange(5 + n, 7 + n) =~= crlf_bytes());
    lemma_literal_here(w, 5 + n, crlf_bytes(), false, Production::Crlf);
}

proof fn lemma_vrfy_round_trip(c: CommandView, a: Seq<char>)
    requires
        is_atom_text(a),
        c == string_view(a, false),
        c.wire().len() <= usize::MAX,
    ensures
        spec_command(c.wire(), 0) == Ok::<(usize, CommandView), ParseError>(
            (c.wire().len() as usize, c),
        ),
{
    lemma_ascii_text(a);
    let w = seq![0x56u8, 0x52, 0x46, 0x59, 0x20] /* "VRFY " */ + ascii_bytes(a) + crlf_bytes();
    assert(w =~= seq![0x56u8, 0x52, 0x46, 0x59] /* "VRFY" */ + seq![0x20u8] /* " " */ + ascii_bytes(a) + crlf_bytes());
    assert(c.wire() == w);
    lemma_string_cmd_reads(a, seq![0x56u8, 0x52, 0x46, 0x59] /* "VRFY" */, false);
    lemma_literal_differs(w, 0, seq![0x48u8, 0x45, 0x4C, 0x4F] /* "HELO" */, true, Production::Verb, 0);
    lemma_verb_fails(w, seq![0x48u8, 0x45, 0x4C, 0x4F] /* "HELO" */, false, c);
    lemma_literal_differs(w, 0, seq![0x45u8, 0x48, 0x4C, 0x4F] /* "EHLO" */, true, Production::Verb, 0);
    lemma_verb_fails(w, seq![0x45u8, 0x48, 0x4C, 0x4F] /* "EHLO" */, true, c);
    lemma_literal_differs(w, 0, seq![0x4Du8, 0x41, 0x49, 0x4C, 0x20, 0x46, 0x52, 0x4F, 0x4D, 0x3A] /* "MAIL FROM:" */, true, Production::Verb, 0);
    lemma_verb_fails(w, seq![0x4Du8, 0x41, 0x49, 0x4C, 0x20, 0x46, 0x52, 0x4F, 0x4D, 0x3A] /* "MAIL FROM:" */, false, c);
    lemma_literal_differs(w, 0, seq![0x52u8, 0x43, 0x50, 0x54, 0x20, 0x54, 0x4F, 0x3A] /* "RCPT TO:" */, true, Production::Verb, 0);
    lemma_verb_fails(w, seq![0x52u8, 0x43, 0x50, 0x54, 0x20, 0x54, 0x4F, 0x3A] /* "RCPT TO:" */, true, c);
    lemma_literal_differs(w, 0, seq![0x44u8, 0x41, 0x54, 0x41] /* "DATA" */, true, Production::Verb, 0);
    lemma_verb_fails(w, seq![0x44u8, 0x41, 0x54, 0x41] /* "DATA" */, false, CommandView::Data);
    lemma_literal_differs(w, 0, seq![0x52u8, 0x53, 0x45, 0x54] /* "RSET" */, true, Production::Verb, 0);
    lemma_verb_fails(w, seq![0x52u8, 0x53, 0x45, 0x54] /* "RSET" */, false, CommandView::Rset);
}

proof fn lemma_expn_round_trip(c: CommandView, a: Seq<char>)
    requires
        is_atom_text(a),
        c == string_view(a, true),
        c.wire().len() <= usize::MAX,
    ensures
        spec_command(c.wire(), 0) == Ok::<(usize, CommandView), ParseError>(
            (c.wire().len() as usize, c),
        ),
{
    lemma_ascii_text(a);
    let w = seq![0x45u8, 0x58, 0x50, 0x4E, 0x20] /* "EXPN " */ + ascii_bytes(a) + crlf_bytes();
    assert(w =~= seq![0x45u8, 0x58, 0x50, 0x4E] /* "EXPN" */ + seq![0x20u8] /* " " */ + ascii_bytes(a) + crlf_bytes());
    assert(c.wire() == w);
    lemma_string_cmd_reads(a, seq![0x45u8, 0x58, 0x50, 0x4E] /* "EXPN" */, true);
    lemma_literal_differs(w, 0, seq![0x48u8, 0x45, 0x4C, 0x4F] /* "HELO" */, true, Production::Verb, 0);
    lemma_verb_fails(w, seq![0x48u8, 0x45, 0x4C, 0x4F] /* "HELO" */, false, c);
    lemma_literal_differs(w, 0, seq![0x45u8, 0x48, 0x4C, 0x4F] /* "EHLO" */, true, Production::Verb, 1);
    lemma_verb_fails(w, seq![0x45u8, 0x48, 0x4C, 0x4F] /* "EHLO" */, true, c);
    lemma_literal_differs(w, 0, seq![0x4Du8, 0x41, 0x49, 0x4C, 0x20, 0x46, 0x52, 0x4F, 0x4D, 0x3A] /* "MAIL FROM:" */, true, Production::Verb, 0);
    lemma_verb_fails(w, seq![0x4Du8, 0x41, 0x49, 0x4C, 0x20, 0x46, 0x52, 0x4F, 0x4D, 0x3A] /* "MAIL FROM:" */, false, c);
    lemma_literal_differs(w, 0, seq![0x52u8, 0x43, 0x50, 0x54, 0x20, 0x54, 0x4F, 0x3A] /* "RCPT TO:" */, true, Production::Verb, 0);
    lemma_verb_fails(w, seq![0x52u8, 0x43, 0x50, 0x54, 0x20, 0x54, 0x4F, 0x3A] /* "RCPT TO:" */, true, c);
    lemma_literal_differs(w, 0, seq![0x44u8, 0x41, 0x54, 0x41] /* "DATA" */, true, Production::Verb, 0);
    lemma_verb_fails(w, seq![0x44u8, 0x41, 0x54, 0x41] /* "DATA" */, false, CommandView::Data);
    lemma_literal_differs(w, 0, seq![0x52u8, 0x53, 0x45, 0x54] /* "RSET" */, true, Production::Verb, 0);
    lemma_verb_fails(w, seq![0x52u8, 0x53, 0x45, 0x54] /* "RSET" */, false, CommandView::Rset);
    lemma_literal_differs(w, 0, seq![0x56u8, 0x52, 0x46, 0x59] /* "VRFY" */, true, Production::Verb, 0);
    lemma_verb_fails(w, seq![0x56u8, 0x52, 0x46, 0x59] /* "VRFY" */, false, c);
}

proof fn lemma_help_atom_round_trip(c: CommandView, a: Seq<char>)
    requires
        is_atom_text(a),
        c == opt_string_view(a, false),
        c.wire().len() <= usize::MAX,
    ensures
        spec_command(c.wire(), 0) == Ok::<(usize, CommandView), ParseError>(
            (c.wire().len() as usize, c),
        ),
{
    lemma_ascii_text(a);
    let w = seq![0x48u8, 0x45, 0x4C, 0x50, 0x20] /* "HELP " */ + ascii_bytes(a) + crlf_bytes();
    assert(w =~= seq![0x48u8, 0x45, 0x4C, 0x50] /* "HELP" */ + seq![0x20u8] /* " " */ + ascii_bytes(a) + crlf_bytes());
    assert(c.wire() == w);
    lemma_opt_string_cmd_reads(a, seq![0x48u8, 0x45, 0x4C, 0x50] /* "HELP" */, false);
    lemma_literal_differs(w, 0, seq![0x48u8, 0x45, 0x4C, 0x4F] /* "HELO" */, true, Production::Verb, 3);
    lemma_verb_fails(w, seq![0x48u8, 0x45, 0x4C, 0x4F] /* "HELO" */, false, c);
    lemma_literal_differs(w, 0, seq![0x45u8, 0x48, 0x4C, 0x4F] /* "EHLO" */, true, Production::Verb, 0);
    lemma_verb_fails(w, seq![0x45u8, 0x48, 0x4C, 0x4F] /* "EHLO" */, true, c);
    lemma_literal_differs(w, 0, seq![0x4Du8, 0x41, 0x49, 0x4C, 0x20, 0x46, 0x52, 0x4F, 0x4D, 0x3A] /* "MAIL FROM:" */, true, Production::Verb, 0);
    lemma_verb_fails(w, seq![0x4Du8, 0x41, 0x49, 0x4C, 0x20, 0x46, 0x52, 0x4F, 0x4D, 0x3A] /* "MAIL FROM:" */, false, c);
    lemma_literal_differs(w, 0, seq![0x52u8, 0x43, 0x50, 0x54, 0x20, 0x54, 0x4F, 0x3A] /* "RCPT TO:" */, true, Production::Verb, 0);
    lemma_verb_fails(w, seq![0x52u8, 0x43, 0x50, 0x54, 0x20, 0x54, 0x4F, 0x3A] /* "RCPT TO:" */, true, c);
    lemma_literal_differs(w, 0, seq![0x44u8, 0x41, 0x54, 0x41] /* "DATA" */, true, Production::Verb, 0);
    lemma_verb_fails(w, seq![0x44u8, 0x41, 0x54, 0x41] /* "DATA" */, false, CommandView::Data);
    lemma_literal_differs(w, 0, seq![0x52u8, 0x53, 0x45, 0x54] /* "RSET" */, true, Production::Verb, 0);
    lemma_verb_fails(w, seq![0x52u8, 0x53, 0x45, 0x54] /* "RSET" */, false, CommandView::Rset);
    lemma_literal_differs(w, 0, seq![0x56u8, 0x52, 0x46, 0x59] /* "VRFY" */, true, Production::Verb, 0);
    lemma_verb_fails(w, seq![0x56u8, 0x52, 0x46, 0x59] /* "VRFY" */, false, c);
    lemma_literal_differs(w, 0, seq![0x45u8, 0x58, 0x50, 0x4E] /* "EXPN" */, true, Production::Verb, 0);
    lemma_verb_fails(w, seq![0x45u8, 0x58, 0x50, 0x4E] /* "EXPN" */, true, c);
}

proof fn lemma_noop_atom_round_trip(c: CommandView, a: Seq<char>)
    requires
        is_atom_text(a),
        c == opt_string_view(a, true),
        c.wire().len() <= usize::MAX,
    ensures
        spec_command(c.wire(), 0) == Ok::<(usize, CommandView), ParseError>(
            (c.wire().len() as usize, c),
        ),
{
    lemma_ascii_text(a);
    let w = seq![0x4Eu8, 0x4F, 0x4F, 0x50, 0x20] /* "NOOP " */ + ascii_bytes(a) + crlf_bytes();
    assert(w =~= seq![0x4Eu8, 0x4F, 0x4F, 0x50] /* "NOOP" */ + seq![0x20u8] /* " " */ + ascii_bytes(a) + crlf_bytes());
    assert(c.wire() == w);
    lemma_opt_string_cmd_reads(a, seq![0x4Eu8, 0x4F, 0x4F, 0x50] /* "NOOP" */, true);
    lemma_literal_differs(w, 0, seq![0x48u8, 0x45, 0x4C, 0x4F] /* "HELO" */, true, Production::Verb, 0);
    lemma_verb_fails(w, seq![0x48u8, 0x45, 0x4C, 0x4F] /* "HELO" */, false, c);
    lemma_literal_differs(w, 0, seq![0x45u8, 0x48, 0x4C, 0x4F] /* "EHLO" */, true, Production::Verb, 0);
    lemma_verb_fails(w, seq![0x45u8, 0x48, 0x4C, 0x4F] /* "EHLO" */, true, c);
    lemma_literal_differs(w, 0, seq![0x4Du8, 0x41, 0x49, 0x4C, 0x20, 0x46, 0x52, 0x4F, 0x4D, 0x3A] /* "MAIL FROM:" */, true, Production::Verb, 0);
    lemma_verb_fails(w, seq![0x4Du8, 0x41, 0x49, 0x4C, 0x20, 0x46, 0x52, 0x4F, 0x4D, 0x3A] /* "MAIL FROM:" */, false, c);
    lemma_literal_differs(w, 0, seq![0x52u8, 0x43, 0x50, 0x54, 0x20, 0x54, 0x4F, 0x3A] /* "RCPT TO:" */, true, Production::Verb, 0);
    lemma_verb_fails(w, seq![0x52u8, 0x43, 0x50, 0x54, 0x20, 0x54, 0x4F, 0x3A] /* "RCPT TO:" */, true, c);
    lemma_literal_differs(w, 0, seq![0x44u8, 0x41, 0x54, 0x41] /* "DATA" */, true, Production::Verb, 0);
    lemma_verb_fails(w, seq![0x44u8, 0x41, 0x54, 0x41] /* "DATA" */, false, CommandView::Data);
    lemma_literal_differs(w, 0, seq![0x52u8, 0x53, 0x45, 0x54] /* "RSET" */, true, Production::Verb, 0);
    lemma_verb_fails(w, seq![0x52u8, 0x53, 0x45, 0x54] /* "RSET" */, false, CommandView::Rset);
    lemma_literal_differs(w, 0, seq![0x56u8, 0x52, 0x46, 0x59] /* "VRFY" */, true, Production::Verb, 0);
    lemma_verb_fails(w, seq![0x56u8, 0x52, 0x46, 0x59] /* "VRFY" */, false, c);
    lemma_literal_differs(w, 0, seq![0x45u8, 0x58, 0x50, 0x4E] /* "EXPN" */, true, Production::Verb, 0);
    lemma_verb_fails(w, seq![0x45u8, 0x58, 0x50, 0x4E] /* "EXPN" */, true, c);
    lemma_literal_differs(w, 0, seq![0x48u8, 0x45, 0x4C, 0x50] /* "HELP" */, true, Production::Verb, 0);
    lemma_verb_fails(w, seq![0x48u8, 0x45, 0x4C, 0x50] /* "HELP" */, false, c);
}


// ----- Paths -----

/// A mailbox with a dot-string local part and a domain name:
/// `local "@" domain`.
pub open spec fn is_plain_mailbox(p: Seq<char>) -> bool {
    &&& vstd::utf8::is_ascii_chars(p)
    &&& exists|n: int|
        0 < n < p.len() && #[trigger] p[n] == '@' && is_joined_shape(
            ascii_bytes(p.subrange(0, n)),
            ByteClass::Atext,
            false,
            true,
        ) && is_domain_shape(ascii_bytes(p.subrange(n + 1, p.len() as int)))
}

proof fn lemma_scan_stops(s: Seq<u8>, i: int, c: ByteClass, j: int)
    requires
        0 <= i <= j < s.len(),
        !c.holds(s[j]),
    ensures
        crate::grammar::scan(s, i, c) <= j,
    decreases j - i,
{
    if c.holds(s[i]) {
        lemma_scan_stops(s, i + 1, c, j);
    }
}

/// A plain mailbox at `m`, followed by ">", is read whole.
#[verifier::rlimit(100)]
proof fn lemma_mailbox_reads(w: Seq<u8>, m: int, l: Seq<u8>, d: Seq<u8>)
    requires
        0 <= m,
        m + l.len() + 1 + d.len() < w.len() <= usize::MAX,
        w.subrange(m, m + l.len()) == l,
        w[m + l.len()] == 0x40,
        w.subrange(m + l.len() + 1, m + l.len() + 1 + d.len()) == d,
        w[m + l.len() + 1 + d.len()] == 0x3E,
        is_joined_shape(l, ByteClass::Atext, false, true),
        is_domain_shape(d),
    ensures
        spec_mailbox(w, m) == Ok::<usize, ParseError>((m + l.len() + 1 + d.len()) as usize),
{
    let n = l.len() as int;
    assert(w[m] == l[0]);
    lemma_scan_stops(w, m, ByteClass::Atext, m + n);
    crate::grammar::lemma_scan_bounds(w, m, ByteClass::Atext);
    let t = crate::grammar::scan(w, m, ByteClass::Atext);
    lemma_joined_whole(w, m, l, ByteClass::Atext, false, true, t - m);
    lemma_domain_whole(w, m + n + 1, d);
}

/// "<" mailbox ">" at `i`, for a plain mailbox, is read whole.
#[verifier::rlimit(100)]
proof fn lemma_path_reads(w: Seq<u8>, i: int, l: Seq<u8>, d: Seq<u8>)
    requires
        0 <= i,
        i + l.len() + 2 + d.len() < w.len() <= usize::MAX,
        w[i] == 0x3C,
        w.subrange(i + 1, i + 1 + l.len()) == l,
        w[i + 1 + l.len()] == 0x40,
        w.subrange(i + l.len() + 2, i + l.len() + 2 + d.len()) == d,
        w[i + l.len() + 2 + d.len()] == 0x3E,
        is_joined_shape(l, ByteClass::Atext, false, true),
        is_domain_shape(d),
    ensures
        spec_path(w, i) == Ok::<usize, ParseError>((i + l.len() + 3 + d.len()) as usize),
{
    assert(w[i + 1] == l[0]);
    lemma_mailbox_reads(w, i + 1, l, d);
}

pub open spec fn mail_line(p: Seq<char>) -> Seq<u8> {
    seq![0x4Du8, 0x41, 0x49, 0x4C, 0x20, 0x46, 0x52, 0x4F, 0x4D, 0x3A, 0x3C] /* "MAIL FROM:<" */ + ascii_bytes(p) + seq![0x3Eu8] /* ">" */ + crlf_bytes()
}

#[verifier::rlimit(100)]
proof fn lemma_reverse_path_reads(p: Seq<char>)
    requires
        is_plain_mailbox(p),
        p.len() + 14 <= usize::MAX,
    ensures
        crate::command::spec_reverse_path(mail_line(p), 10) == Ok::<(usize, Seq<char>), ParseError>(
            ((p.len() + 12) as usize, p),
        ),
{
    reveal(crate::command::spec_reverse_path);
    let n = choose|n: int|
        0 < n < p.len() && #[trigger] p[n] == '@' && is_joined_shape(
            ascii_bytes(p.subrange(0, n)),
            ByteClass::Atext,
            false,
            true,
        ) && is_domain_shape(ascii_bytes(p.subrange(n + 1, p.len() as int)));
    lemma_ascii_text(p);
    let w = mail_line(p);
    let b = ascii_bytes(p);
    let l = ascii_bytes(p.subrange(0, n));
    let d = ascii_bytes(p.subrange(n + 1, p.len() as int));
    let len = b.len() as int;
    assert(b.len() == p.len());
    assert(l.len() == n);
    assert(d.len() == p.len() - n - 1);
    assert(w.len() == len + 14);
    assert(w.subrange(11, 11 + n) =~= l);
    assert(w[11 + n] == 0x40);
    assert(w.subrange(12 + n, 12 + n + d.len()) =~= d);
    lemma_path_reads(w, 10, l, d);
    assert(w.subrange(11, 11 + len) =~= b);
}

#[verifier::rlimit(100)]
proof fn lemma_mail_reads(p: Seq<char>)
    requires
        is_plain_mailbox(p),
        p.len() + 14 <= usize::MAX,
    ensures
        spec_path_cmd(mail_line(p), 0, seq![0x4Du8, 0x41, 0x49, 0x4C, 0x20, 0x46, 0x52, 0x4F, 0x4D, 0x3A] /* "MAIL FROM:" */, false) == Ok::<
            (usize, CommandView),
            ParseError,
        >(
            (
                mail_line(p).len() as usize,
                CommandView::Mail { reverse_path: p, parameters: seq![] },
            ),
        ),
{
    reveal(spec_path_cmd);
    lemma_ascii_text(p);
    let w = mail_line(p);
    let len = p.len() as int;
    assert(w.len() == len + 14);
    assert(w.subrange(0, 10) =~= seq![0x4Du8, 0x41, 0x49, 0x4C, 0x20, 0x46, 0x52, 0x4F, 0x4D, 0x3A] /* "MAIL FROM:" */);
    lemma_literal_here(w, 0, seq![0x4Du8, 0x41, 0x49, 0x4C, 0x20, 0x46, 0x52, 0x4F, 0x4D, 0x3A] /* "MAIL FROM:" */, true, Production::Verb);
    lemma_reverse_path_reads(p);
    assert(w.subrange(12 + len, 14 + len) =~= crlf_bytes());
    lemma_literal_here(w, 12 + len, crlf_bytes(), false, Production::Crlf);
    assert(crate::command::spec_params(w, 12 + len) == Ok::<
        (usize, Seq<crate::types::ParameterView>),
        ParseError,
    >(((12 + len) as usize, seq![])));
}

/// MAIL FROM with a plain mailbox and no parameters comes back from its wire
/// form.
proof fn lemma_mail_round_trip(c: CommandView, p: Seq<char>)
    requires
        is_plain_mailbox(p),
        c == (CommandView::Mail { reverse_path: p, parameters: seq![] }),
        c.wire().len() <= usize::MAX,
    ensures
        spec_command(c.wire(), 0) == Ok::<(usize, CommandView), ParseError>(
            (c.wire().len() as usize, c),
        ),
{
    lemma_ascii_text(p);
    let w = mail_line(p);
    assert(c.wire() =~= w);
    lemma_mail_reads(p);
    lemma_literal_differs(w, 0, seq![0x48u8, 0x45, 0x4C, 0x4F] /* "HELO" */, true, Production::Verb, 0);
    lemma_verb_fails(w, seq![0x48u8, 0x45, 0x4C, 0x4F] /* "HELO" */, false, c);
    lemma_literal_differs(w, 0, seq![0x45u8, 0x48, 0x4C, 0x4F] /* "EHLO" */, true, Production::Verb, 0);
    lemma_verb_fails(w, seq![0x45u8, 0x48, 0x4C, 0x4F] /* "EHLO" */, true, c);
}

/// In a plain mailbox, "@" stands only between the local part and the
/// domain, and ">" nowhere.
proof fn lemma_plain_mailbox_bytes(p: Seq<char>, n: int, k: int)
    requires
        vstd::utf8::is_ascii_chars(p),
        0 < n < p.len(),
        p[n] == '@',
        is_joined_shape(ascii_bytes(p.subrange(0, n)), ByteClass::Atext, false, true),
        is_domain_shape(ascii_bytes(p.subrange(n + 1, p.len() as int))),
        0 <= k < p.len(),
    ensures
        ascii_bytes(p)[k] != 0x3E,
        ascii_bytes(p)[k] == 0x40 ==> k == n,
        k < n ==> crate::abnf::spec_is_atext(ascii_bytes(p)[k]) || ascii_bytes(p)[k] == 0x2E,
{
    let l = ascii_bytes(p.subrange(0, n));
    let d = ascii_bytes(p.subrange(n + 1, p.len() as int));
    if k < n {
        assert(ascii_bytes(p)[k] == l[k]);
        assert(ByteClass::Atext.holds(l[k]) || l[k] == 0x2E);
    } else if k > n {
        assert(ascii_bytes(p)[k] == d[k - n - 1]);
        assert(ByteClass::LetDig.holds(d[k - n - 1]) || d[k - n - 1] == 0x2D || d[k - n - 1]
            == 0x2E);
    }
}

pub open spec fn rcpt_line(p: Seq<char>) -> Seq<u8> {
    seq![0x52u8, 0x43, 0x50, 0x54, 0x20, 0x54, 0x4F, 0x3A, 0x3C] /* "RCPT TO:<" */ + ascii_bytes(p) + seq![0x3Eu8] /* ">" */ + crlf_bytes()
}

/// The forward path of a plain mailbox reads as the mailbox, whichever of
/// the Postmaster forms is tried first.
#[verifier::rlimit(100)]
proof fn lemma_forward_path_reads(p: Seq<char>)
    requires
        is_plain_mailbox(p),
        p.len() + 12 <= usize::MAX,
    ensures
        crate::command::spec_forward_path(rcpt_line(p), 8) == Ok::<(usize, Seq<char>), ParseError>(
            ((p.len() + 10) as usize, p),
        ),
{
    reveal(crate::command::spec_forward_path);
    let n = choose|n: int|
        0 < n < p.len() && #[trigger] p[n] == '@' && is_joined_shape(
            ascii_bytes(p.subrange(0, n)),
            ByteClass::Atext,
            false,
            true,
        ) && is_domain_shape(ascii_bytes(p.subrange(n + 1, p.len() as int)));
    lemma_ascii_text(p);
    let w = rcpt_line(p);
    let b = ascii_bytes(p);
    let l = ascii_bytes(p.subrange(0, n));
    let d = ascii_bytes(p.subrange(n + 1, p.len() as int));
    let len = b.len() as int;
    assert(b.len() == p.len());
    assert(l.len() == n);
    assert(d.len() == p.len() - n - 1);
    assert(w.len() == len + 12);
    assert(w.subrange(9, 9 + n) =~= l);
    assert(w[9 + n] == 0x40);
    assert(w.subrange(10 + n, 10 + n + d.len()) =~= d);
    lemma_path_reads(w, 8, l, d);
    assert(w.subrange(9, 9 + len) =~= b);
    assert(forall|k: int| 0 <= k < len ==> #[trigger] w[9 + k] == b[k]);
    // "<Postmaster>" cannot match: where it holds "@" or ">", the line holds
    // neither.
    let lit = seq![0x3Cu8, 0x50, 0x6F, 0x73, 0x74, 0x6D, 0x61, 0x73, 0x74, 0x65, 0x72, 0x3E] /* "<Postmaster>" */;
    if n + 1 < 12 {
        lemma_literal_differs(w, 8, lit, true, Production::Path, n + 1);
    } else {
        lemma_plain_mailbox_bytes(p, n, 10);
        lemma_literal_differs(w, 8, lit, true, Production::Path, 11);
    }
    // "<Postmaster@" Domain ">" either fails or reads the same mailbox.
    let pm = seq![0x3Cu8, 0x50, 0x6F, 0x73, 0x74, 0x6D, 0x61, 0x73, 0x74, 0x65, 0x72, 0x40] /* "<Postmaster@" */;
    if crate::command::spec_postmaster_at(w, 8) is Ok {
        reveal(agrees);
        if 19 < w.len() {
            assert(byte_matches(w[19int], pm[11int], true));
            assert(w[19] == 0x40);
        }
        if n != 10 {
            if n < 10 {
                assert(byte_matches(w[8 + (n + 1)], pm[n + 1], true));
                assert(pm[n + 1] != 0x40 && ascii_lower(pm[n + 1]) != 0x40) by {
                    assert(1 <= n + 1 <= 10);
                    assert(forall|q: int| 1 <= q <= 10 ==> 0x61 <= ascii_lower(#[trigger] pm[q]) <= 0x74);
                }
            } else {
                lemma_plain_mailbox_bytes(p, n, 10);
            }
        }
        assert(n == 10);
        lemma_domain_whole(w, 20, d);
    }
}

#[verifier::rlimit(100)]
proof fn lemma_rcpt_reads(p: Seq<char>)
    requires
        is_plain_mailbox(p),
        p.len() + 12 <= usize::MAX,
    ensures
        spec_path_cmd(rcpt_line(p), 0, seq![0x52u8, 0x43, 0x50, 0x54, 0x20, 0x54, 0x4F, 0x3A] /* "RCPT TO:" */, true) == Ok::<
            (usize, CommandView),
            ParseError,
        >(
            (
                rcpt_line(p).len() as usize,
                CommandView::Rcpt { forward_path: p, parameters: seq![] },
            ),
        ),
{
    reveal(spec_path_cmd);
    lemma_ascii_text(p);
    let w = rcpt_line(p);
    let len = p.len() as int;
    assert(w.len() == len + 12);
    assert(w.subrange(0, 8) =~= seq![0x52u8, 0x43, 0x50, 0x54, 0x20, 0x54, 0x4F, 0x3A] /* "RCPT TO:" */);
    lemma_literal_here(w, 0, seq![0x52u8, 0x43, 0x50, 0x54, 0x20, 0x54, 0x4F, 0x3A] /* "RCPT TO:" */, true, Production::Verb);
    lemma_forward_path_reads(p);
    assert(w.subrange(10 + len, 12 + len) =~= crlf_bytes());
    lemma_literal_here(w, 10 + len, crlf_bytes(), false, Production::Crlf);
    assert(crate::command::spec_params(w, 10 + len) == Ok::<
        (usize, Seq<crate::types::ParameterView>),
        ParseError,
    >(((10 + len) as usize, seq![])));
}

/// RCPT TO with a plain mailbox and no parameters comes back from its wire
/// form.
proof fn lemma_rcpt_round_trip(c: CommandView, p: Seq<char>)
    requires
        is_plain_mailbox(p),
        c == (CommandView::Rcpt { forward_path: p, parameters: seq![] }),
        c.wire().len() <= usize::MAX,
    ensures
        spec_command(c.wire(), 0) == Ok::<(usize, CommandView), ParseError>(
            (c.wire().len() as usize, c),
        ),
{
    lemma_ascii_text(p);
    let w = rcpt_line(p);
    assert(c.wire() =~= w);
    lemma_rcpt_reads(p);
    lemma_literal_differs(w, 0, seq![0x48u8, 0x45, 0x4C, 0x4F] /* "HELO" */, true, Production::Verb, 0);
    lemma_verb_fails(w, seq![0x48u8, 0x45, 0x4C, 0x4F] /* "HELO" */, false, c);
    lemma_literal_differs(w, 0, seq![0x45u8, 0x48, 0x4C, 0x4F] /* "EHLO" */, true, Production::Verb, 0);
    lemma_verb_fails(w, seq![0x45u8, 0x48, 0x4C, 0x4F] /* "EHLO" */, true, c);
    lemma_literal_differs(w, 0, seq![0x4Du8, 0x41, 0x49, 0x4C, 0x20, 0x46, 0x52, 0x4F, 0x4D, 0x3A] /* "MAIL FROM:" */, true, Production::Verb, 0);
    lemma_verb_fails(w, seq![0x4Du8, 0x41, 0x49, 0x4C, 0x20, 0x46, 0x52, 0x4F, 0x4D, 0x3A] /* "MAIL FROM:" */, false, c);
}

// ----- AUTH with an initial response -----

/// The length of a token without its trailing "=" or "==".
pub open spec fn unpadded_len(b: Seq<u8>) -> int {
    if b.len() >= 2 && b[b.len() - 1] == 0x3D && b[b.len() - 2] == 0x3D {
        b.len() - 2
    } else if b.len() >= 1 && b[b.len() - 1] == 0x3D {
        b.len() - 1
    } else {
        b.len() as int
    }
}

/// A base64 token: base64 characters, then "", "=" or "==".
pub open spec fn is_base64_text(t: Seq<char>) -> bool {
    &&& vstd::utf8::is_ascii_chars(t)
    &&& forall|k: int|
        0 <= k < unpadded_len(ascii_bytes(t)) ==> ByteClass::Base64.holds(
            #[trigger] ascii_bytes(t)[k],
        )
}

pub open spec fn auth_line(mechanism: Seq<u8>, t: Seq<char>) -> Seq<u8> {
    seq![0x41u8, 0x55, 0x54, 0x48, 0x20] /* "AUTH " */ + mechanism + seq![0x20u8] /* " " */ + ascii_bytes(t) + crlf_bytes()
}

pub open spec fn auth_view(t: Seq<char>, plain: bool) -> CommandView {
    if plain {
        CommandView::AuthPlain { initial: Some(t) }
    } else {
        CommandView::AuthLogin { initial: Some(t) }
    }
}

pub open spec fn auth_mechanism_of(plain: bool) -> Seq<u8> {
    if plain {
        seq![0x50u8, 0x4C, 0x41, 0x49, 0x4E] /* "PLAIN" */
    } else {
        seq![0x4Cu8, 0x4F, 0x47, 0x49, 0x4E] /* "LOGIN" */
    }
}

#[verifier::rlimit(100)]
proof fn lemma_auth_reads(t: Seq<char>, plain: bool)
    requires
        is_base64_text(t),
        t.len() + 13 <= usize::MAX,
    ensures
        spec_auth_cmd(auth_line(auth_mechanism_of(plain), t), 0, auth_mechanism_of(plain), plain)
            == Ok::<(usize, CommandView), ParseError>(
            (auth_line(auth_mechanism_of(plain), t).len() as usize, auth_view(t, plain)),
        ),
{
    reveal(spec_auth_cmd);
    lemma_ascii_text(t);
    let mech = auth_mechanism_of(plain);
    let w = auth_line(mech, t);
    let b = ascii_bytes(t);
    let m = unpadded_len(b);
    let len = b.len() as int;
    assert(w.len() == len + 13);
    assert(w.subrange(0, 4) =~= seq![0x41u8, 0x55, 0x54, 0x48] /* "AUTH" */);
    lemma_literal_here(w, 0, seq![0x41u8, 0x55, 0x54, 0x48] /* "AUTH" */, true, Production::Verb);
    assert(w.subrange(5, 10) =~= mech);
    lemma_literal_here(w, 5, mech, true, Production::Verb);
    assert(forall|k: int| 0 <= k < len ==> #[trigger] w[11 + k] == b[k]);
    assert forall|k: int| 11 <= k < 11 + m implies ByteClass::Base64.holds(#[trigger] w[k]) by {
        assert(w[11 + (k - 11)] == b[k - 11]);
        assert(ByteClass::Base64.holds(b[k - 11]));
    }
    assert(!ByteClass::Base64.holds(w[11 + m])) by {
        if m < len {
            assert(w[11 + m] == b[m]);
        }
    }
    lemma_scan_whole(w, 11, m, ByteClass::Base64, 0);
    if m < len {
        assert(w[11 + m] == b[m]);
    }
    if m + 1 < len {
        assert(w[11 + m + 1] == b[m + 1]);
    }
    assert(w.subrange(11 + len, 13 + len) =~= crlf_bytes());
    lemma_literal_here(w, 11 + len, crlf_bytes(), false, Production::Crlf);
    assert(w.subrange(11, 11 + len) =~= b);
}

/// AUTH LOGIN or AUTH PLAIN with an initial response comes back from its
/// wire form.
proof fn lemma_auth_round_trip(c: CommandView, t: Seq<char>, plain: bool)
    requires
        is_base64_text(t),
        c == auth_view(t, plain),
        c.wire().len() <= usize::MAX,
    ensures
        spec_command(c.wire(), 0) == Ok::<(usize, CommandView), ParseError>(
            (c.wire().len() as usize, c),
        ),
{
    lemma_ascii_text(t);
    let w = auth_line(auth_mechanism_of(plain), t);
    assert(c.wire() =~= w);
    lemma_auth_reads(t, plain);
    lemma_literal_differs(w, 0, seq![0x48u8, 0x45, 0x4C, 0x4F] /* "HELO" */, true, Production::Verb, 0);
    lemma_verb_fails(w, seq![0x48u8, 0x45, 0x4C, 0x4F] /* "HELO" */, false, c);
    lemma_literal_differs(w, 0, seq![0x45u8, 0x48, 0x4C, 0x4F] /* "EHLO" */, true, Production::Verb, 0);
    lemma_verb_fails(w, seq![0x45u8, 0x48, 0x4C, 0x4F] /* "EHLO" */, true, c);
    lemma_literal_differs(w, 0, seq![0x4Du8, 0x41, 0x49, 0x4C, 0x20, 0x46, 0x52, 0x4F, 0x4D, 0x3A] /* "MAIL FROM:" */, true, Production::Verb, 0);
    lemma_verb_fails(w, seq![0x4Du8, 0x41, 0x49, 0x4C, 0x20, 0x46, 0x52, 0x4F, 0x4D, 0x3A] /* "MAIL FROM:" */, false, c);
    lemma_literal_differs(w, 0, seq![0x52u8, 0x43, 0x50, 0x54, 0x20, 0x54, 0x4F, 0x3A] /* "RCPT TO:" */, true, Production::Verb, 0);
    lemma_verb_fails(w, seq![0x52u8, 0x43, 0x50, 0x54, 0x20, 0x54, 0x4F, 0x3A] /* "RCPT TO:" */, true, c);
    lemma_literal_differs(w, 0, seq![0x44u8, 0x41, 0x54, 0x41] /* "DATA" */, true, Production::Verb, 0);
    lemma_verb_fails(w, seq![0x44u8, 0x41, 0x54, 0x41] /* "DATA" */, false, CommandView::Data);
    lemma_literal_differs(w, 0, seq![0x52u8, 0x53, 0x45, 0x54] /* "RSET" */, true, Production::Verb, 0);
    lemma_verb_fails(w, seq![0x52u8, 0x53, 0x45, 0x54] /* "RSET" */, false, CommandView::Rset);
    lemma_literal_differs(w, 0, seq![0x56u8, 0x52, 0x46, 0x59] /* "VRFY" */, true, Production::Verb, 0);
    lemma_verb_fails(w, seq![0x56u8, 0x52, 0x46, 0x59] /* "VRFY" */, false, c);
    lemma_literal_differs(w, 0, seq![0x45u8, 0x58, 0x50, 0x4E] /* "EXPN" */, true, Production::Verb, 0);
    lemma_verb_fails(w, seq![0x45u8, 0x58, 0x50, 0x4E] /* "EXPN" */, true, c);
    lemma_literal_differs(w, 0, seq![0x48u8, 0x45, 0x4C, 0x50] /* "HELP" */, true, Production::Verb, 0);
    lemma_verb_fails(w, seq![0x48u8, 0x45, 0x4C, 0x50] /* "HELP" */, false, c);
    lemma_literal_differs(w, 0, seq![0x4Eu8, 0x4F, 0x4F, 0x50] /* "NOOP" */, true, Production::Verb, 0);
    lemma_verb_fails(w, seq![0x4Eu8, 0x4F, 0x4F, 0x50] /* "NOOP" */, true, c);
    lemma_literal_differs(w, 0, seq![0x51u8, 0x55, 0x49, 0x54] /* "QUIT" */, true, Production::Verb, 0);
    lemma_verb_fails(w, seq![0x51u8, 0x55, 0x49, 0x54] /* "QUIT" */, false, CommandView::Quit);
    lemma_literal_differs(w, 0, seq![0x53u8, 0x54, 0x41, 0x52, 0x54, 0x54, 0x4C, 0x53] /* "STARTTLS" */, true, Production::Verb, 0);
    lemma_verb_fails(w, seq![0x53u8, 0x54, 0x41, 0x52, 0x54, 0x54, 0x4C, 0x53] /* "STARTTLS" */, false, CommandView::StartTls);
    if plain {
        assert(w.subrange(0, 4) =~= seq![0x41u8, 0x55, 0x54, 0x48] /* "AUTH" */);
        lemma_literal_here(w, 0, seq![0x41u8, 0x55, 0x54, 0x48] /* "AUTH" */, true, Production::Verb);
        lemma_literal_differs(w, 5, seq![0x4Cu8, 0x4F, 0x47, 0x49, 0x4E] /* "LOGIN" */, true, Production::Verb, 0);
        lemma_auth_fails(w, seq![0x4Cu8, 0x4F, 0x47, 0x49, 0x4E] /* "LOGIN" */, false);
    }
}


/// A capability line "AUTH" without mechanisms reads back as `Auth` with
/// no mechanisms: the form in which the serializer writes it.
#[verifier::rlimit(100)]
pub proof fn law_empty_auth_round_trip()
    ensures
        crate::replies::spec_ehlo_line(
            crate::reply::CapabilityView::Auth(seq![]).wire() + crlf_bytes(),
            0,
        ) == Ok::<(usize, crate::reply::CapabilityView), ParseError>(
            (4, crate::reply::CapabilityView::Auth(seq![])),
        ),
{
    reveal(crate::replies::spec_ehlo_line);
    reveal(crate::replies::spec_size_cap);
    reveal(crate::replies::spec_auth_cap);
    let w = seq![0x41u8, 0x55, 0x54, 0x48, 0x0D, 0x0A] /* "AUTH\r\n" */;
    assert(crate::reply::CapabilityView::Auth(seq![]).wire() + crlf_bytes() == w);
    lemma_literal_differs(w, 0, seq![0x45u8, 0x58, 0x50, 0x4E] /* "EXPN" */, true, Production::EhloLine, 0);
    lemma_literal_differs(w, 0, seq![0x48u8, 0x45, 0x4C, 0x50] /* "HELP" */, true, Production::EhloLine, 0);
    lemma_literal_differs(w, 0, seq![0x38u8, 0x42, 0x49, 0x54, 0x4D, 0x49, 0x4D, 0x45] /* "8BITMIME" */, true, Production::EhloLine, 0);
    lemma_literal_differs(w, 0, seq![0x53u8, 0x49, 0x5A, 0x45, 0x20] /* "SIZE " */, true, Production::EhloLine, 0);
    lemma_literal_differs(w, 0, seq![0x43u8, 0x48, 0x55, 0x4E, 0x4B, 0x49, 0x4E, 0x47] /* "CHUNKING" */, true, Production::EhloLine, 0);
    lemma_literal_differs(w, 0, seq![0x42u8, 0x49, 0x4E, 0x41, 0x52, 0x59, 0x4D, 0x49, 0x4D, 0x45] /* "BINARYMIME" */, true, Production::EhloLine, 0);
    lemma_literal_differs(w, 0, seq![0x43u8, 0x48, 0x45, 0x43, 0x4B, 0x50, 0x4F, 0x49, 0x4E, 0x54] /* "CHECKPOINT" */, true, Production::EhloLine, 0);
    lemma_literal_differs(w, 0, seq![0x44u8, 0x45, 0x4C, 0x49, 0x56, 0x45, 0x52, 0x42, 0x59] /* "DELIVERBY" */, true, Production::EhloLine, 0);
    lemma_literal_differs(w, 0, seq![0x50u8, 0x49, 0x50, 0x45, 0x4C, 0x49, 0x4E, 0x49, 0x4E, 0x47] /* "PIPELINING" */, true, Production::EhloLine, 0);
    lemma_literal_differs(w, 0, seq![0x44u8, 0x53, 0x4E] /* "DSN" */, true, Production::EhloLine, 0);
    lemma_literal_differs(w, 0, seq![0x45u8, 0x54, 0x52, 0x4E] /* "ETRN" */, true, Production::EhloLine, 0);
    lemma_literal_differs(w, 0, seq![0x45u8, 0x4E, 0x48, 0x41, 0x4E, 0x43, 0x45, 0x44, 0x53, 0x54, 0x41, 0x54, 0x55, 0x53, 0x43, 0x4F, 0x44, 0x45, 0x53] /* "ENHANCEDSTATUSCODES" */, true, Production::EhloLine, 0);
    lemma_literal_differs(w, 0, seq![0x53u8, 0x54, 0x41, 0x52, 0x54, 0x54, 0x4C, 0x53] /* "STARTTLS" */, true, Production::EhloLine, 0);
    lemma_literal_differs(w, 0, seq![0x4Du8, 0x54, 0x52, 0x4B] /* "MTRK" */, true, Production::EhloLine, 0);
    lemma_literal_differs(w, 0, seq![0x41u8, 0x54, 0x52, 0x4E] /* "ATRN" */, true, Production::EhloLine, 1);
    assert(w.subrange(0, 4) =~= seq![0x41u8, 0x55, 0x54, 0x48] /* "AUTH" */);
    lemma_literal_here(w, 0, seq![0x41u8, 0x55, 0x54, 0x48] /* "AUTH" */, true, Production::EhloLine);
}

/// Every named reply code has three digits that the grammar reads (2-5,
/// 0-5, 0-9) and comes back from its number.
pub proof fn lemma_named_codes_are_wire_codes(r: ReplyCode)
    requires
        is_named(r),
    ensures
        is_wire_code(r),
{
}

/// The three digits of a named reply code, followed by anything, read back
/// as that code: `Reply-code` consumes them, and the number they stand for
/// is the code's.
pub proof fn law_reply_code_reads(r: ReplyCode, rest: Seq<u8>)
    requires
        is_named(r),
    ensures
        crate::replies::spec_reply_code(crate::text::decimal(code_value(r) as nat) + rest, 0)
            == Ok::<usize, ParseError>(3),
        code_number(crate::text::decimal(code_value(r) as nat) + rest, 0) == code_value(r),
        code_of_value(code_number(crate::text::decimal(code_value(r) as nat) + rest, 0)) == r,
{
    lemma_named_codes_are_wire_codes(r);
    let v = code_value(r) as nat;
    lemma_three_digits(v);
    let w = crate::text::decimal(v) + rest;
    assert(w[0] == crate::text::decimal(v)[0]);
    assert(w[1] == crate::text::decimal(v)[1]);
    assert(w[2] == crate::text::decimal(v)[2]);
}

// ----- Responses -----

#[verifier::rlimit(100)]
proof fn lemma_cap_expn_reads(w: Seq<u8>, j: int)
    requires
        0 <= j,
        j + 4 < w.len() <= usize::MAX,
        w.subrange(j, j + 5) == seq![0x45u8, 0x58, 0x50, 0x4E, 0x0D] /* "EXPN\r" */,
    ensures
        spec_ehlo_line(w, j) == Ok::<(usize, CapabilityView), ParseError>(
            ((j + 4) as usize, CapabilityView::ExpN),
        ),
{
    reveal(spec_ehlo_line);
    reveal(crate::replies::spec_size_cap);
    reveal(crate::replies::spec_auth_cap);
    assert(forall|k: int| 0 <= k < 5 ==> #[trigger] w[j + k] == seq![0x45u8, 0x58, 0x50, 0x4E, 0x0D] /* "EXPN\r" */[k]) by {
        assert forall|k: int| 0 <= k < 5 implies #[trigger] w[j + k] == seq![0x45u8, 0x58, 0x50, 0x4E, 0x0D] /* "EXPN\r" */[k] by {
            assert(w.subrange(j, j + 5)[k] == w[j + k]);
        }
    }
    assert(w.subrange(j, j + 4) =~= seq![0x45u8, 0x58, 0x50, 0x4E] /* "EXPN" */);
    lemma_literal_here(w, j, seq![0x45u8, 0x58, 0x50, 0x4E] /* "EXPN" */, true, Production::EhloLine);
}

#[verifier::rlimit(100)]
proof fn lemma_cap_help_reads(w: Seq<u8>, j: int)
    requires
        0 <= j,
        j + 4 < w.len() <= usize::MAX,
        w.subrange(j, j + 5) == seq![0x48u8, 0x45, 0x4C, 0x50, 0x0D] /* "HELP\r" */,
    ensures
        spec_ehlo_line(w, j) == Ok::<(usize, CapabilityView), ParseError>(
            ((j + 4) as usize, CapabilityView::Help),
        ),
{
    reveal(spec_ehlo_line);
    reveal(crate::replies::spec_size_cap);
    reveal(crate::replies::spec_auth_cap);
    assert(forall|k: int| 0 <= k < 5 ==> #[trigger] w[j + k] == seq![0x48u8, 0x45, 0x4C, 0x50, 0x0D] /* "HELP\r" */[k]) by {
        assert forall|k: int| 0 <= k < 5 implies #[trigger] w[j + k] == seq![0x48u8, 0x45, 0x4C, 0x50, 0x0D] /* "HELP\r" */[k] by {
            assert(w.subrange(j, j + 5)[k] == w[j + k]);
        }
    }
    assert(w[j + 0] == seq![0x48u8, 0x45, 0x4C, 0x50, 0x0D] /* "HELP\r" */[0]);
    lemma_literal_differs(w, j, seq![0x45u8, 0x58, 0x50, 0x4E] /* "EXPN" */, true, Production::EhloLine, 0);
    assert(w.subrange(j, j + 4) =~= seq![0x48u8, 0x45, 0x4C, 0x50] /* "HELP" */);
    lemma_literal_here(w, j, seq![0x48u8, 0x45, 0x4C, 0x50] /* "HELP" */, true, Production::EhloLine);
}

#[verifier::rlimit(100)]
proof fn lemma_cap_eightbitmime_reads(w: Seq<u8>, j: int)
    requires
        0 <= j,
        j + 8 < w.len() <= usize::MAX,
        w.subrange(j, j + 9) == seq![0x38u8, 0x42, 0x49, 0x54, 0x4D, 0x49, 0x4D, 0x45, 0x0D] /* "8BITMIME\r" */,
    ensures
        spec_ehlo_line(w, j) == Ok::<(usize, CapabilityView), ParseError>(
            ((j + 8) as usize, CapabilityView::EightBitMime),
        ),
{
    reveal(spec_ehlo_line);
    reveal(crate::replies::spec_size_cap);
    reveal(crate::replies::spec_auth_cap);
    assert(forall|k: int| 0 <= k < 9 ==> #[trigger] w[j + k] == seq![0x38u8, 0x42, 0x49, 0x54, 0x4D, 0x49, 0x4D, 0x45, 0x0D] /* "8BITMIME\r" */[k]) by {
        assert forall|k: int| 0 <= k < 9 implies #[trigger] w[j + k] == seq![0x38u8, 0x42, 0x49, 0x54, 0x4D, 0x49, 0x4D, 0x45, 0x0D] /* "8BITMIME\r" */[k] by {
            assert(w.subrange(j, j + 9)[k] == w[j + k]);
        }
    }
    assert(w[j + 0] == seq![0x38u8, 0x42, 0x49, 0x54, 0x4D, 0x49, 0x4D, 0x45, 0x0D] /* "8BITMIME\r" */[0]);
    lemma_literal_differs(w, j, seq![0x45u8, 0x58, 0x50, 0x4E] /* "EXPN" */, true, Production::EhloLine, 0);
    assert(w[j + 0] == seq![0x38u8, 0x42, 0x49, 0x54, 0x4D, 0x49, 0x4D, 0x45, 0x0D] /* "8BITMIME\r" */[0]);
    lemma_literal_differs(w, j, seq![0x48u8, 0x45, 0x4C, 0x50] /* "HELP" */, true, Production::EhloLine, 0);
    assert(w.subrange(j, j + 8) =~= seq![0x38u8, 0x42, 0x49, 0x54, 0x4D, 0x49, 0x4D, 0x45] /* "8BITMIME" */);
    lemma_literal_here(w, j, seq![0x38u8, 0x42, 0x49, 0x54, 0x4D, 0x49, 0x4D, 0x45] /* "8BITMIME" */, true, Production::EhloLine);
}

#[verifier::rlimit(100)]
proof fn lemma_cap_chunking_reads(w: Seq<u8>, j: int)
    requires
        0 <= j,
        j + 8 < w.len() <= usize::MAX,
        w.subrange(j, j + 9) == seq![0x43u8, 0x48, 0x55, 0x4E, 0x4B, 0x49, 0x4E, 0x47, 0x0D] /* "CHUNKING\r" */,
    ensures
        spec_ehlo_line(w, j) == Ok::<(usize, CapabilityView), ParseError>(
            ((j + 8) as usize, CapabilityView::Chunking),
        ),
{
    reveal(spec_ehlo_line);
    reveal(crate::replies::spec_size_cap);
    reveal(crate::replies::spec_auth_cap);
    assert(forall|k: int| 0 <= k < 9 ==> #[trigger] w[j + k] == seq![0x43u8, 0x48, 0x55, 0x4E, 0x4B, 0x49, 0x4E, 0x47, 0x0D] /* "CHUNKING\r" */[k]) by {
        assert forall|k: int| 0 <= k < 9 implies #[trigger] w[j + k] == seq![0x43u8, 0x48, 0x55, 0x4E, 0x4B, 0x49, 0x4E, 0x47, 0x0D] /* "CHUNKING\r" */[k] by {
            assert(w.subrange(j, j + 9)[k] == w[j + k]);
        }
    }
    assert(w[j + 0] == seq![0x43u8, 0x48, 0x55, 0x4E, 0x4B, 0x49, 0x4E, 0x47, 0x0D] /* "CHUNKING\r" */[0]);
    lemma_literal_differs(w, j, seq![0x45u8, 0x58, 0x50, 0x4E] /* "EXPN" */, true, Production::EhloLine, 0);
    assert(w[j + 0] == seq![0x43u8, 0x48, 0x55, 0x4E, 0x4B, 0x49, 0x4E, 0x47, 0x0D] /* "CHUNKING\r" */[0]);
    lemma_literal_differs(w, j, seq![0x48u8, 0x45, 0x4C, 0x50] /* "HELP" */, true, Production::EhloLine, 0);
    assert(w[j + 0] == seq![0x43u8, 0x48, 0x55, 0x4E, 0x4B, 0x49, 0x4E, 0x47, 0x0D] /* "CHUNKING\r" */[0]);
    lemma_literal_differs(w, j, seq![0x38u8, 0x42, 0x49, 0x54, 0x4D, 0x49, 0x4D, 0x45] /* "8BITMIME" */, true, Production::EhloLine, 0);
    assert(w[j + 0] == seq![0x43u8, 0x48, 0x55, 0x4E, 0x4B, 0x49, 0x4E, 0x47, 0x0D] /* "CHUNKING\r" */[0]);
    lemma_literal_differs(w, j, seq![0x53u8, 0x49, 0x5A, 0x45, 0x20] /* "SIZE " */, true, Production::EhloLine, 0);
    assert(w.subrange(j, j + 8) =~= seq![0x43u8, 0x48, 0x55, 0x4E, 0x4B, 0x49, 0x4E, 0x47] /* "CHUNKING" */);
    lemma_literal_here(w, j, seq![0x43u8, 0x48, 0x55, 0x4E, 0x4B, 0x49, 0x4E, 0x47] /* "CHUNKING" */, true, Production::EhloLine);
}

#[verifier::rlimit(100)]
proof fn lemma_cap_binarymime_reads(w: Seq<u8>, j: int)
    requires
        0 <= j,
        j + 10 < w.len() <= usize::MAX,
        w.subrange(j, j + 11) == seq![0x42u8, 0x49, 0x4E, 0x41, 0x52, 0x59, 0x4D, 0x49, 0x4D, 0x45, 0x0D] /* "BINARYMIME\r" */,
    ensures
        spec_ehlo_line(w, j) == Ok::<(usize, CapabilityView), ParseError>(
            ((j + 10) as usize, CapabilityView::BinaryMime),
        ),
{
    reveal(spec_ehlo_line);
    reveal(crate::replies::spec_size_cap);
    reveal(crate::replies::spec_auth_cap);
    assert(forall|k: int| 0 <= k < 11 ==> #[trigger] w[j + k] == seq![0x42u8, 0x49, 0x4E, 0x41, 0x52, 0x59, 0x4D, 0x49, 0x4D, 0x45, 0x0D] /* "BINARYMIME\r" */[k]) by {
        assert forall|k: int| 0 <= k < 11 implies #[trigger] w[j + k] == seq![0x42u8, 0x49, 0x4E, 0x41, 0x52, 0x59, 0x4D, 0x49, 0x4D, 0x45, 0x0D] /* "BINARYMIME\r" */[k] by {
            assert(w.subrange(j, j + 11)[k] == w[j + k]);
        }
    }
    assert(w[j + 0] == seq![0x42u8, 0x49, 0x4E, 0x41, 0x52, 0x59, 0x4D, 0x49, 0x4D, 0x45, 0x0D] /* "BINARYMIME\r" */[0]);
    lemma_literal_differs(w, j, seq![0x45u8, 0x58, 0x50, 0x4E] /* "EXPN" */, true, Production::EhloLine, 0);
    assert(w[j + 0] == seq![0x42u8, 0x49, 0x4E, 0x41, 0x52, 0x59, 0x4D, 0x49, 0x4D, 0x45, 0x0D] /* "BINARYMIME\r" */[0]);
    lemma_literal_differs(w, j, seq![0x48u8, 0x45, 0x4C, 0x50] /* "HELP" */, true, Production::EhloLine, 0);
    assert(w[j + 0] == seq![0x42u8, 0x49, 0x4E, 0x41, 0x52, 0x59, 0x4D, 0x49, 0x4D, 0x45, 0x0D] /* "BINARYMIME\r" */[0]);
    lemma_literal_differs(w, j, seq![0x38u8, 0x42, 0x49, 0x54, 0x4D, 0x49, 0x4D, 0x45] /* "8BITMIME" */, true, Production::EhloLine, 0);
    assert(w[j + 0] == seq![0x42u8, 0x49, 0x4E, 0x41, 0x52, 0x59, 0x4D, 0x49, 0x4D, 0x45, 0x0D] /* "BINARYMIME\r" */[0]);
    lemma_literal_differs(w, j, seq![0x53u8, 0x49, 0x5A, 0x45, 0x20] /* "SIZE " */, true, Production::EhloLine, 0);
    assert(w[j + 0] == seq![0x42u8, 0x49, 0x4E, 0x41, 0x52, 0x59, 0x4D, 0x49, 0x4D, 0x45, 0x0D] /* "BINARYMIME\r" */[0]);
    lemma_literal_differs(w, j, seq![0x43u8, 0x48, 0x55, 0x4E, 0x4B, 0x49, 0x4E, 0x47] /* "CHUNKING" */, true, Production::EhloLine, 0);
    assert(w.subrange(j, j + 10) =~= seq![0x42u8, 0x49, 0x4E, 0x41, 0x52, 0x59, 0x4D, 0x49, 0x4D, 0x45] /* "BINARYMIME" */);
    lemma_literal_here(w, j, seq![0x42u8, 0x49, 0x4E, 0x41, 0x52, 0x59, 0x4D, 0x49, 0x4D, 0x45] /* "BINARYMIME" */, true, Production::EhloLine);
}

#[verifier::rlimit(100)]
proof fn lemma_cap_checkpoint_reads(w: Seq<u8>, j: int)
    requires
        0 <= j,
        j + 10 < w.len() <= usize::MAX,
        w.subrange(j, j + 11) == seq![0x43u8, 0x48, 0x45, 0x43, 0x4B, 0x50, 0x4F, 0x49, 0x4E, 0x54, 0x0D] /* "CHECKPOINT\r" */,
    ensures
        spec_ehlo_line(w, j) == Ok::<(usize, CapabilityView), ParseError>(
            ((j + 10) as usize, CapabilityView::Checkpoint),
        ),
{
    reveal(spec_ehlo_line);
    reveal(crate::replies::spec_size_cap);
    reveal(crate::replies::spec_auth_cap);
    assert(forall|k: int| 0 <= k < 11 ==> #[trigger] w[j + k] == seq![0x43u8, 0x48, 0x45, 0x43, 0x4B, 0x50, 0x4F, 0x49, 0x4E, 0x54, 0x0D] /* "CHECKPOINT\r" */[k]) by {
        assert forall|k: int| 0 <= k < 11 implies #[trigger] w[j + k] == seq![0x43u8, 0x48, 0x45, 0x43, 0x4B, 0x50, 0x4F, 0x49, 0x4E, 0x54, 0x0D] /* "CHECKPOINT\r" */[k] by {
            assert(w.subrange(j, j + 11)[k] == w[j + k]);
        }
    }
    assert(w[j + 0] == seq![0x43u8, 0x48, 0x45, 0x43, 0x4B, 0x50, 0x4F, 0x49, 0x4E, 0x54, 0x0D] /* "CHECKPOINT\r" */[0]);
    lemma_literal_differs(w, j, seq![0x45u8, 0x58, 0x50, 0x4E] /* "EXPN" */, true, Production::EhloLine, 0);
    assert(w[j + 0] == seq![0x43u8, 0x48, 0x45, 0x43, 0x4B, 0x50, 0x4F, 0x49, 0x4E, 0x54, 0x0D] /* "CHECKPOINT\r" */[0]);
    lemma_literal_differs(w, j, seq![0x48u8, 0x45, 0x4C, 0x50] /* "HELP" */, true, Production::EhloLine, 0);
    assert(w[j + 0] == seq![0x43u8, 0x48, 0x45, 0x43, 0x4B, 0x50, 0x4F, 0x49, 0x4E, 0x54, 0x0D] /* "CHECKPOINT\r" */[0]);
    lemma_literal_differs(w, j, seq![0x38u8, 0x42, 0x49, 0x54, 0x4D, 0x49, 0x4D, 0x45] /* "8BITMIME" */, true, Production::EhloLine, 0);
    assert(w[j + 0] == seq![0x43u8, 0x48, 0x45, 0x43, 0x4B, 0x50, 0x4F, 0x49, 0x4E, 0x54, 0x0D] /* "CHECKPOINT\r" */[0]);
    lemma_literal_differs(w, j, seq![0x53u8, 0x49, 0x5A, 0x45, 0x20] /* "SIZE " */, true, Production::EhloLine, 0);
    assert(w[j + 2] == seq![0x43u8, 0x48, 0x45, 0x43, 0x4B, 0x50, 0x4F, 0x49, 0x4E, 0x54, 0x0D] /* "CHECKPOINT\r" */[2]);
    lemma_literal_differs(w, j, seq![0x43u8, 0x48, 0x55, 0x4E, 0x4B, 0x49, 0x4E, 0x47] /* "CHUNKING" */, true, Production::EhloLine, 2);
    assert(w[j + 0] == seq![0x43u8, 0x48, 0x45, 0x43, 0x4B, 0x50, 0x4F, 0x49, 0x4E, 0x54, 0x0D] /* "CHECKPOINT\r" */[0]);
    lemma_literal_differs(w, j, seq![0x42u8, 0x49, 0x4E, 0x41, 0x52, 0x59, 0x4D, 0x49, 0x4D, 0x45] /* "BINARYMIME" */, true, Production::EhloLine, 0);
    assert(w.subrange(j, j + 10) =~= seq![0x43u8, 0x48, 0x45, 0x43, 0x4B, 0x50, 0x4F, 0x49, 0x4E, 0x54] /* "CHECKPOINT" */);
    lemma_literal_here(w, j, seq![0x43u8, 0x48, 0x45, 0x43, 0x4B, 0x50, 0x4F, 0x49, 0x4E, 0x54] /* "CHECKPOINT" */, true, Production::EhloLine);
}

#[verifier::rlimit(100)]
proof fn lemma_cap_deliverby_reads(w: Seq<u8>, j: int)
    requires
        0 <= j,
        j + 9 < w.len() <= usize::MAX,
        w.subrange(j, j + 10) == seq![0x44u8, 0x45, 0x4C, 0x49, 0x56, 0x45, 0x52, 0x42, 0x59, 0x0D] /* "DELIVERBY\r" */,
    ensures
        spec_ehlo_line(w, j) == Ok::<(usize, CapabilityView), ParseError>(
            ((j + 9) as usize, CapabilityView::DeliverBy),
        ),
{
    reveal(spec_ehlo_line);
    reveal(crate::replies::spec_size_cap);
    reveal(crate::replies::spec_auth_cap);
    assert(forall|k: int| 0 <= k < 10 ==> #[trigger] w[j + k] == seq![0x44u8, 0x45, 0x4C, 0x49, 0x56, 0x45, 0x52, 0x42, 0x59, 0x0D] /* "DELIVERBY\r" */[k]) by {
        assert forall|k: int| 0 <= k < 10 implies #[trigger] w[j + k] == seq![0x44u8, 0x45, 0x4C, 0x49, 0x56, 0x45, 0x52, 0x42, 0x59, 0x0D] /* "DELIVERBY\r" */[k] by {
            assert(w.subrange(j, j + 10)[k] == w[j + k]);
        }
    }
    assert(w[j + 0] == seq![0x44u8, 0x45, 0x4C, 0x49, 0x56, 0x45, 0x52, 0x42, 0x59, 0x0D] /* "DELIVERBY\r" */[0]);
    lemma_literal_differs(w, j, seq![0x45u8, 0x58, 0x50, 0x4E] /* "EXPN" */, true, Production::EhloLine, 0);
    assert(w[j + 0] == seq![0x44u8, 0x45, 0x4C, 0x49, 0x56, 0x45, 0x52, 0x42, 0x59, 0x0D] /* "DELIVERBY\r" */[0]);
    lemma_literal_differs(w, j, seq![0x48u8, 0x45, 0x4C, 0x50] /* "HELP" */, true, Production::EhloLine, 0);
    assert(w[j + 0] == seq![0x44u8, 0x45, 0x4C, 0x49, 0x56, 0x45, 0x52, 0x42, 0x59, 0x0D] /* "DELIVERBY\r" */[0]);
    lemma_literal_differs(w, j, seq![0x38u8, 0x42, 0x49, 0x54, 0x4D, 0x49, 0x4D, 0x45] /* "8BITMIME" */, true, Production::EhloLine, 0);
    assert(w[j + 0] == seq![0x44u8, 0x45, 0x4C, 0x49, 0x56, 0x45, 0x52, 0x42, 0x59, 0x0D] /* "DELIVERBY\r" */[0]);
    lemma_literal_differs(w, j, seq![0x53u8, 0x49, 0x5A, 0x45, 0x20] /* "SIZE " */, true, Production::EhloLine, 0);
    assert(w[j + 0] == seq![0x44u8, 0x45, 0x4C, 0x49, 0x56, 0x45, 0x52, 0x42, 0x59, 0x0D] /* "DELIVERBY\r" */[0]);
    lemma_literal_differs(w, j, seq![0x43u8, 0x48, 0x55, 0x4E, 0x4B, 0x49, 0x4E, 0x47] /* "CHUNKING" */, true, Production::EhloLine, 0);
    assert(w[j + 0] == seq![0x44u8, 0x45, 0x4C, 0x49, 0x56, 0x45, 0x52, 0x42, 0x59, 0x0D] /* "DELIVERBY\r" */[0]);
    lemma_literal_differs(w, j, seq![0x42u8, 0x49, 0x4E, 0x41, 0x52, 0x59, 0x4D, 0x49, 0x4D, 0x45] /* "BINARYMIME" */, true, Production::EhloLine, 0);
    assert(w[j + 0] == seq![0x44u8, 0x45, 0x4C, 0x49, 0x56, 0x45, 0x52, 0x42, 0x59, 0x0D] /* "DELIVERBY\r" */[0]);
    lemma_literal_differs(w, j, seq![0x43u8, 0x48, 0x45, 0x43, 0x4B, 0x50, 0x4F, 0x49, 0x4E, 0x54] /* "CHECKPOINT" */, true, Production::EhloLine, 0);
    assert(w.subrange(j, j + 9) =~= seq![0x44u8, 0x45, 0x4C, 0x49, 0x56, 0x45, 0x52, 0x42, 0x59] /* "DELIVERBY" */);
    lemma_literal_here(w, j, seq![0x44u8, 0x45, 0x4C, 0x49, 0x56, 0x45, 0x52, 0x42, 0x59] /* "DELIVERBY" */, true, Production::EhloLine);
}

#[verifier::rlimit(100)]
proof fn lemma_cap_pipelining_reads(w: Seq<u8>, j: int)
    requires
        0 <= j,
        j + 10 < w.len() <= usize::MAX,
        w.subrange(j, j + 11) == seq![0x50u8, 0x49, 0x50, 0x45, 0x4C, 0x49, 0x4E, 0x49, 0x4E, 0x47, 0x0D] /* "PIPELINING\r" */,
    ensures
        spec_ehlo_line(w, j) == Ok::<(usize, CapabilityView), ParseError>(
            ((j + 10) as usize, CapabilityView::Pipelining),
        ),
{
    reveal(spec_ehlo_line);
    reveal(crate::replies::spec_size_cap);
    reveal(crate::replies::spec_auth_cap);
    assert(forall|k: int| 0 <= k < 11 ==> #[trigger] w[j + k] == seq![0x50u8, 0x49, 0x50, 0x45, 0x4C, 0x49, 0x4E, 0x49, 0x4E, 0x47, 0x0D] /* "PIPELINING\r" */[k]) by {
        assert forall|k: int| 0 <= k < 11 implies #[trigger] w[j + k] == seq![0x50u8, 0x49, 0x50, 0x45, 0x4C, 0x49, 0x4E, 0x49, 0x4E, 0x47, 0x0D] /* "PIPELINING\r" */[k] by {
            assert(w.subrange(j, j + 11)[k] == w[j + k]);
        }
    }
    assert(w[j + 0] == seq![0x50u8, 0x49, 0x50, 0x45, 0x4C, 0x49, 0x4E, 0x49, 0x4E, 0x47, 0x0D] /* "PIPELINING\r" */[0]);
    lemma_literal_differs(w, j, seq![0x45u8, 0x58, 0x50, 0x4E] /* "EXPN" */, true, Production::EhloLine, 0);
    assert(w[j + 0] == seq![0x50u8, 0x49, 0x50, 0x45, 0x4C, 0x49, 0x4E, 0x49, 0x4E, 0x47, 0x0D] /* "PIPELINING\r" */[0]);
    lemma_literal_differs(w, j, seq![0x48u8, 0x45, 0x4C, 0x50] /* "HELP" */, true, Production::EhloLine, 0);
    assert(w[j + 0] == seq![0x50u8, 0x49, 0x50, 0x45, 0x4C, 0x49, 0x4E, 0x49, 0x4E, 0x47, 0x0D] /* "PIPELINING\r" */[0]);
    lemma_literal_differs(w, j, seq![0x38u8, 0x42, 0x49, 0x54, 0x4D, 0x49, 0x4D, 0x45] /* "8BITMIME" */, true, Production::EhloLine, 0);
    assert(w[j + 0] == seq![0x50u8, 0x49, 0x50, 0x45, 0x4C, 0x49, 0x4E, 0x49, 0x4E, 0x47, 0x0D] /* "PIPELINING\r" */[0]);
    lemma_literal_differs(w, j, seq![0x53u8, 0x49, 0x5A, 0x45, 0x20] /* "SIZE " */, true, Production::EhloLine, 0);
    assert(w[j + 0] == seq![0x50u8, 0x49, 0x50, 0x45, 0x4C, 0x49, 0x4E, 0x49, 0x4E, 0x47, 0x0D] /* "PIPELINING\r" */[0]);
    lemma_literal_differs(w, j, seq![0x43u8, 0x48, 0x55, 0x4E, 0x4B, 0x49, 0x4E, 0x47] /* "CHUNKING" */, true, Production::EhloLine, 0);
    assert(w[j + 0] == seq![0x50u8, 0x49, 0x50, 0x45, 0x4C, 0x49, 0x4E, 0x49, 0x4E, 0x47, 0x0D] /* "PIPELINING\r" */[0]);
    lemma_literal_differs(w, j, seq![0x42u8, 0x49, 0x4E, 0x41, 0x52, 0x59, 0x4D, 0x49, 0x4D, 0x45] /* "BINARYMIME" */, true, Production::EhloLine, 0);
    assert(w[j + 0] == seq![0x50u8, 0x49, 0x50, 0x45, 0x4C, 0x49, 0x4E, 0x49, 0x4E, 0x47, 0x0D] /* "PIPELINING\r" */[0]);
    lemma_literal_differs(w, j, seq![0x43u8, 0x48, 0x45, 0x43, 0x4B, 0x50, 0x4F, 0x49, 0x4E, 0x54] /* "CHECKPOINT" */, true, Production::EhloLine, 0);
    assert(w[j + 0] == seq![0x50u8, 0x49, 0x50, 0x45, 0x4C, 0x49, 0x4E, 0x49, 0x4E, 0x47, 0x0D] /* "PIPELINING\r" */[0]);
    lemma_literal_differs(w, j, seq![0x44u8, 0x45, 0x4C, 0x49, 0x56, 0x45, 0x52, 0x42, 0x59] /* "DELIVERBY" */, true, Production::EhloLine, 0);
    assert(w.subrange(j, j + 10) =~= seq![0x50u8, 0x49, 0x50, 0x45, 0x4C, 0x49, 0x4E, 0x49, 0x4E, 0x47] /* "PIPELINING" */);
    lemma_literal_here(w, j, seq![0x50u8, 0x49, 0x50, 0x45, 0x4C, 0x49, 0x4E, 0x49, 0x4E, 0x47] /* "PIPELINING" */, true, Production::EhloLine);
}

#[verifier::rlimit(100)]
proof fn lemma_cap_dsn_reads(w: Seq<u8>, j: int)
    requires
        0 <= j,
        j + 3 < w.len() <= usize::MAX,
        w.subrange(j, j + 4) == seq![0x44u8, 0x53, 0x4E, 0x0D] /* "DSN\r" */,
    ensures
        spec_ehlo_line(w, j) == Ok::<(usize, CapabilityView), ParseError>(
            ((j + 3) as usize, CapabilityView::Dsn),
        ),
{
    reveal(spec_ehlo_line);
    reveal(crate::replies::spec_size_cap);
    reveal(crate::replies::spec_auth_cap);
    assert(forall|k: int| 0 <= k < 4 ==> #[trigger] w[j + k] == seq![0x44u8, 0x53, 0x4E, 0x0D] /* "DSN\r" */[k]) by {
        assert forall|k: int| 0 <= k < 4 implies #[trigger] w[j + k] == seq![0x44u8, 0x53, 0x4E, 0x0D] /* "DSN\r" */[k] by {
            assert(w.subrange(j, j + 4)[k] == w[j + k]);
        }
    }
    assert(w[j + 0] == seq![0x44u8, 0x53, 0x4E, 0x0D] /* "DSN\r" */[0]);
    lemma_literal_differs(w, j, seq![0x45u8, 0x58, 0x50, 0x4E] /* "EXPN" */, true, Production::EhloLine, 0);
    assert(w[j + 0] == seq![0x44u8, 0x53, 0x4E, 0x0D] /* "DSN\r" */[0]);
    lemma_literal_differs(w, j, seq![0x48u8, 0x45, 0x4C, 0x50] /* "HELP" */, true, Production::EhloLine, 0);
    assert(w[j + 0] == seq![0x44u8, 0x53, 0x4E, 0x0D] /* "DSN\r" */[0]);
    lemma_literal_differs(w, j, seq![0x38u8, 0x42, 0x49, 0x54, 0x4D, 0x49, 0x4D, 0x45] /* "8BITMIME" */, true, Production::EhloLine, 0);
    assert(w[j + 0] == seq![0x44u8, 0x53, 0x4E, 0x0D] /* "DSN\r" */[0]);
    lemma_literal_differs(w, j, seq![0x53u8, 0x49, 0x5A, 0x45, 0x20] /* "SIZE " */, true, Production::EhloLine, 0);
    assert(w[j + 0] == seq![0x44u8, 0x53, 0x4E, 0x0D] /* "DSN\r" */[0]);
    lemma_literal_differs(w, j, seq![0x43u8, 0x48, 0x55, 0x4E, 0x4B, 0x49, 0x4E, 0x47] /* "CHUNKING" */, true, Production::EhloLine, 0);
    assert(w[j + 0] == seq![0x44u8, 0x53, 0x4E, 0x0D] /* "DSN\r" */[0]);
    lemma_literal_differs(w, j, seq![0x42u8, 0x49, 0x4E, 0x41, 0x52, 0x59, 0x4D, 0x49, 0x4D, 0x45] /* "BINARYMIME" */, true, Production::EhloLine, 0);
    assert(w[j + 0] == seq![0x44u8, 0x53, 0x4E, 0x0D] /* "DSN\r" */[0]);
    lemma_literal_differs(w, j, seq![0x43u8, 0x48, 0x45, 0x43, 0x4B, 0x50, 0x4F, 0x49, 0x4E, 0x54] /* "CHECKPOINT" */, true, Production::EhloLine, 0);
    assert(w[j + 1] == seq![0x44u8, 0x53, 0x4E, 0x0D] /* "DSN\r" */[1]);
    lemma_literal_differs(w, j, seq![0x44u8, 0x45, 0x4C, 0x49, 0x56, 0x45, 0x52, 0x42, 0x59] /* "DELIVERBY" */, true, Production::EhloLine, 1);
    assert(w[j + 0] == seq![0x44u8, 0x53, 0x4E, 0x0D] /* "DSN\r" */[0]);
    lemma_literal_differs(w, j, seq![0x50u8, 0x49, 0x50, 0x45, 0x4C, 0x49, 0x4E, 0x49, 0x4E, 0x47] /* "PIPELINING" */, true, Production::EhloLine, 0);
    assert(w.subrange(j, j + 3) =~= seq![0x44u8, 0x53, 0x4E] /* "DSN" */);
    lemma_literal_here(w, j, seq![0x44u8, 0x53, 0x4E] /* "DSN" */, true, Production::EhloLine);
}

#[verifier::rlimit(100)]
proof fn lemma_cap_etrn_reads(w: Seq<u8>, j: int)
    requires
        0 <= j,
        j + 4 < w.len() <= usize::MAX,
        w.subrange(j, j + 5) == seq![0x45u8, 0x54, 0x52, 0x4E, 0x0D] /* "ETRN\r" */,
    ensures
        spec_ehlo_line(w, j) == Ok::<(usize, CapabilityView), ParseError>(
            ((j + 4) as usize, CapabilityView::Etrn),
        ),
{
    reveal(spec_ehlo_line);
    reveal(crate::replies::spec_size_cap);
    reveal(crate::replies::spec_auth_cap);
    assert(forall|k: int| 0 <= k < 5 ==> #[trigger] w[j + k] == seq![0x45u8, 0x54, 0x52, 0x4E, 0x0D] /* "ETRN\r" */[k]) by {
        assert forall|k: int| 0 <= k < 5 implies #[trigger] w[j + k] == seq![0x45u8, 0x54, 0x52, 0x4E, 0x0D] /* "ETRN\r" */[k] by {
            assert(w.subrange(j, j + 5)[k] == w[j + k]);
        }
    }
    assert(w[j + 1] == seq![0x45u8, 0x54, 0x52, 0x4E, 0x0D] /* "ETRN\r" */[1]);
    lemma_literal_differs(w, j, seq![0x45u8, 0x58, 0x50, 0x4E] /* "EXPN" */, true, Production::EhloLine, 1);
    assert(w[j + 0] == seq![0x45u8, 0x54, 0x52, 0x4E, 0x0D] /* "ETRN\r" */[0]);
    lemma_literal_differs(w, j, seq![0x48u8, 0x45, 0x4C, 0x50] /* "HELP" */, true, Production::EhloLine, 0);
    assert(w[j + 0] == seq![0x45u8, 0x54, 0x52, 0x4E, 0x0D] /* "ETRN\r" */[0]);
    lemma_literal_differs(w, j, seq![0x38u8, 0x42, 0x49, 0x54, 0x4D, 0x49, 0x4D, 0x45] /* "8BITMIME" */, true, Production::EhloLine, 0);
    assert(w[j + 0] == seq![0x45u8, 0x54, 0x52, 0x4E, 0x0D] /* "ETRN\r" */[0]);
    lemma_literal_differs(w, j, seq![0x53u8, 0x49, 0x5A, 0x45, 0x20] /* "SIZE " */, true, Production::EhloLine, 0);
    assert(w[j + 0] == seq![0x45u8, 0x54, 0x52, 0x4E, 0x0D] /* "ETRN\r" */[0]);
    lemma_literal_differs(w, j, seq![0x43u8, 0x48, 0x55, 0x4E, 0x4B, 0x49, 0x4E, 0x47] /* "CHUNKING" */, true, Production::EhloLine, 0);
    assert(w[j + 0] == seq![0x45u8, 0x54, 0x52, 0x4E, 0x0D] /* "ETRN\r" */[0]);
    lemma_literal_differs(w, j, seq![0x42u8, 0x49, 0x4E, 0x41, 0x52, 0x59, 0x4D, 0x49, 0x4D, 0x45] /* "BINARYMIME" */, true, Production::EhloLine, 0);
    assert(w[j + 0] == seq![0x45u8, 0x54, 0x52, 0x4E, 0x0D] /* "ETRN\r" */[0]);
    lemma_literal_differs(w, j, seq![0x43u8, 0x48, 0x45, 0x43, 0x4B, 0x50, 0x4F, 0x49, 0x4E, 0x54] /* "CHECKPOINT" */, true, Production::EhloLine, 0);
    assert(w[j + 0] == seq![0x45u8, 0x54, 0x52, 0x4E, 0x0D] /* "ETRN\r" */[0]);
    lemma_literal_differs(w, j, seq![0x44u8, 0x45, 0x4C, 0x49, 0x56, 0x45, 0x52, 0x42, 0x59] /* "DELIVERBY" */, true, Production::EhloLine, 0);
    assert(w[j + 0] == seq![0x45u8, 0x54, 0x52, 0x4E, 0x0D] /* "ETRN\r" */[0]);
    lemma_literal_differs(w, j, seq![0x50u8, 0x49, 0x50, 0x45, 0x4C, 0x49, 0x4E, 0x49, 0x4E, 0x47] /* "PIPELINING" */, true, Production::EhloLine, 0);
    assert(w[j + 0] == seq![0x45u8, 0x54, 0x52, 0x4E, 0x0D] /* "ETRN\r" */[0]);
    lemma_literal_differs(w, j, seq![0x44u8, 0x53, 0x4E] /* "DSN" */, true, Production::EhloLine, 0);
    assert(w.subrange(j, j + 4) =~= seq![0x45u8, 0x54, 0x52, 0x4E] /* "ETRN" */);
    lemma_literal_here(w, j, seq![0x45u8, 0x54, 0x52, 0x4E] /* "ETRN" */, true, Production::EhloLine);
}

#[verifier::rlimit(100)]
proof fn lemma_cap_enhancedstatuscodes_reads(w: Seq<u8>, j: int)
    requires
        0 <= j,
        j + 19 < w.len() <= usize::MAX,
        w.subrange(j, j + 20) == seq![0x45u8, 0x4E, 0x48, 0x41, 0x4E, 0x43, 0x45, 0x44, 0x53, 0x54, 0x41, 0x54, 0x55, 0x53, 0x43, 0x4F, 0x44, 0x45, 0x53, 0x0D] /* "ENHANCEDSTATUSCODES\r" */,
    ensures
        spec_ehlo_line(w, j) == Ok::<(usize, CapabilityView), ParseError>(
            ((j + 19) as usize, CapabilityView::EnhancedStatusCodes),
        ),
{
    reveal(spec_ehlo_line);
    reveal(crate::replies::spec_size_cap);
    reveal(crate::replies::spec_auth_cap);
    assert(forall|k: int| 0 <= k < 20 ==> #[trigger] w[j + k] == seq![0x45u8, 0x4E, 0x48, 0x41, 0x4E, 0x43, 0x45, 0x44, 0x53, 0x54, 0x41, 0x54, 0x55, 0x53, 0x43, 0x4F, 0x44, 0x45, 0x53, 0x0D] /* "ENHANCEDSTATUSCODES\r" */[k]) by {
        assert forall|k: int| 0 <= k < 20 implies #[trigger] w[j + k] == seq![0x45u8, 0x4E, 0x48, 0x41, 0x4E, 0x43, 0x45, 0x44, 0x53, 0x54, 0x41, 0x54, 0x55, 0x53, 0x43, 0x4F, 0x44, 0x45, 0x53, 0x0D] /* "ENHANCEDSTATUSCODES\r" */[k] by {
            assert(w.subrange(j, j + 20)[k] == w[j + k]);
        }
    }
    assert(w[j + 1] == seq![0x45u8, 0x4E, 0x48, 0x41, 0x4E, 0x43, 0x45, 0x44, 0x53, 0x54, 0x41, 0x54, 0x55, 0x53, 0x43, 0x4F, 0x44, 0x45, 0x53, 0x0D] /* "ENHANCEDSTATUSCODES\r" */[1]);
    lemma_literal_differs(w, j, seq![0x45u8, 0x58, 0x50, 0x4E] /* "EXPN" */, true, Production::EhloLine, 1);
    assert(w[j + 0] == seq![0x45u8, 0x4E, 0x48, 0x41, 0x4E, 0x43, 0x45, 0x44, 0x53, 0x54, 0x41, 0x54, 0x55, 0x53, 0x43, 0x4F, 0x44, 0x45, 0x53, 0x0D] /* "ENHANCEDSTATUSCODES\r" */[0]);
    lemma_literal_differs(w, j, seq![0x48u8, 0x45, 0x4C, 0x50] /* "HELP" */, true, Production::EhloLine, 0);
    assert(w[j + 0] == seq![0x45u8, 0x4E, 0x48, 0x41, 0x4E, 0x43, 0x45, 0x44, 0x53, 0x54, 0x41, 0x54, 0x55, 0x53, 0x43, 0x4F, 0x44, 0x45, 0x53, 0x0D] /* "ENHANCEDSTATUSCODES\r" */[0]);
    lemma_literal_differs(w, j, seq![0x38u8, 0x42, 0x49, 0x54, 0x4D, 0x49, 0x4D, 0x45] /* "8BITMIME" */, true, Production::EhloLine, 0);
    assert(w[j + 0] == seq![0x45u8, 0x4E, 0x48, 0x41, 0x4E, 0x43, 0x45, 0x44, 0x53, 0x54, 0x41, 0x54, 0x55, 0x53, 0x43, 0x4F, 0x44, 0x45, 0x53, 0x0D] /* "ENHANCEDSTATUSCODES\r" */[0]);
    lemma_literal_differs(w, j, seq![0x53u8, 0x49, 0x5A, 0x45, 0x20] /* "SIZE " */, true, Production::EhloLine, 0);
    assert(w[j + 0] == seq![0x45u8, 0x4E, 0x48, 0x41, 0x4E, 0x43, 0x45, 0x44, 0x53, 0x54, 0x41, 0x54, 0x55, 0x53, 0x43, 0x4F, 0x44, 0x45, 0x53, 0x0D] /* "ENHANCEDSTATUSCODES\r" */[0]);
    lemma_literal_differs(w, j, seq![0x43u8, 0x48, 0x55, 0x4E, 0x4B, 0x49, 0x4E, 0x47] /* "CHUNKING" */, true, Production::EhloLine, 0);
    assert(w[j + 0] == seq![0x45u8, 0x4E, 0x48, 0x41, 0x4E, 0x43, 0x45, 0x44, 0x53, 0x54, 0x41, 0x54, 0x55, 0x53, 0x43, 0x4F, 0x44, 0x45, 0x53, 0x0D] /* "ENHANCEDSTATUSCODES\r" */[0]);
    lemma_literal_differs(w, j, seq![0x42u8, 0x49, 0x4E, 0x41, 0x52, 0x59, 0x4D, 0x49, 0x4D, 0x45] /* "BINARYMIME" */, true, Production::EhloLine, 0);
    assert(w[j + 0] == seq![0x45u8, 0x4E, 0x48, 0x41, 0x4E, 0x43, 0x45, 0x44, 0x53, 0x54, 0x41, 0x54, 0x55, 0x53, 0x43, 0x4F, 0x44, 0x45, 0x53, 0x0D] /* "ENHANCEDSTATUSCODES\r" */[0]);
    lemma_literal_differs(w, j, seq![0x43u8, 0x48, 0x45, 0x43, 0x4B, 0x50, 0x4F, 0x49, 0x4E, 0x54] /* "CHECKPOINT" */, true, Production::EhloLine, 0);
    assert(w[j + 0] == seq![0x45u8, 0x4E, 0x48, 0x41, 0x4E, 0x43, 0x45, 0x44, 0x53, 0x54, 0x41, 0x54, 0x55, 0x53, 0x43, 0x4F, 0x44, 0x45, 0x53, 0x0D] /* "ENHANCEDSTATUSCODES\r" */[0]);
    lemma_literal_differs(w, j, seq![0x44u8, 0x45, 0x4C, 0x49, 0x56, 0x45, 0x52, 0x42, 0x59] /* "DELIVERBY" */, true, Production::EhloLine, 0);
    assert(w[j + 0] == seq![0x45u8, 0x4E, 0x48, 0x41, 0x4E, 0x43, 0x45, 0x44, 0x53, 0x54, 0x41, 0x54, 0x55, 0x53, 0x43, 0x4F, 0x44, 0x45, 0x53, 0x0D] /* "ENHANCEDSTATUSCODES\r" */[0]);
    lemma_literal_differs(w, j, seq![0x50u8, 0x49, 0x50, 0x45, 0x4C, 0x49, 0x4E, 0x49, 0x4E, 0x47] /* "PIPELINING" */, true, Production::EhloLine, 0);
    assert(w[j + 0] == seq![0x45u8, 0x4E, 0x48, 0x41, 0x4E, 0x43, 0x45, 0x44, 0x53, 0x54, 0x41, 0x54, 0x55, 0x53, 0x43, 0x4F, 0x44, 0x45, 0x53, 0x0D] /* "ENHANCEDSTATUSCODES\r" */[0]);
    lemma_literal_differs(w, j, seq![0x44u8, 0x53, 0x4E] /* "DSN" */, true, Production::EhloLine, 0);
    assert(w[j + 1] == seq![0x45u8, 0x4E, 0x48, 0x41, 0x4E, 0x43, 0x45, 0x44, 0x53, 0x54, 0x41, 0x54, 0x55, 0x53, 0x43, 0x4F, 0x44, 0x45, 0x53, 0x0D] /* "ENHANCEDSTATUSCODES\r" */[1]);
    lemma_literal_differs(w, j, seq![0x45u8, 0x54, 0x52, 0x4E] /* "ETRN" */, true, Production::EhloLine, 1);
    assert(w.subrange(j, j + 19) =~= seq![0x45u8, 0x4E, 0x48, 0x41, 0x4E, 0x43, 0x45, 0x44, 0x53, 0x54, 0x41, 0x54, 0x55, 0x53, 0x43, 0x4F, 0x44, 0x45, 0x53] /* "ENHANCEDSTATUSCODES" */);
    lemma_literal_here(w, j, seq![0x45u8, 0x4E, 0x48, 0x41, 0x4E, 0x43, 0x45, 0x44, 0x53, 0x54, 0x41, 0x54, 0x55, 0x53, 0x43, 0x4F, 0x44, 0x45, 0x53] /* "ENHANCEDSTATUSCODES" */, true, Production::EhloLine);
}

#[verifier::rlimit(100)]
proof fn lemma_cap_starttls_reads(w: Seq<u8>, j: int)
    requires
        0 <= j,
        j + 8 < w.len() <= usize::MAX,
        w.subrange(j, j + 9) == seq![0x53u8, 0x54, 0x41, 0x52, 0x54, 0x54, 0x4C, 0x53, 0x0D] /* "STARTTLS\r" */,
    ensures
        spec_ehlo_line(w, j) == Ok::<(usize, CapabilityView), ParseError>(
            ((j + 8) as usize, CapabilityView::StartTls),
        ),
{
    reveal(spec_ehlo_line);
    reveal(crate::replies::spec_size_cap);
    reveal(crate::replies::spec_auth_cap);
    assert(forall|k: int| 0 <= k < 9 ==> #[trigger] w[j + k] == seq![0x53u8, 0x54, 0x41, 0x52, 0x54, 0x54, 0x4C, 0x53, 0x0D] /* "STARTTLS\r" */[k]) by {
        assert forall|k: int| 0 <= k < 9 implies #[trigger] w[j + k] == seq![0x53u8, 0x54, 0x41, 0x52, 0x54, 0x54, 0x4C, 0x53, 0x0D] /* "STARTTLS\r" */[k] by {
            assert(w.subrange(j, j + 9)[k] == w[j + k]);
        }
    }
    assert(w[j + 0] == seq![0x53u8, 0x54, 0x41, 0x52, 0x54, 0x54, 0x4C, 0x53, 0x0D] /* "STARTTLS\r" */[0]);
    lemma_literal_differs(w, j, seq![0x45u8, 0x58, 0x50, 0x4E] /* "EXPN" */, true, Production::EhloLine, 0);
    assert(w[j + 0] == seq![0x53u8, 0x54, 0x41, 0x52, 0x54, 0x54, 0x4C, 0x53, 0x0D] /* "STARTTLS\r" */[0]);
    lemma_literal_differs(w, j, seq![0x48u8, 0x45, 0x4C, 0x50] /* "HELP" */, true, Production::EhloLine, 0);
    assert(w[j + 0] == seq![0x53u8, 0x54, 0x41, 0x52, 0x54, 0x54, 0x4C, 0x53, 0x0D] /* "STARTTLS\r" */[0]);
    lemma_literal_differs(w, j, seq![0x38u8, 0x42, 0x49, 0x54, 0x4D, 0x49, 0x4D, 0x45] /* "8BITMIME" */, true, Production::EhloLine, 0);
    assert(w[j + 1] == seq![0x53u8, 0x54, 0x41, 0x52, 0x54, 0x54, 0x4C, 0x53, 0x0D] /* "STARTTLS\r" */[1]);
    lemma_literal_differs(w, j, seq![0x53u8, 0x49, 0x5A, 0x45, 0x20] /* "SIZE " */, true, Production::EhloLine, 1);
    assert(w[j + 0] == seq![0x53u8, 0x54, 0x41, 0x52, 0x54, 0x54, 0x4C, 0x53, 0x0D] /* "STARTTLS\r" */[0]);
    lemma_literal_differs(w, j, seq![0x43u8, 0x48, 0x55, 0x4E, 0x4B, 0x49, 0x4E, 0x47] /* "CHUNKING" */, true, Production::EhloLine, 0);
    assert(w[j + 0] == seq![0x53u8, 0x54, 0x41, 0x52, 0x54, 0x54, 0x4C, 0x53, 0x0D] /* "STARTTLS\r" */[0]);
    lemma_literal_differs(w, j, seq![0x42u8, 0x49, 0x4E, 0x41, 0x52, 0x59, 0x4D, 0x49, 0x4D, 0x45] /* "BINARYMIME" */, true, Production::EhloLine, 0);
    assert(w[j + 0] == seq![0x53u8, 0x54, 0x41, 0x52, 0x54, 0x54, 0x4C, 0x53, 0x0D] /* "STARTTLS\r" */[0]);
    lemma_literal_differs(w, j, seq![0x43u8, 0x48, 0x45, 0x43, 0x4B, 0x50, 0x4F, 0x49, 0x4E, 0x54] /* "CHECKPOINT" */, true, Production::EhloLine, 0);
    assert(w[j + 0] == seq![0x53u8, 0x54, 0x41, 0x52, 0x54, 0x54, 0x4C, 0x53, 0x0D] /* "STARTTLS\r" */[0]);
    lemma_literal_differs(w, j, seq![0x44u8, 0x45, 0x4C, 0x49, 0x56, 0x45, 0x52, 0x42, 0x59] /* "DELIVERBY" */, true, Production::EhloLine, 0);
    assert(w[j + 0] == seq![0x53u8, 0x54, 0x41, 0x52, 0x54, 0x54, 0x4C, 0x53, 0x0D] /* "STARTTLS\r" */[0]);
    lemma_literal_differs(w, j, seq![0x50u8, 0x49, 0x50, 0x45, 0x4C, 0x49, 0x4E, 0x49, 0x4E, 0x47] /* "PIPELINING" */, true, Production::EhloLine, 0);
    assert(w[j + 0] == seq![0x53u8, 0x54, 0x41, 0x52, 0x54, 0x54, 0x4C, 0x53, 0x0D] /* "STARTTLS\r" */[0]);
    lemma_literal_differs(w, j, seq![0x44u8, 0x53, 0x4E] /* "DSN" */, true, Production::EhloLine, 0);
    assert(w[j + 0] == seq![0x53u8, 0x54, 0x41, 0x52, 0x54, 0x54, 0x4C, 0x53, 0x0D] /* "STARTTLS\r" */[0]);
    lemma_literal_differs(w, j, seq![0x45u8, 0x54, 0x52, 0x4E] /* "ETRN" */, true, Production::EhloLine, 0);
    assert(w[j + 0] == seq![0x53u8, 0x54, 0x41, 0x52, 0x54, 0x54, 0x4C, 0x53, 0x0D] /* "STARTTLS\r" */[0]);
    lemma_literal_differs(w, j, seq![0x45u8, 0x4E, 0x48, 0x41, 0x4E, 0x43, 0x45, 0x44, 0x53, 0x54, 0x41, 0x54, 0x55, 0x53, 0x43, 0x4F, 0x44, 0x45, 0x53] /* "ENHANCEDSTATUSCODES" */, true, Production::EhloLine, 0);
    assert(w.subrange(j, j + 8) =~= seq![0x53u8, 0x54, 0x41, 0x52, 0x54, 0x54, 0x4C, 0x53] /* "STARTTLS" */);
    lemma_literal_here(w, j, seq![0x53u8, 0x54, 0x41, 0x52, 0x54, 0x54, 0x4C, 0x53] /* "STARTTLS" */, true, Production::EhloLine);
}

#[verifier::rlimit(100)]
proof fn lemma_cap_mtrk_reads(w: Seq<u8>, j: int)
    requires
        0 <= j,
        j + 4 < w.len() <= usize::MAX,
        w.subrange(j, j + 5) == seq![0x4Du8, 0x54, 0x52, 0x4B, 0x0D] /* "MTRK\r" */,
    ensures
        spec_ehlo_line(w, j) == Ok::<(usize, CapabilityView), ParseError>(
            ((j + 4) as usize, CapabilityView::Mtrk),
        ),
{
    reveal(spec_ehlo_line);
    reveal(crate::replies::spec_size_cap);
    reveal(crate::replies::spec_auth_cap);
    assert(forall|k: int| 0 <= k < 5 ==> #[trigger] w[j + k] == seq![0x4Du8, 0x54, 0x52, 0x4B, 0x0D] /* "MTRK\r" */[k]) by {
        assert forall|k: int| 0 <= k < 5 implies #[trigger] w[j + k] == seq![0x4Du8, 0x54, 0x52, 0x4B, 0x0D] /* "MTRK\r" */[k] by {
            assert(w.subrange(j, j + 5)[k] == w[j + k]);
        }
    }
    assert(w[j + 0] == seq![0x4Du8, 0x54, 0x52, 0x4B, 0x0D] /* "MTRK\r" */[0]);
    lemma_literal_differs(w, j, seq![0x45u8, 0x58, 0x50, 0x4E] /* "EXPN" */, true, Production::EhloLine, 0);
    assert(w[j + 0] == seq![0x4Du8, 0x54, 0x52, 0x4B, 0x0D] /* "MTRK\r" */[0]);
    lemma_literal_differs(w, j, seq![0x48u8, 0x45, 0x4C, 0x50] /* "HELP" */, true, Production::EhloLine, 0);
    assert(w[j + 0] == seq![0x4Du8, 0x54, 0x52, 0x4B, 0x0D] /* "MTRK\r" */[0]);
    lemma_literal_differs(w, j, seq![0x38u8, 0x42, 0x49, 0x54, 0x4D, 0x49, 0x4D, 0x45] /* "8BITMIME" */, true, Production::EhloLine, 0);
    assert(w[j + 0] == seq![0x4Du8, 0x54, 0x52, 0x4B, 0x0D] /* "MTRK\r" */[0]);
    lemma_literal_differs(w, j, seq![0x53u8, 0x49, 0x5A, 0x45, 0x20] /* "SIZE " */, true, Production::EhloLine, 0);
    assert(w[j + 0] == seq![0x4Du8, 0x54, 0x52, 0x4B, 0x0D] /* "MTRK\r" */[0]);
    lemma_literal_differs(w, j, seq![0x43u8, 0x48, 0x55, 0x4E, 0x4B, 0x49, 0x4E, 0x47] /* "CHUNKING" */, true, Production::EhloLine, 0);
    assert(w[j + 0] == seq![0x4Du8, 0x54, 0x52, 0x4B, 0x0D] /* "MTRK\r" */[0]);
    lemma_literal_differs(w, j, seq![0x42u8, 0x49, 0x4E, 0x41, 0x52, 0x59, 0x4D, 0x49, 0x4D, 0x45] /* "BINARYMIME" */, true, Production::EhloLine, 0);
    assert(w[j + 0] == seq![0x4Du8, 0x54, 0x52, 0x4B, 0x0D] /* "MTRK\r" */[0]);
    lemma_literal_differs(w, j, seq![0x43u8, 0x48, 0x45, 0x43, 0x4B, 0x50, 0x4F, 0x49, 0x4E, 0x54] /* "CHECKPOINT" */, true, Production::EhloLine, 0);
    assert(w[j + 0] == seq![0x4Du8, 0x54, 0x52, 0x4B, 0x0D] /* "MTRK\r" */[0]);
    lemma_literal_differs(w, j, seq![0x44u8, 0x45, 0x4C, 0x49, 0x56, 0x45, 0x52, 0x42, 0x59] /* "DELIVERBY" */, true, Production::EhloLine, 0);
    assert(w[j + 0] == seq![0x4Du8, 0x54, 0x52, 0x4B, 0x0D] /* "MTRK\r" */[0]);
    lemma_literal_differs(w, j, seq![0x50u8, 0x49, 0x50, 0x45, 0x4C, 0x49, 0x4E, 0x49, 0x4E, 0x47] /* "PIPELINING" */, true, Production::EhloLine, 0);
    assert(w[j + 0] == seq![0x4Du8, 0x54, 0x52, 0x4B, 0x0D] /* "MTRK\r" */[0]);
    lemma_literal_differs(w, j, seq![0x44u8, 0x53, 0x4E] /* "DSN" */, true, Production::EhloLine, 0);
    assert(w[j + 0] == seq![0x4Du8, 0x54, 0x52, 0x4B, 0x0D] /* "MTRK\r" */[0]);
    lemma_literal_differs(w, j, seq![0x45u8, 0x54, 0x52, 0x4E] /* "ETRN" */, true, Production::EhloLine, 0);
    assert(w[j + 0] == seq![0x4Du8, 0x54, 0x52, 0x4B, 0x0D] /* "MTRK\r" */[0]);
    lemma_literal_differs(w, j, seq![0x45u8, 0x4E, 0x48, 0x41, 0x4E, 0x43, 0x45, 0x44, 0x53, 0x54, 0x41, 0x54, 0x55, 0x53, 0x43, 0x4F, 0x44, 0x45, 0x53] /* "ENHANCEDSTATUSCODES" */, true, Production::EhloLine, 0);
    assert(w[j + 0] == seq![0x4Du8, 0x54, 0x52, 0x4B, 0x0D] /* "MTRK\r" */[0]);
    lemma_literal_differs(w, j, seq![0x53u8, 0x54, 0x41, 0x52, 0x54, 0x54, 0x4C, 0x53] /* "STARTTLS" */, true, Production::EhloLine, 0);
    assert(w.subrange(j, j + 4) =~= seq![0x4Du8, 0x54, 0x52, 0x4B] /* "MTRK" */);
    lemma_literal_here(w, j, seq![0x4Du8, 0x54, 0x52, 0x4B] /* "MTRK" */, true, Production::EhloLine);
}

#[verifier::rlimit(100)]
proof fn lemma_cap_atrn_reads(w: Seq<u8>, j: int)
    requires
        0 <= j,
        j + 4 < w.len() <= usize::MAX,
        w.subrange(j, j + 5) == seq![0x41u8, 0x54, 0x52, 0x4E, 0x0D] /* "ATRN\r" */,
    ensures
        spec_ehlo_line(w, j) == Ok::<(usize, CapabilityView), ParseError>(
            ((j + 4) as usize, CapabilityView::Atrn),
        ),
{
    reveal(spec_ehlo_line);
    reveal(crate::replies::spec_size_cap);
    reveal(crate::replies::spec_auth_cap);
    assert(forall|k: int| 0 <= k < 5 ==> #[trigger] w[j + k] == seq![0x41u8, 0x54, 0x52, 0x4E, 0x0D] /* "ATRN\r" */[k]) by {
        assert forall|k: int| 0 <= k < 5 implies #[trigger] w[j + k] == seq![0x41u8, 0x54, 0x52, 0x4E, 0x0D] /* "ATRN\r" */[k] by {
            assert(w.subrange(j, j + 5)[k] == w[j + k]);
        }
    }
    assert(w[j + 0] == seq![0x41u8, 0x54, 0x52, 0x4E, 0x0D] /* "ATRN\r" */[0]);
    lemma_literal_differs(w, j, seq![0x45u8, 0x58, 0x50, 0x4E] /* "EXPN" */, true, Production::EhloLine, 0);
    assert(w[j + 0] == seq![0x41u8, 0x54, 0x52, 0x4E, 0x0D] /* "ATRN\r" */[0]);
    lemma_literal_differs(w, j, seq![0x48u8, 0x45, 0x4C, 0x50] /* "HELP" */, true, Production::EhloLine, 0);
    assert(w[j + 0] == seq![0x41u8, 0x54, 0x52, 0x4E, 0x0D] /* "ATRN\r" */[0]);
    lemma_literal_differs(w, j, seq![0x38u8, 0x42, 0x49, 0x54, 0x4D, 0x49, 0x4D, 0x45] /* "8BITMIME" */, true, Production::EhloLine, 0);
    assert(w[j + 0] == seq![0x41u8, 0x54, 0x52, 0x4E, 0x0D] /* "ATRN\r" */[0]);
    lemma_literal_differs(w, j, seq![0x53u8, 0x49, 0x5A, 0x45, 0x20] /* "SIZE " */, true, Production::EhloLine, 0);
    assert(w[j + 0] == seq![0x41u8, 0x54, 0x52, 0x4E, 0x0D] /* "ATRN\r" */[0]);
    lemma_literal_differs(w, j, seq![0x43u8, 0x48, 0x55, 0x4E, 0x4B, 0x49, 0x4E, 0x47] /* "CHUNKING" */, true, Production::EhloLine, 0);
    assert(w[j + 0] == seq![0x41u8, 0x54, 0x52, 0x4E, 0x0D] /* "ATRN\r" */[0]);
    lemma_literal_differs(w, j, seq![0x42u8, 0x49, 0x4E, 0x41, 0x52, 0x59, 0x4D, 0x49, 0x4D, 0x45] /* "BINARYMIME" */, true, Production::EhloLine, 0);
    assert(w[j + 0] == seq![0x41u8, 0x54, 0x52, 0x4E, 0x0D] /* "ATRN\r" */[0]);
    lemma_literal_differs(w, j, seq![0x43u8, 0x48, 0x45, 0x43, 0x4B, 0x50, 0x4F, 0x49, 0x4E, 0x54] /* "CHECKPOINT" */, true, Production::EhloLine, 0);
    assert(w[j + 0] == seq![0x41u8, 0x54, 0x52, 0x4E, 0x0D] /* "ATRN\r" */[0]);
    lemma_literal_differs(w, j, seq![0x44u8, 0x45, 0x4C, 0x49, 0x56, 0x45, 0x52, 0x42, 0x59] /* "DELIVERBY" */, true, Production::EhloLine, 0);
    assert(w[j + 0] == seq![0x41u8, 0x54, 0x52, 0x4E, 0x0D] /* "ATRN\r" */[0]);
    lemma_literal_differs(w, j, seq![0x50u8, 0x49, 0x50, 0x45, 0x4C, 0x49, 0x4E, 0x49, 0x4E, 0x47] /* "PIPELINING" */, true, Production::EhloLine, 0);
    assert(w[j + 0] == seq![0x41u8, 0x54, 0x52, 0x4E, 0x0D] /* "ATRN\r" */[0]);
    lemma_literal_differs(w, j, seq![0x44u8, 0x53, 0x4E] /* "DSN" */, true, Production::EhloLine, 0);
    assert(w[j + 0] == seq![0x41u8, 0x54, 0x52, 0x4E, 0x0D] /* "ATRN\r" */[0]);
    lemma_literal_differs(w, j, seq![0x45u8, 0x54, 0x52, 0x4E] /* "ETRN" */, true, Production::EhloLine, 0);
    assert(w[j + 0] == seq![0x41u8, 0x54, 0x52, 0x4E, 0x0D] /* "ATRN\r" */[0]);
    lemma_literal_differs(w, j, seq![0x45u8, 0x4E, 0x48, 0x41, 0x4E, 0x43, 0x45, 0x44, 0x53, 0x54, 0x41, 0x54, 0x55, 0x53, 0x43, 0x4F, 0x44, 0x45, 0x53] /* "ENHANCEDSTATUSCODES" */, true, Production::EhloLine, 0);
    assert(w[j + 0] == seq![0x41u8, 0x54, 0x52, 0x4E, 0x0D] /* "ATRN\r" */[0]);
    lemma_literal_differs(w, j, seq![0x53u8, 0x54, 0x41, 0x52, 0x54, 0x54, 0x4C, 0x53] /* "STARTTLS" */, true, Production::EhloLine, 0);
    assert(w[j + 0] == seq![0x41u8, 0x54, 0x52, 0x4E, 0x0D] /* "ATRN\r" */[0]);
    lemma_literal_differs(w, j, seq![0x4Du8, 0x54, 0x52, 0x4B] /* "MTRK" */, true, Production::EhloLine, 0);
    assert(w.subrange(j, j + 4) =~= seq![0x41u8, 0x54, 0x52, 0x4E] /* "ATRN" */);
    lemma_literal_here(w, j, seq![0x41u8, 0x54, 0x52, 0x4E] /* "ATRN" */, true, Production::EhloLine);
}

#[verifier::rlimit(100)]
proof fn lemma_cap_burl_reads(w: Seq<u8>, j: int)
    requires
        0 <= j,
        j + 4 < w.len() <= usize::MAX,
        w.subrange(j, j + 5) == seq![0x42u8, 0x55, 0x52, 0x4C, 0x0D] /* "BURL\r" */,
    ensures
        spec_ehlo_line(w, j) == Ok::<(usize, CapabilityView), ParseError>(
            ((j + 4) as usize, CapabilityView::Burl),
        ),
{
    reveal(spec_ehlo_line);
    reveal(crate::replies::spec_size_cap);
    reveal(crate::replies::spec_auth_cap);
    assert(forall|k: int| 0 <= k < 5 ==> #[trigger] w[j + k] == seq![0x42u8, 0x55, 0x52, 0x4C, 0x0D] /* "BURL\r" */[k]) by {
        assert forall|k: int| 0 <= k < 5 implies #[trigger] w[j + k] == seq![0x42u8, 0x55, 0x52, 0x4C, 0x0D] /* "BURL\r" */[k] by {
            assert(w.subrange(j, j + 5)[k] == w[j + k]);
        }
    }
    assert(w[j + 0] == seq![0x42u8, 0x55, 0x52, 0x4C, 0x0D] /* "BURL\r" */[0]);
    lemma_literal_differs(w, j, seq![0x45u8, 0x58, 0x50, 0x4E] /* "EXPN" */, true, Production::EhloLine, 0);
    assert(w[j + 0] == seq![0x42u8, 0x55, 0x52, 0x4C, 0x0D] /* "BURL\r" */[0]);
    lemma_literal_differs(w, j, seq![0x48u8, 0x45, 0x4C, 0x50] /* "HELP" */, true, Production::EhloLine, 0);
    assert(w[j + 0] == seq![0x42u8, 0x55, 0x52, 0x4C, 0x0D] /* "BURL\r" */[0]);
    lemma_literal_differs(w, j, seq![0x38u8, 0x42, 0x49, 0x54, 0x4D, 0x49, 0x4D, 0x45] /* "8BITMIME" */, true, Production::EhloLine, 0);
    assert(w[j + 0] == seq![0x42u8, 0x55, 0x52, 0x4C, 0x0D] /* "BURL\r" */[0]);
    lemma_literal_differs(w, j, seq![0x53u8, 0x49, 0x5A, 0x45, 0x20] /* "SIZE " */, true, Production::EhloLine, 0);
    assert(w[j + 0] == seq![0x42u8, 0x55, 0x52, 0x4C, 0x0D] /* "BURL\r" */[0]);
    lemma_literal_differs(w, j, seq![0x43u8, 0x48, 0x55, 0x4E, 0x4B, 0x49, 0x4E, 0x47] /* "CHUNKING" */, true, Production::EhloLine, 0);
    assert(w[j + 1] == seq![0x42u8, 0x55, 0x52, 0x4C, 0x0D] /* "BURL\r" */[1]);
    lemma_literal_differs(w, j, seq![0x42u8, 0x49, 0x4E, 0x41, 0x52, 0x59, 0x4D, 0x49, 0x4D, 0x45] /* "BINARYMIME" */, true, Production::EhloLine, 1);
    assert(w[j + 0] == seq![0x42u8, 0x55, 0x52, 0x4C, 0x0D] /* "BURL\r" */[0]);
    lemma_literal_differs(w, j, seq![0x43u8, 0x48, 0x45, 0x43, 0x4B, 0x50, 0x4F, 0x49, 0x4E, 0x54] /* "CHECKPOINT" */, true, Production::EhloLine, 0);
    assert(w[j + 0] == seq![0x42u8, 0x55, 0x52, 0x4C, 0x0D] /* "BURL\r" */[0]);
    lemma_literal_differs(w, j, seq![0x44u8, 0x45, 0x4C, 0x49, 0x56, 0x45, 0x52, 0x42, 0x59] /* "DELIVERBY" */, true, Production::EhloLine, 0);
    assert(w[j + 0] == seq![0x42u8, 0x55, 0x52, 0x4C, 0x0D] /* "BURL\r" */[0]);
    lemma_literal_differs(w, j, seq![0x50u8, 0x49, 0x50, 0x45, 0x4C, 0x49, 0x4E, 0x49, 0x4E, 0x47] /* "PIPELINING" */, true, Production::EhloLine, 0);
    assert(w[j + 0] == seq![0x42u8, 0x55, 0x52, 0x4C, 0x0D] /* "BURL\r" */[0]);
    lemma_literal_differs(w, j, seq![0x44u8, 0x53, 0x4E] /* "DSN" */, true, Production::EhloLine, 0);
    assert(w[j + 0] == seq![0x42u8, 0x55, 0x52, 0x4C, 0x0D] /* "BURL\r" */[0]);
    lemma_literal_differs(w, j, seq![0x45u8, 0x54, 0x52, 0x4E] /* "ETRN" */, true, Production::EhloLine, 0);
    assert(w[j + 0] == seq![0x42u8, 0x55, 0x52, 0x4C, 0x0D] /* "BURL\r" */[0]);
    lemma_literal_differs(w, j, seq![0x45u8, 0x4E, 0x48, 0x41, 0x4E, 0x43, 0x45, 0x44, 0x53, 0x54, 0x41, 0x54, 0x55, 0x53, 0x43, 0x4F, 0x44, 0x45, 0x53] /* "ENHANCEDSTATUSCODES" */, true, Production::EhloLine, 0);
    assert(w[j + 0] == seq![0x42u8, 0x55, 0x52, 0x4C, 0x0D] /* "BURL\r" */[0]);
    lemma_literal_differs(w, j, seq![0x53u8, 0x54, 0x41, 0x52, 0x54, 0x54, 0x4C, 0x53] /* "STARTTLS" */, true, Production::EhloLine, 0);
    assert(w[j + 0] == seq![0x42u8, 0x55, 0x52, 0x4C, 0x0D] /* "BURL\r" */[0]);
    lemma_literal_differs(w, j, seq![0x4Du8, 0x54, 0x52, 0x4B] /* "MTRK" */, true, Production::EhloLine, 0);
    assert(w[j + 0] == seq![0x42u8, 0x55, 0x52, 0x4C, 0x0D] /* "BURL\r" */[0]);
    lemma_literal_differs(w, j, seq![0x41u8, 0x54, 0x52, 0x4E] /* "ATRN" */, true, Production::EhloLine, 0);
    assert(w[j + 0] == seq![0x42u8, 0x55, 0x52, 0x4C, 0x0D] /* "BURL\r" */[0]);
    lemma_literal_differs(w, j, seq![0x41u8, 0x55, 0x54, 0x48] /* "AUTH" */, true, Production::EhloLine, 0);
    assert(w.subrange(j, j + 4) =~= seq![0x42u8, 0x55, 0x52, 0x4C] /* "BURL" */);
    lemma_literal_here(w, j, seq![0x42u8, 0x55, 0x52, 0x4C] /* "BURL" */, true, Production::EhloLine);
}

#[verifier::rlimit(100)]
proof fn lemma_cap_smtputf8_reads(w: Seq<u8>, j: int)
    requires
        0 <= j,
        j + 8 < w.len() <= usize::MAX,
        w.subrange(j, j + 9) == seq![0x53u8, 0x4D, 0x54, 0x50, 0x55, 0x54, 0x46, 0x38, 0x0D] /* "SMTPUTF8\r" */,
    ensures
        spec_ehlo_line(w, j) == Ok::<(usize, CapabilityView), ParseError>(
            ((j + 8) as usize, CapabilityView::SmtpUtf8),
        ),
{
    reveal(spec_ehlo_line);
    reveal(crate::replies::spec_size_cap);
    reveal(crate::replies::spec_auth_cap);
    assert(forall|k: int| 0 <= k < 9 ==> #[trigger] w[j + k] == seq![0x53u8, 0x4D, 0x54, 0x50, 0x55, 0x54, 0x46, 0x38, 0x0D] /* "SMTPUTF8\r" */[k]) by {
        assert forall|k: int| 0 <= k < 9 implies #[trigger] w[j + k] == seq![0x53u8, 0x4D, 0x54, 0x50, 0x55, 0x54, 0x46, 0x38, 0x0D] /* "SMTPUTF8\r" */[k] by {
            assert(w.subrange(j, j + 9)[k] == w[j + k]);
        }
    }
    assert(w[j + 0] == seq![0x53u8, 0x4D, 0x54, 0x50, 0x55, 0x54, 0x46, 0x38, 0x0D] /* "SMTPUTF8\r" */[0]);
    lemma_literal_differs(w, j, seq![0x45u8, 0x58, 0x50, 0x4E] /* "EXPN" */, true, Production::EhloLine, 0);
    assert(w[j + 0] == seq![0x53u8, 0x4D, 0x54, 0x50, 0x55, 0x54, 0x46, 0x38, 0x0D] /* "SMTPUTF8\r" */[0]);
    lemma_literal_differs(w, j, seq![0x48u8, 0x45, 0x4C, 0x50] /* "HELP" */, true, Production::EhloLine, 0);
    assert(w[j + 0] == seq![0x53u8, 0x4D, 0x54, 0x50, 0x55, 0x54, 0x46, 0x38, 0x0D] /* "SMTPUTF8\r" */[0]);
    lemma_literal_differs(w, j, seq![0x38u8, 0x42, 0x49, 0x54, 0x4D, 0x49, 0x4D, 0x45] /* "8BITMIME" */, true, Production::EhloLine, 0);
    assert(w[j + 1] == seq![0x53u8, 0x4D, 0x54, 0x50, 0x55, 0x54, 0x46, 0x38, 0x0D] /* "SMTPUTF8\r" */[1]);
    lemma_literal_differs(w, j, seq![0x53u8, 0x49, 0x5A, 0x45, 0x20] /* "SIZE " */, true, Production::EhloLine, 1);
    assert(w[j + 0] == seq![0x53u8, 0x4D, 0x54, 0x50, 0x55, 0x54, 0x46, 0x38, 0x0D] /* "SMTPUTF8\r" */[0]);
    lemma_literal_differs(w, j, seq![0x43u8, 0x48, 0x55, 0x4E, 0x4B, 0x49, 0x4E, 0x47] /* "CHUNKING" */, true, Production::EhloLine, 0);
    assert(w[j + 0] == seq![0x53u8, 0x4D, 0x54, 0x50, 0x55, 0x54, 0x46, 0x38, 0x0D] /* "SMTPUTF8\r" */[0]);
    lemma_literal_differs(w, j, seq![0x42u8, 0x49, 0x4E, 0x41, 0x52, 0x59, 0x4D, 0x49, 0x4D, 0x45] /* "BINARYMIME" */, true, Production::EhloLine, 0);
    assert(w[j + 0] == seq![0x53u8, 0x4D, 0x54, 0x50, 0x55, 0x54, 0x46, 0x38, 0x0D] /* "SMTPUTF8\r" */[0]);
    lemma_literal_differs(w, j, seq![0x43u8, 0x48, 0x45, 0x43, 0x4B, 0x50, 0x4F, 0x49, 0x4E, 0x54] /* "CHECKPOINT" */, true, Production::EhloLine, 0);
    assert(w[j + 0] == seq![0x53u8, 0x4D, 0x54, 0x50, 0x55, 0x54, 0x46, 0x38, 0x0D] /* "SMTPUTF8\r" */[0]);
    lemma_literal_differs(w, j, seq![0x44u8, 0x45, 0x4C, 0x49, 0x56, 0x45, 0x52, 0x42, 0x59] /* "DELIVERBY" */, true, Production::EhloLine, 0);
    assert(w[j + 0] == seq![0x53u8, 0x4D, 0x54, 0x50, 0x55, 0x54, 0x46, 0x38, 0x0D] /* "SMTPUTF8\r" */[0]);
    lemma_literal_differs(w, j, seq![0x50u8, 0x49, 0x50, 0x45, 0x4C, 0x49, 0x4E, 0x49, 0x4E, 0x47] /* "PIPELINING" */, true, Production::EhloLine, 0);
    assert(w[j + 0] == seq![0x53u8, 0x4D, 0x54, 0x50, 0x55, 0x54, 0x46, 0x38, 0x0D] /* "SMTPUTF8\r" */[0]);
    lemma_literal_differs(w, j, seq![0x44u8, 0x53, 0x4E] /* "DSN" */, true, Production::EhloLine, 0);
    assert(w[j + 0] == seq![0x53u8, 0x4D, 0x54, 0x50, 0x55, 0x54, 0x46, 0x38, 0x0D] /* "SMTPUTF8\r" */[0]);
    lemma_literal_differs(w, j, seq![0x45u8, 0x54, 0x52, 0x4E] /* "ETRN" */, true, Production::EhloLine, 0);
    assert(w[j + 0] == seq![0x53u8, 0x4D, 0x54, 0x50, 0x55, 0x54, 0x46, 0x38, 0x0D] /* "SMTPUTF8\r" */[0]);
    lemma_literal_differs(w, j, seq![0x45u8, 0x4E, 0x48, 0x41, 0x4E, 0x43, 0x45, 0x44, 0x53, 0x54, 0x41, 0x54, 0x55, 0x53, 0x43, 0x4F, 0x44, 0x45, 0x53] /* "ENHANCEDSTATUSCODES" */, true, Production::EhloLine, 0);
    assert(w[j + 1] == seq![0x53u8, 0x4D, 0x54, 0x50, 0x55, 0x54, 0x46, 0x38, 0x0D] /* "SMTPUTF8\r" */[1]);
    lemma_literal_differs(w, j, seq![0x53u8, 0x54, 0x41, 0x52, 0x54, 0x54, 0x4C, 0x53] /* "STARTTLS" */, true, Production::EhloLine, 1);
    assert(w[j + 0] == seq![0x53u8, 0x4D, 0x54, 0x50, 0x55, 0x54, 0x46, 0x38, 0x0D] /* "SMTPUTF8\r" */[0]);
    lemma_literal_differs(w, j, seq![0x4Du8, 0x54, 0x52, 0x4B] /* "MTRK" */, true, Production::EhloLine, 0);
    assert(w[j + 0] == seq![0x53u8, 0x4D, 0x54, 0x50, 0x55, 0x54, 0x46, 0x38, 0x0D] /* "SMTPUTF8\r" */[0]);
    lemma_literal_differs(w, j, seq![0x41u8, 0x54, 0x52, 0x4E] /* "ATRN" */, true, Production::EhloLine, 0);
    assert(w[j + 0] == seq![0x53u8, 0x4D, 0x54, 0x50, 0x55, 0x54, 0x46, 0x38, 0x0D] /* "SMTPUTF8\r" */[0]);
    lemma_literal_differs(w, j, seq![0x41u8, 0x55, 0x54, 0x48] /* "AUTH" */, true, Production::EhloLine, 0);
    assert(w[j + 0] == seq![0x53u8, 0x4D, 0x54, 0x50, 0x55, 0x54, 0x46, 0x38, 0x0D] /* "SMTPUTF8\r" */[0]);
    lemma_literal_differs(w, j, seq![0x42u8, 0x55, 0x52, 0x4C] /* "BURL" */, true, Production::EhloLine, 0);
    assert(w.subrange(j, j + 8) =~= seq![0x53u8, 0x4D, 0x54, 0x50, 0x55, 0x54, 0x46, 0x38] /* "SMTPUTF8" */);
    lemma_literal_here(w, j, seq![0x53u8, 0x4D, 0x54, 0x50, 0x55, 0x54, 0x46, 0x38] /* "SMTPUTF8" */, true, Production::EhloLine);
}

#[verifier::rlimit(100)]
proof fn lemma_cap_rrvs_reads(w: Seq<u8>, j: int)
    requires
        0 <= j,
        j + 4 < w.len() <= usize::MAX,
        w.subrange(j, j + 5) == seq![0x52u8, 0x52, 0x56, 0x53, 0x0D] /* "RRVS\r" */,
    ensures
        spec_ehlo_line(w, j) == Ok::<(usize, CapabilityView), ParseError>(
            ((j + 4) as usize, CapabilityView::Rrvs),
        ),
{
    reveal(spec_ehlo_line);
    reveal(crate::replies::spec_size_cap);
    reveal(crate::replies::spec_auth_cap);
    assert(forall|k: int| 0 <= k < 5 ==> #[trigger] w[j + k] == seq![0x52u8, 0x52, 0x56, 0x53, 0x0D] /* "RRVS\r" */[k]) by {
        assert forall|k: int| 0 <= k < 5 implies #[trigger] w[j + k] == seq![0x52u8, 0x52, 0x56, 0x53, 0x0D] /* "RRVS\r" */[k] by {
            assert(w.subrange(j, j + 5)[k] == w[j + k]);
        }
    }
    assert(w[j + 0] == seq![0x52u8, 0x52, 0x56, 0x53, 0x0D] /* "RRVS\r" */[0]);
    lemma_literal_differs(w, j, seq![0x45u8, 0x58, 0x50, 0x4E] /* "EXPN" */, true, Production::EhloLine, 0);
    assert(w[j + 0] == seq![0x52u8, 0x52, 0x56, 0x53, 0x0D] /* "RRVS\r" */[0]);
    lemma_literal_differs(w, j, seq![0x48u8, 0x45, 0x4C, 0x50] /* "HELP" */, true, Production::EhloLine, 0);
    assert(w[j + 0] == seq![0x52u8, 0x52, 0x56, 0x53, 0x0D] /* "RRVS\r" */[0]);
    lemma_literal_differs(w, j, seq![0x38u8, 0x42, 0x49, 0x54, 0x4D, 0x49, 0x4D, 0x45] /* "8BITMIME" */, true, Production::EhloLine, 0);
    assert(w[j + 0] == seq![0x52u8, 0x52, 0x56, 0x53, 0x0D] /* "RRVS\r" */[0]);
    lemma_literal_differs(w, j, seq![0x53u8, 0x49, 0x5A, 0x45, 0x20] /* "SIZE " */, true, Production::EhloLine, 0);
    assert(w[j + 0] == seq![0x52u8, 0x52, 0x56, 0x53, 0x0D] /* "RRVS\r" */[0]);
    lemma_literal_differs(w, j, seq![0x43u8, 0x48, 0x55, 0x4E, 0x4B, 0x49, 0x4E, 0x47] /* "CHUNKING" */, true, Production::EhloLine, 0);
    assert(w[j + 0] == seq![0x52u8, 0x52, 0x56, 0x53, 0x0D] /* "RRVS\r" */[0]);
    lemma_literal_differs(w, j, seq![0x42u8, 0x49, 0x4E, 0x41, 0x52, 0x59, 0x4D, 0x49, 0x4D, 0x45] /* "BINARYMIME" */, true, Production::EhloLine, 0);
    assert(w[j + 0] == seq![0x52u8, 0x52, 0x56, 0x53, 0x0D] /* "RRVS\r" */[0]);
    lemma_literal_differs(w, j, seq![0x43u8, 0x48, 0x45, 0x43, 0x4B, 0x50, 0x4F, 0x49, 0x4E, 0x54] /* "CHECKPOINT" */, true, Production::EhloLine, 0);
    assert(w[j + 0] == seq![0x52u8, 0x52, 0x56, 0x53, 0x0D] /* "RRVS\r" */[0]);
    lemma_literal_differs(w, j, seq![0x44u8, 0x45, 0x4C, 0x49, 0x56, 0x45, 0x52, 0x42, 0x59] /* "DELIVERBY" */, true, Production::EhloLine, 0);
    assert(w[j + 0] == seq![0x52u8, 0x52, 0x56, 0x53, 0x0D] /* "RRVS\r" */[0]);
    lemma_literal_differs(w, j, seq![0x50u8, 0x49, 0x50, 0x45, 0x4C, 0x49, 0x4E, 0x49, 0x4E, 0x47] /* "PIPELINING" */, true, Production::EhloLine, 0);
    assert(w[j + 0] == seq![0x52u8, 0x52, 0x56, 0x53, 0x0D] /* "RRVS\r" */[0]);
    lemma_literal_differs(w, j, seq![0x44u8, 0x53, 0x4E] /* "DSN" */, true, Production::EhloLine, 0);
    assert(w[j + 0] == seq![0x52u8, 0x52, 0x56, 0x53, 0x0D] /* "RRVS\r" */[0]);
    lemma_literal_differs(w, j, seq![0x45u8, 0x54, 0x52, 0x4E] /* "ETRN" */, true, Production::EhloLine, 0);
    assert(w[j + 0] == seq![0x52u8, 0x52, 0x56, 0x53, 0x0D] /* "RRVS\r" */[0]);
    lemma_literal_differs(w, j, seq![0x45u8, 0x4E, 0x48, 0x41, 0x4E, 0x43, 0x45, 0x44, 0x53, 0x54, 0x41, 0x54, 0x55, 0x53, 0x43, 0x4F, 0x44, 0x45, 0x53] /* "ENHANCEDSTATUSCODES" */, true, Production::EhloLine, 0);
    assert(w[j + 0] == seq![0x52u8, 0x52, 0x56, 0x53, 0x0D] /* "RRVS\r" */[0]);
    lemma_literal_differs(w, j, seq![0x53u8, 0x54, 0x41, 0x52, 0x54, 0x54, 0x4C, 0x53] /* "STARTTLS" */, true, Production::EhloLine, 0);
    assert(w[j + 0] == seq![0x52u8, 0x52, 0x56, 0x53, 0x0D] /* "RRVS\r" */[0]);
    lemma_literal_differs(w, j, seq![0x4Du8, 0x54, 0x52, 0x4B] /* "MTRK" */, true, Production::EhloLine, 0);
    assert(w[j + 0] == seq![0x52u8, 0x52, 0x56, 0x53, 0x0D] /* "RRVS\r" */[0]);
    lemma_literal_differs(w, j, seq![0x41u8, 0x54, 0x52, 0x4E] /* "ATRN" */, true, Production::EhloLine, 0);
    assert(w[j + 0] == seq![0x52u8, 0x52, 0x56, 0x53, 0x0D] /* "RRVS\r" */[0]);
    lemma_literal_differs(w, j, seq![0x41u8, 0x55, 0x54, 0x48] /* "AUTH" */, true, Production::EhloLine, 0);
    assert(w[j + 0] == seq![0x52u8, 0x52, 0x56, 0x53, 0x0D] /* "RRVS\r" */[0]);
    lemma_literal_differs(w, j, seq![0x42u8, 0x55, 0x52, 0x4C] /* "BURL" */, true, Production::EhloLine, 0);
    assert(w[j + 0] == seq![0x52u8, 0x52, 0x56, 0x53, 0x0D] /* "RRVS\r" */[0]);
    lemma_literal_differs(w, j, seq![0x53u8, 0x4D, 0x54, 0x50, 0x55, 0x54, 0x46, 0x38] /* "SMTPUTF8" */, true, Production::EhloLine, 0);
    assert(w.subrange(j, j + 4) =~= seq![0x52u8, 0x52, 0x56, 0x53] /* "RRVS" */);
    lemma_literal_here(w, j, seq![0x52u8, 0x52, 0x56, 0x53] /* "RRVS" */, true, Production::EhloLine);
}

#[verifier::rlimit(100)]
proof fn lemma_cap_requiretls_reads(w: Seq<u8>, j: int)
    requires
        0 <= j,
        j + 10 < w.len() <= usize::MAX,
        w.subrange(j, j + 11) == seq![0x52u8, 0x45, 0x51, 0x55, 0x49, 0x52, 0x45, 0x54, 0x4C, 0x53, 0x0D] /* "REQUIRETLS\r" */,
    ensures
        spec_ehlo_line(w, j) == Ok::<(usize, CapabilityView), ParseError>(
            ((j + 10) as usize, CapabilityView::RequireTls),
        ),
{
    reveal(spec_ehlo_line);
    reveal(crate::replies::spec_size_cap);
    reveal(crate::replies::spec_auth_cap);
    assert(forall|k: int| 0 <= k < 11 ==> #[trigger] w[j + k] == seq![0x52u8, 0x45, 0x51, 0x55, 0x49, 0x52, 0x45, 0x54, 0x4C, 0x53, 0x0D] /* "REQUIRETLS\r" */[k]) by {
        assert forall|k: int| 0 <= k < 11 implies #[trigger] w[j + k] == seq![0x52u8, 0x45, 0x51, 0x55, 0x49, 0x52, 0x45, 0x54, 0x4C, 0x53, 0x0D] /* "REQUIRETLS\r" */[k] by {
            assert(w.subrange(j, j + 11)[k] == w[j + k]);
        }
    }
    assert(w[j + 0] == seq![0x52u8, 0x45, 0x51, 0x55, 0x49, 0x52, 0x45, 0x54, 0x4C, 0x53, 0x0D] /* "REQUIRETLS\r" */[0]);
    lemma_literal_differs(w, j, seq![0x45u8, 0x58, 0x50, 0x4E] /* "EXPN" */, true, Production::EhloLine, 0);
    assert(w[j + 0] == seq![0x52u8, 0x45, 0x51, 0x55, 0x49, 0x52, 0x45, 0x54, 0x4C, 0x53, 0x0D] /* "REQUIRETLS\r" */[0]);
    lemma_literal_differs(w, j, seq![0x48u8, 0x45, 0x4C, 0x50] /* "HELP" */, true, Production::EhloLine, 0);
    assert(w[j + 0] == seq![0x52u8, 0x45, 0x51, 0x55, 0x49, 0x52, 0x45, 0x54, 0x4C, 0x53, 0x0D] /* "REQUIRETLS\r" */[0]);
    lemma_literal_differs(w, j, seq![0x38u8, 0x42, 0x49, 0x54, 0x4D, 0x49, 0x4D, 0x45] /* "8BITMIME" */, true, Production::EhloLine, 0);
    assert(w[j + 0] == seq![0x52u8, 0x45, 0x51, 0x55, 0x49, 0x52, 0x45, 0x54, 0x4C, 0x53, 0x0D] /* "REQUIRETLS\r" */[0]);
    lemma_literal_differs(w, j, seq![0x53u8, 0x49, 0x5A, 0x45, 0x20] /* "SIZE " */, true, Production::EhloLine, 0);
    assert(w[j + 0] == seq![0x52u8, 0x45, 0x51, 0x55, 0x49, 0x52, 0x45, 0x54, 0x4C, 0x53, 0x0D] /* "REQUIRETLS\r" */[0]);
    lemma_literal_differs(w, j, seq![0x43u8, 0x48, 0x55, 0x4E, 0x4B, 0x49, 0x4E, 0x47] /* "CHUNKING" */, true, Production::EhloLine, 0);
    assert(w[j + 0] == seq![0x52u8, 0x45, 0x51, 0x55, 0x49, 0x52, 0x45, 0x54, 0x4C, 0x53, 0x0D] /* "REQUIRETLS\r" */[0]);
    lemma_literal_differs(w, j, seq![0x42u8, 0x49, 0x4E, 0x41, 0x52, 0x59, 0x4D, 0x49, 0x4D, 0x45] /* "BINARYMIME" */, true, Production::EhloLine, 0);
    assert(w[j + 0] == seq![0x52u8, 0x45, 0x51, 0x55, 0x49, 0x52, 0x45, 0x54, 0x4C, 0x53, 0x0D] /* "REQUIRETLS\r" */[0]);
    lemma_literal_differs(w, j, seq![0x43u8, 0x48, 0x45, 0x43, 0x4B, 0x50, 0x4F, 0x49, 0x4E, 0x54] /* "CHECKPOINT" */, true, Production::EhloLine, 0);
    assert(w[j + 0] == seq![0x52u8, 0x45, 0x51, 0x55, 0x49, 0x52, 0x45, 0x54, 0x4C, 0x53, 0x0D] /* "REQUIRETLS\r" */[0]);
    lemma_literal_differs(w, j, seq![0x44u8, 0x45, 0x4C, 0x49, 0x56, 0x45, 0x52, 0x42, 0x59] /* "DELIVERBY" */, true, Production::EhloLine, 0);
    assert(w[j + 0] == seq![0x52u8, 0x45, 0x51, 0x55, 0x49, 0x52, 0x45, 0x54, 0x4C, 0x53, 0x0D] /* "REQUIRETLS\r" */[0]);
    lemma_literal_differs(w, j, seq![0x50u8, 0x49, 0x50, 0x45, 0x4C, 0x49, 0x4E, 0x49, 0x4E, 0x47] /* "PIPELINING" */, true, Production::EhloLine, 0);
    assert(w[j + 0] == seq![0x52u8, 0x45, 0x51, 0x55, 0x49, 0x52, 0x45, 0x54, 0x4C, 0x53, 0x0D] /* "REQUIRETLS\r" */[0]);
    lemma_literal_differs(w, j, seq![0x44u8, 0x53, 0x4E] /* "DSN" */, true, Production::EhloLine, 0);
    assert(w[j + 0] == seq![0x52u8, 0x45, 0x51, 0x55, 0x49, 0x52, 0x45, 0x54, 0x4C, 0x53, 0x0D] /* "REQUIRETLS\r" */[0]);
    lemma_literal_differs(w, j, seq![0x45u8, 0x54, 0x52, 0x4E] /* "ETRN" */, true, Production::EhloLine, 0);
    assert(w[j + 0] == seq![0x52u8, 0x45, 0x51, 0x55, 0x49, 0x52, 0x45, 0x54, 0x4C, 0x53, 0x0D] /* "REQUIRETLS\r" */[0]);
    lemma_literal_differs(w, j, seq![0x45u8, 0x4E, 0x48, 0x41, 0x4E, 0x43, 0x45, 0x44, 0x53, 0x54, 0x41, 0x54, 0x55, 0x53, 0x43, 0x4F, 0x44, 0x45, 0x53] /* "ENHANCEDSTATUSCODES" */, true, Production::EhloLine, 0);
    assert(w[j + 0] == seq![0x52u8, 0x45, 0x51, 0x55, 0x49, 0x52, 0x45, 0x54, 0x4C, 0x53, 0x0D] /* "REQUIRETLS\r" */[0]);
    lemma_literal_differs(w, j, seq![0x53u8, 0x54, 0x41, 0x52, 0x54, 0x54, 0x4C, 0x53] /* "STARTTLS" */, true, Production::EhloLine, 0);
    assert(w[j + 0] == seq![0x52u8, 0x45, 0x51, 0x55, 0x49, 0x52, 0x45, 0x54, 0x4C, 0x53, 0x0D] /* "REQUIRETLS\r" */[0]);
    lemma_literal_differs(w, j, seq![0x4Du8, 0x54, 0x52, 0x4B] /* "MTRK" */, true, Production::EhloLine, 0);
    assert(w[j + 0] == seq![0x52u8, 0x45, 0x51, 0x55, 0x49, 0x52, 0x45, 0x54, 0x4C, 0x53, 0x0D] /* "REQUIRETLS\r" */[0]);
    lemma_literal_differs(w, j, seq![0x41u8, 0x54, 0x52, 0x4E] /* "ATRN" */, true, Production::EhloLine, 0);
    assert(w[j + 0] == seq![0x52u8, 0x45, 0x51, 0x55, 0x49, 0x52, 0x45, 0x54, 0x4C, 0x53, 0x0D] /* "REQUIRETLS\r" */[0]);
    lemma_literal_differs(w, j, seq![0x41u8, 0x55, 0x54, 0x48] /* "AUTH" */, true, Production::EhloLine, 0);
    assert(w[j + 0] == seq![0x52u8, 0x45, 0x51, 0x55, 0x49, 0x52, 0x45, 0x54, 0x4C, 0x53, 0x0D] /* "REQUIRETLS\r" */[0]);
    lemma_literal_differs(w, j, seq![0x42u8, 0x55, 0x52, 0x4C] /* "BURL" */, true, Production::EhloLine, 0);
    assert(w[j + 0] == seq![0x52u8, 0x45, 0x51, 0x55, 0x49, 0x52, 0x45, 0x54, 0x4C, 0x53, 0x0D] /* "REQUIRETLS\r" */[0]);
    lemma_literal_differs(w, j, seq![0x53u8, 0x4D, 0x54, 0x50, 0x55, 0x54, 0x46, 0x38] /* "SMTPUTF8" */, true, Production::EhloLine, 0);
    assert(w[j + 1] == seq![0x52u8, 0x45, 0x51, 0x55, 0x49, 0x52, 0x45, 0x54, 0x4C, 0x53, 0x0D] /* "REQUIRETLS\r" */[1]);
    lemma_literal_differs(w, j, seq![0x52u8, 0x52, 0x56, 0x53] /* "RRVS" */, true, Production::EhloLine, 1);
    assert(w.subrange(j, j + 10) =~= seq![0x52u8, 0x45, 0x51, 0x55, 0x49, 0x52, 0x45, 0x54, 0x4C, 0x53] /* "REQUIRETLS" */);
    lemma_literal_here(w, j, seq![0x52u8, 0x45, 0x51, 0x55, 0x49, 0x52, 0x45, 0x54, 0x4C, 0x53] /* "REQUIRETLS" */, true, Production::EhloLine);
}

/// The capabilities announced by a keyword alone.
pub open spec fn is_word_cap(c: CapabilityView) -> bool {
    match c {
        CapabilityView::Size(_) | CapabilityView::Auth(_) | CapabilityView::Other { .. } => false,
        _ => true,
    }
}

proof fn lemma_word_cap_reads(w: Seq<u8>, j: int, c: CapabilityView)
    requires
        is_word_cap(c),
        0 <= j,
        j + c.wire().len() < w.len() <= usize::MAX,
        w.subrange(j, j + c.wire().len() + 1) == c.wire() + seq![0x0Du8] /* "\r" */,
    ensures
        spec_ehlo_line(w, j) == Ok::<(usize, CapabilityView), ParseError>(
            ((j + c.wire().len()) as usize, c),
        ),
{
    match c {
        CapabilityView::ExpN => {
            assert(c.wire() + seq![0x0Du8] /* "\r" */ =~= seq![0x45u8, 0x58, 0x50, 0x4E, 0x0D] /* "EXPN\r" */);
            lemma_cap_expn_reads(w, j);
        },
        CapabilityView::Help => {
            assert(c.wire() + seq![0x0Du8] /* "\r" */ =~= seq![0x48u8, 0x45, 0x4C, 0x50, 0x0D] /* "HELP\r" */);
            lemma_cap_help_reads(w, j);
        },
        CapabilityView::EightBitMime => {
            assert(c.wire() + seq![0x0Du8] /* "\r" */ =~= seq![0x38u8, 0x42, 0x49, 0x54, 0x4D, 0x49, 0x4D, 0x45, 0x0D] /* "8BITMIME\r" */);
            lemma_cap_eightbitmime_reads(w, j);
        },
        CapabilityView::Chunking => {
            assert(c.wire() + seq![0x0Du8] /* "\r" */ =~= seq![0x43u8, 0x48, 0x55, 0x4E, 0x4B, 0x49, 0x4E, 0x47, 0x0D] /* "CHUNKING\r" */);
            lemma_cap_chunking_reads(w, j);
        },
        CapabilityView::BinaryMime => {
            assert(c.wire() + seq![0x0Du8] /* "\r" */ =~= seq![0x42u8, 0x49, 0x4E, 0x41, 0x52, 0x59, 0x4D, 0x49, 0x4D, 0x45, 0x0D] /* "BINARYMIME\r" */);
            lemma_cap_binarymime_reads(w, j);
        },
        CapabilityView::Checkpoint => {
            assert(c.wire() + seq![0x0Du8] /* "\r" */ =~= seq![0x43u8, 0x48, 0x45, 0x43, 0x4B, 0x50, 0x4F, 0x49, 0x4E, 0x54, 0x0D] /* "CHECKPOINT\r" */);
            lemma_cap_checkpoint_reads(w, j);
        },
        CapabilityView::DeliverBy => {
            assert(c.wire() + seq![0x0Du8] /* "\r" */ =~= seq![0x44u8, 0x45, 0x4C, 0x49, 0x56, 0x45, 0x52, 0x42, 0x59, 0x0D] /* "DELIVERBY\r" */);
            lemma_cap_deliverby_reads(w, j);
        },
        CapabilityView::Pipelining => {
            assert(c.wire() + seq![0x0Du8] /* "\r" */ =~= seq![0x50u8, 0x49, 0x50, 0x45, 0x4C, 0x49, 0x4E, 0x49, 0x4E, 0x47, 0x0D] /* "PIPELINING\r" */);
            lemma_cap_pipelining_reads(w, j);
        },
        CapabilityView::Dsn => {
            assert(c.wire() + seq![0x0Du8] /* "\r" */ =~= seq![0x44u8, 0x53, 0x4E, 0x0D] /* "DSN\r" */);
            lemma_cap_dsn_reads(w, j);
        },
        CapabilityView::Etrn => {
            assert(c.wire() + seq![0x0Du8] /* "\r" */ =~= seq![0x45u8, 0x54, 0x52, 0x4E, 0x0D] /* "ETRN\r" */);
            lemma_cap_etrn_reads(w, j);
        },
        CapabilityView::EnhancedStatusCodes => {
            assert(c.wire() + seq![0x0Du8] /* "\r" */ =~= seq![0x45u8, 0x4E, 0x48, 0x41, 0x4E, 0x43, 0x45, 0x44, 0x53, 0x54, 0x41, 0x54, 0x55, 0x53, 0x43, 0x4F, 0x44, 0x45, 0x53, 0x0D] /* "ENHANCEDSTATUSCODES\r" */);
            lemma_cap_enhancedstatuscodes_reads(w, j);
        },
        CapabilityView::StartTls => {
            assert(c.wire() + seq![0x0Du8] /* "\r" */ =~= seq![0x53u8, 0x54, 0x41, 0x52, 0x54, 0x54, 0x4C, 0x53, 0x0D] /* "STARTTLS\r" */);
            lemma_cap_starttls_reads(w, j);
        },
        CapabilityView::Mtrk => {
            assert(c.wire() + seq![0x0Du8] /* "\r" */ =~= seq![0x4Du8, 0x54, 0x52, 0x4B, 0x0D] /* "MTRK\r" */);
            lemma_cap_mtrk_reads(w, j);
        },
        CapabilityView::Atrn => {
            assert(c.wire() + seq![0x0Du8] /* "\r" */ =~= seq![0x41u8, 0x54, 0x52, 0x4E, 0x0D] /* "ATRN\r" */);
            lemma_cap_atrn_reads(w, j);
        },
        CapabilityView::Burl => {
            assert(c.wire() + seq![0x0Du8] /* "\r" */ =~= seq![0x42u8, 0x55, 0x52, 0x4C, 0x0D] /* "BURL\r" */);
            lemma_cap_burl_reads(w, j);
        },
        CapabilityView::SmtpUtf8 => {
            assert(c.wire() + seq![0x0Du8] /* "\r" */ =~= seq![0x53u8, 0x4D, 0x54, 0x50, 0x55, 0x54, 0x46, 0x38, 0x0D] /* "SMTPUTF8\r" */);
            lemma_cap_smtputf8_reads(w, j);
        },
        CapabilityView::Rrvs => {
            assert(c.wire() + seq![0x0Du8] /* "\r" */ =~= seq![0x52u8, 0x52, 0x56, 0x53, 0x0D] /* "RRVS\r" */);
            lemma_cap_rrvs_reads(w, j);
        },
        CapabilityView::RequireTls => {
            assert(c.wire() + seq![0x0Du8] /* "\r" */ =~= seq![0x52u8, 0x45, 0x51, 0x55, 0x49, 0x52, 0x45, 0x54, 0x4C, 0x53, 0x0D] /* "REQUIRETLS\r" */);
            lemma_cap_requiretls_reads(w, j);
        },
        _ => {},
    }
}

pub open spec fn all_word_caps(cs: Seq<CapabilityView>) -> bool {
    forall|k: int| 0 <= k < cs.len() ==> is_word_cap(#[trigger] cs[k])
}

/// The lines of an EHLO reply after the first: "250-" keyword CRLF for each
/// capability but the last, "250 " keyword CRLF for the last.
pub open spec fn ehlo_tail(cs: Seq<CapabilityView>) -> Seq<u8>
    decreases cs.len(),
{
    if cs.len() <= 1 {
        seq![0x32u8, 0x35, 0x30, 0x20] /* "250 " */ + cs[0].wire() + crlf_bytes()
    } else {
        seq![0x32u8, 0x35, 0x30, 0x2D] /* "250-" */ + cs[0].wire() + crlf_bytes() + ehlo_tail(cs.drop_first())
    }
}

#[verifier::rlimit(100)]
proof fn lemma_ehlo_rest_tail(w: Seq<u8>, k: int, cs: Seq<CapabilityView>)
    requires
        0 <= k <= w.len() <= usize::MAX,
        cs.len() > 0,
        all_word_caps(cs),
        w.subrange(k, w.len() as int) == ehlo_tail(cs),
    ensures
        spec_ehlo_rest(w, k) == Ok::<(usize, Seq<CapabilityView>), ParseError>(
            (w.len() as usize, cs),
        ),
    decreases cs.len(),
{
    let c0 = cs[0];
    assert(is_word_cap(c0));
    let wire = c0.wire();
    let n = wire.len() as int;
    let tail = ehlo_tail(cs);
    assert(w.len() - k == tail.len());
    assert(forall|q: int| 0 <= q < tail.len() ==> #[trigger] w[k + q] == tail[q]) by {
        assert forall|q: int| 0 <= q < tail.len() implies #[trigger] w[k + q] == tail[q] by {
            assert(w.subrange(k, w.len() as int)[q] == w[k + q]);
        }
    }
    let code = if cs.len() <= 1 { seq![0x32u8, 0x35, 0x30, 0x20] /* "250 " */ } else { seq![0x32u8, 0x35, 0x30, 0x2D] /* "250-" */ };
    let head = code + wire + crlf_bytes();
    assert(tail.subrange(0, 6 + n) =~= head);
    assert forall|q: int| 0 <= q < 6 + n implies #[trigger] w[k + q] == head[q] by {
        assert(tail.subrange(0, 6 + n)[q] == tail[q]);
    }
    assert(w.subrange(k + 4, k + 5 + n) =~= wire + seq![0x0Du8] /* "\r" */) by {
        assert forall|q: int| 0 <= q < n + 1 implies #[trigger] w.subrange(k + 4, k + 5 + n)[q]
            == (wire + seq![0x0Du8] /* "\r" */)[q] by {
            assert(w[k + (4 + q)] == head[4 + q]);
        }
    }
    lemma_word_cap_reads(w, k + 4, c0);
    assert(w.subrange(k, k + 4) =~= code) by {
        assert forall|q: int| 0 <= q < 4 implies #[trigger] w.subrange(k, k + 4)[q] == code[q] by {
            assert(w[k + q] == head[q]);
        }
    }
    assert(w.subrange(k + 4 + n, k + 6 + n) =~= crlf_bytes()) by {
        assert(w[k + (4 + n)] == head[4 + n]);
        assert(w[k + (5 + n)] == head[5 + n]);
    }
    lemma_literal_here(w, k + 4 + n, crlf_bytes(), false, Production::Crlf);
    if cs.len() == 1 {
        lemma_literal_differs(w, k, seq![0x32u8, 0x35, 0x30, 0x2D] /* "250-" */, false, Production::EhloResponse, 3);
        lemma_literal_here(w, k, seq![0x32u8, 0x35, 0x30, 0x20] /* "250 " */, false, Production::EhloResponse);
        assert(tail.len() == 6 + n);
        assert(cs =~= seq![c0]);
    } else {
        lemma_literal_here(w, k, seq![0x32u8, 0x35, 0x30, 0x2D] /* "250-" */, false, Production::EhloResponse);
        let rest = cs.drop_first();
        assert(all_word_caps(rest)) by {
            assert forall|q: int| 0 <= q < rest.len() implies is_word_cap(#[trigger] rest[q]) by {
                assert(rest[q] == cs[q + 1]);
            }
        }
        let e = k + 6 + n;
        assert(tail =~= head + ehlo_tail(rest));
        assert(w.subrange(e, w.len() as int) =~= ehlo_tail(rest)) by {
            assert forall|q: int| 0 <= q < w.len() - e implies #[trigger] w.subrange(
                e,
                w.len() as int,
            )[q] == ehlo_tail(rest)[q] by {
                assert(w[k + (6 + n + q)] == tail[6 + n + q]);
            }
        }
        lemma_ehlo_rest_tail(w, e, rest);
        assert(cs =~= seq![c0] + rest);
    }
}

proof fn lemma_caps_lines_first(cs: Seq<CapabilityView>)
    requires
        cs.len() > 0,
    ensures
        crate::response::caps_lines(cs) == seq![0x32u8, 0x35, 0x30, 0x2D] /* "250-" */ + cs[0].wire() + crlf_bytes()
            + crate::response::caps_lines(cs.drop_first()),
    decreases cs.len(),
{
    let code = seq![0x32u8, 0x35, 0x30, 0x2D] /* "250-" */;
    if cs.len() == 1 {
        assert(cs.drop_last() =~= Seq::<CapabilityView>::empty());
        assert(cs.drop_first() =~= Seq::<CapabilityView>::empty());
        assert(crate::response::caps_lines(cs.drop_last()) == Seq::<u8>::empty());
        assert(crate::response::caps_lines(cs.drop_first()) == Seq::<u8>::empty());
        assert(cs.last() == cs[0]);
        assert(crate::response::caps_lines(cs) == Seq::<u8>::empty() + code + cs[0].wire()
            + crlf_bytes());
        assert(crate::response::caps_lines(cs) =~= code + cs[0].wire() + crlf_bytes());
    } else {
        let dl = cs.drop_last();
        lemma_caps_lines_first(dl);
        assert(dl.drop_first() =~= cs.drop_first().drop_last());
        assert(cs.drop_first().last() == cs.last());
        assert(dl[0] == cs[0]);
        let a = code + cs[0].wire() + crlf_bytes();
        let tail = code + cs.last().wire() + crlf_bytes();
        assert(crate::response::caps_lines(cs) == crate::response::caps_lines(dl) + tail);
        assert(crate::response::caps_lines(cs.drop_first()) == crate::response::caps_lines(
            dl.drop_first(),
        ) + tail);
        assert(crate::response::caps_lines(dl) == a + crate::response::caps_lines(dl.drop_first()));
        assert(crate::response::caps_lines(cs) =~= a + crate::response::caps_lines(cs.drop_first()));
    }
}

proof fn lemma_caps_wire_tail(cs: Seq<CapabilityView>)
    requires
        cs.len() > 0,
    ensures
        crate::response::caps_lines(cs.drop_last()) + seq![0x32u8, 0x35, 0x30, 0x20] /* "250 " */ + cs.last().wire() + crlf_bytes()
            == ehlo_tail(cs),
    decreases cs.len(),
{
    let sp = seq![0x32u8, 0x35, 0x30, 0x20] /* "250 " */;
    let dash = seq![0x32u8, 0x35, 0x30, 0x2D] /* "250-" */;
    if cs.len() == 1 {
        assert(cs.drop_last() =~= Seq::<CapabilityView>::empty());
        assert(cs.last() == cs[0]);
        assert(crate::response::caps_lines(cs.drop_last()) + sp + cs.last().wire() + crlf_bytes()
            =~= ehlo_tail(cs));
    } else {
        let rest = cs.drop_first();
        let dl = cs.drop_last();
        lemma_caps_lines_first(dl);
        lemma_caps_wire_tail(rest);
        assert(dl.drop_first() =~= rest.drop_last());
        assert(rest.last() == cs.last());
        assert(dl[0] == cs[0]);
        let a = dash + cs[0].wire() + crlf_bytes();
        let last = sp + cs.last().wire() + crlf_bytes();
        assert(crate::response::caps_lines(dl) == a + crate::response::caps_lines(rest.drop_last()));
        assert(crate::response::caps_lines(rest.drop_last()) + last == ehlo_tail(rest)) by {
            assert(crate::response::caps_lines(rest.drop_last()) + last =~= crate::response::caps_lines(
                rest.drop_last(),
            ) + sp + rest.last().wire() + crlf_bytes());
        }
        assert(ehlo_tail(cs) == a + ehlo_tail(rest));
        assert(crate::response::caps_lines(dl) + sp + cs.last().wire() + crlf_bytes() =~= a + (
        crate::response::caps_lines(rest.drop_last()) + last));
    }
}


/// A line of reply text: HT and printable US-ASCII, at least one character.
pub open spec fn is_text_line(t: Seq<char>) -> bool {
    &&& vstd::utf8::is_ascii_chars(t)
    &&& t.len() > 0
    &&& forall|k: int| 0 <= k < t.len() ==> ByteClass::Text.holds(#[trigger] ascii_bytes(t)[k])
}

/// An EHLO greeting: any ASCII characters but CR and LF, at least one.
pub open spec fn is_greet_text(g: Seq<char>) -> bool {
    &&& vstd::utf8::is_ascii_chars(g)
    &&& g.len() > 0
    &&& forall|k: int| 0 <= k < g.len() ==> ByteClass::Greet.holds(#[trigger] ascii_bytes(g)[k])
}

proof fn lemma_one_line(b: Seq<u8>, i: int)
    requires
        0 <= i <= b.len(),
        b.len() > 0,
        forall|k: int| 0 <= k < b.len() ==> #[trigger] b[k] != 0x0A,
    ensures
        lines_from(b, 0, i) == seq![b],
    decreases b.len() - i,
{
    if i < b.len() {
        lemma_one_line(b, i + 1);
    } else {
        assert(b.subrange(0, b.len() as int) == b);
    }
}

/// A run of class `c` that stands at `j0` and is ended by CR is read whole.
proof fn lemma_class_text_reads(w: Seq<u8>, j0: int, t: Seq<char>, c: ByteClass)
    requires
        0 <= j0,
        vstd::utf8::is_ascii_chars(t),
        t.len() > 0,
        forall|k: int| 0 <= k < t.len() ==> c.holds(#[trigger] ascii_bytes(t)[k]),
        !c.holds(0x0D),
        j0 + t.len() < w.len() <= usize::MAX,
        w.subrange(j0, j0 + t.len()) == ascii_bytes(t),
        w[j0 + t.len()] == 0x0D,
    ensures
        crate::grammar::spec_many1(w, j0, c, Production::TextString) == Ok::<usize, ParseError>(
            (j0 + t.len()) as usize,
        ),
        crate::grammar::spec_many1(w, j0, c, Production::EhloGreet) == Ok::<usize, ParseError>(
            (j0 + t.len()) as usize,
        ),
{
    let n = t.len() as int;
    assert forall|k: int| j0 <= k < j0 + n implies c.holds(#[trigger] w[k]) by {
        assert(w[k] == ascii_bytes(t)[k - j0]);
    }
    lemma_scan_whole(w, j0, n, c, 0);
}

pub open spec fn greeting_line(d: Seq<char>, t: Seq<char>) -> Seq<u8> {
    if t.len() == 0 {
        seq![0x32u8, 0x32, 0x30, 0x20] /* "220 " */ + ascii_bytes(d) + crlf_bytes()
    } else {
        seq![0x32u8, 0x32, 0x30, 0x20] /* "220 " */ + ascii_bytes(d) + seq![0x20u8] /* " " */ + ascii_bytes(t) + crlf_bytes()
    }
}

#[verifier::rlimit(100)]
proof fn lemma_greeting_reads(d: Seq<char>, t: Seq<char>)
    requires
        is_domain_name(d),
        t.len() == 0 || is_text_line(t),
        greeting_line(d, t).len() <= usize::MAX,
    ensures
        spec_greeting(greeting_line(d, t), 0) == Ok::<(usize, ResponseView), ParseError>(
            (greeting_line(d, t).len() as usize, ResponseView::Greeting { domain: d, text: t }),
        ),
{
    reveal(spec_greeting);
    lemma_ascii_text(d);
    let b = ascii_bytes(d);
    let w = greeting_line(d, t);
    let n = b.len() as int;
    assert(w.subrange(0, 4) =~= seq![0x32u8, 0x32, 0x30, 0x20] /* "220 " */);
    lemma_literal_here(w, 0, seq![0x32u8, 0x32, 0x30, 0x20] /* "220 " */, false, Production::Greeting);
    assert(w.subrange(4, 4 + n) =~= b);
    lemma_domain_whole(w, 4, b);
    assert(w.subrange(4, 4 + n) == b);
    assert(spec_domain_or_address(w, 4) == Ok::<(usize, DomainOrAddressView), ParseError>(
        ((4 + n) as usize, DomainOrAddressView::Domain(d)),
    ));
    if t.len() == 0 {
        assert(w.subrange(4 + n, 6 + n) =~= crlf_bytes());
        lemma_literal_here(w, 4 + n, crlf_bytes(), false, Production::Crlf);
        assert(chars_of(Seq::<u8>::empty()) =~= t);
    } else {
        lemma_ascii_text(t);
        let m = t.len() as int;
        assert(w.subrange(5 + n, 5 + n + m) =~= ascii_bytes(t));
        lemma_class_text_reads(w, 5 + n, t, ByteClass::Text);
        assert(w.subrange(5 + n + m, 7 + n + m) =~= crlf_bytes());
        lemma_literal_here(w, 5 + n + m, crlf_bytes(), false, Production::Crlf);
        assert(w.subrange(5 + n, 5 + n + m) == ascii_bytes(t));
    }
    lemma_literal_differs(w, 0, seq![0x32u8, 0x32, 0x30, 0x2D] /* "220-" */, false, Production::Greeting, 3);
}


pub open spec fn ehlo_line_wire(d: Seq<char>, g: Option<Seq<char>>) -> Seq<u8> {
    match g {
        Some(x) => seq![0x32u8, 0x35, 0x30, 0x20] /* "250 " */ + ascii_bytes(d) + seq![0x20u8] /* " " */ + ascii_bytes(x) + crlf_bytes(),
        None => seq![0x32u8, 0x35, 0x30, 0x20] /* "250 " */ + ascii_bytes(d) + crlf_bytes(),
    }
}

#[verifier::rlimit(50)]
proof fn lemma_ehlo_reads(d: Seq<char>, g: Option<Seq<char>>)
    requires
        is_domain_name(d),
        g matches Some(x) ==> is_greet_text(x),
        ehlo_line_wire(d, g).len() <= usize::MAX,
    ensures
        spec_ehlo_ok_rsp(ehlo_line_wire(d, g), 0) == Ok::<(usize, ResponseView), ParseError>(
            (
                ehlo_line_wire(d, g).len() as usize,
                ResponseView::Ehlo { domain: d, greet: g, capabilities: seq![] },
            ),
        ),
{
    reveal(spec_ehlo_ok_rsp);
    lemma_ascii_text(d);
    let b = ascii_bytes(d);
    let w = ehlo_line_wire(d, g);
    let n = b.len() as int;
    assert(w.subrange(0, 4) =~= seq![0x32u8, 0x35, 0x30, 0x20] /* "250 " */);
    lemma_literal_here(w, 0, seq![0x32u8, 0x35, 0x30, 0x20] /* "250 " */, false, Production::EhloResponse);
    assert(w.subrange(4, 4 + n) =~= b);
    lemma_domain_whole(w, 4, b);
    assert(w.subrange(4, 4 + n) == b);
    match g {
        Some(x) => {
            lemma_ascii_text(x);
            let m = x.len() as int;
            assert(w.subrange(5 + n, 5 + n + m) =~= ascii_bytes(x));
            lemma_class_text_reads(w, 5 + n, x, ByteClass::Greet);
            assert(w.subrange(5 + n + m, 7 + n + m) =~= crlf_bytes());
            lemma_literal_here(w, 5 + n + m, crlf_bytes(), false, Production::Crlf);
            assert(w.subrange(5 + n, 5 + n + m) == ascii_bytes(x));
        },
        None => {
            assert(w.subrange(4 + n, 6 + n) =~= crlf_bytes());
            lemma_literal_here(w, 4 + n, crlf_bytes(), false, Production::Crlf);
        },
    }
    assert(spec_ehlo_head(w, 0, false) == Ok::<
        (usize, (Seq<char>, Option<Seq<char>>)),
        ParseError,
    >((w.len() as usize, (d, g))));
}

/// The reply codes whose number has three digits that the grammar reads
/// (2-5, 0-5, 0-9) and that come back from their number.
pub open spec fn is_wire_code(c: ReplyCode) -> bool {
    let v = code_value(c);
    &&& 200 <= v <= 599
    &&& (v / 10) % 10 <= 5
    &&& code_of_value(v) == c
}

proof fn lemma_three_digits(v: nat)
    requires
        100 <= v <= 999,
    ensures
        crate::text::decimal(v) == seq![
            (0x30 + v / 100) as u8,
            (0x30 + (v / 10) % 10) as u8,
            (0x30 + v % 10) as u8,
        ],
        (v / 100) * 100 + ((v / 10) % 10) * 10 + v % 10 == v,
{
    assert((v / 10) / 10 == v / 100) by (nonlinear_arith)
        requires
            100 <= v <= 999,
    ;
    assert((v / 100) * 100 + ((v / 10) % 10) * 10 + v % 10 == v) by (nonlinear_arith)
        requires
            100 <= v <= 999,
    ;
    assert(v / 10 >= 10) by (nonlinear_arith)
        requires
            100 <= v <= 999,
    ;
    assert(v / 100 < 10) by (nonlinear_arith)
        requires
            100 <= v <= 999,
    ;
    assert(crate::text::decimal(v / 100) == seq![(0x30 + v / 100) as u8]);
    assert(crate::text::decimal(v / 10) == crate::text::decimal(v / 10 / 10).push(
        (0x30 + (v / 10) % 10) as u8,
    ));
    assert(crate::text::decimal(v) == crate::text::decimal(v / 10).push((0x30 + v % 10) as u8));
    assert(crate::text::decimal(v) =~= seq![
        (0x30 + v / 100) as u8,
        (0x30 + (v / 10) % 10) as u8,
        (0x30 + v % 10) as u8,
    ]);
}

#[verifier::rlimit(50)]
proof fn lemma_bare_reply_reads(c: ReplyCode)
    requires
        is_wire_code(c),
    ensures
        spec_reply_lines(crate::text::decimal(code_value(c) as nat) + crlf_bytes(), 0) == Ok::<
            (usize, ResponseView),
            ParseError,
        >((5, ResponseView::Other { code: c, lines: seq![] })),
{
    reveal(spec_reply_lines);
    let v = code_value(c) as nat;
    lemma_three_digits(v);
    let w = crate::text::decimal(v) + crlf_bytes();
    assert(w.len() == 5);
    assert(code_number(w, 0) == code_value(c));
    assert(w.subrange(3, 5) =~= crlf_bytes());
    lemma_literal_here(w, 3, crlf_bytes(), false, Production::Crlf);
    assert(spec_reply_from(w, 3, w.subrange(0, 3)) == Ok::<(usize, Seq<Seq<u8>>), ParseError>(
        (5, seq![Seq::<u8>::empty()]),
    ));
}


/// The lines of a reply after its first code: "-" text CRLF and the code
/// again for each line but the last, " " text CRLF for the last.
pub open spec fn reply_tail(c: Seq<u8>, ls: Seq<Seq<char>>) -> Seq<u8>
    decreases ls.len(),
{
    if ls.len() <= 1 {
        seq![0x20u8] /* " " */ + ascii_bytes(ls[0]) + crlf_bytes()
    } else {
        seq![0x2Du8] /* "-" */ + ascii_bytes(ls[0]) + crlf_bytes() + c + reply_tail(c, ls.drop_first())
    }
}

pub open spec fn all_text_lines(ls: Seq<Seq<char>>) -> bool {
    forall|k: int| 0 <= k < ls.len() ==> is_text_line(#[trigger] ls[k])
}

proof fn lemma_code_lines_first(c: Seq<u8>, ls: Seq<Seq<char>>)
    requires
        ls.len() > 0,
    ensures
        crate::response::code_lines(c, ls) == c + seq![0x2Du8] /* "-" */ + utf8(ls[0]) + crlf_bytes()
            + crate::response::code_lines(c, ls.drop_first()),
    decreases ls.len(),
{
    let dash = seq![0x2Du8] /* "-" */;
    if ls.len() == 1 {
        assert(ls.drop_last() =~= Seq::<Seq<char>>::empty());
        assert(ls.drop_first() =~= Seq::<Seq<char>>::empty());
        assert(crate::response::code_lines(c, ls.drop_last()) == Seq::<u8>::empty());
        assert(crate::response::code_lines(c, ls.drop_first()) == Seq::<u8>::empty());
        assert(ls.last() == ls[0]);
        assert(crate::response::code_lines(c, ls) == Seq::<u8>::empty() + c + dash + utf8(ls[0])
            + crlf_bytes());
        assert(crate::response::code_lines(c, ls) =~= c + dash + utf8(ls[0]) + crlf_bytes());
    } else {
        let dl = ls.drop_last();
        lemma_code_lines_first(c, dl);
        assert(dl.drop_first() =~= ls.drop_first().drop_last());
        assert(ls.drop_first().last() == ls.last());
        assert(dl[0] == ls[0]);
        let a = c + dash + utf8(ls[0]) + crlf_bytes();
        let tail = c + dash + utf8(ls.last()) + crlf_bytes();
        assert(crate::response::code_lines(c, ls) == crate::response::code_lines(c, dl) + tail);
        assert(crate::response::code_lines(c, ls.drop_first()) == crate::response::code_lines(
            c,
            dl.drop_first(),
        ) + tail);
        assert(crate::response::code_lines(c, dl) == a + crate::response::code_lines(
            c,
            dl.drop_first(),
        ));
        assert(crate::response::code_lines(c, ls) =~= a + crate::response::code_lines(
            c,
            ls.drop_first(),
        ));
    }
}

proof fn lemma_reply_wire_tail(c: Seq<u8>, ls: Seq<Seq<char>>)
    requires
        ls.len() > 0,
        all_text_lines(ls),
    ensures
        crate::response::code_lines(c, ls.drop_last()) + c + seq![0x20u8] /* " " */ + utf8(ls.last()) + crlf_bytes()
            == c + reply_tail(c, ls),
    decreases ls.len(),
{
    let sp = seq![0x20u8] /* " " */;
    let dash = seq![0x2Du8] /* "-" */;
    assert(is_text_line(ls.last()));
    lemma_ascii_text(ls.last());
    assert(is_text_line(ls[0]));
    lemma_ascii_text(ls[0]);
    if ls.len() == 1 {
        assert(ls.drop_last() =~= Seq::<Seq<char>>::empty());
        assert(ls.last() == ls[0]);
        assert(crate::response::code_lines(c, ls.drop_last()) + c + sp + utf8(ls.last())
            + crlf_bytes() =~= c + reply_tail(c, ls));
    } else {
        let rest = ls.drop_first();
        let dl = ls.drop_last();
        assert(all_text_lines(rest)) by {
            assert forall|k: int| 0 <= k < rest.len() implies is_text_line(#[trigger] rest[k]) by {
                assert(rest[k] == ls[k + 1]);
            }
        }
        lemma_code_lines_first(c, dl);
        lemma_reply_wire_tail(c, rest);
        assert(dl.drop_first() =~= rest.drop_last());
        assert(rest.last() == ls.last());
        assert(dl[0] == ls[0]);
        let a = c + dash + utf8(ls[0]) + crlf_bytes();
        let last = c + sp + utf8(ls.last()) + crlf_bytes();
        assert(crate::response::code_lines(c, dl) == a + crate::response::code_lines(
            c,
            rest.drop_last(),
        ));
        assert(crate::response::code_lines(c, rest.drop_last()) + last == c + reply_tail(c, rest))
            by {
            assert(crate::response::code_lines(c, rest.drop_last()) + last =~= crate::response::code_lines(
                c,
                rest.drop_last(),
            ) + c + sp + utf8(rest.last()) + crlf_bytes());
        }
        assert(reply_tail(c, ls) == dash + ascii_bytes(ls[0]) + crlf_bytes() + c + reply_tail(
            c,
            rest,
        ));
        assert(crate::response::code_lines(c, dl) + c + sp + utf8(ls.last()) + crlf_bytes()
            =~= a + (crate::response::code_lines(c, rest.drop_last()) + last));
        assert(c + reply_tail(c, ls) =~= a + (c + reply_tail(c, rest)));
    }
}

pub open spec fn ascii_lines(ls: Seq<Seq<char>>) -> Seq<Seq<u8>> {
    ls.map_values(|l: Seq<char>| ascii_bytes(l))
}

/// The text of a line, then CRLF, stands at `j + 1` in `w`.
proof fn lemma_line_reads(w: Seq<u8>, j: int, t: Seq<char>)
    requires
        0 <= j,
        is_text_line(t),
        j + 3 + t.len() <= w.len() <= usize::MAX,
        w.subrange(j + 1, j + 1 + t.len()) == ascii_bytes(t),
        w[j + 1 + t.len()] == 0x0D,
        w[j + 2 + t.len()] == 0x0A,
    ensures
        crate::replies::spec_textstring(w, j + 1) == Ok::<usize, ParseError>(
            (j + 1 + t.len()) as usize,
        ),
        crate::grammar::spec_crlf(w, j + 1 + t.len()) == Ok::<usize, ParseError>(
            (j + 3 + t.len()) as usize,
        ),
{
    lemma_ascii_text(t);
    lemma_class_text_reads(w, j + 1, t, ByteClass::Text);
    let n = t.len() as int;
    assert(w.subrange(j + 1 + n, j + 3 + n) =~= crlf_bytes());
    lemma_literal_here(w, j + 1 + n, crlf_bytes(), false, Production::Crlf);
}

#[verifier::rlimit(100)]
proof fn lemma_reply_from_tail(w: Seq<u8>, j: int, c: Seq<u8>, ls: Seq<Seq<char>>)
    requires
        3 <= j <= w.len() <= usize::MAX,
        c.len() == 3,
        ls.len() > 0,
        all_text_lines(ls),
        w.subrange(j, w.len() as int) == reply_tail(c, ls),
    ensures
        spec_reply_from(w, j, c) == Ok::<(usize, Seq<Seq<u8>>), ParseError>(
            (w.len() as usize, ascii_lines(ls)),
        ),
    decreases ls.len(),
{
    let l0 = ls[0];
    assert(is_text_line(l0));
    lemma_ascii_text(l0);
    let t = ascii_bytes(l0);
    let n = t.len() as int;
    let tail = reply_tail(c, ls);
    assert(w.len() - j == tail.len());
    assert(forall|k: int| 0 <= k < tail.len() ==> #[trigger] w[j + k] == tail[k]) by {
        assert forall|k: int| 0 <= k < tail.len() implies #[trigger] w[j + k] == tail[k] by {
            assert(w.subrange(j, w.len() as int)[k] == w[j + k]);
        }
    }
    let head = if ls.len() <= 1 { seq![0x20u8] /* " " */ } else { seq![0x2Du8] /* "-" */ } + t + crlf_bytes();
    assert(tail.subrange(0, 3 + n) =~= head);
    assert forall|k: int| 0 <= k < 3 + n implies #[trigger] w[j + k] == head[k] by {
        assert(tail.subrange(0, 3 + n)[k] == tail[k]);
    }
    assert(w.subrange(j + 1, j + 1 + n) =~= t) by {
        assert forall|k: int| 0 <= k < n implies #[trigger] w.subrange(j + 1, j + 1 + n)[k]
            == t[k] by {
            assert(w[j + (1 + k)] == head[1 + k]);
        }
    }
    assert(w[j + 1 + n] == 0x0D) by {
        assert(w[j + (1 + n)] == head[1 + n]);
    }
    assert(w[j + 2 + n] == 0x0A) by {
        assert(w[j + (2 + n)] == head[2 + n]);
    }
    lemma_line_reads(w, j, l0);
    assert(w.subrange(j + 1, j + 1 + n) == t);
    if ls.len() == 1 {
        assert(w[j] == 0x20) by {
            assert(w[j + 0] == head[0]);
        }
        assert(tail.len() == 3 + n);
        assert(ascii_lines(ls) =~= seq![t]);
    } else {
        assert(w[j] == 0x2D) by {
            assert(w[j + 0] == head[0]);
        }
        let rest = ls.drop_first();
        assert(all_text_lines(rest)) by {
            assert forall|k: int| 0 <= k < rest.len() implies is_text_line(#[trigger] rest[k]) by {
                assert(rest[k] == ls[k + 1]);
            }
        }
        let e = j + 3 + n;
        let more = c + reply_tail(c, rest);
        assert(tail =~= head + more);
        assert(w.subrange(e, w.len() as int) =~= more) by {
            assert forall|k: int| 0 <= k < w.len() - e implies #[trigger] w.subrange(
                e,
                w.len() as int,
            )[k] == more[k] by {
                assert(w[j + (3 + n + k)] == tail[3 + n + k]);
            }
        }
        assert(w.subrange(e, e + 3) =~= c) by {
            assert forall|k: int| 0 <= k < 3 implies #[trigger] w.subrange(e, e + 3)[k] == c[k] by {
                assert(w.subrange(e, w.len() as int)[k] == more[k]);
            }
        }
        lemma_literal_here(w, e, c, false, Production::ReplyCode);
        assert(w.subrange(e + 3, w.len() as int) =~= reply_tail(c, rest)) by {
            assert forall|k: int| 0 <= k < w.len() - (e + 3) implies #[trigger] w.subrange(
                e + 3,
                w.len() as int,
            )[k] == reply_tail(c, rest)[k] by {
                assert(w.subrange(e, w.len() as int)[3 + k] == more[3 + k]);
            }
        }
        lemma_reply_from_tail(w, e + 3, c, rest);
        assert(ascii_lines(ls) =~= seq![t] + ascii_lines(rest));
    }
}

/// The first three bytes of `w` differ from those of `lit` somewhere.
proof fn lemma_code_differs(w: Seq<u8>, lit: Seq<u8>, p: Production)
    requires
        w.len() >= 3,
        lit.len() == 4,
        w.subrange(0, 3) != lit.subrange(0, 3),
    ensures
        spec_literal(w, 0, lit, false, p) is Err,
{
    if w[0] != lit[0] {
        lemma_literal_differs(w, 0, lit, false, p, 0);
    } else if w[1] != lit[1] {
        lemma_literal_differs(w, 0, lit, false, p, 1);
    } else if w[2] != lit[2] {
        lemma_literal_differs(w, 0, lit, false, p, 2);
    } else {
        assert(w.subrange(0, 3) =~= lit.subrange(0, 3));
    }
}

#[verifier::rlimit(100)]
proof fn lemma_reply_lines_reads(code: ReplyCode, ls: Seq<Seq<char>>)
    requires
        is_wire_code(code),
        ls.len() > 0,
        all_text_lines(ls),
        crate::response::other_wire(code, ls).len() <= usize::MAX,
    ensures
        spec_reply_lines(crate::response::other_wire(code, ls), 0) == Ok::<
            (usize, ResponseView),
            ParseError,
        >(
            (
                crate::response::other_wire(code, ls).len() as usize,
                ResponseView::Other { code, lines: ls },
            ),
        ),
{
    reveal(spec_reply_lines);
    let v = code_value(code) as nat;
    lemma_three_digits(v);
    let cc = crate::text::decimal(v);
    let w = crate::response::other_wire(code, ls);
    lemma_reply_wire_tail(cc, ls);
    assert(w == cc + reply_tail(cc, ls));
    assert(w.subrange(0, 3) =~= cc);
    assert(w.subrange(3, w.len() as int) =~= reply_tail(cc, ls));
    assert(code_number(w, 0) == code_value(code));
    lemma_reply_from_tail(w, 3, cc, ls);
    assert forall|k: int| 0 <= k < ls.len() implies #[trigger] chars_of(ascii_bytes(ls[k]))
        == ls[k] by {
        assert(is_text_line(ls[k]));
        lemma_ascii_text(ls[k]);
    }
    assert(is_text_line(ls[0]));
    assert(crate::replies::reply_texts(ascii_lines(ls)) =~= ls);
}

proof fn lemma_greeting_fails(w: Seq<u8>)
    requires
        spec_literal(w, 0, seq![0x32u8, 0x32, 0x30, 0x20] /* "220 " */, false, Production::Greeting) is Err,
        spec_literal(w, 0, seq![0x32u8, 0x32, 0x30, 0x2D] /* "220-" */, false, Production::Greeting) is Err,
    ensures
        spec_greeting(w, 0) is Err,
{
    reveal(spec_greeting);
}

proof fn lemma_ehlo_fails(w: Seq<u8>)
    requires
        spec_literal(w, 0, seq![0x32u8, 0x35, 0x30, 0x20] /* "250 " */, false, Production::EhloResponse) is Err,
        spec_literal(w, 0, seq![0x32u8, 0x35, 0x30, 0x2D] /* "250-" */, false, Production::EhloResponse) is Err,
    ensures
        spec_ehlo_ok_rsp(w, 0) is Err,
{
    reveal(spec_ehlo_ok_rsp);
}

proof fn lemma_greeting_round_trip(r: ResponseView)
    requires
        r is Greeting,
        is_simple_response(r),
        r.wire().len() <= usize::MAX,
    ensures
        spec_response(r.wire(), 0) == Ok::<(usize, ResponseView), ParseError>(
            (r.wire().len() as usize, r),
        ),
{
    match r {
        ResponseView::Greeting { domain, text } => {
            lemma_ascii_text(domain);
            if text.len() == 0 {
                assert(ascii_bytes(text) =~= Seq::<u8>::empty());
                vstd::utf8::is_ascii_chars_encode_utf8(text);
                assert(utf8(text) =~= Seq::<u8>::empty());
                assert(lines_of(utf8(text)) =~= Seq::<Seq<u8>>::empty());
            } else {
                lemma_ascii_text(text);
                let b = ascii_bytes(text);
                assert forall|k: int| 0 <= k < b.len() implies #[trigger] b[k] != 0x0A by {
                    assert(ByteClass::Text.holds(b[k]));
                }
                lemma_one_line(b, 0);
            }
            assert(r.wire() == greeting_line(domain, text));
            lemma_greeting_reads(domain, text);
        },
        _ => {},
    }
}

pub open spec fn ehlo_head_wire(d: Seq<char>, g: Option<Seq<char>>) -> Seq<u8> {
    match g {
        Some(x) => seq![0x32u8, 0x35, 0x30, 0x2D] /* "250-" */ + ascii_bytes(d) + seq![0x20u8] /* " " */ + ascii_bytes(x) + crlf_bytes(),
        None => seq![0x32u8, 0x35, 0x30, 0x2D] /* "250-" */ + ascii_bytes(d) + crlf_bytes(),
    }
}

#[verifier::rlimit(100)]
proof fn lemma_ehlo_head_multi(w: Seq<u8>, d: Seq<char>, g: Option<Seq<char>>)
    requires
        is_domain_name(d),
        g matches Some(x) ==> is_greet_text(x),
        ehlo_head_wire(d, g).len() <= w.len() <= usize::MAX,
        w.subrange(0, ehlo_head_wire(d, g).len() as int) == ehlo_head_wire(d, g),
    ensures
        spec_ehlo_head(w, 0, true) == Ok::<(usize, (Seq<char>, Option<Seq<char>>)), ParseError>(
            (ehlo_head_wire(d, g).len() as usize, (d, g)),
        ),
{
    lemma_ascii_text(d);
    let h = ehlo_head_wire(d, g);
    let b = ascii_bytes(d);
    let n = b.len() as int;
    assert(forall|q: int| 0 <= q < h.len() ==> #[trigger] w[q] == h[q]) by {
        assert forall|q: int| 0 <= q < h.len() implies #[trigger] w[q] == h[q] by {
            assert(w.subrange(0, h.len() as int)[q] == w[q]);
        }
    }
    assert(w.subrange(0, 4) =~= seq![0x32u8, 0x35, 0x30, 0x2D] /* "250-" */);
    lemma_literal_here(w, 0, seq![0x32u8, 0x35, 0x30, 0x2D] /* "250-" */, false, Production::EhloResponse);
    assert(w.subrange(4, 4 + n) =~= b);
    assert(w[4 + n] == h[4 + n]);
    lemma_domain_whole(w, 4, b);
    assert(w.subrange(4, 4 + n) == b);
    match g {
        Some(x) => {
            lemma_ascii_text(x);
            let m = x.len() as int;
            assert(w.subrange(5 + n, 5 + n + m) =~= ascii_bytes(x));
            assert(w[5 + n + m] == h[5 + n + m]);
            lemma_class_text_reads(w, 5 + n, x, ByteClass::Greet);
            assert(w.subrange(5 + n + m, 7 + n + m) =~= crlf_bytes());
            lemma_literal_here(w, 5 + n + m, crlf_bytes(), false, Production::Crlf);
            assert(w.subrange(5 + n, 5 + n + m) == ascii_bytes(x));
        },
        None => {
            assert(w.subrange(4 + n, 6 + n) =~= crlf_bytes());
            lemma_literal_here(w, 4 + n, crlf_bytes(), false, Production::Crlf);
        },
    }
}

#[verifier::rlimit(100)]
proof fn lemma_ehlo_caps_reads(d: Seq<char>, g: Option<Seq<char>>, cs: Seq<CapabilityView>)
    requires
        is_domain_name(d),
        g matches Some(x) ==> is_greet_text(x),
        cs.len() > 0,
        all_word_caps(cs),
        (ehlo_head_wire(d, g) + ehlo_tail(cs)).len() <= usize::MAX,
    ensures
        spec_ehlo_ok_rsp(ehlo_head_wire(d, g) + ehlo_tail(cs), 0) == Ok::<
            (usize, ResponseView),
            ParseError,
        >(
            (
                (ehlo_head_wire(d, g) + ehlo_tail(cs)).len() as usize,
                ResponseView::Ehlo { domain: d, greet: g, capabilities: cs },
            ),
        ),
{
    reveal(spec_ehlo_ok_rsp);
    let h = ehlo_head_wire(d, g);
    let w = h + ehlo_tail(cs);
    assert(w.subrange(0, h.len() as int) =~= h);
    lemma_ehlo_head_multi(w, d, g);
    assert(w.subrange(h.len() as int, w.len() as int) =~= ehlo_tail(cs));
    lemma_ehlo_rest_tail(w, h.len() as int, cs);
    assert(w[3] == 0x2D);
    lemma_literal_differs(w, 0, seq![0x32u8, 0x35, 0x30, 0x20] /* "250 " */, false, Production::EhloResponse, 3);
}

proof fn lemma_ehlo_round_trip(r: ResponseView)
    requires
        r is Ehlo,
        is_simple_response(r),
        r.wire().len() <= usize::MAX,
    ensures
        spec_response(r.wire(), 0) == Ok::<(usize, ResponseView), ParseError>(
            (r.wire().len() as usize, r),
        ),
{
    match r {
        ResponseView::Ehlo { domain, greet, capabilities } => {
            lemma_ascii_text(domain);
            if let Some(g) = greet {
                lemma_ascii_text(g);
            }
            if capabilities.len() > 0 {
                let w = ehlo_head_wire(domain, greet) + ehlo_tail(capabilities);
                lemma_caps_wire_tail(capabilities);
                assert(r.wire() =~= w);
                lemma_ehlo_caps_reads(domain, greet, capabilities);
                lemma_literal_differs(w, 0, seq![0x32u8, 0x32, 0x30, 0x20] /* "220 " */, false, Production::Greeting, 1);
                lemma_literal_differs(w, 0, seq![0x32u8, 0x32, 0x30, 0x2D] /* "220-" */, false, Production::Greeting, 1);
                lemma_greeting_fails(w);
                return;
            }
            let w = ehlo_line_wire(domain, greet);
            assert(capabilities =~= Seq::<crate::reply::CapabilityView>::empty());
            assert(r.wire() =~= w);
            lemma_ehlo_reads(domain, greet);
            lemma_literal_differs(w, 0, seq![0x32u8, 0x32, 0x30, 0x20] /* "220 " */, false, Production::Greeting, 1);
            lemma_literal_differs(w, 0, seq![0x32u8, 0x32, 0x30, 0x2D] /* "220-" */, false, Production::Greeting, 1);
            lemma_greeting_fails(w);
        },
        _ => {},
    }
}

proof fn lemma_reply_round_trip(r: ResponseView)
    requires
        r is Other,
        is_simple_response(r),
        r.wire().len() <= usize::MAX,
    ensures
        spec_response(r.wire(), 0) == Ok::<(usize, ResponseView), ParseError>(
            (r.wire().len() as usize, r),
        ),
{
    match r {
        ResponseView::Other { code, lines } => {
            let v = code_value(code) as nat;
            lemma_three_digits(v);
            if lines.len() > 0 {
                let w = r.wire();
                lemma_reply_lines_reads(code, lines);
                let cc = crate::text::decimal(v);
                lemma_reply_wire_tail(cc, lines);
                assert(w.subrange(0, 3) =~= cc);
                assert(cc != seq![0x32u8, 0x32, 0x30] /* "220" */ && cc != seq![0x32u8, 0x35, 0x30] /* "250" */) by {
                    if cc == seq![0x32u8, 0x32, 0x30] /* "220" */ || cc == seq![0x32u8, 0x35, 0x30] /* "250" */ {
                        assert(code_number(w, 0) == code_value(code));
                    }
                }
                assert(seq![0x32u8, 0x32, 0x30, 0x20] /* "220 " */.subrange(0, 3) =~= seq![0x32u8, 0x32, 0x30] /* "220" */);
                assert(seq![0x32u8, 0x32, 0x30, 0x2D] /* "220-" */.subrange(0, 3) =~= seq![0x32u8, 0x32, 0x30] /* "220" */);
                assert(seq![0x32u8, 0x35, 0x30, 0x20] /* "250 " */.subrange(0, 3) =~= seq![0x32u8, 0x35, 0x30] /* "250" */);
                assert(seq![0x32u8, 0x35, 0x30, 0x2D] /* "250-" */.subrange(0, 3) =~= seq![0x32u8, 0x35, 0x30] /* "250" */);
                lemma_code_differs(w, seq![0x32u8, 0x32, 0x30, 0x20] /* "220 " */, Production::Greeting);
                lemma_code_differs(w, seq![0x32u8, 0x32, 0x30, 0x2D] /* "220-" */, Production::Greeting);
                lemma_greeting_fails(w);
                lemma_code_differs(w, seq![0x32u8, 0x35, 0x30, 0x20] /* "250 " */, Production::EhloResponse);
                lemma_code_differs(w, seq![0x32u8, 0x35, 0x30, 0x2D] /* "250-" */, Production::EhloResponse);
                lemma_ehlo_fails(w);
                return;
            }
            let w = crate::text::decimal(v) + crlf_bytes();
            assert(lines =~= Seq::<Seq<char>>::empty());
            assert(r.wire() == w);
            lemma_bare_reply_reads(code);
            lemma_literal_differs(w, 0, seq![0x32u8, 0x32, 0x30, 0x20] /* "220 " */, false, Production::Greeting, 3);
            lemma_literal_differs(w, 0, seq![0x32u8, 0x32, 0x30, 0x2D] /* "220-" */, false, Production::Greeting, 3);
            lemma_greeting_fails(w);
            lemma_literal_differs(w, 0, seq![0x32u8, 0x35, 0x30, 0x20] /* "250 " */, false, Production::EhloResponse, 3);
            lemma_literal_differs(w, 0, seq![0x32u8, 0x35, 0x30, 0x2D] /* "250-" */, false, Production::EhloResponse, 3);
            lemma_ehlo_fails(w);
        },
        _ => {},
    }
}

/// The responses whose round trip is proved here: a one-line greeting for
/// a domain name, an EHLO reply for a domain name whose capabilities are
/// announced by their keyword alone (any number of them), and a general reply whose code has three digits that the
/// grammar reads, either without text or, for a code other than 220 and 250
/// (which a greeting or an EHLO reply would claim), with lines of text.
pub open spec fn is_simple_response(r: ResponseView) -> bool {
    match r {
        ResponseView::Greeting { domain, text } => is_domain_name(domain) && (text.len() == 0
            || is_text_line(text)),
        ResponseView::Ehlo { domain, greet, capabilities } => is_domain_name(domain)
            && all_word_caps(capabilities) && (greet matches Some(g) ==> is_greet_text(g)),
        ResponseView::Other { code, lines } => is_wire_code(code) && (lines.len() == 0 || (
        all_text_lines(lines) && code_value(code) != 220 && code_value(code) != 250)),
    }
}

/// Parsing a serialized response gives the response back, with nothing left
/// over, for the responses of `is_simple_response`.
pub proof fn law_response_round_trip(r: ResponseView)
    requires
        is_simple_response(r),
        r.wire().len() <= usize::MAX,
    ensures
        spec_response(r.wire(), 0) == Ok::<(usize, ResponseView), ParseError>(
            (r.wire().len() as usize, r),
        ),
{
    match r {
        ResponseView::Greeting { .. } => lemma_greeting_round_trip(r),
        ResponseView::Ehlo { .. } => lemma_ehlo_round_trip(r),
        ResponseView::Other { .. } => lemma_reply_round_trip(r),
    }
}

} // verus!
