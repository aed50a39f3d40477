//! An SMTP wire-format codec: streaming parsers from bytes to commands and
//! replies, and serializers from those values back to bytes.
//!
//! Every parser reads from the start of its input and returns the bytes after
//! what it matched together with the value, `ParseError::Incomplete` when the
//! input ends before the production is decided (more bytes may complete it),
//! or `ParseError::Invalid` when no continuation could match.
#![allow(non_snake_case)]

pub mod abnf;
pub mod address;
pub mod command;
pub mod grammar;
pub mod laws;
pub mod replies;
pub mod reply;
pub mod response;
pub mod text;
pub mod trace;
pub mod types;

use vstd::prelude::*;

pub use crate::grammar::{ParseError, Production};
pub use crate::reply::{AuthMechanism, Capability, ReplyCode, TextString};
pub use crate::response::Response;
pub use crate::text::{escape, escape_quoted, unescape_quoted};
pub use crate::types::{AtomOrQuoted, Command, DomainOrAddress, Parameter};

use crate::command::spec_command;
use crate::grammar::{finish, parsed};
use crate::replies::{spec_ehlo_ok_rsp, spec_greeting, spec_reply_lines, spec_response};
use crate::trace::{spec_return_path_line, spec_time_stamp_line};

verus! {

/// Parses one command from the start of `input`.
pub fn parse_command(input: &[u8]) -> (r: Result<(&[u8], Command), ParseError>)
    ensures
        parsed(input@, spec_command(input@, 0), r),
{
    crate::command::command(input)
}

/// Parses one response from the start of `input`: a greeting, else a
/// positive reply to EHLO, else a general reply.
pub fn parse_response(input: &[u8]) -> (r: Result<(&[u8], Response), ParseError>)
    ensures
        parsed(input@, spec_response(input@, 0), r),
{
    finish(input, crate::replies::response_at(input, 0))
}

/// Parses a greeting from the start of `input`.
pub fn parse_greeting(input: &[u8]) -> (r: Result<(&[u8], Response), ParseError>)
    ensures
        parsed(input@, spec_greeting(input@, 0), r),
{
    crate::replies::Greeting(input)
}

/// Parses a positive reply to EHLO from the start of `input`.
pub fn parse_ehlo_response(input: &[u8]) -> (r: Result<(&[u8], Response), ParseError>)
    ensures
        parsed(input@, spec_ehlo_ok_rsp(input@, 0), r),
{
    crate::replies::ehlo_ok_rsp(input)
}

/// Parses a general reply from the start of `input`.
pub fn parse_reply_lines(input: &[u8]) -> (r: Result<(&[u8], Response), ParseError>)
    ensures
        parsed(input@, spec_reply_lines(input@, 0), r),
{
    crate::replies::Reply_line(input)
}

/// Parses a Return-Path trace line from the start of `input`; the result
/// holds the reverse path without its brackets.
pub fn parse_return_path_line(input: &[u8]) -> (r: Result<(&[u8], String), ParseError>)
    ensures
        parsed(input@, spec_return_path_line(input@, 0), r),
{
    crate::trace::return_path_line(input)
}

/// Parses a Received trace line from the start of `input`; the result holds
/// the text of its stamp, folds included. Comments are not read: a comment
/// where the grammar allows one gives `Invalid`.
pub fn parse_received_line(input: &[u8]) -> (r: Result<(&[u8], String), ParseError>)
    ensures
        parsed(input@, spec_time_stamp_line(input@, 0), r),
{
    crate::trace::time_stamp_line(input)
}

} // verus!
