//! Replies: the values a server sends, and their wire form.
use vstd::prelude::*;

use crate::abnf::ByteClass;
use crate::grammar::push_bytes;
use crate::text::{decimal, push_decimal};
use crate::types::{push_str, utf8};

verus! {

/// A reply code: the named codes of RFC 5321, or any other number.
#[derive(Clone, Copy, Debug, PartialEq, Eq, Structural)]
pub enum ReplyCode {
    /// 211 System status, or system help reply
    SystemStatus,
    /// 214 Help message
    HelpMessage,
    /// 220 Service ready
    ServiceReady,
    /// 221 Service closing transmission channel
    ServiceClosingChannel,
    /// 250 Requested mail action okay, completed
    ActionOk,
    /// 251 User not local; will forward
    UserNotLocalWillForward,
    /// 252 Cannot VRFY user, but will accept message and attempt delivery
    CannotVerifyUser,
    /// 354 Start mail input
    StartMailInput,
    /// 421 Service not available, closing transmission channel
    ServiceNotAvailable,
    /// 450 Requested mail action not taken: mailbox unavailable
    MailboxBusy,
    /// 451 Requested action aborted: local error in processing
    LocalError,
    /// 452 Requested action not taken: insufficient system storage
    InsufficientStorage,
    /// 455 Server unable to accommodate parameters
    UnableToAccommodateParameters,
    /// 500 Syntax error, command unrecognized
    SyntaxError,
    /// 501 Syntax error in parameters or arguments
    ParameterSyntaxError,
    /// 502 Command not implemented
    CommandNotImplemented,
    /// 503 Bad sequence of commands
    BadSequence,
    /// 504 Command parameter not implemented
    ParameterNotImplemented,
    /// 521 Host does not accept mail
    NoMailService,
    /// 550 Requested action not taken: mailbox unavailable
    MailboxUnavailable,
    /// 551 User not local
    UserNotLocal,
    /// 552 Requested mail action aborted: exceeded storage allocation
    ExceededStorageAllocation,
    /// 553 Requested action not taken: mailbox name not allowed
    MailboxNameNotAllowed,
    /// 554 Transaction failed
    TransactionFailed,
    /// 555 MAIL FROM/RCPT TO parameters not recognized or not implemented
    ParametersNotRecognized,
    /// Any code without a name here.
    Other(u16),
}

/// The number of a reply code.
pub open spec fn code_value(r: ReplyCode) -> u16 {
    match r {
        ReplyCode::SystemStatus => 211,
        ReplyCode::HelpMessage => 214,
        ReplyCode::ServiceReady => 220,
        ReplyCode::ServiceClosingChannel => 221,
        ReplyCode::ActionOk => 250,
        ReplyCode::UserNotLocalWillForward => 251,
        ReplyCode::CannotVerifyUser => 252,
        ReplyCode::StartMailInput => 354,
        ReplyCode::ServiceNotAvailable => 421,
        ReplyCode::MailboxBusy => 450,
        ReplyCode::LocalError => 451,
        ReplyCode::InsufficientStorage => 452,
        ReplyCode::UnableToAccommodateParameters => 455,
        ReplyCode::SyntaxError => 500,
        ReplyCode::ParameterSyntaxError => 501,
        ReplyCode::CommandNotImplemented => 502,
        ReplyCode::BadSequence => 503,
        ReplyCode::ParameterNotImplemented => 504,
        ReplyCode::NoMailService => 521,
        ReplyCode::MailboxUnavailable => 550,
        ReplyCode::UserNotLocal => 551,
        ReplyCode::ExceededStorageAllocation => 552,
        ReplyCode::MailboxNameNotAllowed => 553,
        ReplyCode::TransactionFailed => 554,
        ReplyCode::ParametersNotRecognized => 555,
        ReplyCode::Other(v) => v,
    }
}

/// The reply code of a number: its name where it has one.
pub open spec fn code_of_value(v: u16) -> ReplyCode {
    if v == 211 {
        ReplyCode::SystemStatus
    } else if v == 214 {
        ReplyCode::HelpMessage
    } else if v == 220 {
        ReplyCode::ServiceReady
    } else if v == 221 {
        ReplyCode::ServiceClosingChannel
    } else if v == 250 {
        ReplyCode::ActionOk
    } else if v == 251 {
        ReplyCode::UserNotLocalWillForward
    } else if v == 252 {
        ReplyCode::CannotVerifyUser
    } else if v == 354 {
        ReplyCode::StartMailInput
    } else if v == 421 {
        ReplyCode::ServiceNotAvailable
    } else if v == 450 {
        ReplyCode::MailboxBusy
    } else if v == 451 {
        ReplyCode::LocalError
    } else if v == 452 {
        ReplyCode::InsufficientStorage
    } else if v == 455 {
        ReplyCode::UnableToAccommodateParameters
    } else if v == 500 {
        ReplyCode::SyntaxError
    } else if v == 501 {
        ReplyCode::ParameterSyntaxError
    } else if v == 502 {
        ReplyCode::CommandNotImplemented
    } else if v == 503 {
        ReplyCode::BadSequence
    } else if v == 504 {
        ReplyCode::ParameterNotImplemented
    } else if v == 521 {
        ReplyCode::NoMailService
    } else if v == 550 {
        ReplyCode::MailboxUnavailable
    } else if v == 551 {
        ReplyCode::UserNotLocal
    } else if v == 552 {
        ReplyCode::ExceededStorageAllocation
    } else if v == 553 {
        ReplyCode::MailboxNameNotAllowed
    } else if v == 554 {
        ReplyCode::TransactionFailed
    } else if v == 555 {
        ReplyCode::ParametersNotRecognized
    } else {
        ReplyCode::Other(v)
    }
}

/// A code has a name unless it is `Other`.
pub open spec fn is_named(r: ReplyCode) -> bool {
    !(r is Other)
}

/// The numbers that have a name.
pub open spec fn is_named_value(v: u16) -> bool {
    is_named(code_of_value(v))
}

impl ReplyCode {
    /// The number of the code.
    pub fn value(&self) -> (r: u16)
        ensures
            r == code_value(*self),
    {
        match self {
            ReplyCode::SystemStatus => 211,
            ReplyCode::HelpMessage => 214,
            ReplyCode::ServiceReady => 220,
            ReplyCode::ServiceClosingChannel => 221,
            ReplyCode::ActionOk => 250,
            ReplyCode::UserNotLocalWillForward => 251,
            ReplyCode::CannotVerifyUser => 252,
            ReplyCode::StartMailInput => 354,
            ReplyCode::ServiceNotAvailable => 421,
            ReplyCode::MailboxBusy => 450,
            ReplyCode::LocalError => 451,
            ReplyCode::InsufficientStorage => 452,
            ReplyCode::UnableToAccommodateParameters => 455,
            ReplyCode::SyntaxError => 500,
            ReplyCode::ParameterSyntaxError => 501,
            ReplyCode::CommandNotImplemented => 502,
            ReplyCode::BadSequence => 503,
            ReplyCode::ParameterNotImplemented => 504,
            ReplyCode::NoMailService => 521,
            ReplyCode::MailboxUnavailable => 550,
            ReplyCode::UserNotLocal => 551,
            ReplyCode::ExceededStorageAllocation => 552,
            ReplyCode::MailboxNameNotAllowed => 553,
            ReplyCode::TransactionFailed => 554,
            ReplyCode::ParametersNotRecognized => 555,
            ReplyCode::Other(v) => *v,
        }
    }

    /// The code of a number.
    pub fn from_value(v: u16) -> (r: ReplyCode)
        ensures
            r == code_of_value(v),
    {
        match v {
            211 => ReplyCode::SystemStatus,
            214 => ReplyCode::HelpMessage,
            220 => ReplyCode::ServiceReady,
            221 => ReplyCode::ServiceClosingChannel,
            250 => ReplyCode::ActionOk,
            251 => ReplyCode::UserNotLocalWillForward,
            252 => ReplyCode::CannotVerifyUser,
            354 => ReplyCode::StartMailInput,
            421 => ReplyCode::ServiceNotAvailable,
            450 => ReplyCode::MailboxBusy,
            451 => ReplyCode::LocalError,
            452 => ReplyCode::InsufficientStorage,
            455 => ReplyCode::UnableToAccommodateParameters,
            500 => ReplyCode::SyntaxError,
            501 => ReplyCode::ParameterSyntaxError,
            502 => ReplyCode::CommandNotImplemented,
            503 => ReplyCode::BadSequence,
            504 => ReplyCode::ParameterNotImplemented,
            521 => ReplyCode::NoMailService,
            550 => ReplyCode::MailboxUnavailable,
            551 => ReplyCode::UserNotLocal,
            552 => ReplyCode::ExceededStorageAllocation,
            553 => ReplyCode::MailboxNameNotAllowed,
            554 => ReplyCode::TransactionFailed,
            555 => ReplyCode::ParametersNotRecognized,
            _ => ReplyCode::Other(v),
        }
    }

    /// 2yz: the requested action has been completed.
    pub fn is_completed(&self) -> (r: bool)
        ensures
            r == (200 <= code_value(*self) && code_value(*self) <= 299),
    {
        let v = self.value();
        200 <= v && v <= 299
    }

    /// 3yz: the command has been accepted, and more information is awaited.
    pub fn is_accepted(&self) -> (r: bool)
        ensures
            r == (300 <= code_value(*self) && code_value(*self) <= 399),
    {
        let v = self.value();
        300 <= v && v <= 399
    }

    /// 4yz: the command was not accepted, for a reason that may pass.
    pub fn is_temporary_error(&self) -> (r: bool)
        ensures
            r == (400 <= code_value(*self) && code_value(*self) <= 499),
    {
        let v = self.value();
        400 <= v && v <= 499
    }

    /// 5yz: the command was not accepted and will not be as it stands.
    pub fn is_permanent_error(&self) -> (r: bool)
        ensures
            r == (500 <= code_value(*self) && code_value(*self) <= 599),
    {
        let v = self.value();
        500 <= v && v <= 599
    }
}

impl From<u16> for ReplyCode {
    fn from(v: u16) -> (r: ReplyCode)
        ensures
            r == code_of_value(v),
    {
        ReplyCode::from_value(v)
    }
}

impl vstd::std_specs::convert::FromSpecImpl<u16> for ReplyCode {
    open spec fn obeys_from_spec() -> bool {
        true
    }

    open spec fn from_spec(v: u16) -> ReplyCode {
        code_of_value(v)
    }
}

impl From<ReplyCode> for u16 {
    fn from(r: ReplyCode) -> (v: u16)
        ensures
            v == code_value(r),
    {
        r.value()
    }
}

impl vstd::std_specs::convert::FromSpecImpl<ReplyCode> for u16 {
    open spec fn obeys_from_spec() -> bool {
        true
    }

    open spec fn from_spec(r: ReplyCode) -> u16 {
        code_value(r)
    }
}

/// A character of a textstring: HT or printable US-ASCII.
pub open spec fn is_text_char(c: char) -> bool {
    c == '\t' || (' ' <= c && c <= '~')
}

pub open spec fn is_text(s: Seq<char>) -> bool {
    forall|k: int| 0 <= k < s.len() ==> is_text_char(#[trigger] s[k])
}

/// A line of reply text: every character is HT or printable US-ASCII.
#[derive(Debug, PartialEq, Eq)]
pub struct TextString {
    text: String,
}

impl Clone for TextString {
    fn clone(&self) -> (r: TextString)
        ensures
            r@ == self@,
    {
        proof {
            use_type_invariant(self);
        }
        TextString { text: self.text.clone() }
    }
}

impl View for TextString {
    type V = Seq<char>;

    closed spec fn view(&self) -> Seq<char> {
        self.text@
    }
}

impl TextString {
    #[verifier::type_invariant]
    spec fn inv(self) -> bool {
        is_text(self.text@)
    }

    /// The text of `s`, if every character of it is HT or printable US-ASCII.
    pub fn new(s: String) -> (r: Option<TextString>)
        ensures
            r is Some <==> is_text(s@),
            r matches Some(t) ==> t@ == s@,
    {
        if !vstd::string::StringExecFnsIsAscii::is_ascii(&s) {
            proof {
                if is_text(s@) {
                    assert(vstd::utf8::is_ascii_chars(s@));
                }
            }
            return None;
        }
        let t = s.as_str();
        let b = t.as_bytes();
        proof {
            vstd::string::is_ascii_spec_bytes(t);
        }
        let mut k: usize = 0;
        while k < b.len()
            invariant
                k <= b@.len(),
                b@.len() == s@.len(),
                forall|m: int| 0 <= m < b@.len() ==> b@[m] == s@[m] as u8,
                vstd::utf8::is_ascii_chars(s@),
                forall|m: int| 0 <= m < k ==> is_text_char(#[trigger] s@[m]),
            decreases b@.len() - k,
        {
            let c = b[k];
            if !(c == 9 || (32 <= c && c <= 126)) {
                assert(!is_text_char(s@[k as int]));
                return None;
            }
            k += 1;
        }
        Some(TextString { text: s })
    }

    /// The text of `b`, which holds HT and printable US-ASCII only.
    pub(crate) fn from_text_bytes(b: &[u8]) -> (r: TextString)
        requires
            forall|k: int| 0 <= k < b@.len() ==> ByteClass::Text.holds(#[trigger] b@[k]),
        ensures
            r@ == crate::grammar::chars_of(b@),
    {
        let text = crate::grammar::ascii_string(b);
        assert(is_text(text@)) by {
            assert forall|k: int| 0 <= k < text@.len() implies is_text_char(#[trigger] text@[k]) by {
                assert(ByteClass::Text.holds(b@[k]));
            }
        }
        TextString { text }
    }

    pub fn as_str(&self) -> (r: &str)
        ensures
            r@ == self@,
            is_text(r@),
    {
        proof {
            use_type_invariant(self);
        }
        self.text.as_str()
    }
}

/// An authentication mechanism offered after AUTH.
#[derive(Clone, Debug, PartialEq, Eq)]
pub enum AuthMechanism {
    Plain,
    Login,
    Gssapi,
    CramMd5,
    CramSha1,
    ScramMd5,
    DigestMd5,
    Ntlm,
    Other(String),
}

pub enum AuthMechanismView {
    Plain,
    Login,
    Gssapi,
    CramMd5,
    CramSha1,
    ScramMd5,
    DigestMd5,
    Ntlm,
    Other(Seq<char>),
}

impl View for AuthMechanism {
    type V = AuthMechanismView;

    open spec fn view(&self) -> AuthMechanismView {
        match self {
            AuthMechanism::Plain => AuthMechanismView::Plain,
            AuthMechanism::Login => AuthMechanismView::Login,
            AuthMechanism::Gssapi => AuthMechanismView::Gssapi,
            AuthMechanism::CramMd5 => AuthMechanismView::CramMd5,
            AuthMechanism::CramSha1 => AuthMechanismView::CramSha1,
            AuthMechanism::ScramMd5 => AuthMechanismView::ScramMd5,
            AuthMechanism::DigestMd5 => AuthMechanismView::DigestMd5,
            AuthMechanism::Ntlm => AuthMechanismView::Ntlm,
            AuthMechanism::Other(o) => AuthMechanismView::Other(o@),
        }
    }
}

impl AuthMechanismView {
    pub open spec fn wire(self) -> Seq<u8> {
        match self {
            AuthMechanismView::Plain => seq![0x50u8, 0x4C, 0x41, 0x49, 0x4E] /* "PLAIN" */,
            AuthMechanismView::Login => seq![0x4Cu8, 0x4F, 0x47, 0x49, 0x4E] /* "LOGIN" */,
            AuthMechanismView::Gssapi => seq![0x47u8, 0x53, 0x53, 0x41, 0x50, 0x49] /* "GSSAPI" */,
            AuthMechanismView::CramMd5 => seq![0x43u8, 0x52, 0x41, 0x4D, 0x2D, 0x4D, 0x44, 0x35] /* "CRAM-MD5" */,
            AuthMechanismView::CramSha1 => seq![0x43u8, 0x52, 0x41, 0x4D, 0x2D, 0x53, 0x48, 0x41, 0x31] /* "CRAM-SHA1" */,
            AuthMechanismView::ScramMd5 => seq![0x53u8, 0x43, 0x52, 0x41, 0x4D, 0x2D, 0x4D, 0x44, 0x35] /* "SCRAM-MD5" */,
            AuthMechanismView::DigestMd5 => seq![0x44u8, 0x49, 0x47, 0x45, 0x53, 0x54, 0x2D, 0x4D, 0x44, 0x35] /* "DIGEST-MD5" */,
            AuthMechanismView::Ntlm => seq![0x4Eu8, 0x54, 0x4C, 0x4D] /* "NTLM" */,
            AuthMechanismView::Other(o) => utf8(o),
        }
    }
}

impl AuthMechanism {
    /// Writes the canonical name of the mechanism.
    pub fn serialize(&self, out: &mut Vec<u8>)
        ensures
            final(out)@ == old(out)@ + self@.wire(),
    {
        match self {
            AuthMechanism::Plain => push_bytes(out, [0x50u8, 0x4C, 0x41, 0x49, 0x4E].as_slice() /* "PLAIN" */),
            AuthMechanism::Login => push_bytes(out, [0x4Cu8, 0x4F, 0x47, 0x49, 0x4E].as_slice() /* "LOGIN" */),
            AuthMechanism::Gssapi => push_bytes(out, [0x47u8, 0x53, 0x53, 0x41, 0x50, 0x49].as_slice() /* "GSSAPI" */),
            AuthMechanism::CramMd5 => push_bytes(out, [0x43u8, 0x52, 0x41, 0x4D, 0x2D, 0x4D, 0x44, 0x35].as_slice() /* "CRAM-MD5" */),
            AuthMechanism::CramSha1 => push_bytes(out, [0x43u8, 0x52, 0x41, 0x4D, 0x2D, 0x53, 0x48, 0x41, 0x31].as_slice() /* "CRAM-SHA1" */),
            AuthMechanism::ScramMd5 => push_bytes(out, [0x53u8, 0x43, 0x52, 0x41, 0x4D, 0x2D, 0x4D, 0x44, 0x35].as_slice() /* "SCRAM-MD5" */),
            AuthMechanism::DigestMd5 => push_bytes(out, [0x44u8, 0x49, 0x47, 0x45, 0x53, 0x54, 0x2D, 0x4D, 0x44, 0x35].as_slice() /* "DIGEST-MD5" */),
            AuthMechanism::Ntlm => push_bytes(out, [0x4Eu8, 0x54, 0x4C, 0x4D].as_slice() /* "NTLM" */),
            AuthMechanism::Other(o) => push_str(out, o),
        }
    }
}

pub open spec fn mechs_view(ms: Seq<AuthMechanism>) -> Seq<AuthMechanismView> {
    ms.map_values(|m: AuthMechanism| m@)
}

/// Mechanism names, separated by single spaces.
pub open spec fn mechs_wire(ms: Seq<AuthMechanismView>) -> Seq<u8>
    decreases ms.len(),
{
    if ms.len() == 0 {
        seq![]
    } else if ms.len() == 1 {
        ms[0].wire()
    } else {
        mechs_wire(ms.drop_last()) + seq![0x20u8] /* " " */ + ms.last().wire()
    }
}

pub open spec fn words_view(ws: Seq<String>) -> Seq<Seq<char>> {
    ws.map_values(|w: String| w@)
}

/// Words, separated by single spaces.
pub open spec fn words_wire(ws: Seq<Seq<char>>) -> Seq<u8>
    decreases ws.len(),
{
    if ws.len() == 0 {
        seq![]
    } else if ws.len() == 1 {
        utf8(ws[0])
    } else {
        words_wire(ws.drop_last()) + seq![0x20u8] /* " " */ + utf8(ws.last())
    }
}

/// A service extension that an EHLO reply announces.
#[derive(Clone, Debug, PartialEq, Eq)]
pub enum Capability {
    /// Expand the mailing list (RFC 821, RFC 5321)
    ExpN,
    /// Supply helpful information (RFC 821, RFC 5321)
    Help,
    /// 8bit MIME content (RFC 6152)
    EightBitMime,
    /// Message size declaration (RFC 1870)
    Size(u32),
    /// Chunking (RFC 3030)
    Chunking,
    /// Binary MIME (RFC 3030)
    BinaryMime,
    /// Checkpoint/Restart (RFC 1845)
    Checkpoint,
    /// Deliver By (RFC 2852)
    DeliverBy,
    /// Command Pipelining (RFC 2920)
    Pipelining,
    /// Delivery Status Notification (RFC 3461)
    Dsn,
    /// Extended Turn (RFC 1985)
    Etrn,
    /// Enhanced Status Codes (RFC 2034)
    EnhancedStatusCodes,
    /// Start TLS (RFC 3207)
    StartTls,
    /// Message Tracking (RFC 3885)
    Mtrk,
    /// Authenticated TURN (RFC 2645)
    Atrn,
    /// Authentication (RFC 4954)
    Auth(Vec<AuthMechanism>),
    /// Remote Content (RFC 4468)
    Burl,
    /// Internationalized email address (RFC 6531)
    SmtpUtf8,
    /// Require Recipient Valid Since (RFC 7293)
    Rrvs,
    /// Require TLS (RFC 8689)
    RequireTls,
    /// Any other keyword, with its parameters.
    Other { keyword: String, params: Vec<String> },
}

pub enum CapabilityView {
    ExpN,
    Help,
    EightBitMime,
    Size(u32),
    Chunking,
    BinaryMime,
    Checkpoint,
    DeliverBy,
    Pipelining,
    Dsn,
    Etrn,
    EnhancedStatusCodes,
    StartTls,
    Mtrk,
    Atrn,
    Auth(Seq<AuthMechanismView>),
    Burl,
    SmtpUtf8,
    Rrvs,
    RequireTls,
    Other { keyword: Seq<char>, params: Seq<Seq<char>> },
}

impl View for Capability {
    type V = CapabilityView;

    open spec fn view(&self) -> CapabilityView {
        match self {
            Capability::ExpN => CapabilityView::ExpN,
            Capability::Help => CapabilityView::Help,
            Capability::EightBitMime => CapabilityView::EightBitMime,
            Capability::Size(n) => CapabilityView::Size(*n),
            Capability::Chunking => CapabilityView::Chunking,
            Capability::BinaryMime => CapabilityView::BinaryMime,
            Capability::Checkpoint => CapabilityView::Checkpoint,
            Capability::DeliverBy => CapabilityView::DeliverBy,
            Capability::Pipelining => CapabilityView::Pipelining,
            Capability::Dsn => CapabilityView::Dsn,
            Capability::Etrn => CapabilityView::Etrn,
            Capability::EnhancedStatusCodes => CapabilityView::EnhancedStatusCodes,
            Capability::StartTls => CapabilityView::StartTls,
            Capability::Mtrk => CapabilityView::Mtrk,
            Capability::Atrn => CapabilityView::Atrn,
            Capability::Auth(ms) => CapabilityView::Auth(mechs_view(ms@)),
            Capability::Burl => CapabilityView::Burl,
            Capability::SmtpUtf8 => CapabilityView::SmtpUtf8,
            Capability::Rrvs => CapabilityView::Rrvs,
            Capability::RequireTls => CapabilityView::RequireTls,
            Capability::Other { keyword, params } => CapabilityView::Other {
                keyword: keyword@,
                params: words_view(params@),
            },
        }
    }
}

impl CapabilityView {
    /// The ehlo-line of the capability, without the code before it.
    pub open spec fn wire(self) -> Seq<u8> {
        match self {
            CapabilityView::ExpN => seq![0x45u8, 0x58, 0x50, 0x4E] /* "EXPN" */,
            CapabilityView::Help => seq![0x48u8, 0x45, 0x4C, 0x50] /* "HELP" */,
            CapabilityView::EightBitMime => seq![0x38u8, 0x42, 0x49, 0x54, 0x4D, 0x49, 0x4D, 0x45] /* "8BITMIME" */,
            CapabilityView::Size(n) => seq![0x53u8, 0x49, 0x5A, 0x45, 0x20] /* "SIZE " */ + decimal(n as nat),
            CapabilityView::Chunking => seq![0x43u8, 0x48, 0x55, 0x4E, 0x4B, 0x49, 0x4E, 0x47] /* "CHUNKING" */,
            CapabilityView::BinaryMime => seq![0x42u8, 0x49, 0x4E, 0x41, 0x52, 0x59, 0x4D, 0x49, 0x4D, 0x45] /* "BINARYMIME" */,
            CapabilityView::Checkpoint => seq![0x43u8, 0x48, 0x45, 0x43, 0x4B, 0x50, 0x4F, 0x49, 0x4E, 0x54] /* "CHECKPOINT" */,
            CapabilityView::DeliverBy => seq![0x44u8, 0x45, 0x4C, 0x49, 0x56, 0x45, 0x52, 0x42, 0x59] /* "DELIVERBY" */,
            CapabilityView::Pipelining => seq![0x50u8, 0x49, 0x50, 0x45, 0x4C, 0x49, 0x4E, 0x49, 0x4E, 0x47] /* "PIPELINING" */,
            CapabilityView::Dsn => seq![0x44u8, 0x53, 0x4E] /* "DSN" */,
            CapabilityView::Etrn => seq![0x45u8, 0x54, 0x52, 0x4E] /* "ETRN" */,
            CapabilityView::EnhancedStatusCodes => seq![0x45u8, 0x4E, 0x48, 0x41, 0x4E, 0x43, 0x45, 0x44, 0x53, 0x54, 0x41, 0x54, 0x55, 0x53, 0x43, 0x4F, 0x44, 0x45, 0x53] /* "ENHANCEDSTATUSCODES" */,
            CapabilityView::StartTls => seq![0x53u8, 0x54, 0x41, 0x52, 0x54, 0x54, 0x4C, 0x53] /* "STARTTLS" */,
            CapabilityView::Mtrk => seq![0x4Du8, 0x54, 0x52, 0x4B] /* "MTRK" */,
            CapabilityView::Atrn => seq![0x41u8, 0x54, 0x52, 0x4E] /* "ATRN" */,
            CapabilityView::Auth(ms) => if ms.len() == 0 {
                seq![0x41u8, 0x55, 0x54, 0x48] /* "AUTH" */
            } else {
                seq![0x41u8, 0x55, 0x54, 0x48, 0x20] /* "AUTH " */ + mechs_wire(ms)
            },
            CapabilityView::Burl => seq![0x42u8, 0x55, 0x52, 0x4C] /* "BURL" */,
            CapabilityView::SmtpUtf8 => seq![0x53u8, 0x4D, 0x54, 0x50, 0x55, 0x54, 0x46, 0x38] /* "SMTPUTF8" */,
            CapabilityView::Rrvs => seq![0x52u8, 0x52, 0x56, 0x53] /* "RRVS" */,
            CapabilityView::RequireTls => seq![0x52u8, 0x45, 0x51, 0x55, 0x49, 0x52, 0x45, 0x54, 0x4C, 0x53] /* "REQUIRETLS" */,
            CapabilityView::Other { keyword, params } => if params.len() == 0 {
                utf8(keyword)
            } else {
                utf8(keyword) + seq![0x20u8] /* " " */ + words_wire(params)
            },
        }
    }
}

fn push_mechs(out: &mut Vec<u8>, ms: &Vec<AuthMechanism>)
    ensures
        final(out)@ == old(out)@ + mechs_wire(mechs_view(ms@)),
{
    let mut k: usize = 0;
    while k < ms.len()
        invariant
            k <= ms@.len(),
            out@ == old(out)@ + mechs_wire(mechs_view(ms@.subrange(0, k as int))),
        decreases ms@.len() - k,
    {
        if k > 0 {
            push_bytes(out, [0x20u8].as_slice() /* " " */);
        }
        ms[k].serialize(out);
        k += 1;
        assert(mechs_view(ms@.subrange(0, k as int)).drop_last() == mechs_view(
            ms@.subrange(0, k - 1),
        ));
    }
    assert(ms@.subrange(0, k as int) == ms@);
}

fn push_words(out: &mut Vec<u8>, ws: &Vec<String>)
    ensures
        final(out)@ == old(out)@ + words_wire(words_view(ws@)),
{
    let mut k: usize = 0;
    while k < ws.len()
        invariant
            k <= ws@.len(),
            out@ == old(out)@ + words_wire(words_view(ws@.subrange(0, k as int))),
        decreases ws@.len() - k,
    {
        if k > 0 {
            push_bytes(out, [0x20u8].as_slice() /* " " */);
        }
        push_str(out, &ws[k]);
        k += 1;
        assert(words_view(ws@.subrange(0, k as int)).drop_last() == words_view(
            ws@.subrange(0, k - 1),
        ));
    }
    assert(ws@.subrange(0, k as int) == ws@);
}

impl Capability {
    /// Writes the capability's ehlo-line, without code and CRLF.
    pub fn serialize(&self, out: &mut Vec<u8>)
        ensures
            final(out)@ == old(out)@ + self@.wire(),
    {
        match self {
            Capability::ExpN => push_bytes(out, [0x45u8, 0x58, 0x50, 0x4E].as_slice() /* "EXPN" */),
            Capability::Help => push_bytes(out, [0x48u8, 0x45, 0x4C, 0x50].as_slice() /* "HELP" */),
            Capability::EightBitMime => push_bytes(out, [0x38u8, 0x42, 0x49, 0x54, 0x4D, 0x49, 0x4D, 0x45].as_slice() /* "8BITMIME" */),
            Capability::Size(n) => {
                push_bytes(out, [0x53u8, 0x49, 0x5A, 0x45, 0x20].as_slice() /* "SIZE " */);
                push_decimal(out, *n);
            },
            Capability::Chunking => push_bytes(out, [0x43u8, 0x48, 0x55, 0x4E, 0x4B, 0x49, 0x4E, 0x47].as_slice() /* "CHUNKING" */),
            Capability::BinaryMime => push_bytes(out, [0x42u8, 0x49, 0x4E, 0x41, 0x52, 0x59, 0x4D, 0x49, 0x4D, 0x45].as_slice() /* "BINARYMIME" */),
            Capability::Checkpoint => push_bytes(out, [0x43u8, 0x48, 0x45, 0x43, 0x4B, 0x50, 0x4F, 0x49, 0x4E, 0x54].as_slice() /* "CHECKPOINT" */),
            Capability::DeliverBy => push_bytes(out, [0x44u8, 0x45, 0x4C, 0x49, 0x56, 0x45, 0x52, 0x42, 0x59].as_slice() /* "DELIVERBY" */),
            Capability::Pipelining => push_bytes(out, [0x50u8, 0x49, 0x50, 0x45, 0x4C, 0x49, 0x4E, 0x49, 0x4E, 0x47].as_slice() /* "PIPELINING" */),
            Capability::Dsn => push_bytes(out, [0x44u8, 0x53, 0x4E].as_slice() /* "DSN" */),
            Capability::Etrn => push_bytes(out, [0x45u8, 0x54, 0x52, 0x4E].as_slice() /* "ETRN" */),
            Capability::EnhancedStatusCodes => push_bytes(out, [0x45u8, 0x4E, 0x48, 0x41, 0x4E, 0x43, 0x45, 0x44, 0x53, 0x54, 0x41, 0x54, 0x55, 0x53, 0x43, 0x4F, 0x44, 0x45, 0x53].as_slice() /* "ENHANCEDSTATUSCODES" */),
            Capability::StartTls => push_bytes(out, [0x53u8, 0x54, 0x41, 0x52, 0x54, 0x54, 0x4C, 0x53].as_slice() /* "STARTTLS" */),
            Capability::Mtrk => push_bytes(out, [0x4Du8, 0x54, 0x52, 0x4B].as_slice() /* "MTRK" */),
            Capability::Atrn => push_bytes(out, [0x41u8, 0x54, 0x52, 0x4E].as_slice() /* "ATRN" */),
            Capability::Auth(ms) => {
                if ms.len() == 0 {
                    push_bytes(out, [0x41u8, 0x55, 0x54, 0x48].as_slice() /* "AUTH" */);
                } else {
                    push_bytes(out, [0x41u8, 0x55, 0x54, 0x48, 0x20].as_slice() /* "AUTH " */);
                    push_mechs(out, ms);
                }
            },
            Capability::Burl => push_bytes(out, [0x42u8, 0x55, 0x52, 0x4C].as_slice() /* "BURL" */),
            Capability::SmtpUtf8 => push_bytes(out, [0x53u8, 0x4D, 0x54, 0x50, 0x55, 0x54, 0x46, 0x38].as_slice() /* "SMTPUTF8" */),
            Capability::Rrvs => push_bytes(out, [0x52u8, 0x52, 0x56, 0x53].as_slice() /* "RRVS" */),
            Capability::RequireTls => push_bytes(out, [0x52u8, 0x45, 0x51, 0x55, 0x49, 0x52, 0x45, 0x54, 0x4C, 0x53].as_slice() /* "REQUIRETLS" */),
            Capability::Other { keyword, params } => {
                push_str(out, keyword);
                if params.len() > 0 {
                    push_bytes(out, [0x20u8].as_slice() /* " " */);
                    push_words(out, params);
                }
            },
        }
    }
}

} // verus!
