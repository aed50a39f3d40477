//! Byte classes of the SMTP (RFC 5321) and Internet Message Format
//! (RFC 5322) grammars.
use vstd::prelude::*;

verus! {

pub open spec fn spec_is_alpha(b: u8) -> bool {
    (0x41 <= b && b <= 0x5A) || (0x61 <= b && b <= 0x7A)
}

pub open spec fn spec_is_digit(b: u8) -> bool {
    0x30 <= b && b <= 0x39
}

pub open spec fn spec_is_hex_digit(b: u8) -> bool {
    spec_is_digit(b) || (0x41 <= b && b <= 0x46) || (0x61 <= b && b <= 0x66)
}

/// The special characters that an atom may hold besides letters and digits:
/// `!#$%&'*+-/=?^_`{|}~`.
pub open spec fn spec_is_atext_special(b: u8) -> bool {
    b == 0x21 || (0x23 <= b && b <= 0x27) || b == 0x2A || b == 0x2B || b == 0x2D || b == 0x2F
        || b == 0x3D || b == 0x3F || (0x5E <= b && b <= 0x60) || (0x7B <= b && b <= 0x7E)
}

pub open spec fn spec_is_atext(b: u8) -> bool {
    spec_is_alpha(b) || spec_is_digit(b) || spec_is_atext_special(b)
}

pub open spec fn spec_is_qtext_smtp(b: u8) -> bool {
    (32 <= b && b <= 33) || (35 <= b && b <= 91) || (93 <= b && b <= 126)
}

pub open spec fn spec_is_dcontent(b: u8) -> bool {
    (33 <= b && b <= 90) || (94 <= b && b <= 126)
}

pub open spec fn spec_is_obs_no_ws_ctl(b: u8) -> bool {
    (1 <= b && b <= 8) || b == 11 || b == 12 || (14 <= b && b <= 31) || b == 127
}

pub open spec fn spec_is_qtext(b: u8) -> bool {
    b == 33 || (35 <= b && b <= 91) || (93 <= b && b <= 126) || spec_is_obs_no_ws_ctl(b)
}

pub open spec fn spec_is_let_dig(b: u8) -> bool {
    spec_is_alpha(b) || spec_is_digit(b)
}

/// ALPHA = %x41-5A / %x61-7A
pub fn is_alpha(b: u8) -> (r: bool)
    ensures
        r == spec_is_alpha(b),
{
    (0x41 <= b && b <= 0x5A) || (0x61 <= b && b <= 0x7A)
}

/// DIGIT = %x30-39
pub fn is_digit(b: u8) -> (r: bool)
    ensures
        r == spec_is_digit(b),
{
    0x30 <= b && b <= 0x39
}

/// HEXDIG, in either case.
pub fn is_hex_digit(b: u8) -> (r: bool)
    ensures
        r == spec_is_hex_digit(b),
{
    is_digit(b) || (0x41 <= b && b <= 0x46) || (0x61 <= b && b <= 0x66)
}

/// Printable US-ASCII characters not including specials; used for atoms.
///
/// atext = ALPHA / DIGIT / "!" / "#" / "$" / "%" / "&" / "'" / "*" / "+" /
///         "-" / "/" / "=" / "?" / "^" / "_" / "`" / "{" / "|" / "}" / "~"
pub fn is_atext(b: u8) -> (r: bool)
    ensures
        r == spec_is_atext(b),
{
    is_alpha(b) || is_digit(b) || b == 0x21 || (0x23 <= b && b <= 0x27) || b == 0x2A || b == 0x2B
        || b == 0x2D || b == 0x2F || b == 0x3D || b == 0x3F || (0x5E <= b && b <= 0x60) || (0x7B
        <= b && b <= 0x7E)
}

/// Within a quoted string, any ASCII graphic or space is permitted without
/// backslash-quoting except double-quote and the backslash itself.
///
/// qtextSMTP = %d32-33 / %d35-91 / %d93-126
pub fn is_qtextSMTP(b: u8) -> (r: bool)
    ensures
        r == spec_is_qtext_smtp(b),
{
    (32 <= b && b <= 33) || (35 <= b && b <= 91) || (93 <= b && b <= 126)
}

/// Printable US-ASCII excluding "[", "\" and "]".
///
/// dcontent = %d33-90 / %d94-126
pub fn is_dcontent(b: u8) -> (r: bool)
    ensures
        r == spec_is_dcontent(b),
{
    (33 <= b && b <= 90) || (94 <= b && b <= 126)
}

/// US-ASCII control characters that do not include the carriage return,
/// line feed, and white space characters.
///
/// obs-NO-WS-CTL = %d1-8 / %d11 / %d12 / %d14-31 / %d127
pub fn is_obs_NO_WS_CTL(b: u8) -> (r: bool)
    ensures
        r == spec_is_obs_no_ws_ctl(b),
{
    (1 <= b && b <= 8) || b == 11 || b == 12 || (14 <= b && b <= 31) || b == 127
}

/// obs-qtext = obs-NO-WS-CTL
pub fn is_obs_qtext(b: u8) -> (r: bool)
    ensures
        r == spec_is_obs_no_ws_ctl(b),
{
    is_obs_NO_WS_CTL(b)
}

/// Printable US-ASCII characters not including "\" or the quote character.
///
/// qtext = %d33 / %d35-91 / %d93-126 / obs-qtext
pub fn is_qtext(b: u8) -> (r: bool)
    ensures
        r == spec_is_qtext(b),
{
    b == 33 || (35 <= b && b <= 91) || (93 <= b && b <= 126) || is_obs_qtext(b)
}

/// Let-dig = ALPHA / DIGIT
pub fn is_Let_dig(b: u8) -> (r: bool)
    ensures
        r == spec_is_let_dig(b),
{
    is_alpha(b) || is_digit(b)
}

/// Every byte class of the grammar holds ASCII bytes only.
pub proof fn lemma_class_ascii(c: ByteClass, b: u8)
    ensures
        c.holds(b) ==> b < 128,
{
}

/// The classes of bytes that the grammar takes runs of.
#[derive(Clone, Copy, Debug, PartialEq, Eq, Structural)]
pub enum ByteClass {
    /// DIGIT
    Digit,
    /// HEXDIG
    HexDigit,
    /// Let-dig
    LetDig,
    /// ALPHA / DIGIT / "-", the tail of a keyword
    KeywordTail,
    /// atext
    Atext,
    /// dcontent
    Dcontent,
    /// HT, SP and printable US-ASCII: the bytes of a textstring
    Text,
    /// Any CHAR excluding "=", SP and control characters: an esmtp-value
    EsmtpValue,
    /// Any byte but CR and LF below 128: an ehlo-greet
    Greet,
    /// Any CHAR excluding SP and control characters: an ehlo-param
    Param,
    /// ALPHA / DIGIT / "+" / "/", the body of a base64 token
    Base64,
    /// WSP = SP / HTAB
    Wsp,
}

impl ByteClass {
    pub open spec fn holds(self, b: u8) -> bool {
        match self {
            ByteClass::Digit => spec_is_digit(b),
            ByteClass::HexDigit => spec_is_hex_digit(b),
            ByteClass::LetDig => spec_is_let_dig(b),
            ByteClass::KeywordTail => spec_is_let_dig(b) || b == 0x2D,
            ByteClass::Atext => spec_is_atext(b),
            ByteClass::Dcontent => spec_is_dcontent(b),
            ByteClass::Text => b == 9 || (32 <= b && b <= 126),
            ByteClass::EsmtpValue => (33 <= b && b <= 60) || (62 <= b && b <= 126),
            ByteClass::Greet => b <= 9 || b == 11 || b == 12 || (14 <= b && b <= 127),
            ByteClass::Param => 33 <= b && b <= 126,
            ByteClass::Base64 => spec_is_let_dig(b) || b == 0x2B || b == 0x2F,
            ByteClass::Wsp => b == 0x20 || b == 0x09,
        }
    }

    pub fn contains(self, b: u8) -> (r: bool)
        ensures
            r == self.holds(b),
    {
        match self {
            ByteClass::Digit => is_digit(b),
            ByteClass::HexDigit => is_hex_digit(b),
            ByteClass::LetDig => is_Let_dig(b),
            ByteClass::KeywordTail => is_Let_dig(b) || b == 0x2D,
            ByteClass::Atext => is_atext(b),
            ByteClass::Dcontent => is_dcontent(b),
            ByteClass::Text => b == 9 || (32 <= b && b <= 126),
            ByteClass::EsmtpValue => (33 <= b && b <= 60) || (62 <= b && b <= 126),
            ByteClass::Greet => b <= 9 || b == 11 || b == 12 || (14 <= b && b <= 127),
            ByteClass::Param => 33 <= b && b <= 126,
            ByteClass::Base64 => is_Let_dig(b) || b == 0x2B || b == 0x2F,
            ByteClass::Wsp => b == 0x20 || b == 0x09,
        }
    }
}

} // verus!
