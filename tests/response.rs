use smtp_codec::replies::{ehlo_line, ehlo_ok_rsp, Greeting};
use smtp_codec::{
    parse_ehlo_response, parse_greeting, parse_reply_lines, parse_response, AuthMechanism,
    Capability, ParseError, ReplyCode, Response, TextString,
};

fn text(s: &str) -> TextString {
    TextString::new(s.to_string()).unwrap()
}

#[test]
fn replies_test_Greeting() {
    let greeting = b"220-example.org ESMTP Fake 4.93 #2 Thu, 16 Jul 2020 07:30:16 -0400\r\n\
220-We do not authorize the use of this system to transport unsolicited,\r\n\
220 and/or bulk e-mail.\r\n";

    let (rem, out) = Greeting(greeting).unwrap();
    assert_eq!(rem, b"");
    assert_eq!(
        out,
        Response::Greeting {
            domain: "example.org".into(),
            text: "ESMTP Fake 4.93 #2 Thu, 16 Jul 2020 07:30:16 -0400\n\
We do not authorize the use of this system to transport unsolicited,\n\
and/or bulk e-mail."
                .into(),
        }
    )
}

#[test]
fn response_test_Greeting() {
    let greeting = b"220-example.org ESMTP Fake 4.93 #2 Thu, 16 Jul 2020 07:30:16 -0400\r\n\
220-We do not authorize the use of this system to transport unsolicited,\r\n\
220 and/or bulk e-mail.\r\n";

    let (rem, out) = parse_greeting(greeting).unwrap();
    assert_eq!(rem, b"");
    assert_eq!(
        out,
        Response::Greeting {
            domain: "example.org".into(),
            text: "ESMTP Fake 4.93 #2 Thu, 16 Jul 2020 07:30:16 -0400\n\
We do not authorize the use of this system to transport unsolicited,\n\
and/or bulk e-mail."
                .into(),
        }
    )
}

#[test]
fn test_ehlo_ok_rsp() {
    let (rem, out) = ehlo_ok_rsp(
        b"250-example.org hello\r\n\
250-AUTH LOGIN CRAM-MD5 PLAIN\r\n\
250-AUTH=LOGIN CRAM-MD5 PLAIN\r\n\
250-STARTTLS\r\n\
250-SIZE 12345\r\n\
250 8BITMIME\r\n",
    )
    .unwrap();
    assert_eq!(rem, b"");
    assert_eq!(
        out,
        Response::Ehlo {
            domain: "example.org".into(),
            greet: Some("hello".into()),
            capabilities: vec![
                Capability::Auth(vec![
                    AuthMechanism::Login,
                    AuthMechanism::CramMd5,
                    AuthMechanism::Plain
                ]),
                Capability::Auth(vec![
                    AuthMechanism::Login,
                    AuthMechanism::CramMd5,
                    AuthMechanism::Plain
                ]),
                Capability::StartTls,
                Capability::Size(12345),
                Capability::EightBitMime,
            ],
        }
    );
}

#[test]
fn test_ehlo_line() {
    let (rem, capability) = ehlo_line(b"SIZE 123456\r\n").unwrap();
    assert_eq!(rem, b"\r\n");
    assert_eq!(capability, Capability::Size(123456));
}

#[test]
fn greeting_three_lines() {
    let (rem, out) =
        parse_response(b"220-example.org ESMTP ...\r\n220-line two\r\n220 end\r\n").unwrap();
    assert_eq!(rem, b"");
    assert_eq!(
        out,
        Response::Greeting {
            domain: "example.org".into(),
            text: "ESMTP ...\nline two\nend".into()
        }
    );
}

#[test]
fn greeting_single_line() {
    let (_, out) = parse_greeting(b"220 foo.com Simple Mail Transfer Service Ready\r\n").unwrap();
    assert_eq!(
        out,
        Response::Greeting {
            domain: "foo.com".into(),
            text: "Simple Mail Transfer Service Ready".into()
        }
    );
    let (_, out) = parse_greeting(b"220 foo.com\r\n").unwrap();
    assert_eq!(
        out,
        Response::Greeting {
            domain: "foo.com".into(),
            text: "".into()
        }
    );
}

#[test]
fn ehlo_with_capabilities() {
    let input = b"250-example.org hi\r\n250-AUTH LOGIN CRAM-MD5 PLAIN\r\n250-AUTH=LOGIN CRAM-MD5 PLAIN\r\n250-STARTTLS\r\n250-SIZE 12345\r\n250 8BITMIME\r\n";
    let (rem, out) = parse_response(input).unwrap();
    assert_eq!(rem, b"");
    let auth = Capability::Auth(vec![
        AuthMechanism::Login,
        AuthMechanism::CramMd5,
        AuthMechanism::Plain,
    ]);
    assert_eq!(
        out,
        Response::Ehlo {
            domain: "example.org".into(),
            greet: Some("hi".into()),
            capabilities: vec![
                auth.clone(),
                auth,
                Capability::StartTls,
                Capability::Size(12345),
                Capability::EightBitMime
            ]
        }
    );
}

#[test]
fn ehlo_other_keywords() {
    let (_, out) = parse_ehlo_response(
        b"250-mx.example greets you\r\n250-SIZE\r\n250-X-EXPS=LOGIN GSSAPI\r\n250 dsn\r\n",
    )
    .unwrap();
    assert_eq!(
        out,
        Response::Ehlo {
            domain: "mx.example".into(),
            greet: Some("greets you".into()),
            capabilities: vec![
                Capability::Other {
                    keyword: "SIZE".into(),
                    params: vec![]
                },
                Capability::Other {
                    keyword: "X-EXPS".into(),
                    params: vec!["LOGIN".into(), "GSSAPI".into()]
                },
                Capability::Dsn,
            ]
        }
    );
}

#[test]
fn ehlo_single_line() {
    let (_, out) = parse_ehlo_response(b"250 xyz.com is on the air\r\n").unwrap();
    assert_eq!(
        out,
        Response::Ehlo {
            domain: "xyz.com".into(),
            greet: Some("is on the air".into()),
            capabilities: vec![]
        }
    );
}

#[test]
fn ehlo_unknown_mechanism() {
    let (_, c) = ehlo_line(b"AUTH XOAUTH2 NTLM\r\n").unwrap();
    assert_eq!(
        c,
        Capability::Auth(vec![
            AuthMechanism::Other("XOAUTH2".into()),
            AuthMechanism::Ntlm
        ])
    );
}

#[test]
fn reply_lines_multi() {
    let (rem, out) = parse_reply_lines(b"550-No such user\r\n550 here\r\nX").unwrap();
    assert_eq!(rem, b"X");
    assert_eq!(
        out,
        Response::Other {
            code: ReplyCode::MailboxUnavailable,
            lines: vec![text("No such user"), text("here")]
        }
    );
}

#[test]
fn reply_lines_without_text() {
    let (_, out) = parse_reply_lines(b"354\r\n").unwrap();
    assert_eq!(
        out,
        Response::Other {
            code: ReplyCode::StartMailInput,
            lines: vec![]
        }
    );
    let (_, out) = parse_reply_lines(b"333 A\r\n").unwrap();
    assert_eq!(
        out,
        Response::Other {
            code: ReplyCode::Other(333),
            lines: vec![text("A")]
        }
    );
}

#[test]
fn reply_lines_codes_must_agree() {
    let r = parse_reply_lines(b"250-a\r\n251 b\r\n");
    assert!(matches!(r, Err(ParseError::Invalid { .. })));
}

#[test]
fn reply_code_out_of_range() {
    let r = parse_reply_lines(b"199 x\r\n");
    assert!(matches!(r, Err(ParseError::Invalid { .. })));
    let r = parse_reply_lines(b"25");
    assert_eq!(r, Err(ParseError::Incomplete));
}

#[test]
fn response_falls_back_to_reply() {
    let (_, out) = parse_response(b"221 foo.com Service closing transmission channel\r\n").unwrap();
    assert_eq!(
        out,
        Response::Other {
            code: ReplyCode::ServiceClosingChannel,
            lines: vec![text("foo.com Service closing transmission channel")]
        }
    );
}

#[test]
fn text_string_rejects_control_characters() {
    assert!(TextString::new("a\rb".to_string()).is_none());
    assert!(TextString::new("tab\there".to_string()).is_some());
    assert!(TextString::new("é".to_string()).is_none());
}
