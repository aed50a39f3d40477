use smtp_codec::{
    AtomOrQuoted, AuthMechanism, Capability, Command, DomainOrAddress, Parameter, ReplyCode,
    Response, TextString,
};

fn text(s: &str) -> TextString {
    TextString::new(s.to_string()).unwrap()
}

#[test]
fn test_serialize_greeting() {
    let tests = &[
        (
            Response::Greeting {
                domain: "example.org".into(),
                text: "".into(),
            },
            b"220 example.org\r\n".as_ref(),
        ),
        (
            Response::Greeting {
                domain: "example.org".into(),
                text: "A".into(),
            },
            b"220 example.org A\r\n".as_ref(),
        ),
        (
            Response::Greeting {
                domain: "example.org".into(),
                text: "A\nB".into(),
            },
            b"220-example.org A\r\n220 B\r\n".as_ref(),
        ),
        (
            Response::Greeting {
                domain: "example.org".into(),
                text: "A\nB\nC".into(),
            },
            b"220-example.org A\r\n220-B\r\n220 C\r\n".as_ref(),
        ),
    ];

    for (test, expected) in tests.iter() {
        let mut got = Vec::new();
        test.serialize(&mut got);
        assert_eq!(expected, &got);
    }
}

#[test]
fn test_serialize_ehlo() {
    let tests = &[
        (
            Response::Ehlo {
                domain: "example.org".into(),
                greet: None,
                capabilities: vec![],
            },
            b"250 example.org\r\n".as_ref(),
        ),
        (
            Response::Ehlo {
                domain: "example.org".into(),
                greet: Some("...".into()),
                capabilities: vec![],
            },
            b"250 example.org ...\r\n".as_ref(),
        ),
        (
            Response::Ehlo {
                domain: "example.org".into(),
                greet: Some("...".into()),
                capabilities: vec![Capability::StartTls],
            },
            b"250-example.org ...\r\n250 STARTTLS\r\n".as_ref(),
        ),
        (
            Response::Ehlo {
                domain: "example.org".into(),
                greet: Some("...".into()),
                capabilities: vec![Capability::StartTls, Capability::Size(12345)],
            },
            b"250-example.org ...\r\n250-STARTTLS\r\n250 SIZE 12345\r\n".as_ref(),
        ),
    ];

    for (test, expected) in tests.iter() {
        let mut got = Vec::new();
        test.serialize(&mut got);
        assert_eq!(expected, &got);
    }
}

#[test]
fn test_serialize_other() {
    let tests = &[
        (
            Response::Other {
                code: ReplyCode::from(333),
                lines: vec![],
            },
            b"333\r\n".as_ref(),
        ),
        (
            Response::Other {
                code: ReplyCode::from(333),
                lines: vec![text("A")],
            },
            b"333 A\r\n".as_ref(),
        ),
        (
            Response::Other {
                code: ReplyCode::from(333),
                lines: vec![text("A"), text("B")],
            },
            b"333-A\r\n333 B\r\n".as_ref(),
        ),
    ];

    for (test, expected) in tests.iter() {
        let mut got = Vec::new();
        test.serialize(&mut got);
        assert_eq!(expected, &got);
    }
}

fn wire(c: &Command) -> Vec<u8> {
    let mut out = Vec::new();
    c.serialize(&mut out);
    out
}

#[test]
fn serialize_greeting_three_lines() {
    let mut out = Vec::new();
    Response::greeting("example.org".into(), "A\nB\nC".into()).serialize(&mut out);
    assert_eq!(out, b"220-example.org A\r\n220-B\r\n220 C\r\n");
}

#[test]
fn serialize_commands() {
    assert_eq!(
        wire(&Command::Ehlo {
            peer: DomainOrAddress::Address("1.2.3.4".into())
        }),
        b"EHLO [1.2.3.4]\r\n"
    );
    assert_eq!(
        wire(&Command::Mail {
            reverse_path: "".into(),
            parameters: vec![
                Parameter::Size(42),
                Parameter::Other {
                    keyword: "BODY".into(),
                    value: Some("7BIT".into())
                }
            ]
        }),
        b"MAIL FROM:<> SIZE=42 BODY=7BIT\r\n"
    );
    assert_eq!(
        wire(&Command::Vrfy {
            user_or_mailbox: AtomOrQuoted::Quoted("a\"b\\c".into())
        }),
        b"VRFY \"a\\\"b\\\\c\"\r\n"
    );
    assert_eq!(wire(&Command::Help { argument: None }), b"HELP\r\n");
    assert_eq!(wire(&Command::StartTls), b"STARTTLS\r\n");
    assert_eq!(
        wire(&Command::AuthLogin {
            initial: Some("dXNlcg==".into())
        }),
        b"AUTH LOGIN dXNlcg==\r\n"
    );
}

#[test]
fn serialize_capabilities() {
    let mut out = Vec::new();
    Capability::Auth(vec![AuthMechanism::CramSha1, AuthMechanism::Other("X".into())])
        .serialize(&mut out);
    assert_eq!(out, b"AUTH CRAM-SHA1 X");
    let mut out = Vec::new();
    Capability::Auth(vec![]).serialize(&mut out);
    assert_eq!(out, b"AUTH");
    let mut out = Vec::new();
    Capability::Other {
        keyword: "X-A".into(),
        params: vec!["1".into(), "2".into()],
    }
    .serialize(&mut out);
    assert_eq!(out, b"X-A 1 2");
}

#[test]
fn command_names() {
    assert_eq!(Command::AuthPlain { initial: None }.name(), "AUTHPLAIN");
    assert_eq!(Command::Quit.name(), "QUIT");
}
