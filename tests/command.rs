use smtp_codec::address::sub_domain;
use smtp_codec::command::{ehlo, helo, mail};
use smtp_codec::{
    parse_command, AtomOrQuoted, Command, DomainOrAddress, Parameter, ParseError, Production,
};

#[test]
fn test_ehlo() {
    let (rem, parsed) = ehlo(b"EHLO [123.123.123.123]\r\n???").unwrap();
    assert_eq!(
        parsed,
        Command::Ehlo {
            peer: DomainOrAddress::Address("123.123.123.123".into())
        }
    );
    assert_eq!(rem, b"???");
}

#[test]
fn test_helo() {
    let (rem, parsed) = helo(b"HELO example.com\r\n???").unwrap();
    assert_eq!(
        parsed,
        Command::Helo {
            peer: DomainOrAddress::Domain("example.com".into())
        }
    );
    assert_eq!(rem, b"???");
}

#[test]
fn test_mail() {
    let (rem, parsed) = mail(b"MAIL FROM:<userx@y.foo.org>\r\n???").unwrap();
    assert_eq!(
        parsed,
        Command::Mail {
            reverse_path: "userx@y.foo.org".into(),
            parameters: Vec::default(),
        }
    );
    assert_eq!(rem, b"???");
}

#[test]
fn test_subdomain() {
    let (rem, parsed) = sub_domain(b"example???").unwrap();
    assert_eq!(parsed, b"example");
    assert_eq!(rem, b"???");
}

#[test]
fn command_ehlo_address_literal() {
    let (rem, parsed) = parse_command(b"EHLO [123.123.123.123]\r\n???").unwrap();
    assert_eq!(rem, b"???");
    assert_eq!(
        parsed,
        Command::Ehlo {
            peer: DomainOrAddress::Address("123.123.123.123".into())
        }
    );
}

#[test]
fn command_helo_domain() {
    let (rem, parsed) = parse_command(b"HELO example.com\r\n???").unwrap();
    assert_eq!(rem, b"???");
    assert_eq!(
        parsed,
        Command::Helo {
            peer: DomainOrAddress::Domain("example.com".into())
        }
    );
}

#[test]
fn command_mail_from() {
    let (rem, parsed) = parse_command(b"MAIL FROM:<userx@y.foo.org>\r\n???").unwrap();
    assert_eq!(rem, b"???");
    assert_eq!(
        parsed,
        Command::Mail {
            reverse_path: "userx@y.foo.org".into(),
            parameters: vec![]
        }
    );
}

#[test]
fn command_incomplete_ehlo() {
    assert_eq!(parse_command(b"EHLO exam"), Err(ParseError::Incomplete));
}

#[test]
fn command_incomplete_at_every_prefix() {
    let line = b"MAIL FROM:<a@b.c> SIZE=100\r\n";
    for n in 0..line.len() {
        assert_eq!(parse_command(&line[..n]), Err(ParseError::Incomplete), "prefix {}", n);
    }
}

#[test]
fn command_invalid_verb() {
    assert_eq!(
        parse_command(b"XYZZ\r\n"),
        Err(ParseError::Invalid {
            offset: 0,
            production: Production::Command
        })
    );
}

#[test]
fn command_verbs_ignore_case() {
    let (_, c) = parse_command(b"quit\r\n").unwrap();
    assert_eq!(c, Command::Quit);
    let (_, c) = parse_command(b"StartTLS\r\n").unwrap();
    assert_eq!(c, Command::StartTls);
    let (_, c) = parse_command(b"data\r\n").unwrap();
    assert_eq!(c, Command::Data);
    let (_, c) = parse_command(b"RSET\r\n").unwrap();
    assert_eq!(c, Command::Rset);
}

#[test]
fn command_mail_null_path_and_outlook_space() {
    let (_, c) = parse_command(b"MAIL FROM: <>\r\n").unwrap();
    assert_eq!(
        c,
        Command::Mail {
            reverse_path: "".into(),
            parameters: vec![]
        }
    );
}

#[test]
fn command_mail_parameters() {
    let (_, c) = parse_command(b"MAIL FROM:<a@b.c> size=1000 BODY=8BITMIME SMTPUTF8\r\n").unwrap();
    assert_eq!(
        c,
        Command::Mail {
            reverse_path: "a@b.c".into(),
            parameters: vec![
                Parameter::Size(1000),
                Parameter::Other {
                    keyword: "BODY".into(),
                    value: Some("8BITMIME".into())
                },
                Parameter::Other {
                    keyword: "SMTPUTF8".into(),
                    value: None
                },
            ]
        }
    );
}

#[test]
fn command_size_overflow_is_invalid() {
    let r = parse_command(b"MAIL FROM:<a@b.c> SIZE=4294967296\r\n");
    assert!(matches!(r, Err(ParseError::Invalid { .. })));
    let (_, c) = parse_command(b"MAIL FROM:<a@b.c> SIZE=4294967295\r\n").unwrap();
    assert_eq!(
        c,
        Command::Mail {
            reverse_path: "a@b.c".into(),
            parameters: vec![Parameter::Size(4294967295)]
        }
    );
}

#[test]
fn command_rcpt_postmaster_forms() {
    let (_, c) = parse_command(b"RCPT TO:<Postmaster>\r\n").unwrap();
    assert_eq!(
        c,
        Command::Rcpt {
            forward_path: "Postmaster".into(),
            parameters: vec![]
        }
    );
    let (_, c) = parse_command(b"RCPT TO:<postmaster@example.org>\r\n").unwrap();
    assert_eq!(
        c,
        Command::Rcpt {
            forward_path: "postmaster@example.org".into(),
            parameters: vec![]
        }
    );
    let (_, c) = parse_command(b"RCPT TO:<@relay.org:joe@example.org>\r\n").unwrap();
    assert_eq!(
        c,
        Command::Rcpt {
            forward_path: "@relay.org:joe@example.org".into(),
            parameters: vec![]
        }
    );
}

#[test]
fn command_vrfy_quoted_string() {
    let (_, c) = parse_command(b"VRFY \"a \\\"b\\\\ c\"\r\n").unwrap();
    assert_eq!(
        c,
        Command::Vrfy {
            user_or_mailbox: AtomOrQuoted::Quoted("a \"b\\ c".into())
        }
    );
    let (_, c) = parse_command(b"EXPN staff\r\n").unwrap();
    assert_eq!(
        c,
        Command::Expn {
            mailing_list: AtomOrQuoted::Atom("staff".into())
        }
    );
}

#[test]
fn command_help_and_noop() {
    let (_, c) = parse_command(b"HELP\r\n").unwrap();
    assert_eq!(c, Command::Help { argument: None });
    let (_, c) = parse_command(b"NOOP x\r\n").unwrap();
    assert_eq!(
        c,
        Command::Noop {
            argument: Some(AtomOrQuoted::Atom("x".into()))
        }
    );
}

#[test]
fn command_auth() {
    let (_, c) = parse_command(b"AUTH PLAIN dGVzdAB0ZXN0ADEyMzQ=\r\n").unwrap();
    assert_eq!(
        c,
        Command::AuthPlain {
            initial: Some("dGVzdAB0ZXN0ADEyMzQ=".into())
        }
    );
    let (_, c) = parse_command(b"auth login\r\n").unwrap();
    assert_eq!(c, Command::AuthLogin { initial: None });
}

#[test]
fn command_ipv4_literal_in_mailbox() {
    let (_, c) = parse_command(b"RCPT TO:<joe@[10.0.0.1]>\r\n").unwrap();
    assert_eq!(
        c,
        Command::Rcpt {
            forward_path: "joe@[10.0.0.1]".into(),
            parameters: vec![]
        }
    );
}

#[test]
fn command_general_address_literal() {
    let (_, c) = parse_command(b"EHLO [IPv6:::1]\r\n").unwrap();
    assert_eq!(
        c,
        Command::Ehlo {
            peer: DomainOrAddress::Address("IPv6:::1".into())
        }
    );
}
