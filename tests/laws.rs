use smtp_codec::abnf::{is_dcontent, is_obs_NO_WS_CTL, is_obs_qtext, is_qtext, is_qtextSMTP};
use smtp_codec::{
    escape, escape_quoted, parse_command, parse_response, unescape_quoted, AtomOrQuoted,
    Capability, Command, DomainOrAddress, ParseError, ReplyCode, Response, TextString,
};

fn round_trip_command(c: Command) {
    let mut wire = Vec::new();
    c.serialize(&mut wire);
    let (rem, back) = parse_command(&wire).unwrap();
    assert!(rem.is_empty());
    assert_eq!(back, c);
}

fn round_trip_response(r: Response) {
    let mut wire = Vec::new();
    r.serialize(&mut wire);
    let (rem, back) = parse_response(&wire).unwrap();
    assert!(rem.is_empty());
    assert_eq!(back, r);
}

#[test]
fn command_round_trip_examples() {
    round_trip_command(Command::Helo {
        peer: DomainOrAddress::Domain("mail.example.org".into()),
    });
    round_trip_command(Command::Ehlo {
        peer: DomainOrAddress::Address("192.0.2.1".into()),
    });
    round_trip_command(Command::Vrfy {
        user_or_mailbox: AtomOrQuoted::Quoted("John \"J\" \\ Smith".into()),
    });
    round_trip_command(Command::Help {
        argument: Some(AtomOrQuoted::Atom("MAIL".into())),
    });
    round_trip_command(Command::Mail {
        reverse_path: "a.b@c.d".into(),
        parameters: vec![smtp_codec::Parameter::Size(10)],
    });
    round_trip_command(Command::Rcpt {
        forward_path: "Postmaster".into(),
        parameters: vec![],
    });
    round_trip_command(Command::AuthPlain { initial: None });
    round_trip_command(Command::StartTls);
}

#[test]
fn response_round_trip_examples() {
    round_trip_response(Response::greeting("example.org".into(), "ready".into()));
    round_trip_response(Response::greeting("example.org".into(), "".into()));
    round_trip_response(Response::ehlo(
        "example.org".into(),
        Some("hi there".into()),
        vec![Capability::Pipelining, Capability::Size(1000)],
    ));
    round_trip_response(Response::other(ReplyCode::BadSequence, vec![]));
    round_trip_response(Response::other(
        ReplyCode::MailboxUnavailable,
        vec![
            TextString::new("no".to_string()).unwrap(),
            TextString::new("such user".to_string()).unwrap(),
        ],
    ));
}

#[test]
fn quoted_involution() {
    for s in ["", "plain", "a\\b", "say \"hi\"", "\\\\\"\"", " !#~"] {
        assert_eq!(unescape_quoted(&escape_quoted(s)), s);
    }
    assert_eq!(escape_quoted("a\"b\\c"), "a\\\"b\\\\c");
    assert_eq!(unescape_quoted("x\\\\y\\\"z\\q"), "x\\y\"z\\q");
}

#[test]
fn reply_code_bijection() {
    for v in [211u16, 214, 220, 221, 250, 251, 252, 354, 421, 450, 451, 452, 455, 500, 501, 502, 503,
        504, 521, 550, 551, 552, 553, 554, 555]
    {
        let r = ReplyCode::from(v);
        assert!(!matches!(r, ReplyCode::Other(_)));
        assert_eq!(u16::from(r), v);
        assert_eq!(ReplyCode::from(u16::from(r)), r);
    }
    for v in [0u16, 200, 299, 333, 599, 65535] {
        assert_eq!(ReplyCode::from(v), ReplyCode::Other(v));
        assert_eq!(u16::from(ReplyCode::from(v)), v);
    }
    assert!(ReplyCode::ActionOk.is_completed());
    assert!(ReplyCode::StartMailInput.is_accepted());
    assert!(ReplyCode::ServiceNotAvailable.is_temporary_error());
    assert!(ReplyCode::TransactionFailed.is_permanent_error());
    assert!(!ReplyCode::Other(199).is_completed());
}

#[test]
fn no_panic_on_odd_input() {
    let inputs: [&[u8]; 8] = [
        b"",
        b"\xff\xfe\r\n",
        b"MAIL FROM:<\x80@x>\r\n",
        b"EHLO [IPv6:1:2:3:4:5:6:7:8:9]\r\n",
        b"250-\r\n250",
        b"220-\xff\r\n",
        b"RCPT TO:<@a,@b,@c:d@e> SIZE=\r\n",
        b"AUTH LOGIN ==\r\n",
    ];
    for input in inputs.iter() {
        let _ = parse_command(input);
        let _ = parse_response(input);
    }
}

#[test]
fn streaming_prefixes_of_a_reply() {
    let input = b"250-example.org hi\r\n250-SIZE 100\r\n250 STARTTLS\r\n";
    let (rem, _) = parse_response(input).unwrap();
    assert!(rem.is_empty());
    for n in 0..input.len() {
        match parse_response(&input[..n]) {
            Err(ParseError::Incomplete) => {}
            Ok((rem, _)) => assert!(input[n - rem.len()..].starts_with(rem)),
            Err(e) => panic!("prefix {} gave {:?}", n, e),
        }
    }
}

#[test]
fn debug_escape_of_bytes() {
    assert_eq!(escape(b"a\tb\r\n\\\x00\x7f\xff"), "a\\tb\\r\\n\n\\\\\\x00\\x7f\\xff");
    assert_eq!(escape(b""), "");
}

#[test]
fn ipv6_literals() {
    for lit in [
        "IPv6:1:2:3:4:5:6:7:8",
        "IPv6:::1",
        "IPv6:fe80::1",
        "IPv6:1:2:3:4:5:6:1.2.3.4",
        "IPv6:::ffff:1.2.3.4",
    ] {
        let line = format!("EHLO [{}]\r\n", lit);
        let (rem, c) = parse_command(line.as_bytes()).unwrap();
        assert!(rem.is_empty());
        assert_eq!(
            c,
            Command::Ehlo {
                peer: DomainOrAddress::Address(lit.into())
            }
        );
    }
}

#[test]
fn greeting_serialization_multi_line() {
    let mut out = Vec::new();
    Response::greeting("example.org".into(), "A\nB\nC".into()).serialize(&mut out);
    assert_eq!(out, b"220-example.org A\r\n220-B\r\n220 C\r\n");
}

#[test]
fn return_path_lines() {
    let (rem, p) = smtp_codec::parse_return_path_line(b"Return-Path: <a@b.c>\r\nX").unwrap();
    assert_eq!(rem, b"X");
    assert_eq!(p, "a@b.c");
    let (_, p) = smtp_codec::parse_return_path_line(b"return-path:\r\n <>\r\n").unwrap();
    assert_eq!(p, "");
    assert_eq!(
        smtp_codec::parse_return_path_line(b"Return-Path:"),
        Err(ParseError::Incomplete)
    );
    assert!(smtp_codec::parse_return_path_line(b"Return-Path:<a@b.c>\r\n").is_err());
}

#[test]
fn byte_classes() {
    assert!(is_qtextSMTP(b' ') && is_qtextSMTP(b'!') && !is_qtextSMTP(b'"') && !is_qtextSMTP(b'\\'));
    assert!(is_dcontent(b'!') && !is_dcontent(b'[') && !is_dcontent(b'\\') && !is_dcontent(b']'));
    assert!(is_qtext(b'!') && !is_qtext(b' ') && is_qtext(0x01) && !is_qtext(b'"'));
    assert!(is_obs_NO_WS_CTL(0x7f) && !is_obs_NO_WS_CTL(b'\t') && !is_obs_NO_WS_CTL(0x0d));
    assert!(is_obs_qtext(0x0b) && !is_obs_qtext(b'a'));
}

#[test]
fn no_panic_on_generated_input() {
    let alphabet: &[u8] = b"HELOMAIFRCPT:<>@.[]-= \r\n0123456789\"\\abcz\t\xff";
    let mut state: u64 = 0x2545F4914F6CDD1D;
    for _ in 0..20000 {
        state ^= state << 13;
        state ^= state >> 7;
        state ^= state << 17;
        let len = (state % 24) as usize;
        let mut input = Vec::with_capacity(len);
        let mut x = state;
        for _ in 0..len {
            x = x.wrapping_mul(6364136223846793005).wrapping_add(1442695040888963407);
            input.push(alphabet[((x >> 33) as usize) % alphabet.len()]);
        }
        if let Ok((rem, c)) = parse_command(&input) {
            assert!(rem.len() < input.len());
            let mut wire = Vec::new();
            c.serialize(&mut wire);
        }
        let _ = parse_response(&input);
    }
}

#[test]
fn received_lines() {
    let input = b"Received: from bar.com by foo.com ; Thu, 21 May 1998\r\n    05:33:29 -0700\r\nDate: x\r\n";
    let (rem, stamp) = smtp_codec::parse_received_line(input).unwrap();
    assert_eq!(rem, b"Date: x\r\n");
    assert_eq!(stamp, "from bar.com by foo.com ; Thu, 21 May 1998\r\n    05:33:29 -0700");

    let input = b"Received: from a.example (b.example [192.0.2.1]) by c.example with ESMTP id abc123 for <x@y.z>; Mon, 1 Jan 2024 10:00:00 +0000\r\nX";
    let (rem, stamp) = smtp_codec::parse_received_line(input).unwrap();
    assert_eq!(rem, b"X");
    assert!(stamp.starts_with("from a.example (b.example [192.0.2.1]) by c.example"));

    let input = b"Received: from x.y by z.w id <1.2@host> ; 1 Jan 2024 10:00 -0100\r\nX";
    assert!(smtp_codec::parse_received_line(input).is_ok());

    assert_eq!(
        smtp_codec::parse_received_line(b"Received: from bar.com by foo.com ; Thu, 21 May"),
        Err(ParseError::Incomplete)
    );
    assert!(matches!(
        smtp_codec::parse_received_line(b"Received: from x (comment) by y ; 1 Jan 2024 10:00 +0000\r\nX"),
        Err(ParseError::Invalid { .. })
    ));
    assert!(matches!(
        smtp_codec::parse_received_line(b"Received: from x by y ; 1 Foo 2024 10:00 +0000\r\nX"),
        Err(ParseError::Invalid { .. })
    ));
}

#[test]
fn month_names() {
    for m in ["Jan", "feb", "MAR", "Dec"] {
        let line = format!("{} ", m);
        assert_eq!(smtp_codec::trace::month(line.as_bytes(), 0), Ok(3));
    }
    assert_eq!(smtp_codec::trace::month(b"Ja", 0), Err(ParseError::Incomplete));
    assert!(smtp_codec::trace::month(b"Jux", 0).is_err());
}

#[test]
fn empty_auth_capability_round_trip() {
    let mut wire = Vec::new();
    Capability::Auth(vec![]).serialize(&mut wire);
    wire.extend_from_slice(b"\r\n");
    let (rem, c) = smtp_codec::replies::ehlo_line(&wire).unwrap();
    assert_eq!(rem, b"\r\n");
    assert_eq!(c, Capability::Auth(vec![]));
    round_trip_response(Response::ehlo("example.org".into(), None, vec![Capability::Auth(vec![])]));
}

#[test]
fn unescape_non_ascii() {
    assert_eq!(unescape_quoted("héllo wörld"), "héllo wörld");
    assert_eq!(unescape_quoted("é\\\"ü"), "é\"ü");
    assert_eq!(escape_quoted("ü\"\\"), "ü\\\"\\\\");
    assert_eq!(unescape_quoted(&escape_quoted("ünï \"q\" \\")), "ünï \"q\" \\");
}
