use std::hash::{Hash, Hasher};
use twitchrs::client::{Client, SessionState};
use twitchrs::error::ClientError;
use twitchrs::framing::{get_line_end_idx, FrameBuffer};
use twitchrs::message::{parse_message, Message};
use twitchrs::twitch_message::{
    get_name_from_prefix, name_with_first, TwitchBadge, TwitchEmoteRange, TwitchMessage,
    UserColor,
};

fn strings(v: &[&str]) -> Vec<String> {
    v.iter().map(|s| s.to_string()).collect()
}

fn drain(buf: &mut FrameBuffer) -> Vec<Vec<u8>> {
    let mut out = Vec::new();
    while let Some(line) = buf.next_line() {
        out.push(line);
    }
    out
}

#[test]
fn test_get_name_from_prefix() {
    assert_eq!(get_name_from_prefix("name!name@name.tmi.twitch.tv"), String::from("Name"));
}

#[test]
fn name_from_prefix_edges() {
    assert_eq!(get_name_from_prefix(""), String::new());
    assert_eq!(get_name_from_prefix("!user@host"), String::new());
    assert_eq!(get_name_from_prefix("tmi.twitch.tv"), String::from("Tmi.twitch.tv"));
    assert_eq!(get_name_from_prefix("éric!x@y"), String::from("Éric"));
    assert_eq!(name_with_first(String::from("SS"), "ßig"), String::from("SSig"));
}

#[test]
fn line_end_index() {
    assert_eq!(get_line_end_idx(&b"PING\r\nrest".to_vec()), Some(4));
    assert_eq!(get_line_end_idx(&b"PING\r".to_vec()), None);
    assert_eq!(get_line_end_idx(&Vec::new()), None);
    assert_eq!(get_line_end_idx(&b"a\n\r\n".to_vec()), Some(2));
}

#[test]
fn framing_is_independent_of_chunking() {
    let stream = b"PING :a\r\n:x PRIVMSG #c :hi there\r\n\r\nPARTIAL".to_vec();
    let mut whole = FrameBuffer::new();
    whole.feed(&stream);
    let expected = drain(&mut whole);
    assert_eq!(
        expected,
        vec![b"PING :a".to_vec(), b":x PRIVMSG #c :hi there".to_vec(), Vec::new()]
    );
    for size in 1..stream.len() {
        let mut buf = FrameBuffer::new();
        let mut lines = Vec::new();
        for chunk in stream.chunks(size) {
            buf.feed(chunk);
            lines.extend(drain(&mut buf));
        }
        assert_eq!(lines, expected, "chunk size {}", size);
        buf.feed(b"\r\n");
        assert_eq!(buf.next_line(), Some(b"PARTIAL".to_vec()));
    }
}

#[test]
fn framing_drain_keeps_partial_line() {
    let mut buf = FrameBuffer::new();
    buf.feed(b"A\r\nB\r");
    assert_eq!(buf.drain_lines(), vec![b"A".to_vec()]);
    buf.feed(b"\nC");
    assert_eq!(buf.drain_lines(), vec![b"B".to_vec()]);
    assert_eq!(buf.next_line(), None);
}

#[test]
fn parses_tags_source_command_and_params() {
    let line = b"@badges=subscriber/1;display-name=Foo :foo!foo@foo.tmi.twitch.tv PRIVMSG #bar :hello there";
    let m = parse_message(line).unwrap();
    assert_eq!(
        m.tags,
        Some(vec![
            (String::from("badges"), String::from("subscriber/1")),
            (String::from("display-name"), String::from("Foo")),
        ])
    );
    assert_eq!(m.from, Some(String::from("foo!foo@foo.tmi.twitch.tv")));
    assert_eq!(m.cmd, "PRIVMSG");
    assert_eq!(m.args, strings(&["#bar", "hello there"]));
    assert_eq!(m.tag("display-name"), Some(&String::from("Foo")));
    assert_eq!(m.tag("color"), None);
}

#[test]
fn parses_ping_without_tags_or_source() {
    let m = parse_message(b"PING :tmi.twitch.tv").unwrap();
    assert!(m.tags.is_none());
    assert!(m.from.is_none());
    assert_eq!(m.cmd, "PING");
    assert_eq!(m.args, strings(&["tmi.twitch.tv"]));
}

#[test]
fn parse_keeps_trailing_spacing_and_positional_params() {
    let m = parse_message(b"CMD a b :x  y :z ").unwrap();
    assert_eq!(m.args, strings(&["a", "b", "x  y :z "]));
    let m = parse_message(b"CMD").unwrap();
    assert!(m.args.is_empty());
    let m = parse_message(b"CMD a  b").unwrap();
    assert_eq!(m.args, strings(&["a", "", "b"]));
    let m = parse_message(b"CMD ").unwrap();
    assert_eq!(m.args, strings(&[""]));
}

#[test]
fn repeated_tag_key_keeps_last_value_in_first_place() {
    let m = parse_message(b"@a=1;b=2;a=3 CMD").unwrap();
    assert_eq!(
        m.tags,
        Some(vec![
            (String::from("a"), String::from("3")),
            (String::from("b"), String::from("2")),
        ])
    );
    let m = parse_message(b"@k=v=w;e= CMD").unwrap();
    assert_eq!(
        m.tags,
        Some(vec![
            (String::from("k"), String::from("v=w")),
            (String::from("e"), String::new()),
        ])
    );
}

#[test]
fn malformed_lines_are_parsing_errors() {
    let bad: Vec<&[u8]> = vec![
        b"",
        b" PING",
        b"@a=1",
        b"@a CMD",
        b"@=1 CMD",
        b"@ CMD",
        b":source",
        b":source  CMD",
        b"PING \xff",
        b"\xc3",
    ];
    for line in bad {
        match parse_message(line) {
            Err(ClientError::ParsingError) => {}
            other => panic!("{:?} gave {:?}", line, other),
        }
    }
}

#[test]
fn non_ascii_text_is_kept() {
    let m = parse_message("@display-name=Zoë :z PRIVMSG #c :héllo wörld".as_bytes()).unwrap();
    assert_eq!(m.tag("display-name"), Some(&String::from("Zoë")));
    assert_eq!(m.args, strings(&["#c", "héllo wörld"]));
}

#[test]
fn write_then_parse_gives_the_message_back() {
    let m = Message {
        tags: Some(vec![
            (String::from("badges"), String::from("moderator/1")),
            (String::from("color"), String::from("#1E90FF")),
        ]),
        from: Some(String::from("nick!nick@host")),
        cmd: String::from("PRIVMSG"),
        args: strings(&["#chan", "a message  with :colons"]),
        raw: String::from(
            "@badges=moderator/1;color=#1E90FF :nick!nick@host PRIVMSG #chan :a message  with :colons",
        ),
    };
    let line = m.to_line();
    assert_eq!(
        line,
        b"@badges=moderator/1;color=#1E90FF :nick!nick@host PRIVMSG #chan :a message  with :colons"
            .to_vec()
    );
    let back = parse_message(&line).unwrap();
    assert_eq!(back, m);
    assert_eq!(m.to_text(), String::from_utf8(line).unwrap());

    let bare = Message {
        tags: None,
        from: None,
        cmd: String::from("PING"),
        args: Vec::new(),
        raw: String::from("PING"),
    };
    assert_eq!(bare.to_line(), b"PING".to_vec());
    assert_eq!(parse_message(&bare.to_line()).unwrap(), bare);
    let spaced = Message {
        tags: None,
        from: Some(String::new()),
        cmd: String::from("X"),
        args: strings(&["", "a", " "]),
        raw: String::from(": X  a : "),
    };
    assert_eq!(spaced.to_line(), b": X  a : ".to_vec());
    assert_eq!(parse_message(&spaced.to_line()).unwrap(), spaced);
}

#[test]
fn session_handshake_and_sending() {
    let mut c = Client::new();
    assert_eq!(c.state(), SessionState::Disconnected);
    match c.send_raw("PING") {
        Err(ClientError::InvalidStateError(s)) => assert_eq!(s, "Socket not connected"),
        other => panic!("{:?}", other),
    }
    match c.next_message() {
        Err(ClientError::InvalidStateError(_)) => {}
        other => panic!("{:?}", other),
    }
    c.set_login(String::from("me"), String::from("oauth:abc"));
    assert_eq!(
        c.handshake(),
        strings(&["CAP REQ :twitch.tv/commands twitch.tv/tags", "PASS oauth:abc", "NICK me"])
    );
    c.connected();
    assert_eq!(c.send_raw("JOIN #a").unwrap(), b"JOIN #a\r\n".to_vec());
    c.disconnected();
    assert!(c.send_raw("JOIN #a").is_err());
    let d = Client::new();
    assert_eq!(d.handshake()[2], "NICK justinfan457512");
    assert_eq!(d.handshake()[1], "PASS blah");
}

#[test]
fn session_yields_messages_as_lines_complete() {
    let mut c = Client::new();
    c.connected();
    assert!(matches!(c.next_message(), Ok(None)));
    c.receive(b"PING :tmi.tw");
    assert!(matches!(c.next_message(), Ok(None)));
    c.receive(b"itch.tv\r\n\r\n:a PRIVMSG #b :c\r\n");
    let m = c.next_message().unwrap().unwrap();
    assert_eq!(m.cmd, "PING");
    assert_eq!(m.args, strings(&["tmi.twitch.tv"]));
    assert!(matches!(c.next_message(), Err(ClientError::ParsingError)));
    let m = c.next_message().unwrap().unwrap();
    assert_eq!(m.cmd, "PRIVMSG");
    assert!(matches!(c.next_message(), Ok(None)));
    c.closed();
    assert_eq!(c.state(), SessionState::Closed);
    assert_eq!(c.send_raw("X").unwrap(), b"X\r\n".to_vec());
}

#[test]
fn error_texts() {
    assert_eq!(ClientError::ParsingError.to_message(), "ParsingError");
    assert_eq!(ClientError::ParsingError.description(), "Error parsing IRC line");
    let e = ClientError::InvalidStateError("Socket not connected");
    assert_eq!(e.to_message(), "InvalidStateError: Socket not connected");
    assert_eq!(e.description(), "Socket not connected");
    assert!(e.cause().is_none());
    let io = ClientError::from(std::io::Error::new(std::io::ErrorKind::Other, "boom"));
    assert_eq!(io.to_message(), "IOError: boom");
    assert_eq!(io.description(), "boom");
    assert!(io.cause().is_some());
}

#[test]
fn badge_from_str() {
    let b = TwitchBadge::from_str("subscriber/12").unwrap();
    assert_eq!((b.set.as_str(), b.version.as_str()), ("subscriber", "12"));
    let b = TwitchBadge::from_str("a/b/c").unwrap();
    assert_eq!((b.set.as_str(), b.version.as_str()), ("a", "b/c"));
    let b = TwitchBadge::from_str("/").unwrap();
    assert_eq!((b.set.as_str(), b.version.as_str()), ("", ""));
    assert!(TwitchBadge::from_str("premium").is_err());
    assert!(TwitchBadge::from_str("").is_err());
}

#[test]
fn emote_range_from_str() {
    let e = TwitchEmoteRange::from_str("25:0-4,12-16").unwrap();
    assert_eq!(e.id, 25);
    assert_eq!(e.ranges, vec![(0, 4), (12, 16)]);
    let e = TwitchEmoteRange::from_str("+7:+1-2").unwrap();
    assert_eq!((e.id, e.ranges), (7, vec![(1, 2)]));
    let e = TwitchEmoteRange::from_str("18446744073709551615:0-0").unwrap();
    assert_eq!(e.id, u64::MAX);
    for bad in [
        "25",
        "x:0-4",
        "25:0-4,",
        "25:0",
        "25:a-4",
        "25:0-4-5",
        "18446744073709551616:0-0",
        ":0-1",
        "25:-4",
        "-1:0-1",
    ] {
        assert!(TwitchEmoteRange::from_str(bad).is_err(), "{}", bad);
    }
}

#[test]
fn color_from_str() {
    assert_eq!(UserColor::from_str("#1E90FF"), Ok(UserColor(0x1E, 0x90, 0xFF)));
    assert_eq!(UserColor::from_str("#ff7f50"), Ok(UserColor(0xFF, 0x7F, 0x50)));
    assert_eq!(UserColor::from_str("x000000"), Ok(UserColor(0, 0, 0)));
    assert_eq!(UserColor::from_str("#+F+a+0"), Ok(UserColor(15, 10, 0)));
    assert!(UserColor::from_str("#1E90F").is_err());
    assert!(UserColor::from_str("#1E90FF0").is_err());
    assert!(UserColor::from_str("#GG0000").is_err());
    assert!(UserColor::from_str("#-10000").is_err());
    assert!(UserColor::from_str("#€0000").is_err());
    assert!(UserColor::from_str("").is_err());
}

#[test]
fn color_from_hash_and_name() {
    assert_eq!(UserColor::from_hash(0), UserColor(0xFF, 0x00, 0x00));
    assert_eq!(UserColor::from_hash(14), UserColor(0x00, 0xFF, 0x7F));
    assert_eq!(UserColor::from_hash(15 + 11), UserColor(0x1E, 0x90, 0xFF));
    assert_eq!(UserColor::from_hash(u64::MAX), UserColor(0xFF, 0x00, 0x00));
    let mut h = std::collections::hash_map::DefaultHasher::new();
    Hash::hash("someone", &mut h);
    let expected = UserColor::from_hash(Hasher::finish(&h));
    assert_eq!(UserColor::from_name("someone"), expected);
    assert_eq!(UserColor::from_name("someone"), UserColor::from_name("someone"));
}

#[test]
fn privmsg_from_message() {
    let line = b"@badges=subscriber/1,bits/100,bad;color=#FF0000;display-name=;emotes=25:0-4/1902:6-10/bad :foo!foo@foo PRIVMSG #bar :Kappa Keepo";
    let m = parse_message(line).unwrap();
    match TwitchMessage::from(m) {
        TwitchMessage::TwitchPrivmsg(p) => {
            assert_eq!(p.name, "Foo");
            assert_eq!(p.color, UserColor(0xFF, 0, 0));
            assert_eq!(p.to, "#bar");
            assert_eq!(p.message, "Kappa Keepo");
            let badges: Vec<(String, String)> =
                p.badges.iter().map(|b| (b.set.clone(), b.version.clone())).collect();
            assert_eq!(
                badges,
                vec![
                    (String::from("subscriber"), String::from("1")),
                    (String::from("bits"), String::from("100")),
                ]
            );
            let emotes: Vec<(u64, Vec<(usize, usize)>)> =
                p.emotes.iter().map(|e| (e.id, e.ranges.clone())).collect();
            assert_eq!(emotes, vec![(25, vec![(0, 4)]), (1902, vec![(6, 10)])]);
        }
        other => panic!("{:?}", other),
    }
}

#[test]
fn privmsg_without_tags_uses_hashed_color() {
    let m = parse_message(b":a!a@a PRIVMSG #c").unwrap();
    match TwitchMessage::from(m) {
        TwitchMessage::TwitchPrivmsg(p) => {
            assert_eq!(p.name, "");
            assert_eq!(p.color, UserColor::from_name(""));
            assert_eq!(p.to, "#c");
            assert_eq!(p.message, "");
            assert!(p.badges.is_empty() && p.emotes.is_empty());
        }
        other => panic!("{:?}", other),
    }
}

#[test]
fn user_states_from_messages() {
    let m = parse_message(
        b"@badges=;color=bad;display-name=Me;emote-sets=0,33,x,+5;user-id=1234 :tmi GLOBALUSERSTATE",
    )
    .unwrap();
    match TwitchMessage::from(m) {
        TwitchMessage::TwitchGlobalUserState(u) => {
            assert_eq!(u.display_name, "Me");
            assert_eq!(u.emote_sets, vec![0, 33, 5]);
            assert_eq!(u.user_id, 1234);
            assert_eq!(u.color, UserColor::from_name("Me"));
            assert!(u.badges.is_empty());
        }
        other => panic!("{:?}", other),
    }
    let m = parse_message(b"@user-id=nope USERSTATE #chan").unwrap();
    match TwitchMessage::from(m) {
        TwitchMessage::TwitchUserState(chan, u) => {
            assert_eq!(chan, "#chan");
            assert_eq!(u.user_id, 0);
            assert_eq!(u.display_name, "");
            assert!(u.emote_sets.is_empty());
        }
        other => panic!("{:?}", other),
    }
}

#[test]
fn other_commands_keep_their_line() {
    let m = parse_message(b"@a=b :src NOTICE #c :some  text").unwrap();
    match TwitchMessage::from(m) {
        TwitchMessage::Unknown(raw) => assert_eq!(raw, "@a=b :src NOTICE #c :some  text"),
        other => panic!("{:?}", other),
    }
}

#[test]
fn new_session_refuses_with_its_reason() {
    let c = Client::new();
    match c.send_raw("anything") {
        Err(ClientError::InvalidStateError(s)) => assert_eq!(s, "Socket not connected"),
        other => panic!("{:?}", other),
    }
    let mut c = Client::new();
    match c.next_message() {
        Err(ClientError::InvalidStateError(s)) => assert_eq!(s, "Socket not connected"),
        other => panic!("{:?}", other),
    }
}

#[test]
fn session_round_trip_through_the_stream() {
    let m = parse_message(b"@a=1 :n!n@h PRIVMSG #c :two  words").unwrap();
    let mut bytes = m.to_line();
    bytes.extend_from_slice(b"\r\n");
    let mut whole = Client::new();
    whole.connected();
    whole.receive(&bytes);
    let mut split = Client::new();
    split.connected();
    let mut from_split = None;
    for b in &bytes {
        split.receive(&[*b]);
        if let Some(got) = split.next_message().unwrap() {
            from_split = Some(got);
        }
    }
    let from_whole = whole.next_message().unwrap().unwrap();
    assert_eq!(from_whole, m);
    assert_eq!(from_split, Some(m));
    assert!(matches!(whole.next_message(), Ok(None)));
}

#[test]
fn unknown_keeps_the_raw_line() {
    let m = parse_message(b"PING x").unwrap();
    assert_eq!(m.raw, "PING x");
    assert_eq!(m.to_text(), "PING :x");
    match TwitchMessage::from(m) {
        TwitchMessage::Unknown(raw) => assert_eq!(raw, "PING x"),
        other => panic!("{:?}", other),
    }
}

#[test]
fn badges_compare_and_hash_and_events_clone() {
    let a = TwitchBadge::from_str("subscriber/1").unwrap();
    let b = TwitchBadge { set: String::from("subscriber"), version: String::from("1") };
    assert_eq!(a, b);
    assert_ne!(a, TwitchBadge::from_str("subscriber/2").unwrap());
    let mut set = std::collections::HashSet::new();
    set.insert(a.clone());
    assert!(set.contains(&b));
    let m = parse_message(b"@display-name=Me;emote-sets=1,2 GLOBALUSERSTATE").unwrap();
    let event = TwitchMessage::from(m);
    match event.clone() {
        TwitchMessage::TwitchGlobalUserState(u) => {
            assert_eq!(u.display_name, "Me");
            assert_eq!(u.emote_sets, vec![1, 2]);
        }
        other => panic!("{:?}", other),
    }
}
