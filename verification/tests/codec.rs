use irc::conn::frame::frame_command;
use irc::conn::{Command, Line};

fn b(s: &str) -> Vec<u8> {
    s.as_bytes().to_vec()
}

fn verb(s: &str) -> Command {
    Command::IRCCmd(s.to_string())
}

fn line(prefix: Option<&str>, command: Command, args: &[&str]) -> Line {
    Line { prefix: prefix.map(b), command, args: args.iter().map(|a| b(a)).collect() }
}

/// Parses `raw`, compares the result with `exp`, and writes it out again.
fn accepts(raw: &str, exp: Line, written: &str) {
    let parsed = Line::parse(raw.as_bytes());
    assert!(parsed.is_some());
    let parsed = parsed.unwrap();
    assert_eq!(parsed.prefix, exp.prefix);
    assert_eq!(parsed.command, exp.command);
    assert_eq!(parsed.args, exp.args);
    assert_eq!(parsed.to_raw(), b(written));
}

fn rejects(raw: &[u8]) {
    assert_eq!(Line::parse(raw), None);
}

#[test]
fn parse_line() {
    let raw = ":sendak.freenode.net 001 asldfkj :Welcome to the freenode Internet \
            Relay Chat Network asldfkj";
    accepts(
        raw,
        line(
            Some("sendak.freenode.net"),
            Command::IRCCode(1),
            &["asldfkj", "Welcome to the freenode Internet Relay Chat Network asldfkj"],
        ),
        raw,
    );
    accepts(
        "004 asdf :This is a test",
        line(None, Command::IRCCode(4), &["asdf", "This is a test"]),
        "004 asdf :This is a test",
    );
    accepts(
        ":nick!user@host.com PRIVMSG #channel :Some message",
        line(Some("nick!user@host.com"), verb("PRIVMSG"), &["#channel", "Some message"]),
        ":nick!user@host.com PRIVMSG #channel :Some message",
    );
    rejects(b" :sendak.freenode.net 001 asdf :Test");
    rejects(b":sendak  001 asdf :Test");
    accepts("004", line(None, Command::IRCCode(4), &[]), "004");
    accepts(
        ":bob!user@host.com PRIVMSG #channel :\x01ACTION does some stuff",
        line(Some("bob!user@host.com"), Command::IRCAction(b("#channel")), &["does some stuff"]),
        ":bob!user@host.com PRIVMSG #channel :\x01ACTION does some stuff\x01",
    );
    accepts(
        ":bob!user@host.com PRIVMSG #channel :\x01VERSION\x01",
        line(Some("bob!user@host.com"), Command::IRCCTCP(b("VERSION"), b("#channel")), &[]),
        ":bob!user@host.com PRIVMSG #channel :\x01VERSION\x01",
    );
    accepts(
        ":bob NOTICE #frobnitz :\x01RESPONSE to whatever\x01",
        line(Some("bob"), Command::IRCCTCPReply(b("RESPONSE"), b("#frobnitz")), &["to whatever"]),
        ":bob NOTICE #frobnitz :\x01RESPONSE to whatever\x01",
    );
    rejects(":bob föo".as_bytes());
    rejects(b":bob f23");
}

#[test]
fn numeric_codes_are_padded_to_three_digits() {
    assert_eq!(line(None, Command::IRCCode(4), &[]).to_raw(), b("004"));
    assert_eq!(line(None, Command::IRCCode(1), &[]).to_raw(), b("001"));
    assert_eq!(line(None, Command::IRCCode(0), &[]).to_raw(), b("000"));
    assert_eq!(line(None, Command::IRCCode(42), &[]).to_raw(), b("042"));
    assert_eq!(line(None, Command::IRCCode(433), &[]).to_raw(), b("433"));
    assert_eq!(line(None, Command::IRCCode(999), &[]).to_raw(), b("999"));
}

#[test]
fn numeric_code_of_four_digits_is_written_whole() {
    assert_eq!(line(None, Command::IRCCode(1000), &[]).to_raw(), b("1000"));
    assert_eq!(line(None, Command::IRCCode(65535), &["x"]).to_raw(), b("65535 x"));
}

#[test]
fn numeric_code_is_read_from_its_digits() {
    assert_eq!(Line::parse(b"000").unwrap().command, Command::IRCCode(0));
    assert_eq!(Line::parse(b"042").unwrap().command, Command::IRCCode(42));
    assert_eq!(Line::parse(b"437 x").unwrap().command, Command::IRCCode(437));
    assert_eq!(Line::parse(b"999").unwrap().command, Command::IRCCode(999));
}

#[test]
fn last_argument_takes_a_colon_only_with_a_space() {
    assert_eq!(line(None, verb("PRIVMSG"), &["#c", "two words"]).to_raw(), b("PRIVMSG #c :two words"));
    assert_eq!(line(None, verb("PRIVMSG"), &["#c", "word"]).to_raw(), b("PRIVMSG #c word"));
    assert_eq!(line(None, verb("JOIN"), &["#c"]).to_raw(), b("JOIN #c"));
    assert_eq!(line(None, verb("QUIT"), &["bye now"]).to_raw(), b("QUIT :bye now"));
    assert_eq!(line(None, verb("QUIT"), &[" "]).to_raw(), b("QUIT : "));
}

#[test]
fn prefix_is_written_behind_a_colon() {
    assert_eq!(line(Some("srv"), verb("PING"), &["x"]).to_raw(), b(":srv PING x"));
    assert_eq!(line(Some(""), verb("PING"), &[]).to_raw(), b(": PING"));
    accepts(": PING", line(Some(""), verb("PING"), &[]), ": PING");
}

#[test]
fn ctcp_action_round_trips_with_its_terminator() {
    let raw = ":bob!user@host.com PRIVMSG #channel :\x01ACTION does some stuff\x01";
    let parsed = Line::parse(raw.as_bytes()).unwrap();
    assert_eq!(parsed.prefix, Some(b("bob!user@host.com")));
    assert_eq!(parsed.command, Command::IRCAction(b("#channel")));
    assert_eq!(parsed.args, vec![b("does some stuff")]);
    assert_eq!(parsed.to_raw(), b(raw));
}

#[test]
fn ctcp_query_without_arguments() {
    let parsed = Line::parse(b":bob!user@host.com PRIVMSG #channel :\x01VERSION\x01").unwrap();
    assert_eq!(parsed.command, Command::IRCCTCP(b("VERSION"), b("#channel")));
    assert_eq!(parsed.args, Vec::<Vec<u8>>::new());
}

#[test]
fn ctcp_without_closing_delimiter_is_tolerated() {
    let parsed = Line::parse(b"PRIVMSG #c :\x01PING 123").unwrap();
    assert_eq!(parsed.command, Command::IRCCTCP(b("PING"), b("#c")));
    assert_eq!(parsed.args, vec![b("123")]);
    assert_eq!(parsed.to_raw(), b("PRIVMSG #c :\x01PING 123\x01"));
    let lone = Line::parse(b"NOTICE #c :\x01").unwrap();
    assert_eq!(lone.command, Command::IRCCTCPReply(b(""), b("#c")));
    assert_eq!(lone.args, Vec::<Vec<u8>>::new());
}

#[test]
fn ctcp_needs_a_destination_before_the_payload() {
    let parsed = Line::parse(b"PRIVMSG :\x01ACTION waves\x01").unwrap();
    assert_eq!(parsed.command, verb("PRIVMSG"));
    assert_eq!(parsed.args, vec![b("\x01ACTION waves\x01")]);
}

#[test]
fn ctcp_is_looked_for_under_privmsg_and_notice_only() {
    let parsed = Line::parse(b"TOPIC #c :\x01ACTION waves\x01").unwrap();
    assert_eq!(parsed.command, verb("TOPIC"));
    assert_eq!(parsed.args, vec![b("#c"), b("\x01ACTION waves\x01")]);
    let reply = Line::parse(b"NOTICE #c :\x01ACTION waves\x01").unwrap();
    assert_eq!(reply.command, Command::IRCCTCPReply(b("ACTION"), b("#c")));
    assert_eq!(reply.args, vec![b("waves")]);
}

#[test]
fn ctcp_arguments_are_joined_by_spaces() {
    let action = line(None, Command::IRCAction(b("#c")), &["does", "some", "stuff"]);
    assert_eq!(action.to_raw(), b("PRIVMSG #c :\x01ACTION does some stuff\x01"));
    let query = line(None, Command::IRCCTCP(b("PING"), b("bob")), &[]);
    assert_eq!(query.to_raw(), b("PRIVMSG bob :\x01PING\x01"));
    let reply = line(Some("me"), Command::IRCCTCPReply(b("PING"), b("bob")), &["42"]);
    assert_eq!(reply.to_raw(), b(":me NOTICE bob :\x01PING 42\x01"));
}

#[test]
fn rejected_lines() {
    rejects(b" :sendak.freenode.net 001 asdf :Test");
    rejects(b" PING");
    rejects(b":sendak  001 asdf :Test");
    rejects(b":bob f23");
    rejects(b"0x1");
    rejects(b"12");
    rejects(b"1234");
    rejects(":bob föo".as_bytes());
    rejects(b"PI\xffNG");
    rejects(b"PING! x");
}

#[test]
fn line_without_a_command_is_rejected() {
    rejects(b"");
    rejects(b":prefix");
    rejects(b":prefix ");
    rejects(b":");
}

#[test]
fn verb_is_kept_as_it_is_spelt() {
    let parsed = Line::parse(b"Ping abc").unwrap();
    assert_eq!(parsed.command, Command::IRCCmd("Ping".to_string()));
    assert_eq!(parsed.args, vec![b("abc")]);
    assert_eq!(Line::parse(b"z").unwrap().command, verb("z"));
    assert_eq!(Line::parse(b"AZaz").unwrap().command, verb("AZaz"));
    rejects(b"A[");
    rejects(b"@A");
    rejects(b"a{");
    rejects(b"`a");
}

#[test]
fn arguments_are_split_at_single_spaces() {
    let parsed = Line::parse(b"MODE a  b ").unwrap();
    assert_eq!(parsed.args, vec![b("a"), b(""), b("b")]);
    let trailing = Line::parse(b"MODE a :b c :d").unwrap();
    assert_eq!(trailing.args, vec![b("a"), b("b c :d")]);
    let empty = Line::parse(b"MODE a :").unwrap();
    assert_eq!(empty.args, vec![b("a"), b("")]);
    let none = Line::parse(b"MODE ").unwrap();
    assert_eq!(none.args, Vec::<Vec<u8>>::new());
}

#[test]
fn well_formed_lines_round_trip() {
    let lines = vec![
        line(None, verb("PING"), &[]),
        line(Some("irc.example.net"), verb("PONG"), &["a", "b c"]),
        line(Some("n!u@h"), verb("PRIVMSG"), &["#chan", "hello"]),
        line(None, verb("MODE"), &["#chan", "", "+o", "bob"]),
        line(None, Command::IRCCode(7), &["me", "some text here"]),
        line(Some("srv"), Command::IRCCode(433), &["*", "nick", "Nickname is already in use"]),
        line(Some("bob"), Command::IRCAction(b("#chan")), &["waves at you"]),
        line(Some("bob"), Command::IRCAction(b("#chan")), &[]),
        line(None, Command::IRCCTCP(b("VERSION"), b("alice")), &[]),
        line(None, Command::IRCCTCP(b("PING"), b("")), &["1 2 3"]),
        line(None, Command::IRCCTCPReply(b("ACTION"), b("alice")), &[""]),
    ];
    for l in lines {
        assert_eq!(Line::parse(&l.to_raw()), Some(l));
    }
}

#[test]
fn long_command_is_cut_to_512_bytes() {
    let args = vec![b'x'; 600];
    let sent = frame_command(&verb("PRIVMSG"), &args);
    assert_eq!(sent.len(), 512);
    let mut expected = b("PRIVMSG ");
    expected.extend(vec![b'x'; 502]);
    expected.extend(b("\r\n"));
    assert_eq!(sent, expected);
}

#[test]
fn command_that_fits_is_sent_whole() {
    assert_eq!(frame_command(&verb("NICK"), b"bob"), b("NICK bob\r\n"));
    assert_eq!(frame_command(&verb("QUIT"), b""), b("QUIT\r\n"));
    assert_eq!(frame_command(&Command::IRCCode(4), b"a :b c"), b("004 a :b c\r\n"));
    assert_eq!(
        frame_command(&Command::IRCAction(b("#c")), b"waves"),
        b("PRIVMSG #c :\x01ACTION waves\x01\r\n")
    );
    assert_eq!(
        frame_command(&Command::IRCCTCP(b("VERSION"), b("bob")), b""),
        b("PRIVMSG bob :\x01VERSION\x01\r\n")
    );
    assert_eq!(
        frame_command(&Command::IRCCTCPReply(b("PING"), b("bob")), b"42"),
        b("NOTICE bob :\x01PING 42\x01\r\n")
    );
}

#[test]
fn body_of_exactly_510_bytes_is_not_cut() {
    let args = vec![b'y'; 505];
    let sent = frame_command(&verb("NICK"), &args);
    assert_eq!(sent.len(), 512);
    assert_eq!(&sent[..5], b"NICK ");
    assert_eq!(&sent[5..510], &args[..]);
    assert_eq!(&sent[510..], b"\r\n");
    let shorter = frame_command(&verb("NICK"), &args[..504]);
    assert_eq!(shorter.len(), 511);
}

#[test]
fn closing_delimiter_is_dropped_where_no_room_is_left() {
    let head = "PRIVMSG #c :\x01ACTION ".len();
    let fits = vec![b'z'; 509 - head];
    let sent = frame_command(&Command::IRCAction(b("#c")), &fits);
    assert_eq!(sent.len(), 512);
    assert_eq!(sent[509], 0x01);
    let full = vec![b'z'; 510 - head];
    let sent = frame_command(&Command::IRCAction(b("#c")), &full);
    assert_eq!(sent.len(), 512);
    assert_eq!(sent[509], b'z');
    assert_eq!(&sent[510..], b"\r\n");
}

#[test]
fn long_destination_is_cut_too() {
    let dst = vec![b'd'; 700];
    let sent = frame_command(&Command::IRCCTCP(b("PING"), dst), b"1");
    assert_eq!(sent.len(), 512);
    assert_eq!(&sent[..8], b"PRIVMSG ");
    assert!(sent[8..510].iter().all(|&c| c == b'd'));
    assert_eq!(&sent[510..], b"\r\n");
}

#[test]
fn is_ctcp_tells_the_three_forms() {
    assert!(Command::IRCAction(b("#c")).is_ctcp());
    assert!(Command::IRCCTCP(b("PING"), b("#c")).is_ctcp());
    assert!(Command::IRCCTCPReply(b("PING"), b("#c")).is_ctcp());
    assert!(!verb("PRIVMSG").is_ctcp());
    assert!(!Command::IRCCode(1).is_ctcp());
}
