use irc::conn::handlers::handle_line;
use irc::conn::handlers::handshake::{mutate, ERR_NICKNAMEINUSE, RPL_WELCOME};
use irc::conn::handlers::normal::{connect_args, PING};
use irc::conn::run::chomp;
use irc::conn::{Command, Conn, DefaultPort, Event, IpAddr, Line, Options, OptionsHost};

fn b(s: &str) -> Vec<u8> {
    s.as_bytes().to_vec()
}

fn session() -> Conn<'static> {
    Conn::new(Options::new("irc.example.net", DefaultPort))
}

fn code(n: usize, args: &[&str]) -> Line {
    Line { prefix: None, command: Command::IRCCode(n), args: args.iter().map(|a| b(a)).collect() }
}

#[test]
fn options_have_default_names() {
    let opts = Options::new("irc.example.net", 6667);
    assert_eq!(opts.host, OptionsHost::Host("irc.example.net"));
    assert_eq!(opts.port, 6667);
    assert_eq!(opts.nick, "ircnick");
    assert_eq!(opts.user, "ircuser");
    assert_eq!(DefaultPort, 6667);
}

#[test]
fn new_session_is_not_logged_in() {
    let mut conn = session();
    assert!(!conn.logged_in());
    assert_eq!(conn.nick(), b"ircnick");
    assert_eq!(conn.user(), "ircuser");
    assert_eq!(conn.host(), OptionsHost::Host("irc.example.net"));
    assert!(conn.take_outbox().is_empty());
}

#[test]
fn session_keeps_a_literal_address() {
    let mut opts = Options::new("unused", 6697);
    opts.host = OptionsHost::Addr(IpAddr::Ipv4Addr(127, 0, 0, 1));
    opts.nick = "me";
    let conn = Conn::new(opts);
    assert_eq!(conn.host(), OptionsHost::Addr(IpAddr::Ipv4Addr(127, 0, 0, 1)));
    assert_eq!(conn.nick(), b"me");
}

#[test]
fn sent_commands_wait_in_their_order() {
    let mut conn = session();
    conn.send_command(Command::IRCCmd("JOIN".to_string()), b"#chan");
    conn.set_nick(b("bob"));
    conn.quit();
    assert_eq!(conn.nick(), b"bob");
    assert_eq!(conn.take_outbox(), vec![b("JOIN #chan\r\n"), b("NICK bob\r\n"), b("QUIT\r\n")]);
    assert!(conn.take_outbox().is_empty());
    assert_eq!(conn.nick(), b"bob");
}

#[test]
fn sent_command_is_cut_to_512_bytes() {
    let mut conn = session();
    conn.send_command(Command::IRCCmd("PRIVMSG".to_string()), &vec![b'x'; 1000]);
    let out = conn.take_outbox();
    assert_eq!(out.len(), 1);
    assert_eq!(out[0].len(), 512);
    assert_eq!(&out[0][..8], b"PRIVMSG ");
    assert_eq!(&out[0][510..], b"\r\n");
}

#[test]
fn chomp_takes_one_terminator_off() {
    let mut s = b("PING x\r\n");
    chomp(&mut s);
    assert_eq!(s, b("PING x"));
    let mut s = b("PING x\n");
    chomp(&mut s);
    assert_eq!(s, b("PING x"));
    let mut s = b("PING x\r");
    chomp(&mut s);
    assert_eq!(s, b("PING x\r"));
    let mut s = b("PING x\n\n");
    chomp(&mut s);
    assert_eq!(s, b("PING x\n"));
    let mut s = b("\n");
    chomp(&mut s);
    assert_eq!(s, b(""));
    let mut s = b("");
    chomp(&mut s);
    assert_eq!(s, b(""));
}

#[test]
fn nick_mutation_ends_in_quit() {
    let mut nick = b("a___");
    assert!(mutate(&mut nick));
    assert_eq!(nick, b("____"));
    assert!(!mutate(&mut nick));
    assert_eq!(nick, b("____"));

    let mut nick = b("ab_c");
    assert!(mutate(&mut nick));
    assert_eq!(nick, b("ab__"));
    assert!(mutate(&mut nick));
    assert_eq!(nick, b("a___"));
    assert!(mutate(&mut nick));
    assert_eq!(nick, b("____"));
    assert!(!mutate(&mut nick));

    let mut empty = b("");
    assert!(!mutate(&mut empty));
}

#[test]
fn refused_nick_is_mutated_until_none_is_left() {
    let mut conn = session();
    conn.set_nick(b("a_"));
    conn.take_outbox();
    handle_line(&mut conn, &code(433, &[]));
    assert_eq!(conn.nick(), b"__");
    assert_eq!(conn.take_outbox(), vec![b("NICK __\r\n")]);
    handle_line(&mut conn, &code(433, &[]));
    assert_eq!(conn.nick(), b"__");
    assert_eq!(conn.take_outbox(), vec![b("QUIT\r\n")]);
    assert!(!conn.logged_in());
}

#[test]
fn refused_nick_is_taken_from_the_line() {
    for n in [432, 433, 436, 437] {
        let mut conn = session();
        handle_line(&mut conn, &code(n, &["bob", "Nickname is already in use"]));
        assert_eq!(conn.nick(), b"bo_");
        assert_eq!(conn.take_outbox(), vec![b("NICK bo_\r\n")]);
    }
    let mut conn = session();
    ERR_NICKNAMEINUSE(&mut conn, &code(433, &[]));
    assert_eq!(conn.nick(), b"ircnic_");
    assert_eq!(conn.take_outbox(), vec![b("NICK ircnic_\r\n")]);
}

#[test]
fn other_codes_change_nothing_before_login() {
    let mut conn = session();
    handle_line(&mut conn, &code(431, &["bob"]));
    handle_line(&mut conn, &code(2, &["bob"]));
    handle_line(&mut conn, &code(434, &["bob"]));
    assert!(!conn.logged_in());
    assert_eq!(conn.nick(), b"ircnick");
    assert!(conn.take_outbox().is_empty());
}

#[test]
fn welcome_logs_in_and_confirms_the_nick() {
    let mut conn = session();
    handle_line(&mut conn, &code(1, &["bob", "Welcome"]));
    assert!(conn.logged_in());
    assert_eq!(conn.nick(), b"bob");
    assert!(conn.take_outbox().is_empty());

    let mut conn = session();
    RPL_WELCOME(&mut conn, &code(1, &[]));
    assert!(conn.logged_in());
    assert_eq!(conn.nick(), b"ircnick");
}

#[test]
fn handshake_is_over_after_login() {
    let mut conn = session();
    handle_line(&mut conn, &code(1, &["bob"]));
    handle_line(&mut conn, &code(433, &["bob"]));
    handle_line(&mut conn, &code(1, &["alice"]));
    assert!(conn.logged_in());
    assert_eq!(conn.nick(), b"bob");
    assert!(conn.take_outbox().is_empty());
}

#[test]
fn ping_is_answered_in_any_state() {
    let ping = Line::parse(b"PING a :b c").unwrap();
    let mut conn = session();
    handle_line(&mut conn, &ping);
    assert_eq!(conn.take_outbox(), vec![b("PONG a b c\r\n")]);
    handle_line(&mut conn, &code(1, &[]));
    handle_line(&mut conn, &ping);
    assert_eq!(conn.take_outbox(), vec![b("PONG a b c\r\n")]);
    let bare = Line::parse(b"PING").unwrap();
    PING(&mut conn, &bare);
    assert_eq!(conn.take_outbox(), vec![b("PONG\r\n")]);
    let lower = Line::parse(b"ping x").unwrap();
    handle_line(&mut conn, &lower);
    assert!(conn.take_outbox().is_empty());
}

#[test]
fn arguments_are_connected_by_single_spaces() {
    assert_eq!(connect_args(&vec![]), b(""));
    assert_eq!(connect_args(&vec![b("a")]), b("a"));
    assert_eq!(connect_args(&vec![b("a"), b("b c"), b("")]), b("a b c "));
}

#[test]
fn no_line_is_handed_on_before_the_welcome() {
    let mut conn = session();
    assert_eq!(conn.receive(b":srv NOTICE * :*** Looking up your hostname\r\n"), None);
    assert_eq!(conn.receive(b":bob PRIVMSG #chan :hello\r\n"), None);
    assert_eq!(conn.receive(b"PING :abc\r\n"), None);
    assert_eq!(conn.take_outbox(), vec![b("PONG abc\r\n")]);
    assert!(!conn.logged_in());

    let welcome = conn.receive(b":srv 001 ircnick :Welcome\r\n");
    assert_eq!(
        welcome,
        Some(Event::LineReceived(Line {
            prefix: Some(b("srv")),
            command: Command::IRCCode(1),
            args: vec![b("ircnick"), b("Welcome")],
        }))
    );
    assert!(conn.logged_in());

    let said = conn.receive(b":bob PRIVMSG #chan :hello\n");
    assert_eq!(
        said,
        Some(Event::LineReceived(Line {
            prefix: Some(b("bob")),
            command: Command::IRCCmd("PRIVMSG".to_string()),
            args: vec![b("#chan"), b("hello")],
        }))
    );
    let ping = conn.receive(b"PING :abc\r\n");
    assert!(ping.is_some());
    assert_eq!(conn.take_outbox(), vec![b("PONG abc\r\n")]);
}

#[test]
fn unparseable_line_is_dropped() {
    let mut conn = session();
    conn.receive(b"001\r\n");
    assert!(conn.logged_in());
    assert_eq!(conn.receive(b"\r\n"), None);
    assert_eq!(conn.receive(b" 001\r\n"), None);
    assert_eq!(conn.receive(b":bob f23\r\n"), None);
    assert!(conn.logged_in());
    assert!(conn.take_outbox().is_empty());
    assert!(conn.receive(b"002").is_some());
}

#[test]
fn run_gives_the_events_in_their_order() {
    let mut conn = session();
    let lines = vec![
        b(":srv NOTICE * :hi\r\n"),
        b(":srv 433 * ircnick :Nickname is already in use\r\n"),
        b("garbage line 1\r\n"),
        b(":srv 001 ircnic_ :Welcome\r\n"),
        b("PING :x\r\n"),
        b(":srv 433 * ircnic_ :late\r\n"),
    ];
    let events = conn.run(&lines);
    assert_eq!(events.len(), 3);
    assert_eq!(events[0], Event::LineReceived(Line::parse(b":srv 001 ircnic_ :Welcome").unwrap()));
    assert_eq!(events[1], Event::LineReceived(Line::parse(b"PING :x").unwrap()));
    assert_eq!(events[2], Event::LineReceived(Line::parse(b":srv 433 * ircnic_ :late").unwrap()));
    assert_eq!(conn.nick(), b"ircnic_");
    assert_eq!(conn.take_outbox(), vec![b("NICK _\r\n"), b("PONG x\r\n")]);
    assert!(conn.run(&vec![]).is_empty());
}
