use irc::User;

#[test]
fn test_user_new() {
    let user = User::new(b"nick", Some(b"user"), Some(b"host"));
    assert_eq!(user.raw(), b"nick!user@host");
    assert_eq!(user.nick(), b"nick");
    assert_eq!(user.user(), Some(&b"user"[..]));
    assert_eq!(user.host(), Some(&b"host"[..]));

    let user = User::new(b"nick", Some(b"user"), None);
    assert_eq!(user.raw(), b"nick!user");
    assert_eq!(user.nick(), b"nick");
    assert_eq!(user.user(), Some(&b"user"[..]));
    assert_eq!(user.host(), None);

    let user = User::new(b"nick", None, Some(b"host"));
    assert_eq!(user.raw(), b"nick@host");
    assert_eq!(user.nick(), b"nick");
    assert_eq!(user.user(), None);
    assert_eq!(user.host(), Some(&b"host"[..]));

    let user = User::new(b"nick", None, None);
    assert_eq!(user.raw(), b"nick");
    assert_eq!(user.nick(), b"nick");
    assert_eq!(user.user(), None);
    assert_eq!(user.host(), None);
}

#[test]
fn test_user_parse() {
    let user = User::parse(b"bob!fred@joe.com");
    assert_eq!(user.nick(), b"bob");
    assert_eq!(user.user(), Some(&b"fred"[..]));
    assert_eq!(user.host(), Some(&b"joe.com"[..]));

    let user = User::parse(b"frob@whatever");
    assert_eq!(user.nick(), b"frob");
    assert_eq!(user.user(), None);
    assert_eq!(user.host(), Some(&b"whatever"[..]));

    let user = User::parse(b"foo!baz");
    assert_eq!(user.nick(), b"foo");
    assert_eq!(user.user(), Some(&b"baz"[..]));
    assert_eq!(user.host(), None);

    let user = User::parse(b"frobnitz");
    assert_eq!(user.nick(), b"frobnitz");
    assert_eq!(user.user(), None);
    assert_eq!(user.host(), None);

    let user = User::parse(b"host.ircserver.com");
    assert_eq!(user.nick(), b"host.ircserver.com");
    assert_eq!(user.user(), None);
    assert_eq!(user.host(), None);
}

#[test]
fn user_marks_inside_the_parts_count_as_marks() {
    let user = User::new(b"foo!bar", None, Some(b"host"));
    assert_eq!(user.raw(), b"foo!bar@host");
    assert_eq!(user.nick(), b"foo");
    assert_eq!(user.user(), Some(&b"bar"[..]));
    assert_eq!(user.host(), Some(&b"host"[..]));

    let user = User::new(b"foo@bar", Some(b"u"), None);
    assert_eq!(user.nick(), b"foo");
    assert_eq!(user.user(), None);
    assert_eq!(user.host(), Some(&b"bar!u"[..]));
}

#[test]
fn user_parse_takes_the_first_marks() {
    let user = User::parse(b"a!b!c@d@e");
    assert_eq!(user.nick(), b"a");
    assert_eq!(user.user(), Some(&b"b!c"[..]));
    assert_eq!(user.host(), Some(&b"d@e"[..]));

    let user = User::parse(b"a@b!c");
    assert_eq!(user.nick(), b"a");
    assert_eq!(user.user(), None);
    assert_eq!(user.host(), Some(&b"b!c"[..]));

    let user = User::parse(b"!@");
    assert_eq!(user.nick(), b"");
    assert_eq!(user.user(), Some(&b""[..]));
    assert_eq!(user.host(), Some(&b""[..]));

    let user = User::parse(b"");
    assert_eq!(user.raw(), b"");
    assert_eq!(user.nick(), b"");
    assert_eq!(user.user(), None);
    assert_eq!(user.host(), None);
}

#[test]
fn user_with_nick_keeps_the_other_parts() {
    let user = User::parse(b"bob!fred@joe.com").with_nick(b"alice");
    assert_eq!(user.raw(), b"alice!fred@joe.com");
    assert_eq!(user.nick(), b"alice");
    assert_eq!(user.user(), Some(&b"fred"[..]));
    assert_eq!(user.host(), Some(&b"joe.com"[..]));
    let bare = User::parse(b"bob").with_nick(b"alice");
    assert_eq!(bare.raw(), b"alice");
}

#[test]
fn users_are_equal_by_their_bytes() {
    let a = User::parse(b"bob!fred@joe.com");
    let b = User::new(b"bob", Some(b"fred"), Some(b"joe.com"));
    assert!(a == b);
    assert!(a == a.clone());
    assert!(a != User::parse(b"bob!fred@joe.org"));
    assert!(a != User::parse(b"bob!fred"));
}
