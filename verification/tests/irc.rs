use xskip::irc::{skip_spaces, Message, MAX_PARAMS};

#[test]
fn parses_privmsg_with_prefix_and_trailing() {
    let line = b":nick!user@host PRIVMSG #chan :hello world";
    let m = Message::parse(line).unwrap();
    assert_eq!(m.prefix(), Some(&b"nick!user@host"[..]));
    assert_eq!(m.command(), b"PRIVMSG");
    assert_eq!(m.params(), &[&b"#chan"[..], &b"hello world"[..]]);
    assert_eq!(m.last_param(), Some(&b"hello world"[..]));
}

#[test]
fn parses_ping_without_prefix() {
    let m = Message::parse(b"PING :token123").unwrap();
    assert_eq!(m.prefix(), None);
    assert!(m.is(b"ping")); // case-insensitive
    assert_eq!(m.last_param(), Some(&b"token123"[..]));
}

#[test]
fn parses_numeric_reply() {
    let m = Message::parse(b":irc.test 001 tester :Welcome to IRC").unwrap();
    assert_eq!(m.command(), b"001");
    assert_eq!(m.params()[0], b"tester");
    assert_eq!(m.params()[1], b"Welcome to IRC");
}

#[test]
fn command_only_no_params() {
    let m = Message::parse(b"PING").unwrap();
    assert_eq!(m.command(), b"PING");
    assert!(m.params().is_empty());
    assert_eq!(m.last_param(), None);
}

#[test]
fn tolerates_extra_spaces() {
    let m = Message::parse(b":s  JOIN   #chan").unwrap();
    assert_eq!(m.prefix(), Some(&b"s"[..]));
    assert_eq!(m.command(), b"JOIN");
    assert_eq!(m.params(), &[&b"#chan"[..]]);
}

#[test]
fn empty_or_prefix_only_is_none() {
    assert!(Message::parse(b"").is_none());
    assert!(Message::parse(b":only-prefix").is_none()); // no command after prefix
}

#[test]
fn colon_in_trailing_is_preserved() {
    let m = Message::parse(b"PRIVMSG #c :a:b:c http://x").unwrap();
    assert_eq!(m.last_param(), Some(&b"a:b:c http://x"[..]));
}

#[test]
fn fields_borrow_from_source_buffer() {
    // The whole point: every field is a slice into `line`, not a copy.
    let line = b":srv 353 me = #c :alice bob";
    let m = Message::parse(line).unwrap();
    let base = line.as_ptr() as usize;
    let end = base + line.len();
    for slice in std::iter::once(m.command())
        .chain(m.prefix())
        .chain(m.params().iter().copied())
    {
        if slice.is_empty() {
            continue;
        }
        let p = slice.as_ptr() as usize;
        assert!(p >= base && p < end, "field must borrow from source line");
    }
}

#[test]
fn prefix_without_a_command_behind_its_space_is_none() {
    assert!(Message::parse(b":only-prefix ").is_none());
    assert!(Message::parse(b":only-prefix    ").is_none());
    assert!(Message::parse(b"   ").is_none());
}

#[test]
fn empty_trailing_parameter_is_kept() {
    let m = Message::parse(b"TOPIC #c :").unwrap();
    assert_eq!(m.params(), &[&b"#c"[..], &b""[..]]);
    assert_eq!(m.last_param(), Some(&b""[..]));
}

#[test]
fn trailing_spaces_add_no_parameter() {
    let m = Message::parse(b"JOIN #c   ").unwrap();
    assert_eq!(m.params(), &[&b"#c"[..]]);
}

#[test]
fn at_most_fifteen_parameters() {
    let line = b"CMD 1 2 3 4 5 6 7 8 9 10 11 12 13 14 15 16 :17 x";
    let m = Message::parse(line).unwrap();
    assert_eq!(m.params().len(), MAX_PARAMS);
    assert_eq!(m.params()[14], b"15");
    assert_eq!(m.last_param(), Some(&b"15"[..]));
}

#[test]
fn command_comparison_ignores_ascii_case_only() {
    let m = Message::parse(b"PrivMsg").unwrap();
    assert!(m.is(b"PRIVMSG"));
    assert!(m.is(b"privmsg"));
    assert!(!m.is(b"PRIVMS"));
    assert!(!m.is(b"PRIVMSGX"));
    let m = Message::parse(&[b'A', 0xe4]).unwrap();
    assert!(m.is(&[b'a', 0xe4]));
    assert!(!m.is(&[b'a', 0xc4]));
}

#[test]
fn leading_spaces_are_skipped() {
    assert_eq!(skip_spaces(b"   a b "), b"a b ");
    assert_eq!(skip_spaces(b"   "), b"");
    assert_eq!(skip_spaces(b""), b"");
}

#[test]
fn a_clone_says_the_same() {
    let m = Message::parse(b":s CMD a :b c").unwrap();
    let n = m.clone();
    assert_eq!(n.prefix(), m.prefix());
    assert_eq!(n.command(), m.command());
    assert_eq!(n.params(), m.params());
}

/// The fields stand in the line one behind the other.
#[test]
fn fields_are_in_order() {
    let line = b":a!b@c  PRIVMSG  x  x :x x";
    let m = Message::parse(line).unwrap();
    let base = line.as_ptr() as usize;
    let mut end = base;
    for field in m.prefix().into_iter().chain([m.command()]).chain(m.params().iter().copied()) {
        assert!(field.as_ptr() as usize > end || end == base);
        end = field.as_ptr() as usize + field.len();
    }
    assert_eq!(end, base + line.len());
}
