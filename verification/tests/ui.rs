use rtrb::RingBuffer;
use xskip::ui::{build_command, Key, State, SCROLLBACK_MAX};

#[test]
fn plain_text_becomes_privmsg() {
    let (wire, echo) = build_command("hello there", "me", "#test").unwrap();
    assert_eq!(wire, "PRIVMSG #test :hello there");
    assert_eq!(echo, "<me> hello there");
}

#[test]
fn slash_sends_raw_command() {
    let (wire, echo) = build_command("/join #other", "me", "#test").unwrap();
    assert_eq!(wire, "join #other");
    assert_eq!(echo, "* /join #other");
}

#[test]
fn blank_input_is_ignored() {
    assert!(build_command("   ", "me", "#test").is_none());
    assert!(build_command("", "me", "#test").is_none());
}

fn state() -> State {
    State::new("me".to_string(), "#test".to_string())
}

#[test]
fn white_space_around_a_command_is_trimmed() {
    let (wire, _) = build_command(" \u{a0}\thi \u{3000}\n", "me", "#c").unwrap();
    assert_eq!(wire, "PRIVMSG #c :hi");
    let (wire, echo) = build_command("  /", "me", "#c").unwrap();
    assert_eq!(wire, "");
    assert_eq!(echo, "* /");
    let (wire, _) = build_command("/\u{e4}x", "me", "#c").unwrap();
    assert_eq!(wire, "\u{e4}x");
}

#[test]
fn keys_edit_the_input() {
    let (mut to_net, mut out) = RingBuffer::<String>::new(4);
    let mut s = state();
    for c in "h\u{e9}y".chars() {
        assert!(!s.key(true, Key::Char(c, false), &mut to_net));
    }
    assert_eq!(s.input, "h\u{e9}y");
    assert!(!s.key(true, Key::Backspace, &mut to_net));
    assert!(!s.key(true, Key::Backspace, &mut to_net));
    assert_eq!(s.input, "h");
    // Releases do nothing, nor do keys without a meaning.
    assert!(!s.key(false, Key::Esc, &mut to_net));
    assert!(!s.key(false, Key::Char('x', false), &mut to_net));
    assert!(!s.key(true, Key::Other, &mut to_net));
    assert_eq!(s.input, "h");
    assert!(out.pop().is_err());
    assert!(!s.key(true, Key::Enter, &mut to_net));
    assert_eq!(s.input, "");
    assert_eq!(out.pop().unwrap(), "PRIVMSG #test :h");
    assert_eq!(s.lines.last().unwrap(), "<me> h");
    assert!(!s.key(true, Key::Backspace, &mut to_net));
    assert_eq!(s.input, "");
}

#[test]
fn escape_and_control_c_quit() {
    let (mut to_net, _out) = RingBuffer::<String>::new(1);
    let mut s = state();
    assert!(s.key(true, Key::Esc, &mut to_net));
    assert!(s.key(true, Key::Char('c', true), &mut to_net));
    assert!(!s.key(true, Key::Char('c', false), &mut to_net));
    assert!(!s.key(true, Key::Char('d', true), &mut to_net));
    assert_eq!(s.input, "cd");
}

#[test]
fn a_full_queue_drops_the_command() {
    let (mut to_net, mut out) = RingBuffer::<String>::new(1);
    let mut s = state();
    s.input = "one".to_string();
    s.submit(&mut to_net);
    s.input = "two".to_string();
    s.submit(&mut to_net);
    assert_eq!(s.lines[1..], ["<me> one", "-- send queue full, dropped --", "<me> two"]);
    assert_eq!(out.pop().unwrap(), "PRIVMSG #test :one");
    assert!(out.pop().is_err());
}

#[test]
fn blank_submit_clears_the_input_only() {
    let (mut to_net, mut out) = RingBuffer::<String>::new(1);
    let mut s = state();
    s.input = "   ".to_string();
    s.submit(&mut to_net);
    assert_eq!(s.input, "");
    assert_eq!(s.lines.len(), 1);
    assert!(out.pop().is_err());
}

#[test]
fn scrollback_is_bounded() {
    let (mut net, mut from_net) = RingBuffer::<String>::new(8);
    let mut s = state();
    assert_eq!(s.lines, ["rustssi \u{2014} type to chat, /cmd for raw IRC, Esc or Ctrl-C to quit"]);
    for i in 0..SCROLLBACK_MAX + 3 {
        net.push(format!("line {i}")).unwrap();
        while s.receive(&mut from_net) {}
    }
    assert!(!s.receive(&mut from_net));
    assert_eq!(s.lines.len(), SCROLLBACK_MAX);
    assert_eq!(s.lines[0], "line 3");
    assert_eq!(s.lines.last().unwrap(), &format!("line {}", SCROLLBACK_MAX + 2));
    // Echoes may exceed the limit until the next received line.
    s.lines.push("echo".to_string());
    s.receive_line("last".to_string());
    assert_eq!(s.lines.len(), SCROLLBACK_MAX);
    assert_eq!(s.lines[0], "line 5");
}

#[test]
fn the_tail_that_fits_is_shown() {
    let mut s = state();
    s.lines = vec!["a".to_string(), "b".to_string(), "c".to_string()];
    assert_eq!(s.body(0), "c");
    assert_eq!(s.body(3), "c");
    assert_eq!(s.body(4), "b\nc");
    assert_eq!(s.body(100), "a\nb\nc");
    s.lines.clear();
    assert_eq!(s.body(10), "");
    assert_eq!(s.title(), "me @ #test");
}

/// A line that is in the queue is shown by the next receive, oldest first.
#[test]
fn waiting_lines_are_shown_in_order() {
    let (mut net, mut from_net) = RingBuffer::<String>::new(4);
    let mut s = state();
    assert!(!s.receive(&mut from_net));
    for line in ["a", "b", "c"] {
        net.push(line.to_string()).unwrap();
    }
    assert!(s.receive(&mut from_net));
    // What arrives later comes later.
    net.push("d".to_string()).unwrap();
    for _ in 0..3 {
        assert!(s.receive(&mut from_net));
    }
    assert!(!s.receive(&mut from_net));
    assert_eq!(s.lines[1..], ["a", "b", "c", "d"]);
}
