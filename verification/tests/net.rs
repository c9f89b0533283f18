use xskip::addr::Ipv4Addr;
use xskip::irc::Message;
use xskip::net::{
    connecting_line, display_line, drain_lines, endpoint_key, error_line, interface_not_found,
    mac_from_file, memlock_line, nick_in, nick_of, parse_mac, pin_line, poll_timeout, trim_crlf, umem_line,
    MacError, NetConfig, Progress,
};

#[test]
fn formats_privmsg_as_chat() {
    let m = Message::parse(b":alice!u@h PRIVMSG #test :hi all").unwrap();
    assert_eq!(display_line(&m), "[#test] <alice> hi all");
}

#[test]
fn formats_join() {
    let m = Message::parse(b":bob!u@h JOIN #test").unwrap();
    assert_eq!(display_line(&m), "* bob joined #test");
}

#[test]
fn formats_numeric_generically() {
    let m = Message::parse(b":srv 366 me #test :End of NAMES list").unwrap();
    assert_eq!(display_line(&m), "366 me #test End of NAMES list");
}

#[test]
fn parse_mac_roundtrip() {
    assert_eq!(parse_mac("ca:c5:b2:64:89:9e").unwrap(), [0xca, 0xc5, 0xb2, 0x64, 0x89, 0x9e]);
    assert!(parse_mac("zz:zz").is_err());
}

#[test]
fn formats_notice_with_a_tag() {
    let m = Message::parse(b":srv notice me :be warned").unwrap();
    assert_eq!(display_line(&m), "notice [me] <srv> be warned");
}

#[test]
fn formats_what_is_missing_as_nothing() {
    let m = Message::parse(b"PRIVMSG").unwrap();
    assert_eq!(display_line(&m), "[] <> ");
    let m = Message::parse(b"JOIN").unwrap();
    assert_eq!(display_line(&m), "*  joined ");
    let m = Message::parse(b"PING").unwrap();
    assert_eq!(display_line(&m), "PING ");
}

#[test]
fn nick_ends_at_the_first_mark() {
    assert_eq!(nick_of(b"alice!u@h"), "alice");
    assert_eq!(nick_of(b"alice@h!u"), "alice");
    assert_eq!(nick_of(b"irc.test"), "irc.test");
    assert_eq!(nick_of(b""), "");
    assert_eq!(nick_of(b"!x"), "");
    assert_eq!(nick_in("b\u{f6}b!x"), "b\u{f6}b");
}

#[test]
fn bytes_that_are_no_text_are_replaced() {
    assert_eq!(nick_of(b"\xff!x"), "\u{fffd}");
    let m = Message::parse(b"PRIVMSG #c :a\xfeb").unwrap();
    assert_eq!(display_line(&m), "[#c] <> a\u{fffd}b");
}

#[test]
fn line_ends_are_trimmed() {
    assert_eq!(trim_crlf(b"a\r\n"), b"a");
    assert_eq!(trim_crlf(b"a\n\r\r\n"), b"a");
    assert_eq!(trim_crlf(b"\r\na"), b"\r\na");
    assert_eq!(trim_crlf(b"\r\n"), b"");
    assert_eq!(trim_crlf(b""), b"");
}

fn drained(mut acc: Vec<u8>, registered: bool) -> (Vec<u8>, Progress) {
    let mut progress = Progress::new(registered);
    drain_lines(&mut acc, &mut progress);
    (acc, progress)
}

#[test]
fn complete_lines_are_drained() {
    let (rest, p) = drained(b"PING :a\r\n\r\n:s 372 me :hi\nPI".to_vec(), false);
    assert_eq!(rest, b"PI");
    assert_eq!(p.shown, ["PING a", "372 me hi"]);
    assert_eq!(p.replies, [b"PONG :a".to_vec()]);
    assert!(!p.registered);
}

#[test]
fn pong_without_a_token() {
    let (_, p) = drained(b"ping\n".to_vec(), false);
    assert_eq!(p.replies, [b"PONG".to_vec()]);
}

#[test]
fn cuts_between_chunks_do_not_matter() {
    let stream = b":s 001 me :hi\r\nPING :x y\r\n:a!b@c JOIN #t\r\nrest";
    let (rest, whole) = drained(stream.to_vec(), false);
    assert_eq!(rest, b"rest");
    for cut in 0..stream.len() {
        let mut p = Progress::new(false);
        let mut acc = stream[..cut].to_vec();
        drain_lines(&mut acc, &mut p);
        acc.extend_from_slice(&stream[cut..]);
        drain_lines(&mut acc, &mut p);
        assert_eq!(acc, rest);
        assert_eq!(p.shown, whole.shown);
        assert_eq!(p.replies, whole.replies);
        assert_eq!(p.registered, whole.registered);
    }
}

#[test]
fn the_first_welcome_registers() {
    let (_, p) = drained(b":s 001 me :hi\n:s 001 me :again\n".to_vec(), false);
    assert!(p.registered);
    assert_eq!(p.shown, ["001 me hi", "-- registered --", "001 me again"]);
    let (_, p) = drained(b":s 001 me :hi\n".to_vec(), true);
    assert!(p.registered);
    assert_eq!(p.shown, ["001 me hi"]);
}

#[test]
fn mac_errors_tell_shape_from_digits() {
    let e = parse_mac("zz:zz").unwrap_err();
    assert_eq!(e.message(), "bad MAC \"zz:zz\"");
    assert!(matches!(e, MacError::BadMac(_)));
    let e = parse_mac("00:11:2g:33:44:1ff").unwrap_err();
    assert_eq!(e.message(), "bad MAC hex");
    assert!(matches!(e, MacError::BadHex(part) if part == "2g"));
    let e = parse_mac("00:11:22:33:44:1ff").unwrap_err();
    assert!(matches!(e, MacError::BadHex(part) if part == "1ff"));
    assert!(parse_mac("a\"b").unwrap_err().message() == "bad MAC \"a\\\"b\"");
}

#[test]
fn the_text_of_a_mac_file_is_trimmed() {
    assert_eq!(mac_from_file(" 0:1:2:3:4:5\n").unwrap(), [0, 1, 2, 3, 4, 5]);
    assert_eq!(mac_from_file("x\n").unwrap_err().message(), "bad MAC \"x\"");
    let e = mac_from_file("0:1:2:3:4:g\n").unwrap_err();
    assert!(matches!(e, MacError::BadHex(part) if part == "g"));
}

#[test]
fn endpoint_key_is_in_network_order() {
    assert_eq!(endpoint_key(Ipv4Addr::new(10, 99, 0, 2), 6667), [10, 99, 0, 2, 0x1a, 0x0b]);
}

#[test]
fn poll_timeout_is_clamped() {
    assert_eq!(poll_timeout(None), 50);
    assert_eq!(poll_timeout(Some(0)), 0);
    assert_eq!(poll_timeout(Some(7)), 7);
    assert_eq!(poll_timeout(Some(51)), 50);
    assert_eq!(poll_timeout(Some(0x8000_0000)), 0);
    assert_eq!(poll_timeout(Some(0x1_0000_0003)), 3);
}

#[test]
fn status_lines() {
    let cfg = NetConfig {
        ifname: "veth0".to_string(),
        our_ip: Ipv4Addr::new(10, 0, 0, 1),
        server_ip: Ipv4Addr::new(192, 168, 200, 0),
        port: 6667,
        server_mac: [0; 6],
        nick: "me".to_string(),
        channel: "#test".to_string(),
    };
    assert_eq!(connecting_line(&cfg), "-- connecting 10.0.0.1 -> 192.168.200.0:6667 as me --");
    assert_eq!(pin_line(2, None), "-- data-plane pinned to CPU 2 --");
    assert_eq!(pin_line(2, Some("EINVAL")), "-- CPU pin failed (continuing): EINVAL --");
    assert_eq!(
        memlock_line("EPERM"),
        "-- note: could not raise RLIMIT_MEMLOCK (EPERM); continuing --"
    );
    assert_eq!(umem_line(true), "-- UMEM: 16 MiB on 2 MiB hugepages --");
    assert_eq!(
        umem_line(false),
        "-- UMEM: 16 MiB on 4 KiB pages (hugetlb pool empty; sysctl vm.nr_hugepages) --"
    );
    assert_eq!(error_line("boom"), "-- data-plane error: boom --");
    assert_eq!(interface_not_found("x y"), "interface \"x y\" not found");
}

/// The server reads the very token back out of our pong.
#[test]
fn a_pong_parses_to_its_token() {
    let (_, p) = drained(b":srv PING a :b :c d\r\n".to_vec(), false);
    let m = Message::parse(&p.replies[0]).unwrap();
    assert_eq!(m.prefix(), None);
    assert_eq!(m.command(), b"PONG");
    assert_eq!(m.params(), &[&b"b :c d"[..]]);
}
