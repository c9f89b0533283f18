use xskip::addr::{Ipv4Addr, SocketAddrV4};
use xskip::bench::{
    arg, control_message, echo_mode, parse, parse_args, parse_ip, parse_stack, usage, xdp_mode,
    ArgError, Args, Meter, Options, Stack, Tick, IDLE,
};
use xskip::socket::{Protocol, XdpMode};

const FULL: &str = "--stack speedy --proto udp --if eth1 --local-ip 10.0.0.1 --peer-ip 10.0.0.2 \
                    --port 9 --peer-mac 0:1:2:3:4:5 --cpu 3 --queue 1 --count 10 --size 64";

fn read(s: &str) -> Result<Args, ArgError> {
    parse_args(&s.split_whitespace().map(String::from).collect())
}

fn complaint(s: &str) -> String {
    read(s).unwrap_err().message("")
}

fn options(s: &str) -> Result<Options, ArgError> {
    Options::from_args(&read(s).unwrap())
}

#[test]
fn flags_are_read_in_pairs() {
    let a = read("--a 1 --b two --a 3").unwrap();
    assert_eq!(a.get("a"), Some("3"));
    assert_eq!(a.get("b"), Some("two"));
    assert_eq!(a.get("c"), None);
    assert_eq!(arg(&a, "b").unwrap(), "two");
    assert_eq!(arg(&a, "c").unwrap_err().message(""), format!("missing --c\n{}", usage()));
    assert_eq!(parse(&a, "a", 3).unwrap(), 3);
    assert_eq!(parse(&a, "a", 2).unwrap_err().message("too large"), "bad --a \"3\": too large");
    assert_eq!(parse(&a, "b", 9).unwrap_err().message("no"), "bad --b \"two\": no");
    assert!(matches!(parse(&a, "c", 9), Err(ArgError::Missing(_))));
    assert!(matches!(parse_ip(&a, "b"), Err(ArgError::BadValue(_, _))));
    assert!(read("").unwrap().get("").is_none());
    assert_eq!(read("-- x").unwrap().get(""), Some("x"));
}

#[test]
fn wrong_calls_are_explained() {
    assert_eq!(complaint("--a 1 b"), format!("unexpected argument \"b\"\n{}", usage()));
    assert_eq!(complaint("-a"), format!("unexpected argument \"-a\"\n{}", usage()));
    assert_eq!(complaint("--a"), format!("missing value for --a\n{}", usage()));
    assert_eq!(complaint("--a 1 --help"), usage());
}

#[test]
fn all_options_are_read() {
    let o = options(FULL).unwrap();
    assert_eq!(o.stack, "speedy");
    assert_eq!(o.proto, Protocol::Udp);
    assert_eq!(o.ifname, "eth1");
    assert_eq!(o.local_ip, Ipv4Addr::new(10, 0, 0, 1));
    assert_eq!(o.peer, SocketAddrV4::new(Ipv4Addr::new(10, 0, 0, 2), 9));
    assert_eq!(o.peer_mac, [0, 1, 2, 3, 4, 5]);
    assert_eq!((o.cpu, o.queue, o.count, o.size), (3, 1, 10, 64));
    assert_eq!(o.xdp_mode, XdpMode::Auto);
    assert!(!o.echo);
    let o = options(&format!("{FULL} --mode echo --xdp-mode copy --proto tcp")).unwrap();
    assert!(o.echo);
    assert_eq!(o.xdp_mode, XdpMode::Copy);
    assert_eq!(o.proto, Protocol::Tcp);
}

#[test]
fn only_messages_are_echoed() {
    let o = options(&format!("{FULL} --mode echo")).unwrap();
    assert_eq!(o.echoes(Some(64)), Some(64));
    assert_eq!(o.echoes(Some(0)), None);
    assert_eq!(o.echoes(None), None);
    assert_eq!(options(FULL).unwrap().echoes(Some(64)), None);
}

#[test]
fn the_first_wrong_option_decides() {
    let says = |extra: &str| options(&format!("{FULL} {extra}")).unwrap_err().message("why");
    assert_eq!(says("--proto x"), format!("unknown protocol \"x\"\n{}", usage()));
    assert_eq!(says("--local-ip x --port y"), "bad --local-ip \"x\": why");
    assert_eq!(says("--peer-ip x"), "bad --peer-ip \"x\": why");
    assert_eq!(says("--port 70000"), "bad --port \"70000\": why");
    assert_eq!(says("--peer-mac q"), "bad MAC \"q\"");
    assert_eq!(says("--cpu q"), "bad --cpu \"q\": why");
    assert_eq!(says("--queue 4294967296"), "bad --queue \"4294967296\": why");
    assert_eq!(says("--count q"), "bad --count \"q\": why");
    assert_eq!(says("--size q"), "bad --size \"q\": why");
    assert_eq!(says("--xdp-mode q"), format!("unknown xdp mode \"q\"\n{}", usage()));
    let zero = format!("--count and --size must be non-zero\n{}", usage());
    assert_eq!(says("--count 0"), zero);
    assert_eq!(says("--size 0"), zero);
    for (n, flag) in [
        "stack", "proto", "if", "local-ip", "peer-ip", "port", "peer-mac", "cpu", "queue", "count",
        "size",
    ]
    .iter()
    .enumerate()
    {
        let words: Vec<&str> = FULL.split_whitespace().take(2 * n).collect();
        assert_eq!(
            options(&words.join(" ")).unwrap_err().message(""),
            format!("missing --{flag}\n{}", usage())
        );
    }
}

#[test]
fn names_of_modes_and_stacks() {
    assert_eq!(xdp_mode(&read("--xdp-mode zerocopy").unwrap()).unwrap(), XdpMode::ZeroCopy);
    assert_eq!(xdp_mode(&read("--xdp-mode auto").unwrap()).unwrap(), XdpMode::Auto);
    assert!(!echo_mode(&read("--mode consume").unwrap()));
    assert!(matches!(parse_stack("kernel"), Ok(Stack::Kernel)));
    assert!(matches!(parse_stack("speedy"), Ok(Stack::Speedy)));
    assert_eq!(
        parse_stack("x").unwrap_err().message(""),
        format!("unknown stack \"x\"\n{}", usage())
    );
}

#[test]
fn the_control_message_asks_for_messages() {
    assert_eq!(control_message(false, 1000000, 64), "RUSTSSI 1000000 64\n");
    assert_eq!(control_message(true, 0, 1472), "RUSTSSI ECHO 0 1472\n");
}

#[test]
fn udp_counts_messages() {
    let mut m = Meter::new(Protocol::Udp, 3, 64);
    assert!(!m.done());
    for _ in 0..2 {
        assert_eq!(m.tick(Some(64)), Tick::Again);
    }
    assert_eq!((m.received(), m.lost(), m.bytes), (2, 1, 128));
    m.tick(Some(1));
    assert!(m.done());
    assert_eq!((m.received(), m.lost()), (3, 0));
    m.tick(Some(1));
    assert_eq!(m.lost(), 0);
}

#[test]
fn tcp_counts_bytes() {
    let mut m = Meter::new(Protocol::Tcp, 3, 64);
    m.tick(Some(100));
    assert_eq!((m.received(), m.lost()), (1, 2));
    assert!(!m.done());
    m.tick(Some(92));
    assert!(m.done());
    assert_eq!((m.received(), m.lost()), (3, 0));
    assert_eq!(m.tick(Some(0)), Tick::Stop);
}

#[test]
fn the_clock_is_read_rarely() {
    let mut m = Meter::new(Protocol::Udp, 1000, 1);
    for i in 1..=200u64 {
        let want = if i % 64 == 0 { Tick::ReadClock } else { Tick::Again };
        assert_eq!(m.tick(Some(1)), want);
    }
    for i in 1..=3000u64 {
        let want = if i % 1024 == 0 { Tick::CheckIdle } else { Tick::Again };
        assert_eq!(m.tick(None), want);
    }
    assert_eq!(m.spins, 3000);
    assert!(!Meter::idle(IDLE));
    assert!(Meter::idle(IDLE + 1));
}
