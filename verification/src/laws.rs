//! What the operations come to, read off plain bytes and characters.
//!
//! Each law ties what an operation's contract speaks of to the bytes on the
//! wire or the characters on the screen, for all inputs.

use vstd::prelude::*;

use crate::addr::{Ipv4Addr, SocketAddrV4};

verus! {

// ---------------------------------------------------------------------------
// Frames
// ---------------------------------------------------------------------------

/// The 16-bit number at `i`, most significant byte first.
pub open spec fn word(s: Seq<u8>, i: int) -> int {
    s[i] * 256 + s[i + 1]
}

/// Whether the octets of an address stand at `i`, first to last.
pub open spec fn address_at(s: Seq<u8>, i: int, ip: Ipv4Addr) -> bool {
    s[i] == ip.a && s[i + 1] == ip.b && s[i + 2] == ip.c && s[i + 3] == ip.d
}

/// Where the datagram starts in an Ethernet frame: behind the Ethernet header
/// and the IPv4 header with its options.
pub open spec fn datagram_start(frame: Seq<u8>) -> int {
    14 + (frame[14] % 16) * 4
}

/// Whether a frame carries a whole, unfragmented UDP datagram over IPv4 from
/// `remote` to `local`, by its bytes: EtherType, version, lengths, fragment
/// bits, protocol, addresses and ports.
pub open spec fn carries_datagram(
    frame: Seq<u8>,
    local: SocketAddrV4,
    remote: SocketAddrV4,
) -> bool {
    let at = datagram_start(frame);
    let end = 14 + word(frame, 16);
    &&& frame.len() >= 34
    &&& word(frame, 12) == 0x0800
    &&& frame[14] / 16 == 4
    &&& 34 <= at && at + 8 <= end <= frame.len()
    &&& frame[20] % 64 == 0 && frame[21] == 0
    &&& frame[23] == 17
    &&& address_at(frame, 26, remote.ip)
    &&& address_at(frame, 30, local.ip)
    &&& word(frame, at) == remote.port
    &&& word(frame, at + 2) == local.port
    &&& local.port != 0
    &&& 8 <= word(frame, at + 4) && at + word(frame, at + 4) <= end
}

/// Every frame that carries a datagram from the peer to us is delivered, with
/// exactly the datagram's payload, and no other frame is. Type of service,
/// identification, the reserved and the don't-fragment bit, hop limit, IP
/// options, checksums, MAC addresses and padding do not matter.
pub proof fn datagrams_are_delivered_by_their_bytes(
    local: SocketAddrV4,
    remote: SocketAddrV4,
    frame: Seq<u8>,
)
    ensures
        crate::udp::payload_of(local, remote, frame) == if carries_datagram(frame, local, remote) {
            let at = datagram_start(frame);
            Some(frame.subrange(at + 8, at + word(frame, at + 4)))
        } else {
            None
        },
{
    if frame.len() >= 34 {
        let packet = frame.skip(14);
        let at = datagram_start(frame);
        let end = 14 + word(frame, 16);
        assert forall|k: int| 0 <= k < packet.len() implies packet[k] == frame[k + 14] by {}
        assert(crate::wire::ipv4_total_len(packet) == word(frame, 16));
        assert(crate::wire::ipv4_header_len(packet) == at - 14);
        if 34 <= at && at <= end <= frame.len() {
            let datagram = packet.subrange(at - 14, end - 14);
            assert(datagram.len() == end - at);
            assert forall|k: int| 0 <= k < datagram.len() implies datagram[k] == frame[at + k] by {}
            if at + 8 <= end {
                assert(crate::wire::udp_len(datagram) == word(frame, at + 4));
                let n = word(frame, at + 4);
                if 8 <= n <= datagram.len() {
                    assert(datagram.subrange(8, n) =~= frame.subrange(at + 8, at + n));
                }
            }
        }
    }
}

/// What a router or a sender may change does not change what is delivered:
/// the MAC addresses, type of service, identification, the hop limit and the
/// header checksum.
pub proof fn delivery_ignores_the_hop_limit(
    local: SocketAddrV4,
    remote: SocketAddrV4,
    frame: Seq<u8>,
    i: int,
    value: u8,
)
    requires
        0 <= i < 12 || i == 15 || i == 18 || i == 19 || i == 22 || i == 24 || i == 25,
        i < frame.len(),
    ensures
        crate::udp::payload_of(local, remote, frame.update(i, value)) == crate::udp::payload_of(
            local,
            remote,
            frame,
        ),
{
    let other = frame.update(i, value);
    datagrams_are_delivered_by_their_bytes(local, remote, frame);
    datagrams_are_delivered_by_their_bytes(local, remote, other);
    assert(other.len() == frame.len());
    assert forall|k: int| 0 <= k < frame.len() && k != i implies other[k] == frame[k] by {}
    if frame.len() >= 34 {
        let at = datagram_start(frame);
        assert(datagram_start(other) == at);
        assert(word(other, 12) == word(frame, 12) && word(other, 16) == word(frame, 16));
        if carries_datagram(frame, local, remote) || carries_datagram(other, local, remote) {
            assert(word(other, at) == word(frame, at));
            assert(word(other, at + 2) == word(frame, at + 2));
            assert(word(other, at + 4) == word(frame, at + 4));
            let n = word(frame, at + 4);
            assert(other.subrange(at + 8, at + n) =~= frame.subrange(at + 8, at + n));
        }
    }
}

/// The Ethernet header in front of every packet that is sent names the
/// destination, then the source, byte for byte, and says that IPv4 follows.
pub proof fn ethernet_header_names_both_macs(dst_mac: Seq<u8>, src_mac: Seq<u8>)
    requires
        dst_mac.len() == 6,
        src_mac.len() == 6,
    ensures
        crate::udp::ethernet_bytes(dst_mac, src_mac).len() == 14,
        forall|i: int|
            0 <= i < 6 ==> #[trigger] crate::udp::ethernet_bytes(dst_mac, src_mac)[i] == dst_mac[i],
        forall|i: int|
            6 <= i < 12 ==> #[trigger] crate::udp::ethernet_bytes(dst_mac, src_mac)[i]
                == src_mac[i - 6],
        word(crate::udp::ethernet_bytes(dst_mac, src_mac), 12) == 0x0800,
{
}

/// A built frame, byte for byte: both MAC addresses, an IPv4 header without
/// options for a datagram that must not be fragmented, both endpoints, and the
/// payload. The words of the IPv4 header sum to all ones, as its checksum has
/// them do.
pub proof fn built_frame_by_its_bytes(
    dst_mac: Seq<u8>,
    src_mac: Seq<u8>,
    local: SocketAddrV4,
    remote: SocketAddrV4,
    payload: Seq<u8>,
)
    requires
        dst_mac.len() == 6,
        src_mac.len() == 6,
        28 + payload.len() <= 0xffff,
    ensures
        ({
            let f = crate::udp::frame_bytes(dst_mac, src_mac, local, remote, payload);
            &&& f.len() == 42 + payload.len()
            &&& f.subrange(0, 6) == dst_mac
            &&& f.subrange(6, 12) == src_mac
            &&& word(f, 12) == 0x0800
            &&& f[14] == 0x45 && f[15] == 0
            &&& word(f, 16) == 28 + payload.len()
            &&& word(f, 18) == 0 && word(f, 20) == 0x4000
            &&& f[22] == 64 && f[23] == 17
            &&& address_at(f, 26, local.ip)
            &&& address_at(f, 30, remote.ip)
            &&& word(f, 34) == local.port
            &&& word(f, 36) == remote.port
            &&& word(f, 38) == 8 + payload.len()
            &&& word(f, 40) != 0
            &&& f.skip(42) == payload
            &&& (word(f, 14) + word(f, 16) + word(f, 18) + word(f, 20) + word(f, 22) + word(f, 24)
                + word(f, 26) + word(f, 28) + word(f, 30) + word(f, 32)) % 0xffff == 0
        }),
{
    let f = crate::udp::frame_bytes(dst_mac, src_mac, local, remote, payload);
    let ip = crate::udp::ip_header(local.ip, remote.ip, payload.len());
    let head = crate::wire::ipv4_emitted(ip, crate::wire::Checksum::Tx);
    let ports = crate::wire::UdpHeader { src_port: local.port, dst_port: remote.port };
    let body = crate::wire::udp_emitted(
        local.ip,
        remote.ip,
        ports,
        payload,
        crate::wire::Checksum::Tx,
    );
    assert(head.len() == 20);
    assert(body.len() == 8 + payload.len());
    assert(f.subrange(0, 6) =~= dst_mac);
    assert(f.subrange(6, 12) =~= src_mac);
    assert(f.skip(42) =~= payload);
    assert forall|k: int| 0 <= k < 20 implies f[14 + k] == head[k] by {}
    assert forall|k: int| 0 <= k < body.len() implies f[34 + k] == body[k] by {}
    crate::udp::built_frame_has_valid_checksums(local, remote, payload);
    lemma_ten_words(head);
    let bare = crate::wire::udp_bytes(ports, payload, 0);
    let c = crate::wire::udp_checksum(local.ip, remote.ip, bare);
    assert(0 < c <= 0xffff);
    assert(word(body, 6) == c);
    let sum = crate::wire::word_sum(head) as int;
    assert(sum > 0 && sum % 0xffff == 0) by {
        assert(crate::wire::folded(sum as nat) == 0xffff);
    }
}

proof fn lemma_ten_words(s: Seq<u8>)
    requires
        s.len() == 20,
    ensures
        crate::wire::word_sum(s) == word(s, 0) + word(s, 2) + word(s, 4) + word(s, 6) + word(s, 8)
            + word(s, 10) + word(s, 12) + word(s, 14) + word(s, 16) + word(s, 18),
{
    assert(s.skip(0) =~= s);
    lemma_tail_words(s, 0);
    lemma_tail_words(s, 2);
    lemma_tail_words(s, 4);
    lemma_tail_words(s, 6);
    lemma_tail_words(s, 8);
    lemma_tail_words(s, 10);
    lemma_tail_words(s, 12);
    lemma_tail_words(s, 14);
    lemma_tail_words(s, 16);
    lemma_tail_words(s, 18);
    assert(s.skip(20).len() == 0);
}

proof fn lemma_tail_words(s: Seq<u8>, i: int)
    requires
        0 <= i,
        i + 2 <= s.len(),
    ensures
        crate::wire::word_sum(s.skip(i)) == word(s, i) + crate::wire::word_sum(s.skip(i + 2)),
{
    assert(s.skip(i).skip(2) =~= s.skip(i + 2));
}

// ---------------------------------------------------------------------------
// Keys
// ---------------------------------------------------------------------------

/// The key of a flow, byte for byte: the remote address and port, then the
/// local address and port, all in network order.
pub proof fn flow_key_by_its_bytes(local: SocketAddrV4, remote: SocketAddrV4)
    ensures
        crate::socket::flow_bytes(local, remote).len() == 12,
        address_at(crate::socket::flow_bytes(local, remote), 0, remote.ip),
        word(crate::socket::flow_bytes(local, remote), 4) == remote.port,
        address_at(crate::socket::flow_bytes(local, remote), 6, local.ip),
        word(crate::socket::flow_bytes(local, remote), 10) == local.port,
{
}

/// The key of a flow is what every packet of it says that reaches us: source
/// address, source port, destination address, destination port.
pub proof fn flow_key_is_what_inbound_frames_say(
    local: SocketAddrV4,
    remote: SocketAddrV4,
    frame: Seq<u8>,
)
    requires
        crate::udp::payload_of(local, remote, frame) is Some,
    ensures
        ({
            let at = datagram_start(frame);
            crate::socket::flow_bytes(local, remote) == frame.subrange(26, 30) + frame.subrange(
                at,
                at + 2,
            ) + frame.subrange(30, 34) + frame.subrange(at + 2, at + 4)
        }),
{
    datagrams_are_delivered_by_their_bytes(local, remote, frame);
    flow_key_by_its_bytes(local, remote);
    let at = datagram_start(frame);
    let said = frame.subrange(26, 30) + frame.subrange(at, at + 2) + frame.subrange(30, 34)
        + frame.subrange(at + 2, at + 4);
    let key = crate::socket::flow_bytes(local, remote);
    assert(word(said, 4) == word(frame, at));
    assert(word(said, 10) == word(frame, at + 2));
    assert(key =~= said);
}

/// The key of a server, byte for byte: its address and port in network order.
pub proof fn endpoint_key_by_its_bytes(ip: Ipv4Addr, port: u16)
    ensures
        crate::net::endpoint_bytes(ip, port).len() == 6,
        address_at(crate::net::endpoint_bytes(ip, port), 0, ip),
        word(crate::net::endpoint_bytes(ip, port), 4) == port,
{
}

// ---------------------------------------------------------------------------
// IRC lines
// ---------------------------------------------------------------------------

/// Whether `written` has `params` as its first 15 entries, or all of them.
pub open spec fn first_fifteen(params: Seq<Seq<u8>>, written: Seq<Seq<u8>>) -> bool {
    &&& params.len() == if written.len() <= 15 {
        written.len()
    } else {
        15
    }
    &&& forall|i: int| 0 <= i < params.len() ==> #[trigger] params[i] == written[i]
}

/// A line of an optional prefix, a command, and parameters, with any number of
/// spaces in each gap and behind the last one, is read as what was written: the
/// prefix, the command, and the parameters in order, all of them up to 15. A
/// last parameter behind a colon may hold spaces and colons and may be empty.
pub proof fn lines_are_read_as_written(
    prefix: Option<crate::irc::Spaced>,
    command: Seq<u8>,
    middle: Seq<crate::irc::Spaced>,
    trailing: Option<crate::irc::Spaced>,
    end: nat,
)
    requires
        prefix matches Some(p) ==> p.gap > 0 && !p.text.contains(0x20u8),
        command.len() > 0,
        !command.contains(0x20u8),
        prefix is None ==> command[0] != 0x3a,
        forall|i: int|
            0 <= i < middle.len() ==> {
                let p = #[trigger] middle[i];
                p.gap > 0 && p.text.len() > 0 && p.text[0] != 0x3a && !p.text.contains(0x20u8)
            },
        trailing matches Some(t) ==> t.gap > 0,
        trailing is Some ==> end == 0,
    ensures
        ({
            let line = crate::irc::written_line(prefix, command, middle, trailing)
                + crate::irc::spaces(end);
            let written = middle.map_values(|p: crate::irc::Spaced| p.text) + match trailing {
                Some(t) => seq![t.text],
                None => Seq::empty(),
            };
            match crate::irc::message_of(line) {
                Some(m) => {
                    &&& m.prefix == match prefix {
                        Some(p) => Some(p.text),
                        None => None,
                    }
                    &&& m.command == command
                    &&& first_fifteen(m.params, written)
                },
                None => false,
            }
        }),
{
    let written = middle.map_values(|p: crate::irc::Spaced| p.text) + match trailing {
        Some(t) => seq![t.text],
        None => Seq::empty(),
    };
    assert forall|i: int| 0 <= i < middle.len() implies crate::irc::is_middle(
        (#[trigger] middle[i]).text,
    ) && middle[i].gap > 0 by {
        let p = middle[i];
        assert forall|k: int| 0 <= k < p.text.len() implies p.text[k] != 0x20 by {
            assert(p.text.contains(p.text[k]));
        }
    }
    assert forall|k: int| 0 <= k < command.len() implies command[k] != 0x20 by {
        assert(command.contains(command[k]));
    }
    if let Some(p) = prefix {
        assert forall|k: int| 0 <= k < p.text.len() implies p.text[k] != 0x20 by {
            assert(p.text.contains(p.text[k]));
        }
    }
    crate::irc::lemma_padded_line(prefix, command, middle, trailing, end);
    assert(crate::irc::texts(middle, trailing) =~= written);
}

/// There is no message in a line exactly if there is no command: nothing, or a
/// space, where it should start, or nothing but spaces behind the prefix.
pub proof fn lines_without_a_command(line: Seq<u8>)
    ensures
        crate::irc::message_of(line) is None <==> {
            ||| line.len() == 0
            ||| line[0] == 0x20
            ||| line[0] == 0x3a && exists|n: int|
                0 <= n <= line.len() && crate::laws::all_but_spaces(line, n)
        },
{
    crate::irc::lemma_no_message(line);
}

/// Whether `line` is `n` bytes without a space, followed by spaces alone.
pub open spec fn all_but_spaces(line: Seq<u8>, n: int) -> bool {
    &&& forall|k: int| 0 <= k < n ==> line[k] != 0x20
    &&& forall|k: int| n <= k < line.len() ==> line[k] == 0x20
}

/// Whether `command` is the given word of capital letters, in any mixture of
/// upper and lower case.
pub open spec fn spells(command: Seq<u8>, word: Seq<u8>) -> bool {
    &&& command.len() == word.len()
    &&& forall|i: int|
        0 <= i < word.len() ==> (#[trigger] command[i] == word[i] || command[i] == word[i] + 32)
}

/// Names of commands are compared without regard to case, and to nothing else:
/// two bytes match if they are the same, or the same letter in either case.
pub proof fn commands_match_without_case(a: Seq<u8>, b: Seq<u8>)
    ensures
        crate::irc::same_ignoring_case(a, b) <==> a.len() == b.len() && forall|i: int|
            0 <= i < a.len() ==> {
                ||| #[trigger] a[i] == b[i]
                ||| 65 <= a[i] <= 90 && b[i] == a[i] + 32
                ||| 65 <= b[i] <= 90 && a[i] == b[i] + 32
            },
{
    if crate::irc::same_ignoring_case(a, b) {
        assert forall|i: int| 0 <= i < a.len() implies {
            ||| #[trigger] a[i] == b[i]
            ||| 65 <= a[i] <= 90 && b[i] == a[i] + 32
            ||| 65 <= b[i] <= 90 && a[i] == b[i] + 32
        } by {
            assert(crate::irc::lower(a[i]) == crate::irc::lower(b[i]));
        }
    }
}

/// "PRIVMSG", "NOTICE", "JOIN" and "PING", as bytes.
pub open spec fn privmsg() -> Seq<u8> {
    seq![80u8, 82, 73, 86, 77, 83, 71]
}

pub open spec fn notice() -> Seq<u8> {
    seq![78u8, 79, 84, 73, 67, 69]
}

pub open spec fn join() -> Seq<u8> {
    seq![74u8, 79, 73, 78]
}

pub open spec fn ping() -> Seq<u8> {
    seq![80u8, 73, 78, 71]
}

proof fn lemma_is_command(m: crate::irc::Parsed, name: Seq<char>, word: Seq<u8>)
    requires
        name.len() == word.len(),
        forall|i: int| 0 <= i < word.len() ==> 65 <= #[trigger] word[i] <= 90 && name[i] as u8 == word[i],
    ensures
        crate::net::is_command(m, name) <==> spells(m.command, word),
{
    let bytes = crate::text::ascii(name);
    assert(bytes =~= word);
    commands_match_without_case(m.command, word);
    if spells(m.command, word) {
        assert forall|i: int| 0 <= i < m.command.len() implies {
            ||| #[trigger] m.command[i] == word[i]
            ||| 65 <= m.command[i] <= 90 && word[i] == m.command[i] + 32
            ||| 65 <= word[i] <= 90 && m.command[i] == word[i] + 32
        } by {
            assert(65 <= word[i] <= 90);
        }
    }
    if crate::irc::same_ignoring_case(m.command, word) {
        assert forall|i: int| 0 <= i < word.len() implies (#[trigger] m.command[i] == word[i]
            || m.command[i] == word[i] + 32) by {
            assert(65 <= word[i] <= 90);
        }
    }
}

proof fn lemma_four_commands(m: crate::irc::Parsed)
    ensures
        crate::net::is_command(m, "PRIVMSG"@) <==> spells(m.command, privmsg()),
        crate::net::is_command(m, "NOTICE"@) <==> spells(m.command, notice()),
        crate::net::is_command(m, "JOIN"@) <==> spells(m.command, join()),
        crate::net::is_command(m, "PING"@) <==> spells(m.command, ping()),
{
    reveal_strlit("PRIVMSG");
    reveal_strlit("NOTICE");
    reveal_strlit("JOIN");
    reveal_strlit("PING");
    lemma_is_command(m, "PRIVMSG"@, privmsg());
    lemma_is_command(m, "NOTICE"@, notice());
    lemma_is_command(m, "JOIN"@, join());
    lemma_is_command(m, "PING"@, ping());
}

// ---------------------------------------------------------------------------
// Display lines
// ---------------------------------------------------------------------------

/// Whether `nick` is the part of a decoded prefix in front of its first `!` or
/// `@`, or all of it where there is none.
pub open spec fn is_nick_in(nick: Seq<char>, prefix: Seq<char>) -> bool {
    &&& nick.len() <= prefix.len()
    &&& nick == prefix.take(nick.len() as int)
    &&& forall|i: int| 0 <= i < nick.len() ==> #[trigger] nick[i] != '!' && nick[i] != '@'
    &&& nick.len() < prefix.len() ==> prefix[nick.len() as int] == '!' || prefix[nick.len() as int]
        == '@'
}

/// The nick ends in front of the first mark of a prefix.
pub proof fn nicks_end_at_the_first_mark(prefix: Seq<char>, nick: Seq<char>)
    ensures
        nick == crate::net::nick_text(prefix) <==> is_nick_in(nick, prefix),
{
    lemma_nick(prefix);
    let n = crate::net::nick_text(prefix);
    if is_nick_in(nick, prefix) {
        if nick.len() < n.len() {
            assert(n[nick.len() as int] == prefix[nick.len() as int]);
        } else if n.len() < nick.len() {
            assert(nick[n.len() as int] == prefix[n.len() as int]);
        }
        assert(nick =~= n);
    }
}

proof fn lemma_nick(prefix: Seq<char>)
    ensures
        is_nick_in(crate::net::nick_text(prefix), prefix),
{
    lemma_nick_len(prefix);
}

proof fn lemma_nick_len(s: Seq<char>)
    ensures
        crate::net::nick_len(s) <= s.len(),
        forall|i: int| 0 <= i < crate::net::nick_len(s) ==> #[trigger] s[i] != '!' && s[i] != '@',
        crate::net::nick_len(s) < s.len() ==> s[crate::net::nick_len(s) as int] == '!'
            || s[crate::net::nick_len(s) as int] == '@',
    decreases s.len(),
{
    if s.len() > 0 && s[0] != '!' && s[0] != '@' {
        let rest = s.skip(1);
        lemma_nick_len(rest);
        assert forall|i: int| 0 <= i < crate::net::nick_len(s) implies #[trigger] s[i] != '!'
            && s[i] != '@' by {
            if i > 0 {
                assert(s[i] == rest[i - 1]);
            }
        }
    }
}

/// The pieces from the first on, with `sep` between neighbours.
pub open spec fn strung(pieces: Seq<Seq<char>>, sep: Seq<char>) -> Seq<char>
    decreases pieces.len(),
{
    if pieces.len() == 0 {
        Seq::empty()
    } else if pieces.len() == 1 {
        pieces[0]
    } else {
        pieces[0] + sep + strung(pieces.skip(1), sep)
    }
}

/// Joining pieces strings all of them together, in order.
pub proof fn joined_pieces_are_strung(pieces: Seq<Seq<char>>, sep: Seq<char>)
    ensures
        crate::text::joined(pieces, sep) == strung(pieces, sep),
    decreases pieces.len(),
{
    if pieces.len() > 1 {
        lemma_joined_front(pieces, sep);
        joined_pieces_are_strung(pieces.skip(1), sep);
    }
}

proof fn lemma_joined_front(pieces: Seq<Seq<char>>, sep: Seq<char>)
    requires
        pieces.len() > 1,
    ensures
        crate::text::joined(pieces, sep) == pieces[0] + sep + crate::text::joined(
            pieces.skip(1),
            sep,
        ),
    decreases pieces.len(),
{
    let rest = pieces.skip(1);
    reveal_with_fuel(crate::text::joined, 3);
    if pieces.len() > 2 {
        lemma_joined_front(pieces.drop_last(), sep);
        assert(pieces.drop_last().skip(1) =~= rest.drop_last());
        assert(crate::text::joined(rest, sep) == crate::text::joined(rest.drop_last(), sep) + sep
            + rest.last());
        assert((pieces[0] + sep + crate::text::joined(rest.drop_last(), sep)) + sep + pieces.last()
            =~= pieces[0] + sep + (crate::text::joined(rest.drop_last(), sep) + sep + rest.last()));
    }
}

/// The decoded last parameter, or nothing.
pub open spec fn last_decoded(m: crate::irc::Parsed) -> Seq<char> {
    if m.params.len() > 0 {
        crate::text::utf8_lossy(m.params[m.params.len() - 1])
    } else {
        Seq::empty()
    }
}

/// The decoded first parameter, or nothing.
pub open spec fn first_decoded(m: crate::irc::Parsed) -> Seq<char> {
    if m.params.len() > 0 {
        crate::text::utf8_lossy(m.params[0])
    } else {
        Seq::empty()
    }
}

/// Whether `nick` is whom the message says it is from; nobody where it does not
/// say.
pub open spec fn is_from(m: crate::irc::Parsed, nick: Seq<char>) -> bool {
    match m.prefix {
        Some(p) => is_nick_in(nick, crate::text::utf8_lossy(p)),
        None => nick.len() == 0,
    }
}

/// A PRIVMSG is shown as target, nick and text; a NOTICE likewise, behind the
/// word "notice".
pub proof fn chat_messages_are_shown_as_chat(m: crate::irc::Parsed, nick: Seq<char>)
    requires
        is_from(m, nick),
    ensures
        spells(m.command, privmsg()) ==> crate::net::display_text(m) == "["@ + first_decoded(m)
            + "] <"@ + nick + "> "@ + last_decoded(m),
        spells(m.command, notice()) ==> crate::net::display_text(m) == "notice ["@ + first_decoded(
            m,
        ) + "] <"@ + nick + "> "@ + last_decoded(m),
{
    lemma_four_commands(m);
    lemma_sender(m, nick);
    reveal_strlit("notice ");
    reveal_strlit("[");
    reveal_strlit("notice [");
    assert("notice "@ + "["@ =~= "notice ["@);
    let rest = "] <"@ + nick + "> "@ + last_decoded(m);
    if spells(m.command, notice()) {
        assert(crate::net::display_text(m) =~= "notice ["@ + first_decoded(m) + "] <"@ + nick
            + "> "@ + last_decoded(m));
    } else if spells(m.command, privmsg()) {
        assert(crate::net::display_text(m) =~= "["@ + first_decoded(m) + "] <"@ + nick + "> "@
            + last_decoded(m));
    }
}

/// A JOIN is shown as who joined what.
pub proof fn joins_are_shown_as_joins(m: crate::irc::Parsed, nick: Seq<char>)
    requires
        is_from(m, nick),
        spells(m.command, join()),
    ensures
        crate::net::display_text(m) == "* "@ + nick + " joined "@ + last_decoded(m),
{
    lemma_four_commands(m);
    lemma_sender(m, nick);
}

/// Every other message is shown as its command and all of its parameters, with
/// single spaces between.
pub proof fn other_messages_are_shown_in_full(m: crate::irc::Parsed)
    requires
        !spells(m.command, privmsg()),
        !spells(m.command, notice()),
        !spells(m.command, join()),
    ensures
        crate::net::display_text(m) == crate::text::utf8_lossy(m.command) + " "@ + strung(
            m.params.map_values(|p: Seq<u8>| crate::text::utf8_lossy(p)),
            " "@,
        ),
{
    lemma_four_commands(m);
    joined_pieces_are_strung(
        m.params.map_values(|p: Seq<u8>| crate::text::utf8_lossy(p)),
        " "@,
    );
}

proof fn lemma_sender(m: crate::irc::Parsed, nick: Seq<char>)
    requires
        is_from(m, nick),
    ensures
        crate::net::sender_text(m) == nick,
{
    match m.prefix {
        Some(p) => {
            nicks_end_at_the_first_mark(crate::text::utf8_lossy(p), nick);
        },
        None => {
            assert(nick =~= Seq::<char>::empty());
        },
    }
}

// ---------------------------------------------------------------------------
// The stream of a chat session
// ---------------------------------------------------------------------------

/// A line is cut exactly behind its last byte that is no carriage return and
/// no line feed.
pub proof fn line_ends_are_cut(s: Seq<u8>, r: Seq<u8>)
    ensures
        r == crate::net::without_crlf(s) <==> {
            &&& r.len() <= s.len()
            &&& r == s.take(r.len() as int)
            &&& forall|i: int| r.len() <= i < s.len() ==> #[trigger] s[i] == 13 || s[i] == 10
            &&& r.len() > 0 ==> r.last() != 13 && r.last() != 10
        },
    decreases s.len(),
{
    if s.len() > 0 && (s.last() == 13 || s.last() == 10) {
        let t = s.drop_last();
        line_ends_are_cut(t, r);
        if r == crate::net::without_crlf(s) {
            assert(r =~= s.take(r.len() as int));
            assert forall|i: int| r.len() <= i < s.len() implies #[trigger] s[i] == 13 || s[i]
                == 10 by {
                if i < t.len() {
                    assert(t[i] == s[i]);
                }
            }
        }
        if r.len() <= s.len() && r == s.take(r.len() as int) && (r.len() > 0 ==> r.last() != 13
            && r.last() != 10) && (forall|i: int|
            r.len() <= i < s.len() ==> #[trigger] s[i] == 13 || s[i] == 10) {
            if r.len() == s.len() {
                assert(r.last() == s.last());
            }
            assert(r =~= t.take(r.len() as int));
            assert forall|i: int| r.len() <= i < t.len() implies #[trigger] t[i] == 13 || t[i]
                == 10 by {
                assert(t[i] == s[i]);
            }
        }
    } else {
        if r == s {
            assert(r =~= s.take(r.len() as int));
        }
        if r.len() <= s.len() && r == s.take(r.len() as int) && (forall|i: int|
            r.len() <= i < s.len() ==> #[trigger] s[i] == 13 || s[i] == 10) {
            if r.len() < s.len() {
                assert(s[s.len() - 1] == 13 || s[s.len() - 1] == 10);
            }
            assert(r =~= s);
        }
    }
}

/// Lines one after another, each with its line feed.
pub open spec fn fed(lines: Seq<Seq<u8>>) -> Seq<u8>
    decreases lines.len(),
{
    if lines.len() == 0 {
        Seq::empty()
    } else {
        fed(lines.drop_last()) + lines.last() + seq![10u8]
    }
}

/// The lines of a stream, each with its line feed, and what stands behind them
/// make up the stream; there is no line feed in any of them.
pub proof fn lines_make_up_the_stream(s: Seq<u8>)
    ensures
        fed(crate::net::complete_lines(s)) + crate::net::partial_line(s) == s,
        !crate::net::partial_line(s).contains(10u8),
        forall|i: int|
            0 <= i < crate::net::complete_lines(s).len() ==> !(
            #[trigger] crate::net::complete_lines(s)[i]).contains(10u8),
    decreases s.len(),
{
    let lines = crate::net::complete_lines(s);
    let rest = crate::net::partial_line(s);
    if s.len() == 0 {
        assert(lines =~= Seq::<Seq<u8>>::empty());
        assert(fed(lines) + rest =~= s);
    } else {
        let t = s.drop_last();
        lines_make_up_the_stream(t);
        crate::net::lemma_split_nonempty(t);
        let pieces = crate::net::split_lines(t);
        let before = crate::net::complete_lines(t);
        let partial = crate::net::partial_line(t);
        if s.last() == 10 {
            assert(lines =~= pieces);
            assert(lines.drop_last() =~= before);
            assert(fed(lines) =~= t + seq![10u8]);
            assert(s =~= t + seq![10u8]);
            assert(fed(lines) + rest =~= s);
            assert forall|i: int| 0 <= i < lines.len() implies !(#[trigger] lines[i]).contains(
                10u8,
            ) by {
                if i < before.len() {
                    assert(lines[i] == before[i]);
                } else {
                    assert(lines[i] == partial);
                }
            }
        } else {
            assert(lines =~= before);
            assert(rest == partial.push(s.last()));
            assert(fed(lines) + rest =~= (fed(before) + partial).push(s.last()));
            assert(s =~= t.push(s.last()));
            if rest.contains(10u8) {
                let i = choose|i: int| 0 <= i < rest.len() && rest[i] == 10;
                assert(i < partial.len());
                assert(partial[i] == 10);
            }
        }
    }
}

/// A line that holds a message is shown, as that message; the first welcome
/// ("001") also registers us and says so; a ping, and nothing else, is answered
/// with "PONG", and " :" and its last parameter where it has one. A line
/// without a message does nothing.
pub proof fn lines_are_handled(c: crate::net::Chat, line: Seq<u8>)
    ensures
        ({
            let after = crate::net::handled(c, line);
            match crate::irc::message_of(crate::net::without_crlf(line)) {
                None => after == c,
                Some(m) => {
                    let welcome = m.command == seq![48u8, 48, 49] && !c.registered;
                    let shown = c.shown.push(crate::net::display_text(m));
                    &&& after.registered == (c.registered || welcome)
                    &&& after.shown == if welcome {
                        shown.push("-- registered --"@)
                    } else {
                        shown
                    }
                    &&& after.replies == if !spells(m.command, ping()) {
                        c.replies
                    } else if m.params.len() == 0 {
                        c.replies.push(seq![80u8, 79, 78, 71])
                    } else {
                        c.replies.push(
                            seq![80u8, 79, 78, 71, 32, 58] + m.params[m.params.len() - 1],
                        )
                    }
                },
            }
        }),
{
    if let Some(m) = crate::irc::message_of(crate::net::without_crlf(line)) {
        lemma_four_commands(m);
        reveal_strlit("PONG");
        reveal_strlit(" :");
        reveal_strlit("001");
        assert(crate::text::ascii("001"@) =~= seq![48u8, 48, 49]);
        if m.params.len() == 0 {
            assert(crate::net::pong_bytes(m) =~= seq![80u8, 79, 78, 71]);
        } else {
            assert(crate::net::pong_bytes(m) =~= seq![80u8, 79, 78, 71, 32, 58]
                + m.params[m.params.len() - 1]);
        }
        if m.command == seq![48u8, 48, 49] {
            assert(m.command.len() != ping().len());
        }
    }
}

/// Lines are handled one by one, in order.
pub proof fn each_line_is_handled(c: crate::net::Chat, lines: Seq<Seq<u8>>, line: Seq<u8>)
    ensures
        crate::net::handled_all(c, Seq::empty()) == c,
        crate::net::handled_all(c, lines.push(line)) == crate::net::handled(
            crate::net::handled_all(c, lines),
            line,
        ),
{
    assert(lines.push(line).drop_last() =~= lines);
}

/// Replies are sent one by one, in order, each behind the other with a carriage
/// return and a line feed at its end.
pub proof fn each_reply_is_sent(t: crate::tcp::Tcp, lines: Seq<Seq<u8>>, line: Seq<u8>)
    ensures
        crate::net::offered_all(t, Seq::empty()) == t,
        crate::net::offered_all(t, lines.push(line)) == crate::net::offered_all(t, lines).sent(
            line + seq![13u8, 10],
        ),
        crate::net::ended(line) == line + seq![13u8, 10],
{
    assert(lines.push(line).drop_last() =~= lines);
}

proof fn lemma_encode_concat(a: Seq<char>, b: Seq<char>)
    ensures
        vstd::utf8::encode_utf8(a + b) == vstd::utf8::encode_utf8(a) + vstd::utf8::encode_utf8(b),
    decreases a.len(),
{
    if a.len() == 0 {
        assert(a + b =~= b);
        assert(vstd::utf8::encode_utf8(a) + vstd::utf8::encode_utf8(b) =~= vstd::utf8::encode_utf8(
            b,
        ));
    } else {
        assert((a + b).drop_first() =~= a.drop_first() + b);
        lemma_encode_concat(a.drop_first(), b);
        assert(vstd::utf8::encode_utf8(a + b) =~= vstd::utf8::encode_utf8(a)
            + vstd::utf8::encode_utf8(b));
    }
}

/// We introduce ourselves with these bytes: a NICK line and a USER line, each
/// with our nick where it belongs.
pub proof fn registration_by_its_bytes(nick: Seq<char>)
    ensures
        ({
            let e = vstd::utf8::encode_utf8(nick);
            vstd::utf8::encode_utf8(crate::net::registration_text(nick)) == seq![
                78u8,
                73,
                67,
                75,
                32,
            ] + e + seq![13u8, 10, 85, 83, 69, 82, 32] + e + seq![32u8, 48, 32, 42, 32, 58] + e
                + seq![13u8, 10]
        }),
{
    reveal_strlit("NICK ");
    reveal_strlit("\r\nUSER ");
    reveal_strlit(" 0 * :");
    reveal_strlit("\r\n");
    let a = "NICK "@;
    let b = "\r\nUSER "@;
    let c = " 0 * :"@;
    let d = "\r\n"@;
    lemma_encode_concat(a, nick);
    lemma_encode_concat(a + nick, b);
    lemma_encode_concat(a + nick + b, nick);
    lemma_encode_concat(a + nick + b + nick, c);
    lemma_encode_concat(a + nick + b + nick + c, nick);
    lemma_encode_concat(a + nick + b + nick + c + nick, d);
    vstd::utf8::is_ascii_chars_encode_utf8(a);
    vstd::utf8::is_ascii_chars_encode_utf8(b);
    vstd::utf8::is_ascii_chars_encode_utf8(c);
    vstd::utf8::is_ascii_chars_encode_utf8(d);
    assert(vstd::utf8::encode_utf8(a) =~= seq![78u8, 73, 67, 75, 32]);
    assert(vstd::utf8::encode_utf8(b) =~= seq![13u8, 10, 85, 83, 69, 82, 32]);
    assert(vstd::utf8::encode_utf8(c) =~= seq![32u8, 48, 32, 42, 32, 58]);
    assert(vstd::utf8::encode_utf8(d) =~= seq![13u8, 10]);
}

/// We ask to join with these bytes: a JOIN line with our channel.
pub proof fn join_request_by_its_bytes(channel: Seq<char>)
    ensures
        vstd::utf8::encode_utf8(crate::net::join_request(channel)) == seq![74u8, 79, 73, 78, 32]
            + vstd::utf8::encode_utf8(channel) + seq![13u8, 10],
{
    reveal_strlit("JOIN ");
    reveal_strlit("\r\n");
    let a = "JOIN "@;
    let d = "\r\n"@;
    lemma_encode_concat(a, channel);
    lemma_encode_concat(a + channel, d);
    vstd::utf8::is_ascii_chars_encode_utf8(a);
    vstd::utf8::is_ascii_chars_encode_utf8(d);
    assert(vstd::utf8::encode_utf8(a) =~= seq![74u8, 79, 73, 78, 32]);
    assert(vstd::utf8::encode_utf8(d) =~= seq![13u8, 10]);
}

/// What a server that parses our introduction reads: our nick, as the only
/// parameter of NICK, and as the first and the last of USER's four.
pub proof fn introductions_are_read_back(e: Seq<u8>)
    requires
        e.len() > 0,
        e[0] != 0x3a,
        !e.contains(0x20u8),
    ensures
        crate::irc::message_of(seq![78u8, 73, 67, 75, 32] + e) == Some(
            crate::irc::Parsed {
                prefix: None,
                command: seq![78u8, 73, 67, 75],
                params: seq![e],
            },
        ),
        crate::irc::message_of(
            seq![85u8, 83, 69, 82, 32] + e + seq![32u8, 48, 32, 42, 32, 58] + e,
        ) == Some(
            crate::irc::Parsed {
                prefix: None,
                command: seq![85u8, 83, 69, 82],
                params: seq![e, seq![48u8], seq![42u8], e],
            },
        ),
{
    let one = |text: Seq<u8>| crate::irc::Spaced { gap: 1, text };
    let nick = seq![78u8, 73, 67, 75];
    let user = seq![85u8, 83, 69, 82];
    let only = seq![one(e)];
    lines_are_read_as_written(None, nick, only, None, 0);
    reveal_with_fuel(crate::irc::written_params, 5);
    assert(crate::irc::spaces(1) =~= seq![0x20u8]);
    assert(crate::irc::spaces(0) =~= Seq::<u8>::empty());
    assert(crate::irc::written_line(None, nick, only, None) + crate::irc::spaces(0) =~= seq![
        78u8,
        73,
        67,
        75,
        32,
    ] + e);
    let m = crate::irc::message_of(seq![78u8, 73, 67, 75, 32] + e)->Some_0;
    assert(only.map_values(|p: crate::irc::Spaced| p.text) + Seq::<Seq<u8>>::empty() =~= seq![e]);
    assert(m.params =~= seq![e]);
    let three = seq![one(e), one(seq![48u8]), one(seq![42u8])];
    let last = one(e);
    assert(!seq![48u8].contains(0x20u8) && !seq![42u8].contains(0x20u8));
    lines_are_read_as_written(None, user, three, Some(last), 0);
    assert(three.skip(1) =~= seq![one(seq![48u8]), one(seq![42u8])]);
    assert(three.skip(1).skip(1) =~= seq![one(seq![42u8])]);
    assert(three.skip(1).skip(1).skip(1).len() == 0);
    let line = seq![85u8, 83, 69, 82, 32] + e + seq![32u8, 48, 32, 42, 32, 58] + e;
    assert(crate::irc::written_line(None, user, three, Some(last)) + crate::irc::spaces(0)
        =~= line);
    let n = crate::irc::message_of(line)->Some_0;
    assert(three.map_values(|p: crate::irc::Spaced| p.text) + seq![last.text] =~= seq![
        e,
        seq![48u8],
        seq![42u8],
        e,
    ]);
    assert(n.params =~= seq![e, seq![48u8], seq![42u8], e]);
}

/// How long to wait: as long as smoltcp says, at most 50 milliseconds, and 50
/// where it does not say. A number that is negative as a C `int` is no wait.
pub proof fn waits_are_bounded(ms: u64)
    ensures
        crate::net::timeout_of(None) == 50,
        ms <= 50 ==> crate::net::timeout_of(Some(ms)) == ms,
        50 < ms < 0x8000_0000 ==> crate::net::timeout_of(Some(ms)) == 50,
        0x8000_0000 <= ms < 0x1_0000_0000 ==> crate::net::timeout_of(Some(ms)) == 0,
        ms >= 0x1_0000_0000 ==> crate::net::timeout_of(Some(ms)) == crate::net::timeout_of(
            Some((ms % 0x1_0000_0000) as u64),
        ),
{
}

/// One pass of a session, where our half of the connection is open: we
/// introduce ourselves unless we have, take what lies in one piece of what was
/// received, handle its lines behind what was left of the last pass, keep what
/// stands behind them, and join once the server has welcomed us unless we have.
/// Where our half is not open, all of this but the sending is done.
pub proof fn passes_do_their_steps_in_order(s: crate::net::SessionView, t: crate::tcp::Tcp)
    ensures
        ({
            let p = s.after_pass(t);
            let open = t.state is Established || t.state is CloseWait;
            let bytes = s.partial + t.unread.take(t.chunk() as int);
            let chat = crate::net::handled_all(
                crate::net::Chat {
                    registered: s.registered,
                    shown: Seq::empty(),
                    replies: Seq::empty(),
                },
                crate::net::complete_lines(bytes),
            );
            let introduces = open && !s.sent_registration;
            let joins = open && chat.registered && !s.joined;
            let t1 = if introduces {
                t.sent(vstd::utf8::encode_utf8(crate::net::registration_text(s.nick)))
            } else {
                t
            };
            let t2 = t1.without(t1.chunk());
            let t3 = if joins {
                t2.sent(vstd::utf8::encode_utf8(crate::net::join_request(s.channel)))
            } else {
                t2
            };
            &&& p.tcp == t3
            &&& p.shown == chat.shown
            &&& p.replies == chat.replies
            &&& p.session.nick == s.nick && p.session.channel == s.channel
            &&& p.session.sent_registration == (s.sent_registration || open)
            &&& p.session.registered == chat.registered
            &&& p.session.joined == (s.joined || joins)
            &&& p.session.partial == crate::net::partial_line(bytes)
        }),
{
}

// ---------------------------------------------------------------------------
// Numbers and texts
// ---------------------------------------------------------------------------

/// The number that decimal digits denote.
pub open spec fn in_decimal(s: Seq<char>) -> nat
    decreases s.len(),
{
    if s.len() == 0 {
        0
    } else {
        (in_decimal(s.drop_last()) * 10 + (s.last() as nat - '0' as nat)) as nat
    }
}

pub open spec fn all_digits(s: Seq<char>) -> bool {
    forall|i: int| 0 <= i < s.len() ==> '0' <= #[trigger] s[i] <= '9'
}

proof fn lemma_digits_value(s: Seq<char>)
    ensures
        crate::text::digits_value(s, 10) == if all_digits(s) {
            Some(in_decimal(s))
        } else {
            None
        },
    decreases s.len(),
{
    if s.len() > 0 {
        let t = s.drop_last();
        lemma_digits_value(t);
        if all_digits(t) && '0' <= s.last() <= '9' {
            assert forall|i: int| 0 <= i < s.len() implies '0' <= #[trigger] s[i] <= '9' by {
                if i < t.len() {
                    assert(t[i] == s[i]);
                }
            }
        }
        if all_digits(s) {
            assert forall|i: int| 0 <= i < t.len() implies '0' <= #[trigger] t[i] <= '9' by {
                assert(t[i] == s[i]);
            }
            assert('0' <= s[s.len() - 1] <= '9');
        }
    }
}

/// A decimal number is read as what its digits say, with or without a plus sign
/// in front, where it is not over the limit; and nothing else is read.
pub proof fn decimal_numbers_are_read(s: Seq<char>, max: nat)
    ensures
        ({
            let digits = if s.len() > 0 && s[0] == '+' {
                s.skip(1)
            } else {
                s
            };
            crate::text::uint_value(s, 10, max) == if digits.len() > 0 && all_digits(digits)
                && in_decimal(digits) <= max {
                Some(in_decimal(digits))
            } else {
                None
            }
        }),
{
    lemma_digits_value(
        if s.len() > 0 && s[0] == '+' {
            s.skip(1)
        } else {
            s
        },
    );
}

/// Printed numbers are digits, without a leading zero, and are read back as the
/// number.
pub proof fn printed_numbers_are_read_back(n: nat)
    ensures
        crate::text::decimal_digits(n).len() > 0,
        all_digits(crate::text::decimal_digits(n)),
        in_decimal(crate::text::decimal_digits(n)) == n,
        n > 0 ==> crate::text::decimal_digits(n)[0] != '0',
        n == 0 ==> crate::text::decimal_digits(n) == seq!['0'],
    decreases n,
{
    let s = crate::text::decimal_digits(n);
    reveal_with_fuel(in_decimal, 2);
    if n < 10 {
        assert(s.drop_last() =~= Seq::<char>::empty());
        assert(s[0] as nat == '0' as nat + n);
        assert(n == 0 ==> s =~= seq!['0']);
    } else {
        printed_numbers_are_read_back(n / 10);
        let t = crate::text::decimal_digits(n / 10);
        assert(s.drop_last() =~= t);
        assert(s.last() as nat == '0' as nat + n % 10);
        assert(s[0] == t[0]);
        assert forall|i: int| 0 <= i < s.len() implies '0' <= #[trigger] s[i] <= '9' by {
            if i < t.len() {
                assert(t[i] == s[i]);
            }
        }
    }
}

/// Cutting a text at a separator and stringing the pieces together again gives
/// the text; there is no separator in any piece.
pub proof fn cut_texts_are_whole(s: Seq<char>, sep: char)
    ensures
        crate::text::split_on(s, sep).len() > 0,
        strung(crate::text::split_on(s, sep), seq![sep]) == s,
        forall|i: int|
            0 <= i < crate::text::split_on(s, sep).len() ==> !(#[trigger] crate::text::split_on(
                s,
                sep,
            )[i]).contains(sep),
    decreases s.len(),
{
    let pieces = crate::text::split_on(s, sep);
    joined_pieces_are_strung(pieces, seq![sep]);
    reveal_with_fuel(crate::text::joined, 2);
    if s.len() == 0 {
        assert(crate::text::joined(pieces, seq![sep]) =~= s);
    } else {
        let t = s.drop_last();
        cut_texts_are_whole(t, sep);
        let before = crate::text::split_on(t, sep);
        joined_pieces_are_strung(before, seq![sep]);
        if s.last() == sep {
            assert(pieces.drop_last() =~= before);
            assert(crate::text::joined(pieces, seq![sep]) =~= t + seq![sep]);
            assert(t + seq![sep] =~= s);
            assert forall|i: int| 0 <= i < pieces.len() implies !(#[trigger] pieces[i]).contains(
                sep,
            ) by {
                if i < before.len() {
                    assert(pieces[i] == before[i]);
                }
            }
        } else {
            let last = before.last().push(s.last());
            assert(pieces.drop_last() =~= before.drop_last());
            assert(pieces.last() == last);
            if before.len() == 1 {
                assert(crate::text::joined(pieces, seq![sep]) =~= t.push(s.last()));
            } else {
                assert(crate::text::joined(pieces, seq![sep]) =~= crate::text::joined(
                    before,
                    seq![sep],
                ).push(s.last()));
            }
            assert(t.push(s.last()) =~= s);
            assert forall|i: int| 0 <= i < pieces.len() implies !(#[trigger] pieces[i]).contains(
                sep,
            ) by {
                if i < before.len() - 1 {
                    assert(pieces[i] == before[i]);
                } else if pieces[i].contains(sep) {
                    let k = choose|k: int| 0 <= k < last.len() && last[k] == sep;
                    assert(before.last()[k] == sep);
                    assert(before[before.len() - 1].contains(sep));
                }
            }
        }
    }
}

proof fn lemma_no_cut(s: Seq<char>, sep: char)
    requires
        !s.contains(sep),
    ensures
        crate::text::split_on(s, sep) == seq![s],
    decreases s.len(),
{
    if s.len() > 0 {
        let t = s.drop_last();
        assert(s.contains(s[s.len() - 1]));
        assert forall|i: int| 0 <= i < t.len() implies t[i] != sep by {
            assert(s.contains(s[i]));
        }
        lemma_no_cut(t, sep);
        assert(t.push(s.last()) =~= s);
        assert(crate::text::split_on(s, sep) =~= seq![s]);
    } else {
        assert(s =~= Seq::<char>::empty());
        assert(crate::text::split_on(s, sep) =~= seq![s]);
    }
}

/// Pieces without a separator in them come back out of the text that they make
/// up with separators between.
pub proof fn strung_texts_are_cut_again(pieces: Seq<Seq<char>>, sep: char)
    requires
        pieces.len() > 0,
        forall|i: int| 0 <= i < pieces.len() ==> !(#[trigger] pieces[i]).contains(sep),
    ensures
        crate::text::split_on(strung(pieces, seq![sep]), sep) == pieces,
    decreases pieces.len(),
{
    joined_pieces_are_strung(pieces, seq![sep]);
    reveal_with_fuel(crate::text::joined, 2);
    if pieces.len() == 1 {
        lemma_no_cut(pieces[0], sep);
        assert(pieces =~= seq![pieces[0]]);
    } else {
        let front = pieces.drop_last();
        assert forall|i: int| 0 <= i < front.len() implies !(#[trigger] front[i]).contains(sep) by {
            assert(front[i] == pieces[i]);
        }
        strung_texts_are_cut_again(front, sep);
        joined_pieces_are_strung(front, seq![sep]);
        let s = crate::text::joined(front, seq![sep]);
        assert(s.push(sep).drop_last() =~= s);
        assert(s + seq![sep] =~= s.push(sep));
        assert(!pieces[pieces.len() - 1].contains(sep));
        lemma_cut_append(s.push(sep), pieces.last(), sep);
        assert(crate::text::split_on(s.push(sep), sep) == front.push(Seq::empty()));
        assert(front.push(Seq::<char>::empty()).drop_last() =~= front);
        assert(Seq::<char>::empty() + pieces.last() =~= pieces.last());
        assert(front.push(pieces.last()) =~= pieces);
    }
}

proof fn lemma_cut_append(s: Seq<char>, t: Seq<char>, sep: char)
    requires
        !t.contains(sep),
    ensures
        crate::text::split_on(s, sep).len() > 0,
        crate::text::split_on(s + t, sep) == crate::text::split_on(s, sep).drop_last().push(
            crate::text::split_on(s, sep).last() + t,
        ),
    decreases t.len(),
{
    let before = crate::text::split_on(s, sep);
    cut_texts_are_whole(s, sep);
    if t.len() == 0 {
        assert(s + t =~= s);
        assert(before.last() + t =~= before.last());
        assert(before.drop_last().push(before.last()) =~= before);
    } else {
        let u = t.drop_last();
        assert(t.contains(t[t.len() - 1]));
        assert forall|i: int| 0 <= i < u.len() implies u[i] != sep by {
            assert(t.contains(t[i]));
        }
        lemma_cut_append(s, u, sep);
        assert((s + t).drop_last() =~= s + u);
        let mid = crate::text::split_on(s + u, sep);
        assert(mid.drop_last() =~= before.drop_last());
        assert((before.last() + u).push(t.last()) =~= before.last() + t);
    }
}

/// Four octets in decimal, with dots between.
pub open spec fn four_octets(ip: Ipv4Addr) -> Seq<Seq<char>> {
    seq![
        crate::text::decimal_digits(ip.a as nat),
        crate::text::decimal_digits(ip.b as nat),
        crate::text::decimal_digits(ip.c as nat),
        crate::text::decimal_digits(ip.d as nat),
    ]
}

/// An address is printed as its octets from first to last, in decimal, with
/// dots between.
pub proof fn addresses_are_printed_by_octets(ip: Ipv4Addr)
    ensures
        ip.dotted() == strung(four_octets(ip), seq!['.']),
{
    reveal_strlit(".");
    assert("."@ =~= seq!['.']);
    let o = four_octets(ip);
    reveal_with_fuel(strung, 4);
    assert(o.skip(1) =~= seq![o[1], o[2], o[3]]);
    assert(o.skip(1).skip(1) =~= seq![o[2], o[3]]);
    assert(o.skip(1).skip(1).skip(1) =~= seq![o[3]]);
    assert(ip.dotted() =~= strung(o, seq!['.']));
}

/// A text is read as an address exactly if it is that address as printed.
pub proof fn addresses_are_read_as_printed(s: Seq<char>, ip: Ipv4Addr)
    ensures
        Ipv4Addr::from_dotted(s) == Some(ip) <==> s == strung(four_octets(ip), seq!['.']),
{
    let o = four_octets(ip);
    lemma_octet(ip.a);
    lemma_octet(ip.b);
    lemma_octet(ip.c);
    lemma_octet(ip.d);
    if s == strung(o, seq!['.']) {
        assert forall|i: int| 0 <= i < o.len() implies !(#[trigger] o[i]).contains('.') by {}
        strung_texts_are_cut_again(o, '.');
    }
    if Ipv4Addr::from_dotted(s) == Some(ip) {
        let parts = crate::text::split_on(s, '.');
        cut_texts_are_whole(s, '.');
        assert forall|i: int| 0 <= i < 4 implies #[trigger] parts[i]
            == crate::text::decimal_digits(in_decimal(parts[i])) by {
            assert(Ipv4Addr::octet(parts[i]) is Some);
            lemma_digits_value(parts[i]);
            lemma_printed_uniquely(parts[i]);
        }
        lemma_digits_value(parts[0]);
        lemma_digits_value(parts[1]);
        lemma_digits_value(parts[2]);
        lemma_digits_value(parts[3]);
        assert(Ipv4Addr::octet(parts[0]) is Some && Ipv4Addr::octet(parts[1]) is Some
            && Ipv4Addr::octet(parts[2]) is Some && Ipv4Addr::octet(parts[3]) is Some);
        assert(parts =~= o);
    }
}

proof fn lemma_octet(v: u8)
    ensures
        Ipv4Addr::octet(crate::text::decimal_digits(v as nat)) == Some(v as nat),
        !crate::text::decimal_digits(v as nat).contains('.'),
{
    let n = v as nat;
    let d = crate::text::decimal_digits(n);
    printed_numbers_are_read_back(n);
    lemma_digits_value(d);
    reveal_with_fuel(crate::text::decimal_digits, 3);
    assert(d.len() <= 3);
    if d.contains('.') {
        let i = choose|i: int| 0 <= i < d.len() && d[i] == '.';
        assert('0' <= d[i]);
    }
}

/// Digits without a leading zero are how their number is printed.
proof fn lemma_printed_uniquely(s: Seq<char>)
    requires
        s.len() > 0,
        all_digits(s),
        s[0] == '0' ==> s.len() == 1,
    ensures
        s == crate::text::decimal_digits(in_decimal(s)),
        s[0] != '0' ==> in_decimal(s) > 0,
    decreases s.len(),
{
    let t = s.drop_last();
    assert('0' <= s[s.len() - 1] <= '9');
    assert('0' <= s[0] <= '9');
    reveal_with_fuel(in_decimal, 2);
    let d = (s.last() as nat - '0' as nat) as nat;
    assert(('0' as nat + d) as char == s.last());
    if t.len() == 0 {
        assert(in_decimal(t) == 0);
        assert(s =~= seq![s.last()]);
    } else {
        assert(t[0] == s[0]);
        assert forall|i: int| 0 <= i < t.len() implies '0' <= #[trigger] t[i] <= '9' by {
            assert(t[i] == s[i]);
        }
        lemma_printed_uniquely(t);
        let n = in_decimal(s);
        assert(n == in_decimal(t) * 10 + d);
        assert(n / 10 == in_decimal(t) && n % 10 == d);
        assert(s =~= t.push(s.last()));
    }
}

/// The value of a hexadecimal digit; 16 for any other character.
pub open spec fn hex_digit(c: char) -> nat {
    if '0' <= c <= '9' {
        (c as nat - '0' as nat) as nat
    } else if 'a' <= c <= 'f' {
        (c as nat - 'a' as nat + 10) as nat
    } else if 'A' <= c <= 'F' {
        (c as nat - 'A' as nat + 10) as nat
    } else {
        16
    }
}

/// The number that hexadecimal digits denote.
pub open spec fn in_hex(s: Seq<char>) -> nat
    decreases s.len(),
{
    if s.len() == 0 {
        0
    } else {
        in_hex(s.drop_last()) * 16 + hex_digit(s.last())
    }
}

pub open spec fn all_hex(s: Seq<char>) -> bool {
    forall|i: int| 0 <= i < s.len() ==> hex_digit(#[trigger] s[i]) < 16
}

/// The digits of a number behind the plus sign that it may have.
pub open spec fn unsigned(s: Seq<char>) -> Seq<char> {
    if s.len() > 0 && s[0] == '+' {
        s.skip(1)
    } else {
        s
    }
}

/// Whether a text is a byte in hexadecimal.
pub open spec fn hex_byte(s: Seq<char>) -> bool {
    unsigned(s).len() > 0 && all_hex(unsigned(s)) && in_hex(unsigned(s)) <= 255
}

proof fn lemma_hex_value(s: Seq<char>)
    ensures
        crate::text::digits_value(s, 16) == if all_hex(s) {
            Some(in_hex(s))
        } else {
            None
        },
    decreases s.len(),
{
    if s.len() > 0 {
        let t = s.drop_last();
        lemma_hex_value(t);
        assert(s[s.len() - 1] == s.last());
        if all_hex(t) && hex_digit(s.last()) < 16 {
            assert forall|i: int| 0 <= i < s.len() implies hex_digit(#[trigger] s[i]) < 16 by {
                if i < t.len() {
                    assert(t[i] == s[i]);
                }
            }
        }
        if all_hex(s) {
            assert forall|i: int| 0 <= i < t.len() implies hex_digit(#[trigger] t[i]) < 16 by {
                assert(t[i] == s[i]);
            }
        }
    }
}

/// A MAC address is read out of six pieces with colons between, each a byte in
/// hexadecimal, in order; and out of nothing else.
pub proof fn macs_are_read_by_their_bytes(pieces: Seq<Seq<char>>)
    requires
        pieces.len() > 0,
        forall|i: int| 0 <= i < pieces.len() ==> !(#[trigger] pieces[i]).contains(':'),
    ensures
        ({
            let mac = crate::socket::mac_bytes(strung(pieces, seq![':']));
            &&& mac is Some <==> pieces.len() == 6 && forall|i: int|
                0 <= i < 6 ==> hex_byte(#[trigger] pieces[i])
            &&& mac is Some ==> mac->Some_0.len() == 6 && forall|i: int|
                0 <= i < 6 ==> #[trigger] mac->Some_0[i] == in_hex(unsigned(pieces[i]))
        }),
{
    strung_texts_are_cut_again(pieces, ':');
    let s = strung(pieces, seq![':']);
    assert forall|i: int| 0 <= i < pieces.len() implies (crate::text::uint_value(
        #[trigger] pieces[i],
        16,
        255,
    ) is Some <==> hex_byte(pieces[i])) && (hex_byte(pieces[i]) ==> crate::text::uint_value(
        pieces[i],
        16,
        255,
    ) == Some(in_hex(unsigned(pieces[i])))) by {
        lemma_hex_value(unsigned(pieces[i]));
    }
}

/// What is wrong with a text that is no MAC address is told: that it has not six
/// pieces, with the text, or the first piece that is no byte in hexadecimal.
pub proof fn bad_macs_are_told_apart(
    pieces: Seq<Seq<char>>,
    r: Result<[u8; 6], crate::net::MacError>,
)
    requires
        pieces.len() > 0,
        forall|i: int| 0 <= i < pieces.len() ==> !(#[trigger] pieces[i]).contains(':'),
        crate::net::mac_read(strung(pieces, seq![':']), r),
    ensures
        r matches Err(crate::net::MacError::BadMac(m)) ==> pieces.len() != 6 && m@ == "bad MAC "@
            + crate::text::debug_quoted(strung(pieces, seq![':'])),
        r matches Err(crate::net::MacError::BadHex(part)) ==> pieces.len() == 6 && exists|i: int|
            0 <= i < 6 && !hex_byte(#[trigger] pieces[i]) && part@ == pieces[i] && forall|k: int|
                0 <= k < i ==> hex_byte(#[trigger] pieces[k]),
        r matches Ok(mac) ==> pieces.len() == 6 && forall|i: int|
            0 <= i < 6 ==> hex_byte(#[trigger] pieces[i]) && mac@[i] == in_hex(unsigned(pieces[i])),
{
    let s = strung(pieces, seq![':']);
    strung_texts_are_cut_again(pieces, ':');
    macs_are_read_by_their_bytes(pieces);
    assert forall|i: int| 0 <= i < pieces.len() implies crate::net::is_hex_byte(#[trigger] pieces[i])
        == hex_byte(pieces[i]) by {
        lemma_hex_value(unsigned(pieces[i]));
    }
    if let Err(crate::net::MacError::BadHex(part)) = r {
        let i = choose|i: int| #[trigger]
            crate::net::first_bad(pieces, i) && part@ == pieces[i];
        assert(!hex_byte(pieces[i]));
        assert forall|k: int| 0 <= k < i implies hex_byte(#[trigger] pieces[k]) by {
            assert(crate::net::is_hex_byte(pieces[k]));
        }
    }
    if let Ok(mac) = r {
        assert forall|i: int| 0 <= i < 6 implies hex_byte(#[trigger] pieces[i]) && mac@[i] == in_hex(
            unsigned(pieces[i]),
        ) by {
            assert(crate::socket::mac_bytes(s)->Some_0[i] == in_hex(unsigned(pieces[i])));
        }
    }
}

/// An MTU is the decimal number between the white space of its file.
pub proof fn mtus_are_read_in_decimal(s: Seq<char>)
    ensures
        ({
            let digits = unsigned(crate::text::trimmed(s));
            crate::socket::mtu_value(s) == if digits.len() > 0 && all_digits(digits) && in_decimal(
                digits,
            ) <= usize::MAX {
                Some(in_decimal(digits))
            } else {
                None
            }
        }),
{
    decimal_numbers_are_read(crate::text::trimmed(s), usize::MAX as nat);
}

// ---------------------------------------------------------------------------
// Rings
// ---------------------------------------------------------------------------

/// Ring counters count up one by one and wrap around at 32 bits; how far one is
/// ahead of another is how often it was counted up.
pub proof fn counters_wrap_around(index: u32, n: nat)
    ensures
        crate::ring::ahead(index, 0) == index,
        crate::ring::ahead(index, n + 1) == (if crate::ring::ahead(index, n) == 0xffff_ffff {
            0
        } else {
            crate::ring::ahead(index, n) + 1
        }),
        n < 0x1_0000_0000 ==> crate::ring::distance(index, crate::ring::ahead(index, n)) == n,
{
}

/// The frame of an address is the one multiple of the frame size at or below it
/// that is less than a frame away.
pub proof fn bases_are_frame_starts(addr: nat, frame_size: nat, base: nat)
    requires
        frame_size > 0,
    ensures
        crate::ring::base_of(addr, frame_size) == base <==> base <= addr < base + frame_size
            && base % frame_size == 0,
{
    let q = addr as int / frame_size as int;
    let b = crate::ring::base_of(addr, frame_size);
    vstd::arithmetic::div_mod::lemma_fundamental_div_mod(addr as int, frame_size as int);
    vstd::arithmetic::div_mod::lemma_mod_multiples_basic(q, frame_size as int);
    assert(q * frame_size == frame_size * q) by (nonlinear_arith);
    assert(b % frame_size == 0);
    if base <= addr < base + frame_size && base % frame_size == 0 {
        let k = base as int / frame_size as int;
        vstd::arithmetic::div_mod::lemma_fundamental_div_mod(base as int, frame_size as int);
        assert(base == frame_size * k);
        assert(k * frame_size == frame_size * k) by (nonlinear_arith);
        vstd::arithmetic::div_mod::lemma_fundamental_div_mod_converse(
            addr as int,
            frame_size as int,
            k,
            addr - base,
        );
    }
}

/// New rings have produced nothing; the transmit frames, and only they, are in
/// the pool. The frames lie one behind the other from the start of the UMEM:
/// first those of the receive path, then those of the transmit path.
pub proof fn frames_lie_in_order(
    frame_size: nat,
    frame_count: nat,
    fill_size: nat,
    rx_size: nat,
    tx_size: nat,
)
    requires
        fill_size <= frame_count,
        frame_size * frame_count <= u64::MAX,
    ensures
        ({
            let v = crate::ring::new_rings(frame_size, frame_count, fill_size, rx_size, tx_size);
            &&& v.frame_size == frame_size && v.frame_count == frame_count
            &&& v.fill_size == fill_size && v.rx_size == rx_size && v.tx_size == tx_size
            &&& v.filled == 0 && v.sent == 0
            &&& v.umem_len() == frame_size * frame_count
            &&& v.rx_frames().len() == fill_size
            &&& forall|i: int| 0 <= i < fill_size ==> #[trigger] v.rx_frames()[i] == i * frame_size
            &&& v.pool.len() == frame_count - fill_size
            &&& forall|i: int|
                0 <= i < v.pool.len() ==> #[trigger] v.pool[i] == (fill_size + i) * frame_size
        }),
{
    let v = crate::ring::new_rings(frame_size, frame_count, fill_size, rx_size, tx_size);
    assert forall|i: int| 0 <= i < fill_size implies #[trigger] v.rx_frames()[i] == i
        * frame_size by {
        lemma_frame_number(i, frame_size as int, frame_count as int);
    }
    assert forall|i: int| 0 <= i < v.pool.len() implies #[trigger] v.pool[i] == (fill_size + i)
        * frame_size by {
        lemma_frame_number(fill_size + i, frame_size as int, frame_count as int);
    }
}

proof fn lemma_frame_number(i: int, frame_size: int, frame_count: int)
    requires
        0 <= i < frame_count,
        0 <= frame_size,
        frame_size * frame_count <= u64::MAX,
    ensures
        0 <= i * frame_size <= u64::MAX,
{
    assert(0 <= i * frame_size <= frame_size * frame_count) by (nonlinear_arith)
        requires
            0 <= i < frame_count,
            0 <= frame_size,
    ;
}

/// Filling puts into each of the next slots, as many as there are frames to put,
/// the frame of the slot's counter, counted round the UMEM; no other slot
/// changes.
pub proof fn filling_takes_frames_in_turn(v: crate::ring::RingsView, slots: Seq<u64>, k: nat)
    requires
        v.wf(),
        v.frame_count > 0,
        slots.len() == v.fill_size,
        k <= v.fill_size,
    ensures
        ({
            let after = crate::ring::filled_slots(v, slots, k);
            &&& after.len() == slots.len()
            &&& forall|j: int|
                0 <= j < k ==> after[(v.filled + j) % (v.fill_size as int)] == (#[trigger] (
                (v.filled + j) % 0x1_0000_0000) * v.frame_size) % (v.frame_size
                    * v.frame_count) as int
            &&& forall|i: int|
                0 <= i < slots.len() && (forall|j: int|
                    0 <= j < k ==> i != #[trigger] ((v.filled + j) % (v.fill_size as int)))
                    ==> #[trigger] after[i] == slots[i]
        }),
    decreases k,
{
    reveal(vstd::arithmetic::power2::is_pow2);
    if k > 0 {
        let h = (k - 1) as nat;
        filling_takes_frames_in_turn(v, slots, h);
        let before = crate::ring::filled_slots(v, slots, h);
        let after = crate::ring::filled_slots(v, slots, k);
        let m = v.fill_size as int;
        let at = crate::ring::ahead(v.filled, h);
        crate::ring::lemma_slot_ahead(v.filled, h, v.fill_size as u32);
        let slot = (v.filled + h) % m;
        assert(at as int % m == slot);
        vstd::arithmetic::div_mod::lemma_mod_bound(v.filled + h, m);
        let len = (v.frame_size * v.frame_count) as int;
        assert(len > 0) by (nonlinear_arith)
            requires
                v.frame_size > 0,
                v.frame_count > 0,
                len == v.frame_size * v.frame_count,
        ;
        vstd::arithmetic::div_mod::lemma_mod_bound(at * v.frame_size, len);
        assert(after == before.update(slot, ((at * v.frame_size) % len) as u64));
        assert forall|j: int| 0 <= j < k implies after[(v.filled + j) % m] == (#[trigger] ((v.filled
            + j) % 0x1_0000_0000) * v.frame_size) % len by {
            vstd::arithmetic::div_mod::lemma_mod_bound(v.filled + j, m);
            if j < h {
                lemma_slots_differ(v.filled as int, j, h as int, m);
            }
        }
        assert forall|i: int|
            0 <= i < slots.len() && (forall|j: int|
                0 <= j < k ==> i != #[trigger] ((v.filled + j) % m)) implies #[trigger] after[i]
            == slots[i] by {
            assert(i != (v.filled + h) % m);
            assert(before[i] == slots[i]);
        }
    }
}

/// Fewer counters than there are slots stand for different slots.
proof fn lemma_slots_differ(a: int, i: int, j: int, m: int)
    requires
        0 <= a,
        0 <= i < j,
        j < i + m,
    ensures
        (a + i) % m != (a + j) % m,
{
    vstd::arithmetic::div_mod::lemma_fundamental_div_mod(a + i, m);
    vstd::arithmetic::div_mod::lemma_fundamental_div_mod(a + j, m);
    let p = (a + i) / m;
    let q = (a + j) / m;
    if (a + i) % m == (a + j) % m {
        assert(j - i == m * q - m * p);
        assert(m * q - m * p == m * (q - p)) by (nonlinear_arith);
        assert(0 < m * (q - p) < m);
        assert(false) by (nonlinear_arith)
            requires
                0 < m * (q - p) < m,
        ;
    }
}

/// An entry of the TX ring names exactly the bytes that were handed over, stands
/// in the slot of the next counter, and moves the counter on by one.
pub proof fn submissions_name_their_bytes(v: crate::ring::RingsView, addr: u64, len: u32)
    requires
        0 < v.tx_size <= u32::MAX,
    ensures
        ({
            let s = crate::socket::submitted(v, addr, len);
            &&& s.desc.addr == addr && s.desc.len == len && s.desc.options == 0
            &&& s.slot == v.sent as int % v.tx_size as int
            &&& s.producer == (if v.sent == 0xffff_ffff {
                0
            } else {
                v.sent + 1
            })
        }),
{
    vstd::arithmetic::div_mod::lemma_mod_bound(v.sent as int, v.tx_size as int);
}

/// Completed frames go behind those in the pool, oldest first, each by its
/// start; nothing else changes.
pub proof fn completed_frames_join_the_pool(v: crate::ring::RingsView, completed: Seq<u64>)
    ensures
        ({
            let after = v.reclaimed(completed);
            let n = v.pool.len();
            &&& after.pool.len() == n + completed.len()
            &&& forall|i: int| 0 <= i < n ==> #[trigger] after.pool[i] == v.pool[i]
            &&& forall|i: int|
                n <= i < after.pool.len() ==> #[trigger] after.pool[i] == crate::ring::base_of(
                    completed[i - n] as nat,
                    v.frame_size,
                ) as u64
            &&& after == (crate::ring::RingsView { pool: after.pool, ..v })
        }),
{
}

/// After an attempt to bind that fails, the one that follows it is tried.
pub proof fn the_following_attempt_is_tried(
    attempts: Seq<crate::socket::BindAttempt>,
    i: int,
    bound: bool,
)
    requires
        0 <= i < attempts.len(),
    ensures
        crate::socket::bind_step(attempts, i, bound) is Bound <==> bound,
        crate::socket::bind_step(attempts, i, bound) is Failed <==> !bound && i
            == attempts.len() - 1,
        crate::socket::bind_step(attempts, i, bound) matches crate::socket::BindStep::Try(next)
            ==> next == attempts[i + 1],
{
}

/// The frame to send from is the last of the pool. Only where the pool is empty
/// are completions looked at: then the pool is their frames, oldest first.
pub proof fn frames_come_from_the_pool(v: crate::ring::RingsView, completed: Seq<u64>)
    ensures
        v.pool.len() > 0 ==> {
            &&& v.next_frame(completed) == Some(v.pool[v.pool.len() - 1])
            &&& v.allocated(completed).pool == v.pool.take(v.pool.len() - 1)
        },
        v.pool.len() == 0 && completed.len() == 0 ==> v.next_frame(completed) is None
            && v.allocated(completed).pool.len() == 0,
        v.pool.len() == 0 && completed.len() > 0 ==> {
            let n = completed.len() - 1;
            &&& v.next_frame(completed) == Some(
                crate::ring::base_of(completed[n] as nat, v.frame_size) as u64,
            )
            &&& v.allocated(completed).pool.len() == n
            &&& forall|i: int|
                0 <= i < n ==> #[trigger] v.allocated(completed).pool[i] == crate::ring::base_of(
                    completed[i] as nat,
                    v.frame_size,
                ) as u64
        },
        v.allocated(completed) == (crate::ring::RingsView {
            pool: v.allocated(completed).pool,
            ..v
        }),
{
    if v.pool.len() > 0 {
        assert(v.allocated(completed).pool =~= v.pool.take(v.pool.len() - 1));
    }
}

// ---------------------------------------------------------------------------
// Sending and receiving
// ---------------------------------------------------------------------------

/// A datagram that is sent to a peer counts as taken in full. It lies in one
/// frame of the UMEM, from the frame's start, with both MAC addresses, both
/// endpoints and the payload, and the TX entry names exactly its bytes; no
/// other byte changes, and the driver is to be told. It is dropped exactly if
/// the pool is empty and nothing was completed, and then no byte changes.
pub proof fn sent_datagrams_lie_in_their_frames(
    plane: crate::udp::UdpPlane,
    after: crate::udp::UdpPlane,
    umem: Seq<u8>,
    umem_after: Seq<u8>,
    comp: crate::ring::Completions<'_>,
    payload: Seq<u8>,
    r: Result<crate::udp::Datagram, crate::socket::SocketError>,
    remote: SocketAddrV4,
)
    requires
        plane.wf(),
        plane.framing.remote == Some(remote),
        umem.len() == plane.xsk.rings@.umem_len(),
        42 + payload.len() <= plane.xsk.rings@.frame_size,
        28 + payload.len() <= 0xffff,
        comp.fits(plane.xsk.rings@),
        plane.sent(after, umem, umem_after, comp, payload, r),
    ensures
        r is Ok,
        r->Ok_0.accepted == payload.len(),
        after.framing == plane.framing,
        umem_after.len() == umem.len(),
        r->Ok_0.submit is None <==> plane.xsk.rings@.pool.len() == 0 && comp@.len() == 0,
        r->Ok_0.comp_consumer == if plane.xsk.rings@.pool.len() == 0 {
            Some(comp.producer)
        } else {
            None
        },
        match r->Ok_0.submit {
            None => umem_after == umem,
            Some(s) => {
                let at = s.desc.addr as int;
                let end = at + 42 + payload.len();
                let f = umem_after.subrange(at, end);
                &&& s.desc.len == 42 + payload.len()
                &&& at % plane.xsk.rings@.frame_size as int == 0
                &&& at + plane.xsk.rings@.frame_size <= umem.len()
                &&& f.subrange(0, 6) == plane.framing.dst_mac@
                &&& f.subrange(6, 12) == plane.framing.src_mac@
                &&& word(f, 12) == 0x0800
                &&& address_at(f, 26, plane.framing.local.ip)
                &&& address_at(f, 30, remote.ip)
                &&& word(f, 34) == plane.framing.local.port
                &&& word(f, 36) == remote.port
                &&& f.skip(42) == payload
                &&& forall|k: int|
                    0 <= k < umem.len() && !(at <= k < end) ==> #[trigger] umem_after[k] == umem[k]
                &&& after.xsk.tx_pending
            },
        },
{
    let f = plane.framing;
    lemma_sent(plane, after, umem, umem_after, comp, payload, r, remote);
    built_frame_by_its_bytes(f.dst_mac@, f.src_mac@, f.local, remote, payload);
}

/// What is sent, by the frame as a whole.
proof fn lemma_sent(
    plane: crate::udp::UdpPlane,
    after: crate::udp::UdpPlane,
    umem: Seq<u8>,
    umem_after: Seq<u8>,
    comp: crate::ring::Completions<'_>,
    payload: Seq<u8>,
    r: Result<crate::udp::Datagram, crate::socket::SocketError>,
    remote: SocketAddrV4,
)
    requires
        plane.wf(),
        plane.framing.remote == Some(remote),
        umem.len() == plane.xsk.rings@.umem_len(),
        42 + payload.len() <= plane.xsk.rings@.frame_size,
        28 + payload.len() <= 0xffff,
        comp.fits(plane.xsk.rings@),
        plane.sent(after, umem, umem_after, comp, payload, r),
    ensures
        r is Ok,
        r->Ok_0.accepted == payload.len(),
        after.framing == plane.framing,
        umem_after.len() == umem.len(),
        r->Ok_0.submit is None <==> plane.xsk.rings@.pool.len() == 0 && comp@.len() == 0,
        r->Ok_0.comp_consumer == if plane.xsk.rings@.pool.len() == 0 {
            Some(comp.producer)
        } else {
            None
        },
        match r->Ok_0.submit {
            None => umem_after == umem,
            Some(s) => {
                let at = s.desc.addr as int;
                let end = at + 42 + payload.len();
                &&& s.desc.len == 42 + payload.len()
                &&& at % plane.xsk.rings@.frame_size as int == 0
                &&& at + plane.xsk.rings@.frame_size <= umem.len()
                &&& umem_after.subrange(at, end) == crate::udp::frame_bytes(
                    plane.framing.dst_mac@,
                    plane.framing.src_mac@,
                    plane.framing.local,
                    remote,
                    payload,
                )
                &&& forall|k: int|
                    0 <= k < umem.len() && !(at <= k < end) ==> #[trigger] umem_after[k] == umem[k]
                &&& after.xsk.tx_pending
            },
        },
{
    let v = plane.xsk.rings@;
    let f = plane.framing;
    frames_come_from_the_pool(v, comp@);
    if v.next_frame(comp@) is Some {
        let addr = v.next_frame(comp@)->Some_0;
        crate::ring::lemma_next_is_frame(v, comp@);
        let bytes = crate::udp::frame_bytes(f.dst_mac@, f.src_mac@, f.local, remote, payload);
        built_frame_by_its_bytes(f.dst_mac@, f.src_mac@, f.local, remote, payload);
        lemma_replaced(umem, umem_after, addr as int, bytes);
    }
}

/// A piece that replaces as many bytes at `at`.
proof fn lemma_replaced(before: Seq<u8>, after: Seq<u8>, at: int, bytes: Seq<u8>)
    requires
        0 <= at,
        at + bytes.len() <= before.len(),
        after == before.take(at) + bytes + before.skip(at + bytes.len()),
    ensures
        after.len() == before.len(),
        after.subrange(at, at + bytes.len()) == bytes,
        forall|k: int|
            0 <= k < before.len() && !(at <= k < at + bytes.len()) ==> #[trigger] after[k]
                == before[k],
{
    assert(after.subrange(at, at + bytes.len()) =~= bytes);
}

/// A frame out of the RX ring that carries a datagram from the peer to us is
/// received: as many bytes of its payload as the buffer holds stand at the
/// buffer's start, and the rest of the buffer is as it was. Any other frame, or
/// an empty payload or buffer, is nothing received. Either way the start of the
/// frame goes into the next slot of the FILL ring, and into no other.
pub proof fn received_datagrams_are_copied(
    plane: crate::udp::UdpPlane,
    after: crate::udp::UdpPlane,
    umem: Seq<u8>,
    d: crate::ring::Desc,
    fill: Seq<u64>,
    fill_after: Seq<u64>,
    buf: Seq<u8>,
    buf_after: Seq<u8>,
    r: crate::udp::Receipt,
    remote: SocketAddrV4,
)
    requires
        plane.wf(),
        plane.framing.remote == Some(remote),
        d.addr + d.len <= umem.len(),
        buf.len() <= usize::MAX,
        fill.len() == plane.xsk.rings@.fill_size,
        plane.received(after, umem, Some(d), fill, fill_after, buf, buf_after, r),
    ensures
        ({
            let frame = umem.subrange(d.addr as int, d.addr + d.len);
            let at = datagram_start(frame);
            let size = word(frame, at + 4) - 8;
            let n = if !carries_datagram(frame, plane.framing.local, remote) {
                0
            } else if size <= buf.len() {
                size
            } else {
                buf.len() as int
            };
            &&& r.received == if n > 0 {
                Some(n as usize)
            } else {
                None
            }
            &&& buf_after.len() == buf.len()
            &&& forall|k: int| 0 <= k < n ==> #[trigger] buf_after[k] == frame[at + 8 + k]
            &&& forall|k: int| n <= k < buf.len() ==> #[trigger] buf_after[k] == buf[k]
        }),
        ({
            let v = plane.xsk.rings@;
            let slot = v.filled as int % v.fill_size as int;
            &&& r.fill_producer == Some(crate::ring::ahead(v.filled, 1))
            &&& fill_after.len() == fill.len()
            &&& fill_after[slot] <= d.addr < fill_after[slot] + v.frame_size
            &&& fill_after[slot] as nat % v.frame_size == 0
            &&& forall|k: int|
                0 <= k < fill.len() && k != slot ==> #[trigger] fill_after[k] == fill[k]
        }),
        after.framing == plane.framing,
{
    let frame = umem.subrange(d.addr as int, d.addr + d.len);
    let v = plane.xsk.rings@;
    datagrams_are_delivered_by_their_bytes(plane.framing.local, remote, frame);
    let base = crate::ring::base_of(d.addr as nat, v.frame_size);
    reveal(vstd::arithmetic::power2::is_pow2);
    bases_are_frame_starts(d.addr as nat, v.frame_size, base);
    vstd::arithmetic::div_mod::lemma_mod_bound(v.filled as int, v.fill_size as int);
}

/// A TCP send takes as much as there is room for, and nothing where our half of
/// the connection is not open; what was taken stands behind what was queued.
pub proof fn sends_take_what_fits(t: crate::tcp::Tcp, data: Seq<u8>)
    requires
        t.unsent.len() <= t.send_capacity,
    ensures
        ({
            let room = t.send_capacity - t.unsent.len();
            let n = if !(t.state is Established || t.state is CloseWait) {
                0
            } else if data.len() <= room {
                data.len() as int
            } else {
                room
            };
            &&& t.accepts(data.len()) == n
            &&& t.sent(data).unsent.len() == t.unsent.len() + n
            &&& forall|k: int|
                0 <= k < t.unsent.len() ==> #[trigger] t.sent(data).unsent[k] == t.unsent[k]
            &&& forall|k: int|
                0 <= k < n ==> #[trigger] t.sent(data).unsent[t.unsent.len() + k] == data[k]
        }),
{
}

/// A TCP read takes the oldest bytes, as many as there are and the buffer
/// holds, to the start of the buffer, and leaves the rest of both alone. With
/// nothing to take it says whether the connection is over.
pub proof fn reads_take_the_oldest(t: crate::tcp::Tcp, buf: Seq<u8>)
    requires
        buf.len() <= usize::MAX,
    ensures
        ({
            let n = if t.unread.len() <= buf.len() {
                t.unread.len() as int
            } else {
                buf.len() as int
            };
            let over = t.state is Closed || t.state is TimeWait || t.state is Listen;
            &&& t.reads(buf.len()) == if n > 0 {
                Some(n as usize)
            } else if over {
                Some(0usize)
            } else {
                None
            }
            &&& t.read(buf).len() == buf.len()
            &&& forall|k: int| 0 <= k < n ==> #[trigger] t.read(buf)[k] == t.unread[k]
            &&& forall|k: int| n <= k < buf.len() ==> #[trigger] t.read(buf)[k] == buf[k]
            &&& t.after_read(buf.len()).unread == t.unread.skip(n)
            &&& t.after_read(buf.len()).unsent == t.unsent
            &&& t.after_read(buf.len()).state == t.state
        }),
{
    assert(t.unread.skip(0) =~= t.unread);
}

/// A new connection is closed, with two empty queues of 65535 bytes.
pub proof fn new_connections_are_empty(nagle: bool)
    ensures
        ({
            let t = crate::tcp::new_tcp(nagle);
            &&& t.state is Closed
            &&& t.unsent.len() == 0 && t.unread.len() == 0
            &&& t.send_capacity == 65535 && t.recv_capacity == 65535
            &&& t.nagle == nagle
        }),
{
}

/// Frames are 2048 bytes, doubled as often as it takes to hold a packet with
/// its 14-byte Ethernet header: no smaller such size would do.
pub proof fn frame_sizes_double(mtu: nat)
    ensures
        14 + mtu <= 2048 ==> crate::socket::chunk_size(mtu) == 2048,
        14 + mtu > 2048 ==> {
            &&& crate::socket::chunk_size(mtu) >= 14 + mtu
            &&& crate::socket::chunk_size(mtu) < 2 * (14 + mtu)
            &&& vstd::arithmetic::power2::is_pow2(crate::socket::chunk_size(mtu) as int)
        },
{
    crate::socket::frame_size_is_the_smallest(mtu);
    if 14 + mtu > 2048 {
        let c = crate::socket::chunk_size(mtu);
        if c >= 2 * (14 + mtu) {
            reveal(vstd::arithmetic::power2::is_pow2);
            assert(vstd::arithmetic::power2::is_pow2(c as int / 2));
        }
    }
}

/// Where one datagram ends the next one starts: as far on as a payload is long,
/// or at the end of the buffer.
pub proof fn datagrams_end_at_full_payloads(from: nat, max: nat, len: nat)
    requires
        from <= len,
    ensures
        from + max <= len ==> crate::socket::chunk_end(from, max, len) == from + max,
        from + max >= len ==> crate::socket::chunk_end(from, max, len) == len,
{
}

// ---------------------------------------------------------------------------
// The screen
// ---------------------------------------------------------------------------

/// Input behind a slash is sent as it stands there, and echoed behind "* /".
/// Other input is sent to the channel and echoed behind our nick. White space
/// around the input does not count, and there is no command without more.
pub proof fn input_becomes_a_command(input: Seq<char>, nick: Seq<char>, channel: Seq<char>)
    ensures
        ({
            let line = crate::text::trimmed(input);
            match crate::ui::command_of(input, nick, channel) {
                None => line.len() == 0,
                Some(c) => {
                    &&& line.len() > 0
                    &&& line[0] == '/' ==> {
                        &&& seq!['/'] + c.wire == line
                        &&& c.echo == "* "@ + line
                    }
                    &&& line[0] != '/' ==> {
                        &&& vstd::utf8::encode_utf8(c.wire) == privmsg() + seq![32u8]
                            + vstd::utf8::encode_utf8(channel) + seq![32u8, 58]
                            + vstd::utf8::encode_utf8(line)
                        &&& c.echo == "<"@ + nick + "> "@ + line
                    }
                },
            }
        }),
{
    let line = crate::text::trimmed(input);
    if let Some(c) = crate::ui::command_of(input, nick, channel) {
        if line[0] == '/' {
            reveal_strlit("* /");
            reveal_strlit("* ");
            assert(seq!['/'] + line.skip(1) =~= line);
            assert("* /"@ =~= "* "@ + seq!['/']);
            assert(c.echo =~= "* "@ + line);
        } else {
            reveal_strlit("PRIVMSG ");
            reveal_strlit(" :");
            let a = "PRIVMSG "@;
            let b = " :"@;
            lemma_encode_concat(a, channel);
            lemma_encode_concat(a + channel, b);
            lemma_encode_concat(a + channel + b, line);
            vstd::utf8::is_ascii_chars_encode_utf8(a);
            vstd::utf8::is_ascii_chars_encode_utf8(b);
            assert(vstd::utf8::encode_utf8(a) =~= privmsg() + seq![32u8]);
            assert(vstd::utf8::encode_utf8(b) =~= seq![32u8, 58]);
        }
    }
}

/// The server reads our input as a PRIVMSG to the channel with our text.
pub proof fn input_is_read_back(channel: Seq<u8>, text: Seq<u8>)
    requires
        channel.len() > 0,
        channel[0] != 0x3a,
        !channel.contains(0x20u8),
    ensures
        crate::irc::message_of(privmsg() + seq![32u8] + channel + seq![32u8, 58] + text) == Some(
            crate::irc::Parsed {
                prefix: None,
                command: privmsg(),
                params: seq![channel, text],
            },
        ),
{
    let one = |t: Seq<u8>| crate::irc::Spaced { gap: 1, text: t };
    let middle = seq![one(channel)];
    let last = one(text);
    lines_are_read_as_written(None, privmsg(), middle, Some(last), 0);
    reveal_with_fuel(crate::irc::written_params, 3);
    assert(crate::irc::spaces(1) =~= seq![0x20u8]);
    assert(crate::irc::spaces(0) =~= Seq::<u8>::empty());
    assert(middle.skip(1).len() == 0);
    let line = privmsg() + seq![32u8] + channel + seq![32u8, 58] + text;
    assert(crate::irc::written_line(None, privmsg(), middle, Some(last)) + crate::irc::spaces(0)
        =~= line);
    let m = crate::irc::message_of(line)->Some_0;
    assert(middle.map_values(|p: crate::irc::Spaced| p.text) + seq![last.text] =~= seq![
        channel,
        text,
    ]);
    assert(m.params =~= seq![channel, text]);
}

/// A received line is shown below all others. Of more than 4000 lines the
/// oldest go.
pub proof fn received_lines_are_kept(s: crate::ui::Screen, line: Seq<char>)
    ensures
        ({
            let all = s.lines.push(line);
            let kept = s.received(line).lines;
            &&& kept.len() == if all.len() <= 4000 {
                all.len()
            } else {
                4000
            }
            &&& forall|k: int|
                0 <= k < kept.len() ==> #[trigger] kept[k] == all[all.len() - kept.len() + k]
            &&& s.received(line).input == s.input
            &&& s.received(line).nick == s.nick
            &&& s.received(line).channel == s.channel
        }),
{
}

/// Submitting clears the input. A command is echoed below all other lines, below
/// a warning where it was not accepted; without a command no line is added.
pub proof fn submitted_input_is_echoed(s: crate::ui::Screen, accepted: bool)
    ensures
        ({
            let after = s.submitted(accepted);
            &&& after.input.len() == 0
            &&& after.nick == s.nick && after.channel == s.channel
            &&& match crate::ui::command_of(s.input, s.nick, s.channel) {
                None => after.lines == s.lines,
                Some(c) => after.lines == s.lines + if accepted {
                    seq![c.echo]
                } else {
                    seq!["-- send queue full, dropped --"@, c.echo]
                },
            }
        }),
{
    if let Some(c) = crate::ui::command_of(s.input, s.nick, s.channel) {
        assert(s.submitted(true).lines =~= s.lines + seq![c.echo]);
        assert(s.submitted(false).lines =~= s.lines + seq![
            "-- send queue full, dropped --"@,
            c.echo,
        ]);
    }
}

/// A pane shows as many of the last lines as fit inside its border, and at least
/// one, each on a line of its own.
pub proof fn panes_show_the_last_lines(lines: Seq<Seq<char>>, height: u16)
    ensures
        ({
            let rows = if height >= 4 {
                height - 2
            } else {
                1
            };
            let shown = if lines.len() <= rows {
                lines
            } else {
                lines.subrange(lines.len() - rows, lines.len() as int)
            };
            crate::text::joined(
                crate::ui::last_lines(lines, crate::ui::State::rows(height)),
                "\n"@,
            ) == strung(shown, seq!['\n'])
        }),
{
    reveal_strlit("\n");
    assert("\n"@ =~= seq!['\n']);
    let n = crate::ui::State::rows(height);
    let last = crate::ui::last_lines(lines, n);
    if lines.len() > n {
        assert(last =~= lines.subrange(lines.len() - n, lines.len() as int));
    }
    joined_pieces_are_strung(last, seq!['\n']);
}

// ---------------------------------------------------------------------------
// Programs
// ---------------------------------------------------------------------------

/// Flags and their values, as they are given to a program.
pub open spec fn given(pairs: Seq<(Seq<char>, Seq<char>)>) -> Seq<Seq<char>>
    decreases pairs.len(),
{
    if pairs.len() == 0 {
        Seq::empty()
    } else {
        seq![seq!['-', '-'] + pairs[0].0, pairs[0].1] + given(pairs.skip(1))
    }
}

/// A map with the values of the flags, the later ones over the earlier ones.
pub open spec fn over(
    map: Map<Seq<char>, Seq<char>>,
    pairs: Seq<(Seq<char>, Seq<char>)>,
) -> Map<Seq<char>, Seq<char>>
    decreases pairs.len(),
{
    if pairs.len() == 0 {
        map
    } else {
        over(map.insert(pairs[0].0, pairs[0].1), pairs.skip(1))
    }
}

/// Flags are read with their values, whatever these are, the last value of each
/// counting. What is no flag, a flag without a value, and "--help" are told
/// apart.
pub proof fn flags_are_read_with_their_values(
    pairs: Seq<(Seq<char>, Seq<char>)>,
    before: Map<Seq<char>, Seq<char>>,
    extra: Seq<char>,
)
    requires
        forall|i: int| 0 <= i < pairs.len() ==> (#[trigger] pairs[i]).0 != "help"@,
    ensures
        crate::bench::args_from(given(pairs), before) == Ok::<
            Map<Seq<char>, Seq<char>>,
            crate::bench::ArgErrorView,
        >(over(before, pairs)),
        crate::bench::args_from(given(pairs).push(extra), before) == Err::<
            Map<Seq<char>, Seq<char>>,
            crate::bench::ArgErrorView,
        >(
            if !(extra.len() >= 2 && extra[0] == '-' && extra[1] == '-') {
                crate::bench::ArgErrorView::Unexpected(extra)
            } else if extra.skip(2) == "help"@ {
                crate::bench::ArgErrorView::Help
            } else {
                crate::bench::ArgErrorView::NoValue(extra.skip(2))
            },
        ),
    decreases pairs.len(),
{
    if pairs.len() == 0 {
        assert(given(pairs).push(extra) =~= seq![extra]);
    } else {
        let rest = pairs.skip(1);
        let map = before.insert(pairs[0].0, pairs[0].1);
        assert forall|i: int| 0 <= i < rest.len() implies (#[trigger] rest[i]).0 != "help"@ by {
            assert(rest[i] == pairs[i + 1]);
        }
        flags_are_read_with_their_values(rest, map, extra);
        let all = given(pairs);
        assert(all[0] == seq!['-', '-'] + pairs[0].0);
        assert(all[0].skip(2) =~= pairs[0].0);
        assert(all.skip(2) =~= given(rest));
        assert(all.push(extra).skip(2) =~= given(rest).push(extra));
        assert(all.push(extra)[0] == all[0] && all.push(extra)[1] == all[1]);
    }
}

/// The bench asks its peer for messages in words with single spaces between:
/// its name, "ECHO" where it wants them back, how many, how large.
pub proof fn requests_are_words(echo: bool, count: u64, size: usize)
    ensures
        ({
            let n = crate::text::decimal_digits(count as nat);
            let m = crate::text::decimal_digits(size as nat);
            let words = if echo {
                seq!["RUSTSSI"@, "ECHO"@, n, m]
            } else {
                seq!["RUSTSSI"@, n, m]
            };
            crate::bench::control_text(echo, count, size) == strung(words, seq![' ']) + seq!['\n']
        }),
{
    let n = crate::text::decimal_digits(count as nat);
    let m = crate::text::decimal_digits(size as nat);
    reveal_strlit("RUSTSSI ");
    reveal_strlit("RUSTSSI");
    reveal_strlit("ECHO ");
    reveal_strlit("ECHO");
    reveal_strlit(" ");
    reveal_strlit("\n");
    assert("RUSTSSI "@ =~= "RUSTSSI"@ + seq![' ']);
    assert("ECHO "@ =~= "ECHO"@ + seq![' ']);
    assert(" "@ =~= seq![' ']);
    assert("\n"@ =~= seq!['\n']);
    reveal_with_fuel(strung, 4);
    let words = if echo {
        seq!["RUSTSSI"@, "ECHO"@, n, m]
    } else {
        seq!["RUSTSSI"@, n, m]
    };
    if echo {
        assert(words.skip(1) =~= seq!["ECHO"@, n, m]);
        assert(words.skip(1).skip(1) =~= seq![n, m]);
        assert(words.skip(1).skip(1).skip(1) =~= seq![m]);
    } else {
        assert(words.skip(1) =~= seq![n, m]);
        assert(words.skip(1).skip(1) =~= seq![m]);
    }
    assert(crate::bench::control_text(echo, count, size) =~= strung(words, seq![' ']) + seq![
        '\n',
    ]);
}

/// The flags of the bench with proper values: names for the transport and the
/// interface, numbers and addresses as they are printed, a MAC address, and
/// something to count.
pub open spec fn proper_flags(
    map: Map<Seq<char>, Seq<char>>,
    o: crate::bench::Options,
) -> bool {
    &&& map.contains_key("stack"@) && map["stack"@] == o.stack@
    &&& map.contains_key("proto"@) && map["proto"@] == match o.proto {
        crate::socket::Protocol::Tcp => "tcp"@,
        crate::socket::Protocol::Udp => "udp"@,
    }
    &&& map.contains_key("if"@) && map["if"@] == o.ifname@
    &&& map.contains_key("local-ip"@) && map["local-ip"@] == o.local_ip.dotted()
    &&& map.contains_key("peer-ip"@) && map["peer-ip"@] == o.peer.ip.dotted()
    &&& map.contains_key("port"@) && map["port"@] == crate::text::decimal_digits(
        o.peer.port as nat,
    )
    &&& map.contains_key("peer-mac"@) && crate::socket::mac_bytes(map["peer-mac"@]) == Some(
        o.peer_mac@,
    )
    &&& map.contains_key("cpu"@) && map["cpu"@] == crate::text::decimal_digits(o.cpu as nat)
    &&& map.contains_key("queue"@) && map["queue"@] == crate::text::decimal_digits(o.queue as nat)
    &&& map.contains_key("count"@) && map["count"@] == crate::text::decimal_digits(o.count as nat)
    &&& map.contains_key("size"@) && map["size"@] == crate::text::decimal_digits(o.size as nat)
    &&& match o.xdp_mode {
        crate::socket::XdpMode::Copy => map.contains_key("xdp-mode"@) && map["xdp-mode"@]
            == "copy"@,
        crate::socket::XdpMode::ZeroCopy => map.contains_key("xdp-mode"@) && map["xdp-mode"@]
            == "zerocopy"@,
        crate::socket::XdpMode::Auto => !map.contains_key("xdp-mode"@) || map["xdp-mode"@]
            == "auto"@,
    }
    &&& o.echo == (map.contains_key("mode"@) && map["mode"@] == "echo"@)
    &&& o.count > 0 && o.size > 0
}

/// A proper call of the bench is accepted, and its options are what was given.
pub proof fn proper_flags_are_accepted(
    map: Map<Seq<char>, Seq<char>>,
    o: crate::bench::Options,
)
    requires
        proper_flags(map, o),
    ensures
        crate::bench::options_error(map) is None,
        o.are(map),
{
    lemma_protocol_names();
    lemma_mode_names();
    addresses_are_printed_by_octets(o.local_ip);
    addresses_are_printed_by_octets(o.peer.ip);
    addresses_are_read_as_printed(o.local_ip.dotted(), o.local_ip);
    addresses_are_read_as_printed(o.peer.ip.dotted(), o.peer.ip);
    lemma_printed_number(o.peer.port as nat, u16::MAX as nat);
    lemma_printed_number(o.cpu as nat, usize::MAX as nat);
    lemma_printed_number(o.queue as nat, u32::MAX as nat);
    lemma_printed_number(o.count as nat, u64::MAX as nat);
    lemma_printed_number(o.size as nat, usize::MAX as nat);
}

proof fn lemma_protocol_names()
    ensures
        crate::pipe::protocol_of("tcp"@) == Some(crate::socket::Protocol::Tcp),
        crate::pipe::protocol_of("udp"@) == Some(crate::socket::Protocol::Udp),
{
    reveal_strlit("tcp");
    reveal_strlit("udp");
    assert("tcp"@[0] != "udp"@[0]);
}

proof fn lemma_mode_names()
    ensures
        "auto"@ != "copy"@,
        "auto"@ != "zerocopy"@,
        "copy"@ != "zerocopy"@,
{
    reveal_strlit("auto");
    reveal_strlit("copy");
    reveal_strlit("zerocopy");
    assert("auto"@[0] != "copy"@[0]);
    assert("auto"@[0] != "zerocopy"@[0]);
    assert("copy"@[0] != "zerocopy"@[0]);
}

proof fn lemma_printed_number(n: nat, max: nat)
    requires
        n <= max,
    ensures
        crate::text::uint_value(crate::text::decimal_digits(n), 10, max) == Some(n),
{
    let d = crate::text::decimal_digits(n);
    printed_numbers_are_read_back(n);
    decimal_numbers_are_read(d, max);
    assert('0' <= d[0] <= '9');
}

/// A proper call of the pipe is accepted, and its arguments are what was given:
/// transport, interface, our address, the server's address and port, its MAC
/// address, and a CPU or the usual one.
pub proof fn proper_arguments_are_accepted(
    args: Seq<Seq<char>>,
    r: Result<crate::pipe::PipeArgs, crate::pipe::PipeArgsError>,
    proto: crate::socket::Protocol,
    our_ip: Ipv4Addr,
    server: SocketAddrV4,
    mac: Seq<u8>,
    cpu: usize,
)
    requires
        crate::pipe::args_mean(args, r),
        args.len() >= 6,
        args[0] == match proto {
            crate::socket::Protocol::Tcp => "tcp"@,
            crate::socket::Protocol::Udp => "udp"@,
        },
        args[2] == our_ip.dotted(),
        args[3] == server.ip.dotted(),
        args[4] == crate::text::decimal_digits(server.port as nat),
        crate::socket::mac_bytes(args[5]) == Some(mac),
        args.len() > 6 ==> args[6] == crate::text::decimal_digits(cpu as nat),
        args.len() == 6 ==> cpu == 2,
    ensures
        r matches Ok(a) && {
            &&& a.proto == proto
            &&& a.ifname@ == args[1]
            &&& a.our_ip == our_ip
            &&& a.server == server
            &&& a.peer_mac@ == mac
            &&& a.cpu == cpu
        },
{
    lemma_protocol_names();
    addresses_are_printed_by_octets(our_ip);
    addresses_are_printed_by_octets(server.ip);
    addresses_are_read_as_printed(our_ip.dotted(), our_ip);
    addresses_are_read_as_printed(server.ip.dotted(), server.ip);
    lemma_printed_number(server.port as nat, u16::MAX as nat);
    lemma_printed_number(cpu as nat, usize::MAX as nat);
}

/// Endpoints are printed as address, colon and port.
pub proof fn endpoints_are_printed(a: SocketAddrV4)
    ensures
        crate::pipe::endpoint_text(a) == strung(
            seq![
                strung(four_octets(a.ip), seq!['.']),
                crate::text::decimal_digits(a.port as nat),
            ],
            seq![':'],
        ),
{
    addresses_are_printed_by_octets(a.ip);
    reveal_strlit(":");
    assert(":"@ =~= seq![':']);
    let parts = seq![
        strung(four_octets(a.ip), seq!['.']),
        crate::text::decimal_digits(a.port as nat),
    ];
    reveal_with_fuel(strung, 2);
    assert(parts.skip(1) =~= seq![parts[1]]);
}

/// The bench counts datagrams by themselves, and messages of a stream by their
/// size: as many as have arrived in full.
pub proof fn messages_are_counted_in_full(m: crate::bench::Meter)
    requires
        m.size > 0,
    ensures
        m.proto is Udp ==> m.messages() == m.msgs,
        m.proto is Tcp ==> m.messages() * m.size <= m.bytes < (m.messages() + 1) * m.size,
{
    if m.proto is Tcp {
        let q = m.bytes as int / m.size as int;
        vstd::arithmetic::div_mod::lemma_fundamental_div_mod(m.bytes as int, m.size as int);
        vstd::arithmetic::div_mod::lemma_mod_bound(m.bytes as int, m.size as int);
        assert(m.size * q == q * m.size) by (nonlinear_arith);
        assert((q + 1) * m.size == q * m.size + m.size) by (nonlinear_arith);
    }
}

/// A call of the bench that is accepted was a proper one: every flag that has to
/// be there is, the transport and the bind mode have names that there are, the
/// addresses and the MAC address are ones, the numbers are in decimal and fit,
/// and there is something to count.
pub proof fn accepted_flags_are_proper(map: Map<Seq<char>, Seq<char>>)
    requires
        crate::bench::options_error(map) is None,
    ensures
        map.contains_key("stack"@),
        map.contains_key("if"@),
        map.contains_key("proto"@) && (map["proto"@] == "tcp"@ || map["proto"@] == "udp"@),
        map.contains_key("local-ip"@) && Ipv4Addr::from_dotted(map["local-ip"@]) is Some,
        map.contains_key("peer-ip"@) && Ipv4Addr::from_dotted(map["peer-ip"@]) is Some,
        map.contains_key("peer-mac"@) && crate::socket::mac_bytes(map["peer-mac"@]) is Some,
        map.contains_key("port"@) && in_decimal(unsigned(map["port"@])) <= 65535,
        map.contains_key("cpu"@) && in_decimal(unsigned(map["cpu"@])) <= usize::MAX,
        map.contains_key("queue"@) && in_decimal(unsigned(map["queue"@])) <= u32::MAX,
        map.contains_key("count"@) && 0 < in_decimal(unsigned(map["count"@])) <= u64::MAX,
        map.contains_key("size"@) && 0 < in_decimal(unsigned(map["size"@])) <= usize::MAX,
        forall|key: Seq<char>| #[trigger]
            is_number_flag(key) ==> unsigned(map[key]).len() > 0 && all_digits(unsigned(map[key])),
        map.contains_key("xdp-mode"@) ==> map["xdp-mode"@] == "auto"@ || map["xdp-mode"@]
            == "copy"@ || map["xdp-mode"@] == "zerocopy"@,
{
    decimal_numbers_are_read(map["port"@], u16::MAX as nat);
    decimal_numbers_are_read(map["cpu"@], usize::MAX as nat);
    decimal_numbers_are_read(map["queue"@], u32::MAX as nat);
    decimal_numbers_are_read(map["count"@], u64::MAX as nat);
    decimal_numbers_are_read(map["size"@], usize::MAX as nat);
}

/// The flags of the bench that take a number.
pub open spec fn is_number_flag(key: Seq<char>) -> bool {
    key == "port"@ || key == "cpu"@ || key == "queue"@ || key == "count"@ || key == "size"@
}

/// A call of the pipe that is accepted was a proper one.
pub proof fn accepted_arguments_are_proper(
    args: Seq<Seq<char>>,
    r: Result<crate::pipe::PipeArgs, crate::pipe::PipeArgsError>,
)
    requires
        crate::pipe::args_mean(args, r),
        r is Ok,
    ensures
        args.len() >= 6,
        args[0] == "tcp"@ || args[0] == "udp"@,
        Ipv4Addr::from_dotted(args[2]) == Some(r->Ok_0.our_ip),
        Ipv4Addr::from_dotted(args[3]) == Some(r->Ok_0.server.ip),
        unsigned(args[4]).len() > 0 && all_digits(unsigned(args[4])),
        in_decimal(unsigned(args[4])) == r->Ok_0.server.port,
        crate::socket::mac_bytes(args[5]) == Some(r->Ok_0.peer_mac@),
        args.len() > 6 ==> unsigned(args[6]).len() > 0 && all_digits(unsigned(args[6]))
            && in_decimal(unsigned(args[6])) == r->Ok_0.cpu,
{
    decimal_numbers_are_read(args[4], u16::MAX as nat);
    if args.len() > 6 {
        decimal_numbers_are_read(args[6], usize::MAX as nat);
    }
}

/// The completed addresses are those between the two counters of their ring,
/// each in the slot of its counter.
pub proof fn completions_stand_between_the_counters(comp: crate::ring::Completions<'_>, i: int)
    requires
        comp.desc@.len() > 0,
    ensures
        comp.producer >= comp.consumer ==> comp@.len() == comp.producer - comp.consumer,
        comp.producer < comp.consumer ==> comp@.len() == 0x1_0000_0000 + comp.producer
            - comp.consumer,
        0 <= i < comp@.len() ==> comp@[i] == comp.desc@[(comp.consumer + i) % (
        comp.desc@.len() as int)],
{
}

/// Of texts that are offered to a queue exactly those that were accepted go in,
/// in the order in which they were offered.
pub proof fn accepted_texts_keep_their_order(
    items: Seq<Seq<char>>,
    ok: Seq<bool>,
    last: Seq<char>,
)
    requires
        items.len() == ok.len(),
    ensures
        crate::queue::accepted(Seq::empty(), Seq::empty()) == Seq::<Seq<char>>::empty(),
        crate::queue::accepted(items.push(last), ok.push(true)) == crate::queue::accepted(
            items,
            ok,
        ).push(last),
        crate::queue::accepted(items.push(last), ok.push(false)) == crate::queue::accepted(
            items,
            ok,
        ),
{
    assert(items.push(last).drop_last() =~= items);
    crate::queue::lemma_accepted_prefix(items, ok, ok.push(true));
    crate::queue::lemma_accepted_prefix(items, ok, ok.push(false));
}

/// An error over the size of frames says which MTU needs which frames under
/// which limit; one over a small MTU says which.
pub proof fn size_errors_name_their_numbers(mtu: usize, size: usize, page_size: usize)
    ensures
        (crate::socket::SocketError::FrameTooLarge { mtu, size, page_size }).text() == Some(
            "mtu "@ + crate::text::decimal_digits(mtu as nat) + " needs "@
                + crate::text::decimal_digits(size as nat) + "-byte UMEM frames, over the "@
                + crate::text::decimal_digits(page_size as nat)
                + "-byte page limit for aligned chunks"@,
        ),
        (crate::socket::SocketError::MtuTooSmall { mtu }).text() == Some(
            "mtu "@ + crate::text::decimal_digits(mtu as nat)
                + " leaves no room for an IPv4+UDP header"@,
        ),
{
}

/// Only a refusal for want of lockable memory (105), under a limit that is one,
/// is explained: with the sizes in KiB.
pub proof fn memory_refusals_are_explained(
    errno: Option<i32>,
    e: Seq<char>,
    umem_len: nat,
    limit: Option<u64>,
)
    ensures
        crate::socket::umem_reg_text(errno, e, umem_len, limit) == match (errno, limit) {
            (Some(105), Some(bytes)) => if bytes == u64::MAX {
                None
            } else {
                Some(
                    "register "@ + crate::text::decimal_digits(umem_len / 1024) + " KiB UMEM: "@ + e
                        + " (RLIMIT_MEMLOCK is "@ + crate::text::decimal_digits(
                        bytes as nat / 1024,
                    ) + " KiB; grant cap_ipc_lock or raise the memlock limit)"@,
                )
            },
            _ => None,
        },
{
}

// ---------------------------------------------------------------------------
// Sizes and times
// ---------------------------------------------------------------------------

/// The UMEM holds 4096 frames: as many to receive into as the FILL and the RX
/// ring have entries, and as many to send from as the TX ring has. The chat
/// client's is 16 MiB, its frames hold a packet of its MTU, and it binds to the
/// first queue.
pub proof fn rings_hold_their_frames()
    ensures
        crate::socket::FRAME_COUNT == 4096,
        crate::socket::FILL_SIZE == 2048,
        crate::socket::FILL_SIZE == crate::socket::RX_SIZE,
        crate::socket::FILL_SIZE + crate::socket::TX_SIZE == crate::socket::FRAME_COUNT,
        crate::net::FRAME_SIZE * crate::net::FRAME_COUNT == 16 * 1024 * 1024,
        crate::net::FRAME_COUNT == 4096,
        crate::net::FILL_SIZE == 2048,
        crate::net::FILL_SIZE == crate::net::RX_SIZE,
        crate::net::FILL_SIZE + crate::net::TX_SIZE == crate::net::FRAME_COUNT,
        crate::net::MTU == 1500,
        14 + crate::net::MTU <= crate::net::FRAME_SIZE,
        crate::net::QUEUE_ID == 0,
        crate::net::LOCAL_PORT == 49321,
        crate::net::DATAPLANE_CPU == 2,
{
}

/// A handshake may take ten seconds; a pipe over UDP waits a quarter of a second
/// for a reply, the bench half a second for anything; the clock is read once in
/// 32 polls. Our network is the 256 addresses around ours.
pub proof fn waits_take_their_time()
    ensures
        crate::socket::CONNECT_TIMEOUT == 10,
        crate::pipe::UDP_IDLE * 4 == 1_000_000_000,
        crate::bench::IDLE * 2 == 1_000_000_000,
        crate::socket::CLOCK_TICKS == 32,
        crate::tcp::PREFIX_LEN == 24,
        crate::wire::UDP_OVERHEAD == 20 + 8,
{
}

/// Hugepages are asked for exactly where they make up the UMEM: pages of 2 MiB
/// or of 1 GiB.
pub proof fn hugepages_make_up_the_umem(len: nat)
    ensures
        !crate::socket::HugePage::Off.divides(len),
        crate::socket::HugePage::Mb2.divides(len) <==> len % (2 * 1024 * 1024) == 0,
        crate::socket::HugePage::Gb1.divides(len) <==> len % (1024 * 1024 * 1024) == 0,
{
}

/// An interface can have every address but the multicast ones, which start with
/// the bits 1110, and the one of all ones.
pub proof fn hosts_have_assignable_addresses(ip: Ipv4Addr)
    ensures
        ip.is_assignable() <==> ip.a / 16 != 14 && !(ip.a == 255 && ip.b == 255 && ip.c == 255
            && ip.d == 255),
{
}

/// The status line of a bound socket tells the size of its UMEM in MiB, how many
/// frames of which size there are, on which pages, how it was bound, and to
/// which queue.
pub proof fn bound_sockets_tell_their_sizes(x: crate::socket::Xsk, queue_id: u32)
    ensures
        x.report_text(queue_id) == "-- UMEM: "@ + crate::text::decimal_digits(
            x.rings@.umem_len() / (1024 * 1024),
        ) + " MiB, 4096 x "@ + crate::text::decimal_digits(x.rings@.frame_size)
            + "-byte frames on "@ + x.huge.label_text() + "; bound "@ + x.bind_label@
            + " on queue "@ + crate::text::decimal_digits(queue_id as nat) + " --"@,
{
    reveal_strlit(" MiB, ");
    reveal_strlit(" x ");
    reveal_strlit(" MiB, 4096 x ");
    reveal_with_fuel(crate::text::decimal_digits, 5);
    assert(" MiB, "@ + crate::text::decimal_digits(4096) + " x "@ =~= " MiB, 4096 x "@);
    assert(x.report_text(queue_id) =~= "-- UMEM: "@ + crate::text::decimal_digits(
        x.rings@.umem_len() / (1024 * 1024),
    ) + (" MiB, "@ + crate::text::decimal_digits(4096) + " x "@) + crate::text::decimal_digits(
        x.rings@.frame_size,
    ) + "-byte frames on "@ + x.huge.label_text() + "; bound "@ + x.bind_label@ + " on queue "@
        + crate::text::decimal_digits(queue_id as nat) + " --"@);
}

/// The status line of a started connection tells from which address to which
/// endpoint it goes, and under which nick.
pub proof fn connections_tell_their_endpoints(cfg: crate::net::NetConfig)
    ensures
        crate::net::connecting_text(cfg) == "-- connecting "@ + strung(
            four_octets(cfg.our_ip),
            seq!['.'],
        ) + " -> "@ + crate::pipe::endpoint_text(
            SocketAddrV4 { ip: cfg.server_ip, port: cfg.port },
        ) + " as "@ + cfg.nick@ + " --"@,
{
    addresses_are_printed_by_octets(cfg.our_ip);
    assert(crate::net::connecting_text(cfg) =~= "-- connecting "@ + cfg.our_ip.dotted() + " -> "@
        + crate::pipe::endpoint_text(SocketAddrV4 { ip: cfg.server_ip, port: cfg.port }) + " as "@
        + cfg.nick@ + " --"@);
}

} // verus!
