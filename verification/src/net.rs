//! The chat client's data plane: from received bytes to display lines, from
//! user commands to bytes.
//!
//! The caller polls the network; a [`Session`] decides what each pass does. No
//! terminal is touched here: status is reported as lines for the user
//! interface, like everything else.

use vstd::prelude::*;
use vstd::slice::slice_subrange;

use rtrb::{Consumer, Producer};

use crate::addr::{port_hi, port_lo, Ipv4Addr};
use crate::irc::Message;
use crate::queue::{push_all, take_next};
use crate::socket::bad_mac_message;
use crate::tcp::Stream;
use crate::text::{
    ascii_bytes, chars_of, decimal, decode_lossy, join_from, parse_uint, quote, split_bounds,
};

verus! {

/// The size of the UMEM frames.
pub const FRAME_SIZE: u32 = 4096;

pub const FRAME_COUNT: u32 = 4096;

pub const FILL_SIZE: u32 = 2048;

pub const RX_SIZE: u32 = 2048;

pub const TX_SIZE: u32 = 2048;

pub const QUEUE_ID: u32 = 0;

pub const LOCAL_PORT: u16 = 49321;

pub const MTU: usize = 1500;

/// CPU the data-plane thread pins itself to.
pub const DATAPLANE_CPU: usize = 2;

#[derive(Debug)]
pub struct NetConfig {
    pub ifname: String,
    pub our_ip: Ipv4Addr,
    pub server_ip: Ipv4Addr,
    pub port: u16,
    pub server_mac: [u8; 6],
    pub nick: String,
    pub channel: String,
}

// ---------------------------------------------------------------------------
// Display lines
// ---------------------------------------------------------------------------

/// Where the nick ends in a prefix: in front of the first `!` or `@`.
pub open spec fn nick_len(s: Seq<char>) -> nat
    decreases s.len(),
{
    if s.len() == 0 || s[0] == '!' || s[0] == '@' {
        0
    } else {
        1 + nick_len(s.skip(1))
    }
}

/// The nick in a prefix.
pub open spec fn nick_text(s: Seq<char>) -> Seq<char> {
    s.take(nick_len(s) as int)
}

/// The nick in a decoded prefix.
pub fn nick_in(s: &str) -> (r: String)
    ensures
        r@ == nick_text(s@),
{
    let chars = chars_of(s);
    let mut r = String::new();
    let mut i: usize = 0;
    assert(chars@.skip(0) =~= chars@);
    while i < chars.len() && chars[i] != '!' && chars[i] != '@'
        invariant
            i <= chars@.len(),
            chars@ == s@,
            nick_len(s@) == i + nick_len(s@.skip(i as int)),
            r@ == s@.take(i as int),
        decreases chars@.len() - i,
    {
        assert(s@.skip(i as int).skip(1) =~= s@.skip(i + 1));
        assert(s@.take(i as int).push(s@[i as int]) =~= s@.take(i + 1));
        r.push(chars[i]);
        i = i + 1;
    }
    r
}

/// The nick in a prefix.
pub fn nick_of(prefix: &[u8]) -> (r: String)
    ensures
        r@ == nick_text(crate::text::utf8_lossy(prefix@)),
{
    nick_in(decode_lossy(prefix).as_str())
}

/// How a message or notice is shown.
pub open spec fn chat_text(
    notice: bool,
    target: Seq<char>,
    from: Seq<char>,
    body: Seq<char>,
) -> Seq<char> {
    (if notice {
        "notice "@
    } else {
        Seq::empty()
    }) + "["@ + target + "] <"@ + from + "> "@ + body
}

/// How a join is shown.
pub open spec fn join_text(who: Seq<char>, chan: Seq<char>) -> Seq<char> {
    "* "@ + who + " joined "@ + chan
}

/// How any other message is shown.
pub open spec fn generic_text(command: Seq<char>, params: Seq<Seq<char>>) -> Seq<char> {
    command + " "@ + crate::text::joined(params, " "@)
}

pub fn chat_line(notice: bool, target: &str, from: &str, body: &str) -> (r: String)
    ensures
        r@ == chat_text(notice, target@, from@, body@),
{
    let mut r = String::new();
    if notice {
        r.append("notice ");
    }
    r.append("[");
    r.append(target);
    r.append("] <");
    r.append(from);
    r.append("> ");
    r.append(body);
    assert(r@ =~= chat_text(notice, target@, from@, body@));
    r
}

pub fn join_line(who: &str, chan: &str) -> (r: String)
    ensures
        r@ == join_text(who@, chan@),
{
    let mut r = String::new();
    r.append("* ");
    r.append(who);
    r.append(" joined ");
    r.append(chan);
    assert(r@ =~= join_text(who@, chan@));
    r
}

pub fn generic_line(command: &str, params: &Vec<String>) -> (r: String)
    ensures
        r@ == generic_text(command@, params.deep_view()),
{
    let mut r = String::new();
    r.append(command);
    r.append(" ");
    r.append(join_from(params, 0, " ").as_str());
    assert(params.deep_view().skip(0) =~= params.deep_view());
    assert(r@ =~= generic_text(command@, params.deep_view()));
    r
}

/// The nick of whom a message is from; empty where it does not say.
pub open spec fn sender_text(m: crate::irc::Parsed) -> Seq<char> {
    match m.prefix {
        Some(p) => nick_text(crate::text::utf8_lossy(p)),
        None => Seq::empty(),
    }
}

/// The text of the last parameter; empty where there is none.
pub open spec fn last_text(m: crate::irc::Parsed) -> Seq<char> {
    if m.params.len() > 0 {
        crate::text::utf8_lossy(m.params.last())
    } else {
        Seq::empty()
    }
}

/// Whether a message has the given command.
pub open spec fn is_command(m: crate::irc::Parsed, name: Seq<char>) -> bool {
    crate::irc::same_ignoring_case(m.command, crate::text::ascii(name))
}

/// How a message is shown.
pub open spec fn display_text(m: crate::irc::Parsed) -> Seq<char> {
    if is_command(m, "PRIVMSG"@) || is_command(m, "NOTICE"@) {
        chat_text(
            is_command(m, "NOTICE"@),
            if m.params.len() > 0 {
                crate::text::utf8_lossy(m.params[0])
            } else {
                Seq::empty()
            },
            sender_text(m),
            last_text(m),
        )
    } else if is_command(m, "JOIN"@) {
        join_text(sender_text(m), last_text(m))
    } else {
        generic_text(
            crate::text::utf8_lossy(m.command),
            m.params.map_values(|p: Seq<u8>| crate::text::utf8_lossy(p)),
        )
    }
}

fn sender(m: &Message<'_>) -> (r: String)
    ensures
        r@ == sender_text(m@),
{
    match m.prefix() {
        Some(p) => nick_of(p),
        None => String::new(),
    }
}

fn last(m: &Message<'_>) -> (r: String)
    ensures
        r@ == last_text(m@),
{
    match m.last_param() {
        Some(p) => decode_lossy(p),
        None => String::new(),
    }
}

fn is(m: &Message<'_>, name: &str) -> (r: bool)
    requires
        name.is_ascii(),
    ensures
        r == is_command(m@, name@),
{
    m.is(ascii_bytes(name))
}

/// Format a parsed message into an owned display line.
pub fn display_line(m: &Message<'_>) -> (r: String)
    ensures
        r@ == display_text(m@),
{
    proof {
        reveal_strlit("PRIVMSG");
        reveal_strlit("NOTICE");
        reveal_strlit("JOIN");
    }
    if is(m, "PRIVMSG") || is(m, "NOTICE") {
        let params = m.params();
        let target = if params.len() > 0 {
            decode_lossy(params[0])
        } else {
            String::new()
        };
        let from = sender(m);
        let body = last(m);
        chat_line(is(m, "NOTICE"), target.as_str(), from.as_str(), body.as_str())
    } else if is(m, "JOIN") {
        join_line(sender(m).as_str(), last(m).as_str())
    } else {
        let params = m.params();
        let mut texts: Vec<String> = Vec::new();
        let ghost want = m@.params.map_values(|p: Seq<u8>| crate::text::utf8_lossy(p));
        let mut i: usize = 0;
        while i < params.len()
            invariant
                i <= params@.len(),
                params@.len() == want.len(),
                forall|k: int| 0 <= k < params@.len() ==> (#[trigger] params@[k])@ == m@.params[k],
                want == m@.params.map_values(|p: Seq<u8>| crate::text::utf8_lossy(p)),
                texts.deep_view() == want.take(i as int),
            decreases params@.len() - i,
        {
            let ghost before = texts.deep_view();
            texts.push(decode_lossy(params[i]));
            i = i + 1;
            assert(texts.deep_view() =~= before.push(want[i - 1]));
            assert(want.take(i as int) =~= want.take(i - 1).push(want[i - 1]));
        }
        assert(want.take(i as int) =~= want);
        generic_line(decode_lossy(m.command()).as_str(), &texts)
    }
}

// ---------------------------------------------------------------------------
// Lines of the stream
// ---------------------------------------------------------------------------

pub const CR: u8 = 13;

pub const LF: u8 = 10;

/// `s` without the line end behind it.
pub open spec fn without_crlf(s: Seq<u8>) -> Seq<u8>
    decreases s.len(),
{
    if s.len() > 0 && (s.last() == CR || s.last() == LF) {
        without_crlf(s.drop_last())
    } else {
        s
    }
}

pub fn trim_crlf(s: &[u8]) -> (r: &[u8])
    ensures
        r@ == without_crlf(s@),
{
    let mut n: usize = s.len();
    assert(s@.take(n as int) =~= s@);
    while n > 0 && (s[n - 1] == CR || s[n - 1] == LF)
        invariant
            n <= s@.len(),
            without_crlf(s@) == without_crlf(s@.take(n as int)),
        decreases n,
    {
        assert(s@.take(n as int).drop_last() =~= s@.take(n - 1));
        n = n - 1;
    }
    slice_subrange(s, 0, n)
}

/// The pieces of a byte stream between its line feeds. All but the last are
/// lines; the last is what may still become one.
pub open spec fn split_lines(s: Seq<u8>) -> Seq<Seq<u8>>
    decreases s.len(),
{
    if s.len() == 0 {
        seq![Seq::<u8>::empty()]
    } else {
        let before = split_lines(s.drop_last());
        if s.last() == LF {
            before.push(Seq::empty())
        } else {
            before.drop_last().push(before.last().push(s.last()))
        }
    }
}

/// The complete lines of a byte stream.
pub open spec fn complete_lines(s: Seq<u8>) -> Seq<Seq<u8>> {
    split_lines(s).drop_last()
}

/// What stands behind the last line feed of a byte stream.
pub open spec fn partial_line(s: Seq<u8>) -> Seq<u8> {
    split_lines(s).last()
}

/// What handling lines adds up to.
pub struct Chat {
    /// Whether the server has welcomed us.
    pub registered: bool,
    /// The lines for the user interface.
    pub shown: Seq<Seq<char>>,
    /// The replies to the server, without their line ends.
    pub replies: Seq<Seq<u8>>,
}

/// The reply to a ping: the same token.
pub open spec fn pong_bytes(m: crate::irc::Parsed) -> Seq<u8> {
    crate::text::ascii("PONG"@) + (if m.params.len() > 0 {
        crate::text::ascii(" :"@) + m.params.last()
    } else {
        Seq::empty()
    })
}

/// Handling one line: a message is shown; a ping is answered; the first
/// welcome registers us.
pub open spec fn handled(c: Chat, line: Seq<u8>) -> Chat {
    match crate::irc::message_of(without_crlf(line)) {
        None => c,
        Some(m) => {
            let shown = c.shown.push(display_text(m));
            if is_command(m, "PING"@) {
                Chat { shown, replies: c.replies.push(pong_bytes(m)), ..c }
            } else if m.command == crate::text::ascii("001"@) && !c.registered {
                Chat { registered: true, shown: shown.push("-- registered --"@), ..c }
            } else {
                Chat { shown, ..c }
            }
        },
    }
}

/// Handling lines one after another.
pub open spec fn handled_all(c: Chat, lines: Seq<Seq<u8>>) -> Chat
    decreases lines.len(),
{
    if lines.len() == 0 {
        c
    } else {
        handled(handled_all(c, lines.drop_last()), lines.last())
    }
}

fn pong(m: &Message<'_>) -> (r: Vec<u8>)
    ensures
        r@ == pong_bytes(m@),
{
    proof {
        reveal_strlit("PONG");
        reveal_strlit(" :");
    }
    let mut r: Vec<u8> = Vec::new();
    r.extend_from_slice(ascii_bytes("PONG"));
    assert(r@ =~= crate::text::ascii("PONG"@));
    if let Some(tok) = m.last_param() {
        r.extend_from_slice(ascii_bytes(" :"));
        r.extend_from_slice(tok);
        assert(r@ =~= crate::text::ascii("PONG"@) + (crate::text::ascii(" :"@) + tok@));
    } else {
        assert(r@ =~= crate::text::ascii("PONG"@) + Seq::<u8>::empty());
    }
    r
}

fn same_bytes(a: &[u8], b: &[u8]) -> (r: bool)
    ensures
        r == (a@ == b@),
{
    if a.len() != b.len() {
        return false;
    }
    let mut i: usize = 0;
    while i < a.len()
        invariant
            i <= a@.len(),
            a@.len() == b@.len(),
            forall|k: int| 0 <= k < i ==> a@[k] == b@[k],
        decreases a@.len() - i,
    {
        if a[i] != b[i] {
            return false;
        }
        i = i + 1;
    }
    assert(a@ =~= b@);
    true
}

/// What handling lines has added up to so far.
#[derive(Debug)]
pub struct Progress {
    pub registered: bool,
    pub shown: Vec<String>,
    pub replies: Vec<Vec<u8>>,
}

impl View for Progress {
    type V = Chat;

    open spec fn view(&self) -> Chat {
        Chat {
            registered: self.registered,
            shown: self.shown.deep_view(),
            replies: self.replies.deep_view(),
        }
    }
}

impl Progress {
    pub fn new(registered: bool) -> (r: Progress)
        ensures
            r@ == (Chat { registered, shown: Seq::empty(), replies: Seq::empty() }),
    {
        let r = Progress { registered, shown: Vec::new(), replies: Vec::new() };
        assert(r.shown.deep_view() =~= Seq::<Seq<char>>::empty());
        assert(r.replies.deep_view() =~= Seq::<Seq<u8>>::empty());
        r
    }

    fn show(&mut self, line: String)
        ensures
            final(self)@ == (Chat { shown: old(self)@.shown.push(line@), ..old(self)@ }),
    {
        self.shown.push(line);
        assert(self.shown.deep_view() =~= old(self).shown.deep_view().push(line@));
    }

    fn reply(&mut self, bytes: Vec<u8>)
        ensures
            final(self)@ == (Chat { replies: old(self)@.replies.push(bytes@), ..old(self)@ }),
    {
        self.replies.push(bytes);
        assert(self.replies.deep_view() =~= old(self).replies.deep_view().push(bytes@)) by {
            assert(bytes.deep_view() =~= bytes@);
        }
    }

    /// Handles one line.
    pub fn handle(&mut self, line: &[u8])
        ensures
            final(self)@ == handled(old(self)@, line@),
    {
        proof {
            reveal_strlit("PING");
            reveal_strlit("001");
        }
        let msg = match Message::parse(trim_crlf(line)) {
            Some(msg) => msg,
            None => {
                return;
            },
        };
        self.show(display_line(&msg));
        if is(&msg, "PING") {
            self.reply(pong(&msg));
        } else if same_bytes(msg.command(), ascii_bytes("001")) && !self.registered {
            self.registered = true;
            self.show(String::from_str("-- registered --"));
        }
    }
}

/// A line keeps its meaning without the line feed that ends it.
proof fn lemma_without_lf(line: Seq<u8>)
    ensures
        without_crlf(line.push(LF)) == without_crlf(line),
{
    assert(line.push(LF).drop_last() =~= line);
}

pub(crate) proof fn lemma_split_nonempty(s: Seq<u8>)
    ensures
        split_lines(s).len() > 0,
    decreases s.len(),
{
    if s.len() > 0 {
        lemma_split_nonempty(s.drop_last());
    }
}

/// Handles the complete lines of `acc`, in order, and keeps what stands behind
/// them.
pub fn drain_lines(acc: &mut Vec<u8>, progress: &mut Progress)
    ensures
        final(acc)@ == partial_line(old(acc)@),
        final(progress)@ == handled_all(old(progress)@, complete_lines(old(acc)@)),
{
    let ghost all = acc@;
    let ghost start_chat = progress@;
    let mut start: usize = 0;
    let mut i: usize = 0;
    assert(all.take(0) =~= Seq::<u8>::empty());
    assert(all.subrange(0, 0) =~= Seq::<u8>::empty());
    assert(complete_lines(all.take(0)) =~= Seq::<Seq<u8>>::empty());
    while i < acc.len()
        invariant
            start <= i <= all.len(),
            acc@ == all,
            all.subrange(start as int, i as int) == partial_line(all.take(i as int)),
            progress@ == handled_all(start_chat, complete_lines(all.take(i as int))),
        decreases all.len() - i,
    {
        proof {
            lemma_split_nonempty(all.take(i as int));
            assert(all.take(i + 1).drop_last() =~= all.take(i as int));
            assert(all.take(i + 1).last() == all[i as int]);
        }
        let ghost pieces = split_lines(all.take(i as int));
        if acc[i] == LF {
            progress.handle(slice_subrange(acc.as_slice(), start, i + 1));
            proof {
                let line = all.subrange(start as int, i as int);
                assert(all.subrange(start as int, i + 1) =~= line.push(LF));
                lemma_without_lf(line);
                let lines = complete_lines(all.take(i + 1));
                assert(lines =~= pieces);
                assert(all.subrange(i + 1, i + 1) =~= Seq::<u8>::empty());
            }
            start = i + 1;
        } else {
            proof {
                assert(all.subrange(start as int, i + 1) =~= all.subrange(
                    start as int,
                    i as int,
                ).push(all[i as int]));
                assert(complete_lines(all.take(i + 1)) =~= pieces.drop_last());
            }
        }
        i = i + 1;
    }
    assert(all.take(i as int) =~= all);
    assert(all.subrange(0, i as int) =~= all);
    if start > 0 {
        let mut rest: Vec<u8> = Vec::new();
        rest.extend_from_slice(slice_subrange(acc.as_slice(), start, i));
        assert(rest@ =~= all.subrange(start as int, i as int));
        *acc = rest;
    }
}

// ---------------------------------------------------------------------------
// The session
// ---------------------------------------------------------------------------

/// How we introduce ourselves.
pub open spec fn registration_text(nick: Seq<char>) -> Seq<char> {
    "NICK "@ + nick + "\r\nUSER "@ + nick + " 0 * :"@ + nick + "\r\n"@
}

/// How we ask to join a channel.
pub open spec fn join_request(channel: Seq<char>) -> Seq<char> {
    "JOIN "@ + channel + "\r\n"@
}

/// A line as it is sent.
pub open spec fn ended(line: Seq<u8>) -> Seq<u8> {
    line + seq![CR, LF]
}

/// The connection after the lines were offered to it, one after another.
pub open spec fn offered_all(t: crate::tcp::Tcp, lines: Seq<Seq<u8>>) -> crate::tcp::Tcp
    decreases lines.len(),
{
    if lines.len() == 0 {
        t
    } else {
        offered_all(t, lines.drop_last()).sent(ended(lines.last()))
    }
}

/// One connection to a chat server.
#[derive(Debug)]
pub struct Session {
    pub nick: String,
    pub channel: String,
    pub sent_registration: bool,
    pub registered: bool,
    pub joined: bool,
    /// What was received and is not a complete line yet.
    pub rx_acc: Vec<u8>,
}

/// What a session has come to.
pub struct SessionView {
    pub nick: Seq<char>,
    pub channel: Seq<char>,
    pub sent_registration: bool,
    pub registered: bool,
    pub joined: bool,
    pub partial: Seq<u8>,
}

impl View for Session {
    type V = SessionView;

    open spec fn view(&self) -> SessionView {
        SessionView {
            nick: self.nick@,
            channel: self.channel@,
            sent_registration: self.sent_registration,
            registered: self.registered,
            joined: self.joined,
            partial: self.rx_acc@,
        }
    }
}

/// What one pass over a connection comes to.
pub struct Pass {
    pub session: SessionView,
    pub tcp: crate::tcp::Tcp,
    pub shown: Seq<Seq<char>>,
    pub replies: Seq<Seq<u8>>,
}

impl SessionView {
    /// The connection after we introduced ourselves, where that is still to be
    /// done and our half of the connection is open.
    pub open spec fn after_register(self, t: crate::tcp::Tcp) -> (SessionView, crate::tcp::Tcp) {
        if t.may_send() && !self.sent_registration {
            (
                SessionView { sent_registration: true, ..self },
                t.sent(vstd::utf8::encode_utf8(registration_text(self.nick))),
            )
        } else {
            (self, t)
        }
    }

    /// The connection after we asked to join our channel, where we are
    /// registered, that is still to be done, and our half of the connection is
    /// open.
    pub open spec fn after_join(self, t: crate::tcp::Tcp) -> (SessionView, crate::tcp::Tcp) {
        if self.registered && !self.joined && t.may_send() {
            (
                SessionView { joined: true, ..self },
                t.sent(vstd::utf8::encode_utf8(join_request(self.channel))),
            )
        } else {
            (self, t)
        }
    }

    /// One pass: introduce ourselves, take what was received, handle the lines
    /// that are complete, join.
    pub open spec fn after_pass(self, t: crate::tcp::Tcp) -> Pass {
        let (s1, t1) = self.after_register(t);
        let bytes = s1.partial + t1.unread.take(t1.chunk() as int);
        let t2 = t1.without(t1.chunk());
        let chat = handled_all(
            Chat { registered: s1.registered, shown: Seq::empty(), replies: Seq::empty() },
            complete_lines(bytes),
        );
        let s2 = SessionView {
            registered: chat.registered,
            partial: partial_line(bytes),
            ..s1
        };
        let (session, tcp) = s2.after_join(t2);
        Pass { session, tcp, shown: chat.shown, replies: chat.replies }
    }
}

impl Session {
    pub fn new(nick: String, channel: String) -> (r: Session)
        ensures
            r@ == (SessionView {
                nick: nick@,
                channel: channel@,
                sent_registration: false,
                registered: false,
                joined: false,
                partial: Seq::empty(),
            }),
    {
        Session {
            nick,
            channel,
            sent_registration: false,
            registered: false,
            joined: false,
            rx_acc: Vec::new(),
        }
    }

    /// Introduces us to the server, once, as soon as that can be sent.
    pub fn register(&mut self, stream: &mut Stream)
        requires
            old(stream).wf(),
        ensures
            final(stream).wf(),
            old(stream).keeps(*final(stream)),
            (final(self)@, final(stream).tcp()) == old(self)@.after_register(old(stream).tcp()),
    {
        if stream.may_send() && !self.sent_registration {
            let mut reg = String::new();
            reg.append("NICK ");
            reg.append(self.nick.as_str());
            reg.append("\r\nUSER ");
            reg.append(self.nick.as_str());
            reg.append(" 0 * :");
            reg.append(self.nick.as_str());
            reg.append("\r\n");
            assert(reg@ =~= registration_text(self.nick@));
            stream.offer(reg.as_str().as_bytes());
            self.sent_registration = true;
        }
    }

    /// Joins our channel, once, as soon as we are registered and that can be
    /// sent.
    pub fn join(&mut self, stream: &mut Stream)
        requires
            old(stream).wf(),
        ensures
            final(stream).wf(),
            old(stream).keeps(*final(stream)),
            (final(self)@, final(stream).tcp()) == old(self)@.after_join(old(stream).tcp()),
    {
        if self.registered && !self.joined {
            if stream.may_send() {
                let mut line = String::new();
                line.append("JOIN ");
                line.append(self.channel.as_str());
                line.append("\r\n");
                assert(line@ =~= join_request(self.channel@));
                stream.offer(line.as_str().as_bytes());
                self.joined = true;
            }
        }
    }

    /// One pass over the connection: introduces us, handles what was received
    /// and joins our channel. All there is to show is offered to the user
    /// interface, line by line; what its queue was seen to have room for is
    /// accepted. The replies are handed back, for [`Self::reply`] once the
    /// user's commands are sent.
    pub fn pass(&mut self, stream: &mut Stream, to_ui: &mut Producer<String>) -> (replies: Vec<
        Vec<u8>,
    >)
        requires
            old(stream).wf(),
        ensures
            final(stream).wf(),
            old(stream).keeps(*final(stream)),
            ({
                let pass = old(self)@.after_pass(old(stream).tcp());
                &&& final(self)@ == pass.session
                &&& final(stream).tcp() == pass.tcp
                &&& replies.deep_view() == pass.replies
                &&& crate::queue::offers(*final(to_ui)) == crate::queue::offers(*old(to_ui))
                    + pass.shown
                &&& exists|ok: Seq<bool>|
                    {
                        &&& ok.len() == pass.shown.len()
                        &&& crate::queue::pushed(*final(to_ui)) == crate::queue::pushed(*old(to_ui))
                            + #[trigger] crate::queue::accepted(pass.shown, ok)
                        &&& forall|i: int|
                            0 <= i < ok.len() && i < crate::queue::room(*old(to_ui)) ==> ok[i]
                    }
            }),
    {
        self.register(stream);
        stream.recv_into(&mut self.rx_acc);
        let mut progress = Progress::new(self.registered);
        drain_lines(&mut self.rx_acc, &mut progress);
        self.registered = progress.registered;
        let ok = push_all(to_ui, progress.shown);
        self.join(stream);
        assert(crate::queue::pushed(*to_ui) == crate::queue::pushed(*old(to_ui))
            + crate::queue::accepted(old(self)@.after_pass(old(stream).tcp()).shown, ok@));
        progress.replies
    }

    /// Sends one command of the user, if there is one: a full line, to which we
    /// add its end. It is lost where our half of the connection is not open.
    /// Commands that were seen to arrive are sent, in order, before any other.
    /// The caller repeats this until there is none.
    pub fn command(&self, stream: &mut Stream, from_ui: &mut Consumer<String>) -> (r: bool)
        requires
            old(stream).wf(),
        ensures
            final(stream).wf(),
            old(stream).keeps(*final(stream)),
            ({
                let before = crate::queue::popped(*old(from_ui));
                let after = crate::queue::popped(*final(from_ui));
                let waiting = crate::queue::arrived(*old(from_ui));
                let left = crate::queue::arrived(*final(from_ui));
                &&& crate::queue::asked(*final(from_ui)) == crate::queue::asked(*old(from_ui)) + 1
                &&& waiting.len() > 0 ==> {
                    &&& r
                    &&& after.last() == waiting.first()
                    &&& left == waiting.drop_first()
                }
                &&& !r ==> left.len() == 0
                &&& r ==> {
                    &&& after.len() == before.len() + 1
                    &&& after == before.push(after.last())
                    &&& final(stream).tcp() == old(stream).tcp().sent(
                        ended(vstd::utf8::encode_utf8(after.last())),
                    )
                }
                &&& !r ==> after == before && final(stream).tcp() == old(stream).tcp()
            }),
    {
        match take_next(from_ui) {
            Some(cmd) => {
                send_line(stream, cmd.as_str().as_bytes());
                true
            },
            None => false,
        }
    }

    /// Sends the replies, in order.
    pub fn reply(&self, stream: &mut Stream, replies: Vec<Vec<u8>>)
        requires
            old(stream).wf(),
        ensures
            final(stream).wf(),
            old(stream).keeps(*final(stream)),
            final(stream).tcp() == offered_all(old(stream).tcp(), replies.deep_view()),
    {
        let ghost lines = replies.deep_view();
        let mut i: usize = 0;
        while i < replies.len()
            invariant
                i <= replies@.len(),
                stream.wf(),
                old(stream).keeps(*stream),
                lines == replies.deep_view(),
                stream.tcp() == offered_all(old(stream).tcp(), lines.take(i as int)),
            decreases replies@.len() - i,
        {
            send_line(stream, replies[i].as_slice());
            i = i + 1;
            proof {
                let now = lines.take(i as int);
                assert(now.drop_last() =~= lines.take(i - 1));
                assert(now.last() =~= replies@[i - 1]@);
            }
        }
        assert(lines.take(i as int) =~= lines);
    }
}

/// Sends one line with its end, where our half of the connection is open.
pub fn send_line(stream: &mut Stream, line: &[u8])
    requires
        old(stream).wf(),
    ensures
        final(stream).wf(),
        old(stream).keeps(*final(stream)),
        final(stream).tcp() == old(stream).tcp().sent(ended(line@)),
{
    if stream.may_send() {
        let mut bytes: Vec<u8> = Vec::new();
        bytes.extend_from_slice(line);
        bytes.push(CR);
        bytes.push(LF);
        assert(bytes@ =~= ended(line@));
        stream.offer(bytes.as_slice());
    }
}

// ---------------------------------------------------------------------------
// Set-up
// ---------------------------------------------------------------------------

/// The key under which the XDP program looks the server up: its address and
/// port, in network order.
pub open spec fn endpoint_bytes(ip: Ipv4Addr, port: u16) -> Seq<u8> {
    ip.bytes() + crate::addr::be16(port as nat)
}

pub fn endpoint_key(ip: Ipv4Addr, port: u16) -> (r: [u8; 6])
    ensures
        r@ == endpoint_bytes(ip, port),
{
    let r: [u8; 6] = [ip.a, ip.b, ip.c, ip.d, port_hi(port), port_lo(port)];
    assert(r@ =~= endpoint_bytes(ip, port));
    r
}

/// How long to wait for a packet, in milliseconds, where smoltcp asks to be
/// polled again after `delay` of them, or does not ask.
pub open spec fn timeout_of(delay: Option<u64>) -> i32 {
    match delay {
        None => 50,
        Some(ms) => {
            // As a C `int`.
            let low = ms % 0x1_0000_0000;
            if low >= 0x8000_0000 {
                0
            } else if low > 50 {
                50
            } else {
                low as i32
            }
        },
    }
}

pub fn poll_timeout(delay: Option<u64>) -> (r: i32)
    ensures
        r == timeout_of(delay),
        0 <= r <= 50,
{
    match delay {
        None => 50,
        Some(ms) => {
            let low: u64 = ms % 0x1_0000_0000;
            if low >= 0x8000_0000 {
                0
            } else if low > 50 {
                50
            } else {
                low as i32
            }
        },
    }
}

/// The status line for an attempt to pin the thread.
pub fn pin_line(cpu: usize, error: Option<&str>) -> (r: String)
    ensures
        r@ == match error {
            None => "-- data-plane pinned to CPU "@ + crate::text::decimal_digits(cpu as nat)
                + " --"@,
            Some(e) => "-- CPU pin failed (continuing): "@ + e@ + " --"@,
        },
{
    let mut r = String::new();
    match error {
        None => {
            r.append("-- data-plane pinned to CPU ");
            r.append(decimal(cpu as u64).as_str());
            r.append(" --");
            assert(r@ =~= "-- data-plane pinned to CPU "@ + crate::text::decimal_digits(cpu as nat)
                + " --"@);
        },
        Some(e) => {
            r.append("-- CPU pin failed (continuing): ");
            r.append(e);
            r.append(" --");
            assert(r@ =~= "-- CPU pin failed (continuing): "@ + e@ + " --"@);
        },
    }
    r
}

/// The status line for a limit on locked memory that could not be raised.
pub fn memlock_line(error: &str) -> (r: String)
    ensures
        r@ == "-- note: could not raise RLIMIT_MEMLOCK ("@ + error@ + "); continuing --"@,
{
    let mut r = String::new();
    r.append("-- note: could not raise RLIMIT_MEMLOCK (");
    r.append(error);
    r.append("); continuing --");
    assert(r@ =~= "-- note: could not raise RLIMIT_MEMLOCK ("@ + error@ + "); continuing --"@);
    r
}

/// The status line for the pages that the UMEM is on.
pub fn umem_line(hugepages: bool) -> (r: String)
    ensures
        r@ == if hugepages {
            "-- UMEM: 16 MiB on 2 MiB hugepages --"@
        } else {
            "-- UMEM: 16 MiB on 4 KiB pages (hugetlb pool empty; sysctl vm.nr_hugepages) --"@
        },
{
    if hugepages {
        String::from_str("-- UMEM: 16 MiB on 2 MiB hugepages --")
    } else {
        String::from_str(
            "-- UMEM: 16 MiB on 4 KiB pages (hugetlb pool empty; sysctl vm.nr_hugepages) --",
        )
    }
}

/// The status line for a connection that was started.
pub open spec fn connecting_text(cfg: NetConfig) -> Seq<char> {
    "-- connecting "@ + cfg.our_ip.dotted() + " -> "@ + cfg.server_ip.dotted() + ":"@
        + crate::text::decimal_digits(cfg.port as nat) + " as "@ + cfg.nick@ + " --"@
}

pub fn connecting_line(cfg: &NetConfig) -> (r: String)
    ensures
        r@ == connecting_text(*cfg),
{
    let mut r = String::new();
    r.append("-- connecting ");
    r.append(cfg.our_ip.to_text().as_str());
    r.append(" -> ");
    r.append(cfg.server_ip.to_text().as_str());
    r.append(":");
    r.append(decimal(cfg.port as u64).as_str());
    r.append(" as ");
    r.append(cfg.nick.as_str());
    r.append(" --");
    assert(r@ =~= connecting_text(*cfg));
    r
}

/// The status line for an error that ends the data plane.
pub fn error_line(error: &str) -> (r: String)
    ensures
        r@ == "-- data-plane error: "@ + error@ + " --"@,
{
    let mut r = String::new();
    r.append("-- data-plane error: ");
    r.append(error);
    r.append(" --");
    assert(r@ =~= "-- data-plane error: "@ + error@ + " --"@);
    r
}

/// What is said of an interface that there is not.
pub fn interface_not_found(ifname: &str) -> (r: String)
    ensures
        r@ == "interface "@ + crate::text::debug_quoted(ifname@) + " not found"@,
{
    let mut r = String::new();
    r.append("interface ");
    r.append(quote(ifname).as_str());
    r.append(" not found");
    assert(r@ =~= "interface "@ + crate::text::debug_quoted(ifname@) + " not found"@);
    r
}

/// Why a text is no MAC address.
#[derive(Debug)]
pub enum MacError {
    /// It does not have six parts. The message says so of the text.
    BadMac(String),
    /// This part is no hexadecimal number of a byte.
    BadHex(String),
}

impl MacError {
    pub open spec fn text(self) -> Seq<char> {
        match self {
            MacError::BadMac(m) => m@,
            MacError::BadHex(_) => "bad MAC hex"@,
        }
    }

    pub fn message(&self) -> (r: String)
        ensures
            r@ == self.text(),
    {
        match self {
            MacError::BadMac(m) => m.clone(),
            MacError::BadHex(_) => String::from_str("bad MAC hex"),
        }
    }
}

/// Whether a text denotes a byte in hexadecimal.
pub open spec fn is_hex_byte(s: Seq<char>) -> bool {
    crate::text::uint_value(s, 16, 255) is Some
}

/// Whether `i` is the first part of `parts` that is no byte in hexadecimal.
pub open spec fn first_bad(parts: Seq<Seq<char>>, i: int) -> bool {
    &&& 0 <= i < parts.len()
    &&& !is_hex_byte(parts[i])
    &&& forall|k: int| 0 <= k < i ==> is_hex_byte(#[trigger] parts[k])
}

/// What reading a MAC address out of a text comes to: six hexadecimal numbers
/// between colons, or what is wrong with them.
pub open spec fn mac_read(s: Seq<char>, r: Result<[u8; 6], MacError>) -> bool {
    let parts = crate::text::split_on(s, ':');
    match r {
        Ok(mac) => crate::socket::mac_bytes(s) == Some(mac@),
        Err(MacError::BadMac(m)) => parts.len() != 6 && m@ == crate::socket::bad_mac(s),
        Err(MacError::BadHex(part)) => parts.len() == 6 && exists|i: int| #[trigger]
            first_bad(parts, i) && part@ == parts[i],
    }
}

/// Reads the MAC address in an interface's file: a text with white space
/// around it.
pub fn mac_from_file(s: &str) -> (r: Result<[u8; 6], MacError>)
    ensures
        mac_read(crate::text::trimmed(s@), r),
        r is Ok <==> crate::socket::mac_bytes(crate::text::trimmed(s@)) is Some,
{
    parse_mac(s.trim())
}

/// Reads a MAC address.
pub fn parse_mac(s: &str) -> (r: Result<[u8; 6], MacError>)
    ensures
        mac_read(s@, r),
        r is Ok <==> crate::socket::mac_bytes(s@) is Some,
{
    let chars = chars_of(s);
    let bounds = split_bounds(chars.as_slice(), ':');
    let ghost parts = crate::text::split_on(s@, ':');
    if bounds.len() != 6 {
        return Err(MacError::BadMac(bad_mac_message(s)));
    }
    let mut m: [u8; 6] = [0; 6];
    let mut i: usize = 0;
    while i < 6
        invariant
            i <= 6,
            chars@ == s@,
            parts == crate::text::split_on(s@, ':'),
            parts.len() == 6,
            bounds@.len() == 6,
            forall|k: int|
                #![trigger bounds@[k]]
                0 <= k < 6 ==> bounds@[k].0 <= bounds@[k].1 <= chars@.len() && chars@.subrange(
                    bounds@[k].0 as int,
                    bounds@[k].1 as int,
                ) == parts[k],
            forall|k: int|
                0 <= k < i ==> is_hex_byte(#[trigger] parts[k]) && m@[k]
                    == crate::text::uint_value(parts[k], 16, 255)->Some_0,
        decreases 6 - i,
    {
        let (from, to) = bounds[i];
        let part = slice_subrange(chars.as_slice(), from, to);
        match parse_uint(part, 16, 255) {
            Some(v) => {
                m[i] = v as u8;
            },
            None => {
                let text = crate::text::string_of(part);
                assert(first_bad(parts, i as int));
                return Err(MacError::BadHex(text));
            },
        }
        i = i + 1;
    }
    assert(m@ =~= crate::socket::mac_bytes(s@)->Some_0);
    Ok(m)
}

// ---------------------------------------------------------------------------
// Laws
// ---------------------------------------------------------------------------

/// However a byte stream is cut into pieces, the same lines come out of it:
/// what was left of the first piece is completed by the second.
pub proof fn cuts_do_not_matter(a: Seq<u8>, b: Seq<u8>)
    ensures
        complete_lines(a + b) == complete_lines(a) + complete_lines(partial_line(a) + b),
        partial_line(a + b) == partial_line(partial_line(a) + b),
    decreases b.len(),
{
    let p = partial_line(a);
    lemma_split_nonempty(a);
    if b.len() == 0 {
        assert(a + b =~= a);
        assert(p + b =~= p);
        lemma_partial_has_no_lf(a);
        lemma_one_piece(p);
        assert(complete_lines(p) =~= Seq::<Seq<u8>>::empty());
        assert(complete_lines(a) + complete_lines(p) =~= complete_lines(a));
    } else {
        let b0 = b.drop_last();
        cuts_do_not_matter(a, b0);
        lemma_split_nonempty(a + b0);
        lemma_split_nonempty(p + b0);
        assert((a + b).drop_last() =~= a + b0);
        assert((p + b).drop_last() =~= p + b0);
        let x = split_lines(a + b0);
        let y = split_lines(p + b0);
        if b.last() == LF {
            assert(complete_lines(a + b) =~= x);
            assert(complete_lines(p + b) =~= y);
            assert(x =~= x.drop_last().push(x.last()));
            assert(y =~= y.drop_last().push(y.last()));
            assert(x =~= complete_lines(a) + y);
        } else {
            assert(complete_lines(a + b) =~= x.drop_last());
            assert(complete_lines(p + b) =~= y.drop_last());
        }
    }
}

proof fn lemma_partial_has_no_lf(s: Seq<u8>)
    ensures
        !partial_line(s).contains(LF),
    decreases s.len(),
{
    if s.len() > 0 {
        lemma_split_nonempty(s.drop_last());
        lemma_partial_has_no_lf(s.drop_last());
        let before = partial_line(s.drop_last());
        if s.last() != LF {
            assert(partial_line(s) == before.push(s.last()));
            assert forall|i: int| 0 <= i < before.len() + 1 implies before.push(s.last())[i]
                != LF by {
                if i < before.len() {
                    assert(before.contains(before[i]));
                }
            }
        }
    }
}

proof fn lemma_one_piece(s: Seq<u8>)
    requires
        !s.contains(LF),
    ensures
        split_lines(s) == seq![s],
    decreases s.len(),
{
    if s.len() > 0 {
        let front = s.drop_last();
        assert(s.contains(s.last())) by {
            assert(s[s.len() - 1] == s.last());
        }
        assert forall|i: int| 0 <= i < front.len() implies front[i] != LF by {
            assert(s.contains(s[i]));
        }
        lemma_one_piece(front);
        assert(front.push(s.last()) =~= s);
        assert(split_lines(s) =~= seq![s]);
    } else {
        assert(s =~= Seq::<u8>::empty());
    }
}

/// Lines are handled one after another: those of two batches come to the same
/// as all of them together.
pub proof fn batches_do_not_matter(c: Chat, a: Seq<Seq<u8>>, b: Seq<Seq<u8>>)
    ensures
        handled_all(c, a + b) == handled_all(handled_all(c, a), b),
    decreases b.len(),
{
    if b.len() == 0 {
        assert(a + b =~= a);
    } else {
        assert((a + b).drop_last() =~= a + b.drop_last());
        batches_do_not_matter(c, a, b.drop_last());
    }
}

/// Two chunks of the stream, handled as they come, show and reply the same as
/// both of them at once.
pub proof fn chunks_do_not_matter(c: Chat, a: Seq<u8>, b: Seq<u8>)
    ensures
        handled_all(handled_all(c, complete_lines(a)), complete_lines(partial_line(a) + b))
            == handled_all(c, complete_lines(a + b)),
{
    cuts_do_not_matter(a, b);
    batches_do_not_matter(c, complete_lines(a), complete_lines(partial_line(a) + b));
}

/// Every ping is answered with a pong of the same token, and nothing else is
/// answered.
pub proof fn pings_are_answered(c: Chat, line: Seq<u8>)
    ensures
        ({
            let message = crate::irc::message_of(without_crlf(line));
            handled(c, line).replies == if message is Some && is_command(
                message->Some_0,
                "PING"@,
            ) {
                c.replies.push(pong_bytes(message->Some_0))
            } else {
                c.replies
            }
        }),
{
}

/// The server can parse our pong: its only parameter is the ping's token.
pub proof fn pong_carries_the_token(m: crate::irc::Parsed)
    requires
        m.params.len() > 0,
    ensures
        crate::irc::message_of(pong_bytes(m)) == Some(
            crate::irc::Parsed {
                prefix: None,
                command: crate::text::ascii("PONG"@),
                params: seq![m.params.last()],
            },
        ),
{
    reveal_strlit("PONG");
    reveal_strlit(" :");
    let token = m.params.last();
    let line = pong_bytes(m);
    let pong = crate::text::ascii("PONG"@);
    let rest = crate::text::ascii(" :"@) + token;
    assert(line == pong + rest);
    crate::irc::lemma_word_is(line, 4);
    assert(line.take(4) =~= pong);
    assert(line.skip(4) =~= rest);
    reveal_with_fuel(crate::irc::without_spaces, 3);
    assert(rest.skip(1).skip(1) =~= token);
    reveal_with_fuel(crate::irc::param_list, 2);
    assert(crate::irc::param_list(rest) =~= seq![token]);
    assert(crate::irc::capped(seq![token]) == seq![token]);
}

/// Once registered, always registered, and whoever is registered was welcomed
/// by the server.
pub proof fn registration_lasts(c: Chat, line: Seq<u8>)
    ensures
        c.registered ==> handled(c, line).registered,
        handled(c, line).registered && !c.registered ==> {
            let message = crate::irc::message_of(without_crlf(line));
            &&& message is Some
            &&& message->Some_0.command == crate::text::ascii("001"@)
            &&& handled(c, line).shown == c.shown.push(display_text(message->Some_0)).push(
                "-- registered --"@,
            )
        },
{
}

/// We introduce ourselves once and join once: doing either again changes
/// nothing. We join only once registered.
pub proof fn introductions_are_made_once(s: SessionView, t: crate::tcp::Tcp, later: crate::tcp::Tcp)
    ensures
        t.may_send() ==> s.after_register(t).0.after_register(later) == (
            s.after_register(t).0,
            later,
        ),
        t.may_send() && s.registered ==> s.after_join(t).0.after_join(later) == (
            s.after_join(t).0,
            later,
        ),
        !s.registered ==> s.after_join(t) == (s, t),
{
}

/// A session that has joined is registered, however many passes it makes.
pub proof fn joined_means_registered(s: SessionView, t: crate::tcp::Tcp)
    requires
        s.joined ==> s.registered,
    ensures
        s.after_pass(t).session.joined ==> s.after_pass(t).session.registered,
        s.registered ==> s.after_pass(t).session.registered,
        s.joined ==> s.after_pass(t).session.joined,
{
    let (s1, t1) = s.after_register(t);
    lemma_registered_stays(
        Chat { registered: s1.registered, shown: Seq::empty(), replies: Seq::empty() },
        complete_lines(s1.partial + t1.unread.take(t1.chunk() as int)),
    );
}

proof fn lemma_registered_stays(c: Chat, lines: Seq<Seq<u8>>)
    ensures
        c.registered ==> handled_all(c, lines).registered,
    decreases lines.len(),
{
    if lines.len() > 0 {
        lemma_registered_stays(c, lines.drop_last());
    }
}

} // verus!
