//! Zerocopy IRC message parser.
//!
//! `Message` borrows byte slices directly out of the source buffer (the
//! reassembled TCP stream): no allocation, no copy. Parsing follows the
//! RFC 1459 / 2812 grammar:
//!
//! ```text
//! [ ':' prefix SPACE ] command { SPACE param } [ SPACE ':' trailing ]
//! ```
//!
//! The trailing parameter (introduced by `:`, may contain spaces) is stored as
//! the final element of `params`.

use vstd::prelude::*;
use vstd::slice::slice_subrange;

verus! {

/// RFC 2812 caps a message at 15 parameters.
pub const MAX_PARAMS: usize = 15;

pub const SPACE: u8 = 0x20;

pub const COLON: u8 = 0x3a;

// ---------------------------------------------------------------------------
// The grammar
// ---------------------------------------------------------------------------

/// `s` without its leading spaces.
pub open spec fn without_spaces(s: Seq<u8>) -> Seq<u8>
    decreases s.len(),
{
    if s.len() > 0 && s[0] == SPACE {
        without_spaces(s.skip(1))
    } else {
        s
    }
}

/// The length of the first word of `s`: up to the first space, or all of it.
pub open spec fn word_len(s: Seq<u8>) -> nat
    decreases s.len(),
{
    if s.len() == 0 || s[0] == SPACE {
        0
    } else {
        1 + word_len(s.skip(1))
    }
}

/// All parameters in `s`, the part of a line behind its command.
pub open spec fn param_list(s: Seq<u8>) -> Seq<Seq<u8>>
    decreases s.len(),
    via param_list_decreases
{
    let rest = without_spaces(s);
    if rest.len() == 0 {
        Seq::<Seq<u8>>::empty()
    } else if rest[0] == COLON {
        seq![rest.skip(1)]
    } else {
        let n = word_len(rest);
        seq![rest.take(n as int)] + param_list(rest.skip(n as int))
    }
}

#[via_fn]
proof fn param_list_decreases(s: Seq<u8>) {
    lemma_spaces(s);
    lemma_word(without_spaces(s));
}

/// What a message says, apart from where its bytes live.
pub struct Parsed {
    pub prefix: Option<Seq<u8>>,
    pub command: Seq<u8>,
    pub params: Seq<Seq<u8>>,
}

/// The first `MAX_PARAMS` of a list of parameters.
pub open spec fn capped(params: Seq<Seq<u8>>) -> Seq<Seq<u8>> {
    if params.len() <= MAX_PARAMS {
        params
    } else {
        params.take(MAX_PARAMS as int)
    }
}

/// The command and the parameters in `s`, under the given prefix. There is no
/// message without a command.
pub open spec fn body_of(prefix: Option<Seq<u8>>, s: Seq<u8>) -> Option<Parsed> {
    let n = word_len(s);
    if n == 0 {
        None
    } else {
        Some(
            Parsed {
                prefix,
                command: s.take(n as int),
                params: capped(param_list(s.skip(n as int))),
            },
        )
    }
}

/// The message that a line holds, if it holds one.
pub open spec fn message_of(line: Seq<u8>) -> Option<Parsed> {
    if line.len() > 0 && line[0] == COLON {
        let n = word_len(line);
        if n == line.len() {
            None
        } else {
            body_of(Some(line.subrange(1, n as int)), without_spaces(line.skip(n as int)))
        }
    } else {
        body_of(None, line)
    }
}

proof fn lemma_spaces(s: Seq<u8>)
    ensures
        without_spaces(s).len() <= s.len(),
        without_spaces(s) == s.skip(s.len() - without_spaces(s).len()),
        without_spaces(s).len() > 0 ==> without_spaces(s)[0] != SPACE,
    decreases s.len(),
{
    if s.len() > 0 && s[0] == SPACE {
        lemma_spaces(s.skip(1));
        let n = s.len() - without_spaces(s).len();
        assert(s.skip(1).skip(n - 1) == s.skip(n));
    } else {
        assert(s.skip(0) == s);
    }
}

proof fn lemma_word(s: Seq<u8>)
    ensures
        word_len(s) <= s.len(),
        forall|k: int| 0 <= k < word_len(s) ==> s[k] != SPACE,
        word_len(s) < s.len() ==> s[word_len(s) as int] == SPACE,
        s.len() > 0 && s[0] != SPACE ==> word_len(s) > 0,
    decreases s.len(),
{
    if s.len() > 0 && s[0] != SPACE {
        lemma_word(s.skip(1));
        assert forall|k: int| 0 <= k < word_len(s) implies s[k] != SPACE by {
            if k > 0 {
                assert(s[k] == s.skip(1)[k - 1]);
            }
        }
        if word_len(s) < s.len() {
            assert(s[word_len(s) as int] == s.skip(1)[word_len(s) - 1]);
        }
    }
}

/// A word ends where the first space stands.
pub(crate) proof fn lemma_word_is(s: Seq<u8>, n: int)
    requires
        0 <= n <= s.len(),
        forall|k: int| 0 <= k < n ==> s[k] != SPACE,
        n < s.len() ==> s[n] == SPACE,
    ensures
        word_len(s) == n,
{
    lemma_word(s);
}

// ---------------------------------------------------------------------------
// Parsing
// ---------------------------------------------------------------------------

/// Whether `part` occurs in `line` as a contiguous piece.
pub open spec fn is_piece_of(part: Seq<u8>, line: Seq<u8>) -> bool {
    exists|i: int, j: int| 0 <= i <= j <= line.len() && part == #[trigger] line.subrange(i, j)
}

pub struct Message<'a> {
    prefix: Option<&'a [u8]>,
    command: &'a [u8],
    params: [&'a [u8]; MAX_PARAMS],
    nparams: usize,
}

impl<'a> View for Message<'a> {
    type V = Parsed;

    /// What the message says.
    closed spec fn view(&self) -> Parsed {
        Parsed {
            prefix: match self.prefix {
                Some(p) => Some(p@),
                None => None,
            },
            command: self.command@,
            params: Seq::new(self.nparams as nat, |i: int| self.params@[i]@),
        }
    }
}

impl<'a> Clone for Message<'a> {
    fn clone(&self) -> (r: Self)
        ensures
            r@ == self@,
    {
        proof {
            use_type_invariant(self);
        }
        Message {
            prefix: self.prefix,
            command: self.command,
            params: self.params,
            nparams: self.nparams,
        }
    }
}

impl<'a> Message<'a> {
    #[verifier::type_invariant]
    spec fn holds_at_most_max_params(self) -> bool {
        self.nparams <= MAX_PARAMS
    }

    /// Parse one line (CR/LF already stripped). Returns `None` if there is no
    /// command. All returned slices point into `line`.
    pub fn parse(line: &'a [u8]) -> (r: Option<Message<'a>>)
        ensures
            r is Some <==> message_of(line@) is Some,
            r matches Some(m) ==> m@ == message_of(line@)->Some_0,
    {
        let mut rest: &'a [u8] = line;
        let mut prefix: Option<&'a [u8]> = None;
        if rest.len() > 0 && rest[0] == COLON {
            let end: usize = find_space(rest);
            if end == rest.len() {
                return None;
            }
            proof {
                lemma_word(line@);
            }
            prefix = Some(slice_subrange(rest, 1, end));
            rest = skip_spaces(slice_subrange(rest, end, rest.len()));
        }
        let cmd_end: usize = find_space(rest);
        if cmd_end == 0 {
            return None;
        }
        let command: &'a [u8] = slice_subrange(rest, 0, cmd_end);
        rest = slice_subrange(rest, cmd_end, rest.len());

        let ghost tail = rest@;
        let ghost all = param_list(tail);
        let mut params: [&'a [u8]; MAX_PARAMS] = [slice_subrange(line, 0, 0);MAX_PARAMS];
        let mut nparams: usize = 0;
        let ghost mut seen: int = 0;
        loop
            invariant_except_break
                0 <= seen <= all.len(),
                param_list(rest@) == all.skip(seen),
                nparams == (if seen <= MAX_PARAMS {
                    seen
                } else {
                    MAX_PARAMS as int
                }),
            invariant
                nparams <= MAX_PARAMS,
                forall|k: int| 0 <= k < nparams ==> (#[trigger] params@[k])@ == all[k],
            ensures
                nparams == (if all.len() <= MAX_PARAMS {
                    all.len() as int
                } else {
                    MAX_PARAMS as int
                }),
            decreases rest@.len(),
        {
            let ghost start = rest@;
            proof {
                lemma_spaces(start);
            }
            rest = skip_spaces(rest);
            if rest.len() == 0 {
                break;
            }
            proof {
                assert(all.skip(seen).len() > 0);
                assert(all.skip(seen)[0] == all[seen]);
            }
            if rest[0] == COLON {
                // Trailing parameter: everything after the ':' verbatim.
                if nparams < MAX_PARAMS {
                    params[nparams] = slice_subrange(rest, 1, rest.len());
                    nparams = nparams + 1;
                }
                break;
            }
            let end: usize = find_space(rest);
            proof {
                lemma_word(rest@);
                assert(param_list(start) == seq![rest@.take(end as int)] + param_list(
                    rest@.skip(end as int),
                ));
                assert(all.skip(seen + 1) == all.skip(seen).skip(1));
                assert(all.skip(seen).skip(1) == param_list(rest@.skip(end as int)));
                seen = seen + 1;
            }
            if nparams < MAX_PARAMS {
                params[nparams] = slice_subrange(rest, 0, end);
                nparams = nparams + 1;
            }
            rest = slice_subrange(rest, end, rest.len());
        }

        let m = Message { prefix, command, params, nparams };
        assert(m@.params == capped(all));
        Some(m)
    }

    pub fn prefix(&self) -> (r: Option<&'a [u8]>)
        ensures
            r is Some <==> self@.prefix is Some,
            r matches Some(p) ==> p@ == self@.prefix->Some_0,
    {
        self.prefix
    }

    pub fn command(&self) -> (r: &'a [u8])
        ensures
            r@ == self@.command,
    {
        self.command
    }

    pub fn params(&self) -> (r: &[&'a [u8]])
        ensures
            r@.len() == self@.params.len(),
            forall|i: int| 0 <= i < r@.len() ==> (#[trigger] r@[i])@ == self@.params[i],
    {
        proof {
            use_type_invariant(self);
        }
        slice_subrange(self.params.as_slice(), 0, self.nparams)
    }

    /// Case-insensitive command match.
    pub fn is(&self, name: &[u8]) -> (r: bool)
        ensures
            r == same_ignoring_case(self@.command, name@),
    {
        eq_ignore_case(self.command, name)
    }

    /// The last parameter, which is the trailing one when present.
    pub fn last_param(&self) -> (r: Option<&'a [u8]>)
        ensures
            r is Some <==> self@.params.len() > 0,
            r matches Some(p) ==> p@ == self@.params.last(),
    {
        proof {
            use_type_invariant(self);
        }
        if self.nparams == 0 {
            None
        } else {
            Some(self.params[self.nparams - 1])
        }
    }
}

/// The lower-case form of an ASCII letter; any other byte as it is.
pub open spec fn lower(b: u8) -> u8 {
    if 0x41 <= b <= 0x5a {
        (b + 0x20) as u8
    } else {
        b
    }
}

/// Whether two byte strings differ in the case of ASCII letters at most.
pub open spec fn same_ignoring_case(a: Seq<u8>, b: Seq<u8>) -> bool {
    a.len() == b.len() && forall|i: int| 0 <= i < a.len() ==> lower(#[trigger] a[i]) == lower(b[i])
}

fn lower_of(b: u8) -> (r: u8)
    ensures
        r == lower(b),
{
    if 0x41 <= b && b <= 0x5a {
        b + 0x20
    } else {
        b
    }
}

fn eq_ignore_case(a: &[u8], b: &[u8]) -> (r: bool)
    ensures
        r == same_ignoring_case(a@, b@),
{
    if a.len() != b.len() {
        return false;
    }
    let mut i: usize = 0;
    while i < a.len()
        invariant
            i <= a@.len(),
            a@.len() == b@.len(),
            forall|k: int| 0 <= k < i ==> lower(#[trigger] a@[k]) == lower(b@[k]),
        decreases a@.len() - i,
    {
        if lower_of(a[i]) != lower_of(b[i]) {
            return false;
        }
        i = i + 1;
    }
    true
}

/// Drops the leading spaces of `s`.
pub fn skip_spaces(s: &[u8]) -> (r: &[u8])
    ensures
        r@ == without_spaces(s@),
{
    let mut i: usize = 0;
    assert(s@.skip(0) == s@);
    while i < s.len() && s[i] == SPACE
        invariant
            i <= s@.len(),
            without_spaces(s@.skip(i as int)) == without_spaces(s@),
        decreases s@.len() - i,
    {
        assert(s@.skip(i as int).skip(1) == s@.skip(i + 1));
        i = i + 1;
    }
    slice_subrange(s, i, s.len())
}

/// The length of the first word of `s`.
fn find_space(s: &[u8]) -> (r: usize)
    ensures
        r == word_len(s@),
        r <= s@.len(),
{
    let mut i: usize = 0;
    while i < s.len() && s[i] != SPACE
        invariant
            i <= s@.len(),
            forall|k: int| 0 <= k < i ==> s@[k] != SPACE,
        decreases s@.len() - i,
    {
        i = i + 1;
    }
    proof {
        lemma_word_is(s@, i as int);
    }
    i
}

// ---------------------------------------------------------------------------
// Laws
// ---------------------------------------------------------------------------

/// Whether the pieces stand in `line` one behind the other, without overlap.
pub open spec fn in_order(pieces: Seq<Seq<u8>>, line: Seq<u8>) -> bool
    decreases pieces.len(),
{
    pieces.len() == 0 || exists|i: int, j: int|
        {
            &&& 0 <= i <= j <= line.len()
            &&& pieces[0] == #[trigger] line.subrange(i, j)
            &&& in_order(pieces.skip(1), line.skip(j))
        }
}

/// The fields of a message, in the order in which they stand in its line.
pub open spec fn fields_of(m: Parsed) -> Seq<Seq<u8>> {
    (match m.prefix {
        Some(p) => seq![p],
        None => Seq::empty(),
    }) + seq![m.command] + m.params
}

proof fn lemma_in_order_step(pieces: Seq<Seq<u8>>, line: Seq<u8>, i: int, j: int)
    requires
        pieces.len() > 0,
        0 <= i <= j <= line.len(),
        pieces[0] == line.subrange(i, j),
        in_order(pieces.skip(1), line.skip(j)),
    ensures
        in_order(pieces, line),
{
}

/// Some of the first pieces are in order where all are.
proof fn lemma_in_order_take(pieces: Seq<Seq<u8>>, line: Seq<u8>, n: int)
    requires
        in_order(pieces, line),
        0 <= n <= pieces.len(),
    ensures
        in_order(pieces.take(n), line),
    decreases pieces.len(),
{
    if n > 0 {
        let (i, j) = choose|i: int, j: int|
            {
                &&& 0 <= i <= j <= line.len()
                &&& pieces[0] == #[trigger] line.subrange(i, j)
                &&& in_order(pieces.skip(1), line.skip(j))
            };
        lemma_in_order_take(pieces.skip(1), line.skip(j), n - 1);
        assert(pieces.take(n).skip(1) == pieces.skip(1).take(n - 1));
        lemma_in_order_step(pieces.take(n), line, i, j);
    }
}

/// The parameters in `s` are in order.
proof fn lemma_params_in_order(s: Seq<u8>)
    ensures
        in_order(param_list(s), s),
    decreases s.len(),
{
    lemma_spaces(s);
    let rest = without_spaces(s);
    let gap = s.len() - rest.len();
    let list = param_list(s);
    lemma_word(rest);
    if rest.len() == 0 {
        assert(list.len() == 0);
    } else if rest[0] == COLON {
        assert(rest.skip(1) == s.subrange(gap + 1, s.len() as int));
        assert(list.skip(1).len() == 0);
        lemma_in_order_step(list, s, gap + 1, s.len() as int);
    } else {
        let n = word_len(rest) as int;
        let tail = rest.skip(n);
        lemma_params_in_order(tail);
        assert(rest.take(n) == s.subrange(gap, gap + n));
        assert(tail == s.skip(gap + n));
        assert(list.skip(1) == param_list(tail));
        lemma_in_order_step(list, s, gap, gap + n);
    }
}

/// Pieces in order are pieces.
proof fn lemma_in_order_pieces(pieces: Seq<Seq<u8>>, line: Seq<u8>, k: int)
    requires
        in_order(pieces, line),
        0 <= k < pieces.len(),
    ensures
        is_piece_of(pieces[k], line),
    decreases pieces.len(),
{
    let (i, j) = choose|i: int, j: int|
        {
            &&& 0 <= i <= j <= line.len()
            &&& pieces[0] == #[trigger] line.subrange(i, j)
            &&& in_order(pieces.skip(1), line.skip(j))
        };
    if k > 0 {
        let tail = line.skip(j);
        lemma_in_order_pieces(pieces.skip(1), tail, k - 1);
        let (a, b) = choose|a: int, b: int|
            0 <= a <= b <= tail.len() && pieces[k] == #[trigger] tail.subrange(a, b);
        assert(pieces[k] == line.subrange(j + a, j + b));
    }
}

/// Every field of a parsed message is a piece of the line it was parsed from.
/// They stand there one behind the other, without overlap: the prefix, the
/// command, the parameters.
pub proof fn fields_lie_in_the_line(line: Seq<u8>)
    requires
        message_of(line) is Some,
    ensures
        in_order(fields_of(message_of(line)->Some_0), line),
        message_of(line)->Some_0.prefix is Some ==> is_piece_of(
            message_of(line)->Some_0.prefix->Some_0,
            line,
        ),
        is_piece_of(message_of(line)->Some_0.command, line),
        forall|i: int|
            0 <= i < message_of(line)->Some_0.params.len() ==> is_piece_of(
                #[trigger] message_of(line)->Some_0.params[i],
                line,
            ),
{
    let m = message_of(line)->Some_0;
    let all = fields_of(m);
    lemma_word(line);
    let prefixed = line.len() > 0 && line[0] == COLON;
    // What stands behind the prefix, if there is one.
    let end = if prefixed {
        word_len(line) as int
    } else {
        0
    };
    let behind = line.skip(end);
    lemma_spaces(behind);
    let body = if prefixed {
        without_spaces(behind)
    } else {
        line
    };
    let gap = behind.len() - body.len();
    assert(body == behind.skip(gap));
    lemma_word(body);
    let n = word_len(body) as int;
    let tail = body.skip(n);
    lemma_params_in_order(tail);
    lemma_in_order_take(param_list(tail), tail, m.params.len() as int);
    assert(m.params == param_list(tail).take(m.params.len() as int));
    let from_command = seq![m.command] + m.params;
    assert(m.command == behind.subrange(gap, gap + n));
    assert(tail == behind.skip(gap + n));
    assert(from_command.skip(1) == m.params);
    lemma_in_order_step(from_command, behind, gap, gap + n);
    if prefixed {
        assert(all.skip(1) == from_command);
        assert(m.prefix->Some_0 == line.subrange(1, end));
        lemma_in_order_step(all, line, 1, end);
        lemma_in_order_pieces(all, line, 0);
        lemma_in_order_pieces(all, line, 1);
    } else {
        assert(all == from_command);
        assert(behind == line);
        lemma_in_order_pieces(all, line, 0);
    }
    assert forall|i: int| 0 <= i < m.params.len() implies is_piece_of(
        #[trigger] m.params[i],
        line,
    ) by {
        let k = all.len() - m.params.len() + i;
        assert(all[k] == m.params[i]);
        lemma_in_order_pieces(all, line, k);
    }
}

/// A run of spaces.
pub open spec fn spaces(n: nat) -> Seq<u8> {
    Seq::new(n, |i: int| SPACE)
}

/// Bytes that can stand as a command or a parameter without a colon in front:
/// not empty, no space, and no leading colon.
pub open spec fn is_middle(s: Seq<u8>) -> bool {
    s.len() > 0 && s[0] != COLON && forall|i: int| 0 <= i < s.len() ==> s[i] != SPACE
}

/// A parameter with the number of spaces that stand before it.
pub struct Spaced {
    pub gap: nat,
    pub text: Seq<u8>,
}

/// The part of a line behind its command.
pub open spec fn written_params(middle: Seq<Spaced>, trailing: Option<Spaced>) -> Seq<u8>
    decreases middle.len(),
{
    if middle.len() > 0 {
        spaces(middle[0].gap) + middle[0].text + written_params(middle.skip(1), trailing)
    } else {
        match trailing {
            Some(t) => spaces(t.gap) + seq![COLON] + t.text,
            None => Seq::<u8>::empty(),
        }
    }
}

/// The bare parameters.
pub open spec fn texts(middle: Seq<Spaced>, trailing: Option<Spaced>) -> Seq<Seq<u8>> {
    let plain = middle.map_values(|p: Spaced| p.text);
    match trailing {
        Some(t) => plain.push(t.text),
        None => plain,
    }
}

/// A line as the grammar writes it: the prefix behind a colon and before its
/// spaces, the command, the parameters.
pub open spec fn written_line(
    prefix: Option<Spaced>,
    command: Seq<u8>,
    middle: Seq<Spaced>,
    trailing: Option<Spaced>,
) -> Seq<u8> {
    let body = command + written_params(middle, trailing);
    match prefix {
        Some(p) => seq![COLON] + p.text + spaces(p.gap) + body,
        None => body,
    }
}

proof fn lemma_skip_run(n: nat, s: Seq<u8>)
    requires
        s.len() == 0 || s[0] != SPACE,
    ensures
        without_spaces(spaces(n) + s) == s,
    decreases n,
{
    let line = spaces(n) + s;
    if n > 0 {
        assert(line.skip(1) == spaces((n - 1) as nat) + s);
        lemma_skip_run((n - 1) as nat, s);
    } else {
        assert(line == s);
    }
}

proof fn lemma_written_params(middle: Seq<Spaced>, trailing: Option<Spaced>)
    requires
        forall|i: int|
            0 <= i < middle.len() ==> is_middle((#[trigger] middle[i]).text) && middle[i].gap > 0,
        trailing is Some ==> trailing->Some_0.gap > 0,
    ensures
        param_list(written_params(middle, trailing)) == texts(middle, trailing),
        written_params(middle, trailing).len() > 0 ==> written_params(middle, trailing)[0]
            == SPACE,
    decreases middle.len(),
{
    let s = written_params(middle, trailing);
    if middle.len() > 0 {
        let rest = middle.skip(1);
        assert forall|i: int| 0 <= i < rest.len() implies is_middle((#[trigger] rest[i]).text)
            && rest[i].gap > 0 by {
            assert(rest[i] == middle[i + 1]);
        }
        lemma_written_params(rest, trailing);
        let word = middle[0].text;
        let tail = written_params(rest, trailing);
        assert(is_middle(word) && middle[0].gap > 0);
        lemma_skip_run(middle[0].gap, word + tail);
        assert(s == spaces(middle[0].gap) + (word + tail));
        lemma_word_is(word + tail, word.len() as int);
        assert((word + tail).take(word.len() as int) == word);
        assert((word + tail).skip(word.len() as int) == tail);
        assert(texts(middle, trailing) == seq![word] + texts(rest, trailing));
    } else {
        match trailing {
            Some(t) => {
                let last = seq![COLON] + t.text;
                lemma_skip_run(t.gap, last);
                assert(s == spaces(t.gap) + last);
                assert(last.skip(1) == t.text);
                assert(texts(middle, trailing) == seq![t.text]);
            },
            None => {
                assert(texts(middle, trailing) == Seq::<Seq<u8>>::empty());
            },
        }
    }
}

/// A line written by the grammar, with any number of spaces in each place where
/// it asks for one, parses into the prefix, the command and the parameters that
/// were written, capped at `MAX_PARAMS` parameters. A command may start with a
/// colon where a prefix stands before it.
pub proof fn grammar_is_parsed(
    prefix: Option<Spaced>,
    command: Seq<u8>,
    middle: Seq<Spaced>,
    trailing: Option<Spaced>,
)
    requires
        prefix is Some ==> prefix->Some_0.gap > 0 && forall|i: int|
            0 <= i < prefix->Some_0.text.len() ==> prefix->Some_0.text[i] != SPACE,
        command.len() > 0,
        forall|i: int| 0 <= i < command.len() ==> command[i] != SPACE,
        prefix is None ==> command[0] != COLON,
        forall|i: int|
            0 <= i < middle.len() ==> is_middle((#[trigger] middle[i]).text) && middle[i].gap > 0,
        trailing is Some ==> trailing->Some_0.gap > 0,
    ensures
        message_of(written_line(prefix, command, middle, trailing)) == Some(
            Parsed {
                prefix: match prefix {
                    Some(p) => Some(p.text),
                    None => None,
                },
                command,
                params: capped(texts(middle, trailing)),
            },
        ),
{
    let line = written_line(prefix, command, middle, trailing);
    let tail = written_params(middle, trailing);
    let body = command + tail;
    lemma_written_params(middle, trailing);
    lemma_word_is(body, command.len() as int);
    assert(body.take(command.len() as int) == command);
    assert(body.skip(command.len() as int) == tail);
    match prefix {
        Some(p) => {
            let n = 1 + p.text.len() as int;
            assert forall|k: int| 0 <= k < n implies line[k] != SPACE by {
                if k > 0 {
                    assert(line[k] == p.text[k - 1]);
                }
            }
            lemma_word_is(line, n);
            assert(line.subrange(1, n) == p.text);
            assert(line.skip(n) == spaces(p.gap) + body);
            lemma_skip_run(p.gap, body);
        },
        None => {},
    }
}

/// Spaces behind the last parameter add none, unless it is a trailing one.
proof fn lemma_padded_params(middle: Seq<Spaced>, end: nat)
    requires
        forall|i: int|
            0 <= i < middle.len() ==> is_middle((#[trigger] middle[i]).text) && middle[i].gap > 0,
    ensures
        param_list(written_params(middle, None) + spaces(end)) == texts(middle, None),
        (written_params(middle, None) + spaces(end)).len() > 0 ==> (written_params(middle, None)
            + spaces(end))[0] == SPACE,
    decreases middle.len(),
{
    let s = written_params(middle, None) + spaces(end);
    if middle.len() > 0 {
        let rest = middle.skip(1);
        assert forall|i: int| 0 <= i < rest.len() implies is_middle((#[trigger] rest[i]).text)
            && rest[i].gap > 0 by {
            assert(rest[i] == middle[i + 1]);
        }
        lemma_padded_params(rest, end);
        let word = middle[0].text;
        let tail = written_params(rest, None) + spaces(end);
        assert(is_middle(word) && middle[0].gap > 0);
        lemma_skip_run(middle[0].gap, word + tail);
        assert(s == spaces(middle[0].gap) + (word + tail));
        lemma_word_is(word + tail, word.len() as int);
        assert((word + tail).take(word.len() as int) == word);
        assert((word + tail).skip(word.len() as int) == tail);
        assert(texts(middle, None) == seq![word] + texts(rest, None));
    } else {
        lemma_skip_run(end, Seq::<u8>::empty());
        assert(s == spaces(end) + Seq::<u8>::empty());
        assert(texts(middle, None) == Seq::<Seq<u8>>::empty());
    }
}

/// A line of the grammar with spaces behind it, where it has no trailing
/// parameter, is parsed like the line.
pub(crate) proof fn lemma_padded_line(
    prefix: Option<Spaced>,
    command: Seq<u8>,
    middle: Seq<Spaced>,
    trailing: Option<Spaced>,
    end: nat,
)
    requires
        prefix is Some ==> prefix->Some_0.gap > 0 && forall|i: int|
            0 <= i < prefix->Some_0.text.len() ==> prefix->Some_0.text[i] != SPACE,
        command.len() > 0,
        forall|i: int| 0 <= i < command.len() ==> command[i] != SPACE,
        prefix is None ==> command[0] != COLON,
        forall|i: int|
            0 <= i < middle.len() ==> is_middle((#[trigger] middle[i]).text) && middle[i].gap > 0,
        trailing is Some ==> trailing->Some_0.gap > 0 && end == 0,
    ensures
        message_of(written_line(prefix, command, middle, trailing) + spaces(end)) == Some(
            Parsed {
                prefix: match prefix {
                    Some(p) => Some(p.text),
                    None => None,
                },
                command,
                params: capped(texts(middle, trailing)),
            },
        ),
{
    let whole = written_line(prefix, command, middle, trailing);
    let line = whole + spaces(end);
    if end == 0 {
        assert(line == whole);
        grammar_is_parsed(prefix, command, middle, trailing);
    } else {
        let tail = written_params(middle, trailing) + spaces(end);
        let body = command + tail;
        lemma_padded_params(middle, end);
        lemma_word_is(body, command.len() as int);
        assert(body.take(command.len() as int) == command);
        assert(body.skip(command.len() as int) == tail);
        match prefix {
            Some(p) => {
                let n = 1 + p.text.len() as int;
                assert(line == seq![COLON] + p.text + spaces(p.gap) + body);
                assert forall|k: int| 0 <= k < n implies line[k] != SPACE by {
                    if k > 0 {
                        assert(line[k] == p.text[k - 1]);
                    }
                }
                lemma_word_is(line, n);
                assert(line.subrange(1, n) == p.text);
                assert(line.skip(n) == spaces(p.gap) + body);
                lemma_skip_run(p.gap, body);
            },
            None => {
                assert(line == body);
            },
        }
    }
}

/// Where there is no message.
pub(crate) proof fn lemma_no_message(line: Seq<u8>)
    ensures
        message_of(line) is None <==> {
            ||| line.len() == 0
            ||| line[0] == 0x20
            ||| line[0] == 0x3a && exists|n: int|
                0 <= n <= line.len() && crate::laws::all_but_spaces(line, n)
        },
{
    lemma_word(line);
    if line.len() > 0 && line[0] == COLON {
        let n = word_len(line) as int;
        let behind = line.skip(n);
        lemma_spaces(behind);
        let body = without_spaces(behind);
        lemma_word(body);
        let gap = behind.len() - body.len();
        if message_of(line) is None {
            if n < line.len() {
                assert(body.len() == 0);
                lemma_all_spaces(behind);
                assert forall|k: int| n <= k < line.len() implies line[k] == 0x20 by {
                    assert(behind[k - n] == line[k]);
                }
            }
            assert(crate::laws::all_but_spaces(line, n));
        }
        if exists|m: int| 0 <= m <= line.len() && crate::laws::all_but_spaces(line, m) {
            let m = choose|m: int| 0 <= m <= line.len() && crate::laws::all_but_spaces(line, m);
            lemma_word_is(line, m);
            if m < line.len() {
                assert forall|k: int| 0 <= k < behind.len() implies behind[k] == 0x20 by {
                    assert(behind[k] == line[n + k]);
                }
                if body.len() > 0 {
                    assert(body[0] == behind[gap]);
                }
                assert(word_len(body) == 0);
            }
        }
    }
}

/// Nothing is left without the spaces where there is nothing else.
proof fn lemma_all_spaces(s: Seq<u8>)
    requires
        without_spaces(s).len() == 0,
    ensures
        forall|k: int| 0 <= k < s.len() ==> s[k] == SPACE,
    decreases s.len(),
{
    if s.len() > 0 {
        lemma_all_spaces(s.skip(1));
        assert forall|k: int| 0 <= k < s.len() implies s[k] == SPACE by {
            if k > 0 {
                assert(s.skip(1)[k - 1] == s[k]);
            }
        }
    }
}

} // verus!
