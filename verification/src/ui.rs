//! The chat view: scrollback, the input line, and what keys do to them.
//!
//! The terminal is the caller's. Display lines come in over one queue, user
//! commands go out over another.

use vstd::prelude::*;
use vstd::string::*;

use rtrb::{Consumer, Producer};

use crate::queue::{offer, take_next};
use crate::text::join_from;

verus! {

/// How many lines of scrollback are kept.
pub const SCROLLBACK_MAX: usize = 4000;

/// What the screen shows.
#[derive(Debug)]
pub struct State {
    pub lines: Vec<String>,
    pub input: String,
    pub nick: String,
    pub channel: String,
}

/// What the screen shows, as text.
pub struct Screen {
    pub lines: Seq<Seq<char>>,
    pub input: Seq<char>,
    pub nick: Seq<char>,
    pub channel: Seq<char>,
}

impl View for State {
    type V = Screen;

    open spec fn view(&self) -> Screen {
        Screen {
            lines: self.lines.deep_view(),
            input: self.input@,
            nick: self.nick@,
            channel: self.channel@,
        }
    }
}

/// A key press.
#[derive(Debug, Clone, Copy, PartialEq, Eq, Structural)]
pub enum Key {
    Esc,
    /// A character, and whether the control key was held.
    Char(char, bool),
    Backspace,
    Enter,
    Other,
}

/// The last `n` of `lines`, or all of them.
pub open spec fn last_lines(lines: Seq<Seq<char>>, n: nat) -> Seq<Seq<char>> {
    if lines.len() <= n {
        lines
    } else {
        lines.skip(lines.len() - n)
    }
}

/// What a line of input means: the line to send, and the line to echo.
pub struct Command {
    pub wire: Seq<char>,
    pub echo: Seq<char>,
}

/// What a line of input means. `/x` sends `x` as it is; other text is for the
/// channel; blanks mean nothing.
pub open spec fn command_of(
    input: Seq<char>,
    nick: Seq<char>,
    channel: Seq<char>,
) -> Option<Command> {
    let line = crate::text::trimmed(input);
    if line.len() == 0 {
        None
    } else if line[0] == '/' {
        Some(Command { wire: line.skip(1), echo: "* /"@ + line.skip(1) })
    } else {
        Some(
            Command {
                wire: "PRIVMSG "@ + channel + " :"@ + line,
                echo: "<"@ + nick + "> "@ + line,
            },
        )
    }
}

/// Map raw input to `(wire IRC line, local echo)`. `/x` sends `x` raw; plain
/// text becomes a PRIVMSG to the current channel. Empty input yields `None`.
pub fn build_command(input: &str, nick: &str, channel: &str) -> (r: Option<(String, String)>)
    ensures
        r is Some <==> command_of(input@, nick@, channel@) is Some,
        r matches Some((wire, echo)) ==> {
            let command = command_of(input@, nick@, channel@)->Some_0;
            wire@ == command.wire && echo@ == command.echo
        },
{
    let line = input.trim();
    if line.is_empty() {
        return None;
    }
    let mut wire = String::new();
    let mut echo = String::new();
    if line.get_char(0) == '/' {
        let chars = crate::text::chars_of(line);
        let raw = crate::text::string_of(
            vstd::slice::slice_subrange(chars.as_slice(), 1, chars.len()),
        );
        assert(raw@ =~= line@.skip(1));
        wire.append(raw.as_str());
        echo.append("* /");
        echo.append(raw.as_str());
    } else {
        wire.append("PRIVMSG ");
        wire.append(channel);
        wire.append(" :");
        wire.append(line);
        echo.append("<");
        echo.append(nick);
        echo.append("> ");
        echo.append(line);
    }
    proof {
        let command = command_of(input@, nick@, channel@)->Some_0;
        assert(wire@ =~= command.wire);
        assert(echo@ =~= command.echo);
    }
    Some((wire, echo))
}

impl Screen {
    /// With a line received: the oldest lines go where there are too many.
    pub open spec fn received(self, line: Seq<char>) -> Screen {
        Screen { lines: last_lines(self.lines.push(line), SCROLLBACK_MAX as nat), ..self }
    }

    /// With the input submitted, and its command accepted for sending or not.
    pub open spec fn submitted(self, accepted: bool) -> Screen {
        let cleared = Screen { input: Seq::empty(), ..self };
        match command_of(self.input, self.nick, self.channel) {
            None => cleared,
            Some(command) => Screen {
                lines: (if accepted {
                    self.lines
                } else {
                    self.lines.push("-- send queue full, dropped --"@)
                }).push(command.echo),
                ..cleared
            },
        }
    }
}

impl State {
    /// An empty input line under a greeting.
    pub fn new(nick: String, channel: String) -> (r: State)
        ensures
            r@ == (Screen {
                lines: seq!["rustssi — type to chat, /cmd for raw IRC, Esc or Ctrl-C to quit"@],
                input: Seq::empty(),
                nick: nick@,
                channel: channel@,
            }),
    {
        let mut lines: Vec<String> = Vec::new();
        lines.push(
            String::from_str("rustssi — type to chat, /cmd for raw IRC, Esc or Ctrl-C to quit"),
        );
        assert(lines.deep_view()
            =~= seq!["rustssi — type to chat, /cmd for raw IRC, Esc or Ctrl-C to quit"@]);
        State { lines, input: String::new(), nick, channel }
    }

    fn push_line(&mut self, line: String)
        ensures
            final(self)@ == (Screen { lines: old(self)@.lines.push(line@), ..old(self)@ }),
    {
        self.lines.push(line);
        assert(self.lines.deep_view() =~= old(self).lines.deep_view().push(line@));
    }

    /// Adds a line that the data plane has decoded.
    pub fn receive_line(&mut self, line: String)
        ensures
            final(self)@ == old(self)@.received(line@),
    {
        self.push_line(line);
        let ghost all = self@.lines;
        if self.lines.len() > SCROLLBACK_MAX {
            let excess: usize = self.lines.len() - SCROLLBACK_MAX;
            let kept = self.lines.split_off(excess);
            self.lines = kept;
            assert(self.lines.deep_view() =~= all.skip(excess as int));
        }
    }

    /// Takes one decoded line out of its queue, if there is one, and shows it.
    /// Lines that were seen to arrive are shown, in order, before any other.
    /// The caller repeats this until there is none.
    pub fn receive(&mut self, from_net: &mut Consumer<String>) -> (r: bool)
        ensures
            ({
                let before = crate::queue::popped(*old(from_net));
                let after = crate::queue::popped(*final(from_net));
                let waiting = crate::queue::arrived(*old(from_net));
                let left = crate::queue::arrived(*final(from_net));
                &&& crate::queue::asked(*final(from_net)) == crate::queue::asked(*old(from_net)) + 1
                &&& waiting.len() > 0 ==> {
                    &&& r
                    &&& after.last() == waiting.first()
                    &&& left == waiting.drop_first()
                }
                &&& !r ==> left.len() == 0
                &&& r ==> {
                    &&& after.len() == before.len() + 1
                    &&& after == before.push(after.last())
                    &&& final(self)@ == old(self)@.received(after.last())
                }
                &&& !r ==> after == before && final(self)@ == old(self)@
            }),
    {
        match take_next(from_net) {
            Some(line) => {
                self.receive_line(line);
                true
            },
            None => false,
        }
    }

    /// Shows what became of a submitted command: its echo, under a warning
    /// where it was not accepted for sending.
    pub fn echo(&mut self, echo: String, accepted: bool)
        ensures
            final(self)@ == (Screen {
                lines: (if accepted {
                    old(self)@.lines
                } else {
                    old(self)@.lines.push("-- send queue full, dropped --"@)
                }).push(echo@),
                ..old(self)@
            }),
    {
        if !accepted {
            self.push_line(String::from_str("-- send queue full, dropped --"));
        }
        self.push_line(echo);
    }

    /// Turn the current input into an IRC command + a local echo line. The
    /// command is accepted for sending wherever its queue was seen to have room.
    pub fn submit(&mut self, to_net: &mut Producer<String>)
        ensures
            exists|accepted: bool|
                {
                    let command = command_of(old(self)@.input, old(self)@.nick, old(self)@.channel);
                    &&& final(self)@ == #[trigger] old(self)@.submitted(accepted)
                    &&& crate::queue::room(*old(to_net)) > 0 ==> accepted
                    &&& crate::queue::offers(*final(to_net)) == if command is Some {
                        crate::queue::offers(*old(to_net)).push(command->Some_0.wire)
                    } else {
                        crate::queue::offers(*old(to_net))
                    }
                    &&& crate::queue::pushed(*final(to_net)) == if command is Some && accepted {
                        crate::queue::pushed(*old(to_net)).push(command->Some_0.wire)
                    } else {
                        crate::queue::pushed(*old(to_net))
                    }
                },
    {
        let cmd = build_command(self.input.as_str(), self.nick.as_str(), self.channel.as_str());
        self.input.clear();
        assert(self.input@ =~= Seq::<char>::empty());
        let (wire, echo) = match cmd {
            Some(pair) => pair,
            None => {
                assert(self@ == old(self)@.submitted(true));
                return;
            },
        };
        let accepted = offer(to_net, wire).is_ok();
        self.echo(echo, accepted);
        assert(self@ == old(self)@.submitted(accepted));
    }

    /// What a key event does; `true` means to quit. Only presses count, not
    /// releases or repeats.
    pub fn key(&mut self, pressed: bool, key: Key, to_net: &mut Producer<String>) -> (quit: bool)
        ensures
            quit == (pressed && (key is Esc || key == Key::Char('c', true))),
            !(pressed && key is Enter) ==> crate::queue::pushed(*final(to_net))
                == crate::queue::pushed(*old(to_net)) && crate::queue::offers(*final(to_net))
                == crate::queue::offers(*old(to_net)),
            !pressed || quit || key is Other ==> final(self)@ == old(self)@,
            pressed && !quit && key is Char ==> final(self)@ == (Screen {
                input: old(self)@.input.push(key->Char_0),
                ..old(self)@
            }),
            pressed && key is Backspace ==> final(self)@ == (Screen {
                input: if old(self)@.input.len() > 0 {
                    old(self)@.input.drop_last()
                } else {
                    old(self)@.input
                },
                ..old(self)@
            }),
            pressed && key is Enter ==> exists|accepted: bool|
                {
                    let command = command_of(old(self)@.input, old(self)@.nick, old(self)@.channel);
                    &&& final(self)@ == #[trigger] old(self)@.submitted(accepted)
                    &&& crate::queue::room(*old(to_net)) > 0 ==> accepted
                    &&& crate::queue::offers(*final(to_net)) == if command is Some {
                        crate::queue::offers(*old(to_net)).push(command->Some_0.wire)
                    } else {
                        crate::queue::offers(*old(to_net))
                    }
                    &&& crate::queue::pushed(*final(to_net)) == if command is Some && accepted {
                        crate::queue::pushed(*old(to_net)).push(command->Some_0.wire)
                    } else {
                        crate::queue::pushed(*old(to_net))
                    }
                },
    {
        if !pressed {
            return false;
        }
        match key {
            Key::Esc => true,
            Key::Char(c, ctrl) => {
                if c == 'c' && ctrl {
                    return true;
                }
                self.input.push(c);
                false
            },
            Key::Backspace => {
                let _ = self.input.pop();
                false
            },
            Key::Enter => {
                self.submit(to_net);
                false
            },
            Key::Other => false,
        }
    }

    /// How many lines a pane of the given height shows, inside its border: at
    /// least one.
    pub open spec fn rows(height: u16) -> nat {
        if height <= 3 {
            1
        } else {
            (height - 2) as nat
        }
    }

    /// The text of a messages pane of the given height: the tail that fits.
    pub fn body(&self, height: u16) -> (r: String)
        ensures
            r@ == crate::text::joined(last_lines(self@.lines, State::rows(height)), "\n"@),
    {
        let rows: usize = if height <= 3 {
            1
        } else {
            (height - 2) as usize
        };
        let start: usize = self.lines.len().saturating_sub(rows);
        assert(self@.lines.skip(0) =~= self@.lines);
        join_from(&self.lines, start, "\n")
    }

    /// The title of the input pane.
    pub fn title(&self) -> (r: String)
        ensures
            r@ == self@.nick + " @ "@ + self@.channel,
    {
        let mut r = String::new();
        r.append(self.nick.as_str());
        r.append(" @ ");
        r.append(self.channel.as_str());
        assert(r@ =~= self@.nick + " @ "@ + self@.channel);
        r
    }
}

// ---------------------------------------------------------------------------
// Laws
// ---------------------------------------------------------------------------

/// A received line is always the last one shown, and scrollback stays within
/// its limit.
pub proof fn received_line_is_shown_last(s: Screen, line: Seq<char>)
    ensures
        s.received(line).lines.len() <= SCROLLBACK_MAX,
        s.received(line).lines.last() == line,
        s.received(line).input == s.input,
{
}

/// Submitting always clears the input, blank or not, and never loses a line
/// of scrollback.
pub proof fn submitting_clears_the_input(s: Screen, accepted: bool)
    ensures
        s.submitted(accepted).input.len() == 0,
        s.lines.len() <= s.submitted(accepted).lines.len() <= s.lines.len() + 2,
        s.submitted(accepted).lines.take(s.lines.len() as int) == s.lines,
{
    assert(s.submitted(accepted).lines.take(s.lines.len() as int) =~= s.lines);
}

/// Input of blanks alone, or none, is no command; all other input is one.
pub proof fn blank_input_is_no_command(input: Seq<char>, nick: Seq<char>, channel: Seq<char>)
    ensures
        command_of(input, nick, channel) is None <==> forall|i: int|
            0 <= i < input.len() ==> crate::text::is_white_space(#[trigger] input[i]),
{
    crate::text::lemma_trimmed_empty(input);
}

} // verus!
