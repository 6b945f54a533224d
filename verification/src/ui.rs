//! Line-oriented terminal state for the chat variant: the message
//! transcript and the input line being typed.
//!
//! The state is plain data; `redraw_text` produces everything the screen
//! should show, and the surrounding process writes it out.

use vstd::prelude::*;
use vstd::string::StringExecFns;

verus! {

/// Mathematical form of the chat screen.
pub struct UiView {
    pub messages: Seq<Seq<char>>,
    pub current_input: Seq<char>,
}

/// The chat screen: every message shown so far, and the line being
/// typed.
pub struct TerminalUI {
    messages: Vec<String>,
    current_input: String,
}

impl View for TerminalUI {
    type V = UiView;

    closed spec fn view(&self) -> UiView {
        UiView {
            messages: self.messages@.map_values(|s: String| s@),
            current_input: self.current_input@,
        }
    }
}

/// The clear-screen-and-home escape that starts every redraw.
pub open spec fn clear_screen_seq() -> Seq<char> {
    seq!['\x1b', '[', '2', 'J', '\x1b', '[', '1', ';', '1', 'H']
}

/// The transcript: each message followed by a line break.
pub open spec fn messages_text(m: Seq<Seq<char>>) -> Seq<char>
    decreases m.len(),
{
    if m.len() == 0 {
        Seq::empty()
    } else {
        m[0] + seq!['\n'] + messages_text(m.drop_first())
    }
}

/// Everything one redraw paints: a cleared screen, the transcript, and
/// the prompt with the input line.
pub open spec fn redraw_spec(u: UiView) -> Seq<char> {
    clear_screen_seq() + messages_text(u.messages) + seq!['>', ' '] + u.current_input
}

impl TerminalUI {
    /// A fresh screen: no messages, empty input line.
    pub fn new() -> (u: TerminalUI)
        ensures
            u@.messages == Seq::<Seq<char>>::empty(),
            u@.current_input == Seq::<char>::empty(),
    {
        let u = TerminalUI { messages: Vec::new(), current_input: String::new() };
        proof {
            assert(u@.messages =~= Seq::<Seq<char>>::empty());
        }
        u
    }

    /// Appends one message to the transcript.
    pub fn add_message(&mut self, msg: String)
        ensures
            final(self)@.messages == old(self)@.messages.push(msg@),
            final(self)@.current_input == old(self)@.current_input,
    {
        self.messages.push(msg);
        proof {
            assert(self@.messages =~= old(self)@.messages.push(self.messages@.last()@));
        }
    }

    /// Replaces the input line.
    pub fn update_input(&mut self, input: String)
        ensures
            final(self)@.messages == old(self)@.messages,
            final(self)@.current_input == input@,
    {
        self.current_input = input;
    }

    /// Everything the screen should show right now.
    pub fn redraw_text(&self) -> (r: String)
        ensures
            r@ == redraw_spec(self@),
    {
        let mut out = String::from_str("\x1b[2J\x1b[1;1H");
        proof {
            reveal_strlit("\x1b[2J\x1b[1;1H");
            assert(out@ =~= clear_screen_seq());
            assert(self@.messages.skip(0) =~= self@.messages);
        }
        let ghost base = out@;
        let mut i: usize = 0;
        while i < self.messages.len()
            invariant
                i <= self.messages@.len(),
                self@.messages.len() == self.messages@.len(),
                out@ + messages_text(self@.messages.skip(i as int)) == base + messages_text(
                    self@.messages,
                ),
            decreases self.messages@.len() - i,
        {
            let ghost pre = out@;
            let ghost tail = self@.messages.skip(i as int);
            proof {
                assert(tail[0] == self@.messages[i as int]);
                assert(self@.messages[i as int] == self.messages@[i as int]@);
            }
            out.append(self.messages[i].as_str());
            out.append("\n");
            proof {
                reveal_strlit("\n");
                assert(tail.drop_first() =~= self@.messages.skip(i as int + 1));
                assert(messages_text(tail) == tail[0] + seq!['\n'] + messages_text(
                    tail.drop_first(),
                ));
                assert(out@ + messages_text(self@.messages.skip(i as int + 1)) =~= pre
                    + messages_text(tail));
            }
            i = i + 1;
        }
        proof {
            assert(self@.messages.skip(self.messages@.len() as int) =~= Seq::<Seq<char>>::empty());
        }
        out.append("> ");
        out.append(self.current_input.as_str());
        proof {
            reveal_strlit("> ");
            assert(out@ =~= redraw_spec(self@));
        }
        out
    }
}

} // verus!
