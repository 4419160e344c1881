//! The prompt's editing state machine: key inputs turn into edits of a
//! one-line buffer, a history completion, or the end of the prompt.
use vstd::prelude::*;

use crate::history::{get_history_candidate, history_suggestion, HistoryStore};

verus! {

/// One recognised input of the prompt.
pub enum KeyInput {
    /// Decoded text of a key press, appended to the buffer.
    Text(String),
    /// Remove the last character.
    Erase,
    /// Leave the prompt without running anything.
    Cancel,
    /// Replace the buffer with the history suggestion for it.
    AcceptSuggestion,
    /// Run the buffer as a shell command.
    Confirm,
    /// Any other key: ignored.
    Other,
}

/// What the caller must do after an input.
pub enum Outcome {
    /// Keep reading inputs.
    Continue,
    /// Close the prompt.
    Exit,
    /// Record the command in the history, then run it.
    Run(String),
}

/// The inputs that end the prompt.
pub open spec fn is_terminal(k: KeyInput) -> bool {
    k is Cancel || k is Confirm
}

/// The buffer after one input.
pub open spec fn edit(buf: Seq<char>, k: KeyInput, h: Seq<Seq<char>>) -> Seq<char> {
    match k {
        KeyInput::Text(t) => buf + t@,
        KeyInput::Erase => if buf.len() > 0 {
            buf.drop_last()
        } else {
            buf
        },
        KeyInput::AcceptSuggestion => history_suggestion(h, buf),
        _ => buf,
    }
}

/// The buffer after a sequence of inputs, applied in order.
pub open spec fn edits(buf: Seq<char>, ks: Seq<KeyInput>, h: Seq<Seq<char>>) -> Seq<char>
    decreases ks.len(),
{
    if ks.len() == 0 {
        buf
    } else {
        edit(edits(buf, ks.drop_last(), h), ks.last(), h)
    }
}

/// The position of the first input that ends the prompt, or the length of
/// `ks` when none does.
pub open spec fn stop_index(ks: Seq<KeyInput>) -> int
    decreases ks.len(),
{
    if ks.len() == 0 {
        0
    } else if is_terminal(ks[0]) {
        0
    } else {
        1 + stop_index(ks.drop_first())
    }
}

proof fn lemma_stop_index_bounds(ks: Seq<KeyInput>)
    ensures
        0 <= stop_index(ks) <= ks.len(),
    decreases ks.len(),
{
    if ks.len() > 0 {
        lemma_stop_index_bounds(ks.drop_first());
    }
}

/// The text being composed.
pub struct Prompt {
    buffer: String,
}

impl View for Prompt {
    type V = Seq<char>;

    closed spec fn view(&self) -> Seq<char> {
        self.buffer@
    }
}

impl Prompt {
    /// A prompt with an empty buffer.
    pub fn new() -> (r: Prompt)
        ensures
            r@ == Seq::<char>::empty(),
    {
        Prompt { buffer: String::new() }
    }

    /// The current buffer.
    pub fn buffer(&self) -> (r: &str)
        ensures
            r@ == self@,
    {
        self.buffer.as_str()
    }

    /// The history suggestion for the current buffer.
    pub fn suggestion(&self, history: &HistoryStore) -> (r: String)
        ensures
            r@ == history_suggestion(history@, self@),
    {
        get_history_candidate(history, self.buffer.as_str())
    }

    /// Applies one input: edits the buffer, and says whether the prompt goes
    /// on, closes, or runs the buffer.
    pub fn handle(&mut self, input: &KeyInput, history: &HistoryStore) -> (r: Outcome)
        ensures
            final(self)@ == edit(old(self)@, *input, history@),
            *input is Cancel ==> r is Exit,
            *input is Confirm ==> r is Run && r->Run_0@ == old(self)@,
            !is_terminal(*input) ==> r is Continue,
    {
        match input {
            KeyInput::Text(t) => {
                self.buffer.append(t.as_str());
                Outcome::Continue
            },
            KeyInput::Erase => {
                let n = self.buffer.as_str().unicode_len();
                if n > 0 {
                    let shorter = String::from_str(self.buffer.as_str().substring_char(0, n - 1));
                    self.buffer = shorter;
                    assert(self.buffer@ =~= old(self)@.drop_last());
                }
                Outcome::Continue
            },
            KeyInput::Cancel => Outcome::Exit,
            KeyInput::AcceptSuggestion => {
                let s = get_history_candidate(history, self.buffer.as_str());
                self.buffer = s;
                Outcome::Continue
            },
            KeyInput::Confirm => Outcome::Run(self.buffer.clone()),
            KeyInput::Other => Outcome::Continue,
        }
    }

    /// Applies inputs in order up to the first that ends the prompt, and
    /// returns the outcome of that one (`Continue` when none ends it).
    pub fn feed(&mut self, inputs: &Vec<KeyInput>, history: &HistoryStore) -> (r: Outcome)
        ensures
            0 <= stop_index(inputs@) <= inputs@.len(),
            final(self)@ == edits(old(self)@, inputs@.take(stop_index(inputs@)), history@),
            stop_index(inputs@) == inputs@.len() ==> r is Continue,
            stop_index(inputs@) < inputs@.len() ==> is_terminal(inputs@[stop_index(inputs@)]),
            stop_index(inputs@) < inputs@.len() && inputs@[stop_index(inputs@)] is Cancel
                ==> r is Exit,
            stop_index(inputs@) < inputs@.len() && inputs@[stop_index(inputs@)] is Confirm
                ==> r is Run && r->Run_0@ == final(self)@,
    {
        let ghost start = self@;
        let ghost ks = inputs@;
        let mut i: usize = 0;
        assert(ks.take(0) =~= Seq::<KeyInput>::empty());
        assert(ks.skip(0) =~= ks);
        proof {
            lemma_stop_index_bounds(ks);
        }
        while i < inputs.len()
            invariant
                i <= ks.len(),
                ks == inputs@,
                start == old(self)@,
                self@ == edits(start, ks.take(i as int), history@),
                stop_index(ks) == i + stop_index(ks.skip(i as int)),
                0 <= stop_index(ks.skip(i as int)) <= ks.len() - i,
            decreases ks.len() - i,
        {
            let ghost rest = ks.skip(i as int);
            assert(rest[0] == ks[i as int]);
            assert(rest.drop_first() =~= ks.skip(i + 1));
            proof {
                lemma_stop_index_bounds(ks.skip(i + 1));
            }
            let ghost prev = self@;
            let r = self.handle(&inputs[i], history);
            match r {
                Outcome::Continue => {},
                _ => {
                    assert(is_terminal(rest[0]));
                    assert(stop_index(rest) == 0);
                    assert(edit(prev, ks[i as int], history@) == prev);
                    return r;
                },
            }
            assert(ks.take(i + 1).drop_last() =~= ks.take(i as int));
            i += 1;
        }
        assert(ks.take(ks.len() as int) =~= ks);
        Outcome::Continue
    }
}

} // verus!
