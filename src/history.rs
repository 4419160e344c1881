//! The command history: a newline-delimited log of confirmed commands,
//! oldest first, with prefix lookup and lookup by distance from the newest.
use vstd::prelude::*;

use crate::text::{push_char, to_chars};

verus! {

/// A line without the carriage return that ends it, if any.
pub open spec fn strip_cr(line: Seq<char>) -> Seq<char> {
    if line.len() > 0 && line.last() == '\r' {
        line.drop_last()
    } else {
        line
    }
}

/// The lines of `rest`, the first of them starting with `cur`. A line ends at
/// `\n` (or `\r\n`); the last line needs no terminator, and an empty piece
/// after the last terminator is no line.
pub open spec fn lines_from(rest: Seq<char>, cur: Seq<char>) -> Seq<Seq<char>>
    decreases rest.len(),
{
    if rest.len() == 0 {
        if cur.len() == 0 {
            seq![]
        } else {
            seq![cur]
        }
    } else if rest[0] == '\n' {
        seq![strip_cr(cur)] + lines_from(rest.drop_first(), seq![])
    } else {
        lines_from(rest.drop_first(), cur.push(rest[0]))
    }
}

/// The entries of a history log held as text.
pub open spec fn log_lines(text: Seq<char>) -> Seq<Seq<char>> {
    lines_from(text, seq![])
}

/// The character sequences of a list of strings.
pub open spec fn lines_view(v: Seq<String>) -> Seq<Seq<char>> {
    v.map_values(|l: String| l@)
}

/// The index of the newest entry of `h` that starts with `p`.
pub open spec fn newest_match(h: Seq<Seq<char>>, p: Seq<char>) -> Option<int>
    decreases h.len(),
{
    if h.len() == 0 {
        None
    } else if p.is_prefix_of(h.last()) {
        Some(h.len() - 1)
    } else {
        newest_match(h.drop_last(), p)
    }
}

/// The history suggestion for `p`: nothing for an empty prefix, else the
/// newest entry that starts with `p`, else `p` itself.
pub open spec fn history_suggestion(h: Seq<Seq<char>>, p: Seq<char>) -> Seq<char> {
    if p.len() == 0 {
        seq![]
    } else {
        match newest_match(h, p) {
            Some(i) => h[i],
            None => p,
        }
    }
}

/// The entry `i` places back from the newest, or nothing when there is none.
pub open spec fn history_entry(h: Seq<Seq<char>>, i: int) -> Seq<char> {
    if 0 <= i < h.len() {
        h[h.len() - 1 - i]
    } else {
        seq![]
    }
}

/// Previously confirmed commands, oldest first, as loaded from the log.
/// Commands confirmed later are appended to the log (see `record_line`), not
/// to a store already loaded: they are seen from the next load on.
pub struct HistoryStore {
    entries: Vec<String>,
}

impl View for HistoryStore {
    type V = Seq<Seq<char>>;

    closed spec fn view(&self) -> Seq<Seq<char>> {
        lines_view(self.entries@)
    }
}

impl HistoryStore {
    /// An empty history, as when no log can be read.
    pub fn new() -> (r: HistoryStore)
        ensures
            r@ == Seq::<Seq<char>>::empty(),
    {
        let r = HistoryStore { entries: Vec::new() };
        assert(r@ =~= Seq::<Seq<char>>::empty());
        r
    }

    /// The history held in the text of a log, one entry per line.
    pub fn from_text(text: &str) -> (r: HistoryStore)
        ensures
            r@ == log_lines(text@),
    {
        let cs = to_chars(text);
        let mut done: Vec<String> = Vec::new();
        let mut cur = String::new();
        // a carriage return read but not yet placed in `cur`
        let mut pending_cr = false;
        let mut i: usize = 0;
        assert(lines_view(done@) =~= Seq::<Seq<char>>::empty());
        assert(cs@.skip(0) =~= cs@);
        while i < cs.len()
            invariant
                i <= cs@.len(),
                cs@ == text@,
                lines_view(done@) + lines_from(
                    cs@.skip(i as int),
                    if pending_cr { cur@.push('\r') } else { cur@ },
                ) == log_lines(text@),
                !pending_cr ==> (cur@.len() == 0 || cur@.last() != '\r'),
            decreases cs@.len() - i,
        {
            let c = cs[i];
            let ghost x = if pending_cr { cur@.push('\r') } else { cur@ };
            let ghost rest = cs@.skip(i as int);
            assert(rest.drop_first() =~= cs@.skip(i + 1));
            if c == '\n' {
                assert(strip_cr(x) =~= cur@);
                let ghost before = done@;
                let ghost line = cur@;
                done.push(cur);
                assert(lines_view(done@) =~= lines_view(before).push(line));
                cur = String::new();
                pending_cr = false;
                assert(lines_view(done@) + lines_from(cs@.skip(i + 1), cur@) =~= lines_view(before) + lines_from(rest, x));
            } else if c == '\r' {
                if pending_cr {
                    push_char(&mut cur, '\r');
                }
                pending_cr = true;
            } else {
                if pending_cr {
                    push_char(&mut cur, '\r');
                }
                push_char(&mut cur, c);
                pending_cr = false;
            }
            i += 1;
        }
        assert(cs@.skip(i as int) =~= Seq::<char>::empty());
        if pending_cr {
            push_char(&mut cur, '\r');
            done.push(cur);
        } else if !cur.as_str().is_empty() {
            done.push(cur);
        }
        assert(lines_view(done@) =~= log_lines(text@));
        HistoryStore { entries: done }
    }

    /// The number of entries.
    pub fn len(&self) -> (r: usize)
        ensures
            r == self@.len(),
    {
        self.entries.len()
    }
}

/// Whether the string `e` starts with the characters `p`.
fn has_prefix(e: &String, p: &Vec<char>) -> (r: bool)
    ensures
        r == p@.is_prefix_of(e@),
{
    let cs = to_chars(e.as_str());
    if p.len() > cs.len() {
        return false;
    }
    let mut k: usize = 0;
    while k < p.len()
        invariant
            k <= p@.len() <= cs@.len(),
            cs@ == e@,
            forall|j: int| 0 <= j < k ==> p@[j] == cs@[j],
        decreases p@.len() - k,
    {
        if p[k] != cs[k] {
            return false;
        }
        k += 1;
    }
    assert(p@ =~= e@.subrange(0, p@.len() as int));
    true
}

/// The suggestion from the history for a typed prefix: the newest entry that
/// starts with `prompt`; `prompt` itself when none does; nothing when
/// `prompt` is empty.
pub fn get_history_candidate(history: &HistoryStore, prompt: &str) -> (r: String)
    ensures
        r@ == history_suggestion(history@, prompt@),
{
    if prompt.is_empty() {
        return String::new();
    }
    let p = to_chars(prompt);
    let ghost h = history@;
    let mut i: usize = history.entries.len();
    assert(h.take(i as int) =~= h);
    while i > 0
        invariant
            i <= h.len(),
            h == history@,
            p@ == prompt@,
            p@.len() > 0,
            newest_match(h, p@) == newest_match(h.take(i as int), p@),
        decreases i,
    {
        i -= 1;
        assert(h.take(i + 1).drop_last() =~= h.take(i as int));
        assert(h.take(i + 1).last() == h[i as int]);
        if has_prefix(&history.entries[i], &p) {
            return history.entries[i].clone();
        }
    }
    String::from_str(prompt)
}

/// The entry `index` places back from the newest (0 is the newest), or an
/// empty string when there is no such entry.
pub fn get_history_item(history: &HistoryStore, index: i32) -> (r: String)
    ensures
        r@ == history_entry(history@, index as int),
{
    if index < 0 || index as usize >= history.entries.len() {
        return String::new();
    }
    let n = history.entries.len();
    history.entries[n - 1 - index as usize].clone()
}

/// The line appended to the history log for a confirmed command.
pub fn record_line(command: &str) -> (r: String)
    ensures
        r@ == command@.push('\n'),
{
    let r = String::from_str(command);
    proof {
        reveal_strlit("\n");
    }
    r.concat("\n")
}

/// What `newest_match` finds: an entry that starts with `p` and after which
/// no entry does, or, when it finds nothing, that no entry starts with `p`.
pub proof fn lemma_newest_match(h: Seq<Seq<char>>, p: Seq<char>)
    ensures
        match newest_match(h, p) {
            Some(i) => 0 <= i < h.len() && p.is_prefix_of(h[i]) && forall|j: int|
                i < j < h.len() ==> !p.is_prefix_of(#[trigger] h[j]),
            None => forall|j: int| 0 <= j < h.len() ==> !p.is_prefix_of(#[trigger] h[j]),
        },
    decreases h.len(),
{
    if h.len() > 0 && !p.is_prefix_of(h.last()) {
        lemma_newest_match(h.drop_last(), p);
        let t = h.drop_last();
        assert forall|j: int| 0 <= j < h.len() - 1 implies h[j] == #[trigger] t[j] by {}
        assert(h[h.len() - 1] == h.last());
        match newest_match(t, p) {
            Some(i) => {
                assert forall|j: int| i < j < h.len() implies !p.is_prefix_of(#[trigger] h[j]) by {
                    if j < h.len() - 1 {
                        assert(h[j] == t[j]);
                    }
                }
            },
            None => {
                assert forall|j: int| 0 <= j < h.len() implies !p.is_prefix_of(#[trigger] h[j]) by {
                    if j < h.len() - 1 {
                        assert(h[j] == t[j]);
                    }
                }
            },
        }
    }
}

/// The history suggestion for `p` is either `p` itself, or an entry of the
/// history that starts with `p` and is the most recently appended such entry.
pub proof fn lemma_suggestion_is_newest_match(h: Seq<Seq<char>>, p: Seq<char>)
    ensures
        history_suggestion(h, p) == p || exists|i: int|
            0 <= i < h.len() && p.is_prefix_of(h[i]) && history_suggestion(h, p) == h[i]
                && forall|j: int| i < j < h.len() ==> !p.is_prefix_of(#[trigger] h[j]),
{
    lemma_newest_match(h, p);
    if p.len() > 0 {
        if let Some(i) = newest_match(h, p) {
            assert(p.is_prefix_of(h[i]) && history_suggestion(h, p) == h[i]);
        }
    }
}

/// An empty prefix gets no suggestion, whatever the history holds.
pub proof fn lemma_empty_prefix_no_suggestion(h: Seq<Seq<char>>)
    ensures
        history_suggestion(h, Seq::<char>::empty()) == Seq::<char>::empty(),
{
}

/// Looking up by distance from the newest gives an empty string out of range,
/// and otherwise the entry that many places back from the newest.
pub proof fn lemma_entry_lookup(h: Seq<Seq<char>>, i: int)
    ensures
        (i < 0 || i >= h.len()) ==> history_entry(h, i) == Seq::<char>::empty(),
        0 <= i < h.len() ==> history_entry(h, i) == h[h.len() - 1 - i],
{
}

} // verus!
