//! The pure parts of shell-driven completion: the line written to an
//! interactive shell, and the reading of its diagnostic output.
use vstd::prelude::*;

use crate::text::{push_char, to_chars};

verus! {

/// The guard that opens every request line; nothing after it ever runs.
pub open spec fn guard_marker() -> Seq<char> {
    seq!['f', 'a', 'l', 's', 'e', ' ', '&', '&']
}

/// The line that asks the shell to list completions of `p`: the guard, the
/// partial command, two tabs and a newline.
pub open spec fn request_line(p: Seq<char>) -> Seq<char> {
    guard_marker() + seq![' '] + p + seq!['\t', '\t', '\n']
}

/// `pat` occurs in `s` starting at `i`.
pub open spec fn occurs_at(s: Seq<char>, pat: Seq<char>, i: int) -> bool {
    0 <= i && i + pat.len() <= s.len() && s.subrange(i, i + pat.len()) == pat
}

/// `i` is where `pat` first occurs in `s`.
pub open spec fn is_first_occurrence(s: Seq<char>, pat: Seq<char>, i: int) -> bool {
    occurs_at(s, pat, i) && forall|j: int| 0 <= j < i ==> !occurs_at(s, pat, j)
}

/// Where `pat` first occurs in `s`, if anywhere.
pub open spec fn first_occurrence(s: Seq<char>, pat: Seq<char>) -> Option<int> {
    if exists|i: int| is_first_occurrence(s, pat, i) {
        Some(choose|i: int| is_first_occurrence(s, pat, i))
    } else {
        None
    }
}

/// The untrimmed completion in the shell's output: what follows the first
/// guard marker, up to the first newline after it.
pub open spec fn completion_field(out: Seq<char>) -> Option<Seq<char>> {
    match first_occurrence(out, guard_marker()) {
        None => None,
        Some(i) => {
            let rest = out.skip(i + guard_marker().len());
            match first_occurrence(rest, seq!['\n']) {
                None => None,
                Some(j) => Some(rest.take(j)),
            }
        },
    }
}

/// What `str::trim` leaves of `s`.
pub uninterp spec fn trimmed(s: Seq<char>) -> Seq<char>;

/// Relies on `str::trim`: the string without its leading and trailing
/// whitespace; the result depends on the characters of `s` alone.
#[verifier::external_body]
fn trim_text(s: &str) -> (r: String)
    ensures
        r@ == trimmed(s@),
{
    s.trim().to_string()
}

proof fn lemma_first_occurrence_unique(s: Seq<char>, pat: Seq<char>, i: int)
    requires
        is_first_occurrence(s, pat, i),
    ensures
        first_occurrence(s, pat) == Some(i),
{
    let k = choose|k: int| is_first_occurrence(s, pat, k);
    assert(is_first_occurrence(s, pat, k));
    if k < i {
        assert(!occurs_at(s, pat, k));
    } else if i < k {
        assert(!occurs_at(s, pat, i));
    }
}

/// Whether `pat` occurs in `s` at `i`.
fn occurs(s: &Vec<char>, pat: &Vec<char>, i: usize) -> (r: bool)
    ensures
        r == occurs_at(s@, pat@, i as int),
{
    if pat.len() > s.len() || i > s.len() - pat.len() {
        return false;
    }
    let mut k: usize = 0;
    while k < pat.len()
        invariant
            k <= pat@.len(),
            i + pat@.len() <= s@.len(),
            s@.len() == s.len(),
            forall|j: int| 0 <= j < k ==> pat@[j] == s@[i + j],
        decreases pat@.len() - k,
    {
        if pat[k] != s[i + k] {
            assert(s@.subrange(i as int, i + pat@.len())[k as int] != pat@[k as int]);
            return false;
        }
        k += 1;
    }
    assert(s@.subrange(i as int, i + pat@.len()) =~= pat@);
    true
}

/// Where `pat` first occurs in `s`, if anywhere.
fn find(s: &Vec<char>, pat: &Vec<char>) -> (r: Option<usize>)
    ensures
        match r {
            Some(i) => first_occurrence(s@, pat@) == Some(i as int),
            None => first_occurrence(s@, pat@) is None,
        },
{
    let mut i: usize = 0;
    while i < s.len()
        invariant
            i <= s@.len(),
            forall|j: int| 0 <= j < i ==> !occurs_at(s@, pat@, j),
        decreases s@.len() - i,
    {
        if occurs(s, pat, i) {
            proof {
                lemma_first_occurrence_unique(s@, pat@, i as int);
            }
            return Some(i);
        }
        i += 1;
    }
    if occurs(s, pat, i) {
        proof {
            lemma_first_occurrence_unique(s@, pat@, i as int);
        }
        return Some(i);
    }
    assert forall|k: int| !is_first_occurrence(s@, pat@, k) by {
        if k > i {
            assert(!occurs_at(s@, pat@, k));
        }
    }
    None
}

/// The line to write to the shell for a completion of `prompt`; none for an
/// empty prompt, which needs no shell at all.
pub fn completion_request(prompt: &str) -> (r: Option<String>)
    ensures
        prompt@.len() == 0 ==> r is None,
        prompt@.len() > 0 ==> r is Some && r->0@ == request_line(prompt@),
{
    if prompt.is_empty() {
        return None;
    }
    proof {
        reveal_strlit("false && ");
        reveal_strlit("\t\t\n");
    }
    let line = String::from_str("false && ").concat(prompt).concat("\t\t\n");
    assert(line@ =~= request_line(prompt@));
    Some(line)
}

/// The completion that the shell's diagnostic output offers: the text after
/// the first guard marker up to the next newline, trimmed; none when the
/// marker or that newline is missing.
pub fn parse_completion(output: &str) -> (r: Option<String>)
    ensures
        r is None <==> completion_field(output@) is None,
        r is Some ==> r->0@ == trimmed(completion_field(output@)->0),
{
    let out = to_chars(output);
    let marker = vec!['f', 'a', 'l', 's', 'e', ' ', '&', '&'];
    assert(marker@ =~= guard_marker());
    let i = match find(&out, &marker) {
        None => return None,
        Some(i) => i,
    };
    let n = out.len();
    assert(is_first_occurrence(out@, marker@, i as int));
    assert(i + marker@.len() <= n);
    let start = i + marker.len();
    let mut rest: Vec<char> = Vec::new();
    let mut k: usize = start;
    while k < out.len()
        invariant
            start <= k <= out@.len(),
            rest@ == out@.subrange(start as int, k as int),
        decreases out@.len() - k,
    {
        rest.push(out[k]);
        k += 1;
        assert(rest@ =~= out@.subrange(start as int, k as int));
    }
    assert(rest@ =~= out@.skip(start as int));
    let newline = vec!['\n'];
    assert(newline@ =~= seq!['\n']);
    let j = match find(&rest, &newline) {
        None => return None,
        Some(j) => j,
    };
    let mut field = String::new();
    let mut m: usize = 0;
    while m < j
        invariant
            j <= rest@.len(),
            m <= j,
            field@ == rest@.take(m as int),
        decreases j - m,
    {
        push_char(&mut field, rest[m]);
        m += 1;
        assert(field@ =~= rest@.take(m as int));
    }
    Some(trim_text(field.as_str()))
}

} // verus!
