//! Literal text substitution over strings, seen as sequences of characters.

use vstd::prelude::*;
use vstd::std_specs::iter::IteratorSpec;

verus! {

/// `pattern` stands in `text` at position `at`.
pub open spec fn occurs_at(text: Seq<char>, pattern: Seq<char>, at: int) -> bool {
    &&& 0 <= at
    &&& at + pattern.len() <= text.len()
    &&& text.subrange(at, at + pattern.len()) == pattern
}

/// `pattern` stands somewhere in `text`.
pub open spec fn occurs(text: Seq<char>, pattern: Seq<char>) -> bool {
    exists|at: int| occurs_at(text, pattern, at)
}

/// `text` with every occurrence of `pattern` replaced by `with`, scanning from
/// the left and never looking again at what a replacement covered. An empty
/// pattern matches nowhere.
pub open spec fn replaced(text: Seq<char>, pattern: Seq<char>, with: Seq<char>) -> Seq<char>
    decreases text.len(),
{
    if pattern.len() == 0 || text.len() < pattern.len() {
        text
    } else if text.subrange(0, pattern.len() as int) == pattern {
        with + replaced(text.subrange(pattern.len() as int, text.len() as int), pattern, with)
    } else {
        text.subrange(0, 1) + replaced(text.subrange(1, text.len() as int), pattern, with)
    }
}

/// `text` ends with `suffix`.
pub open spec fn has_suffix(text: Seq<char>, suffix: Seq<char>) -> bool {
    &&& suffix.len() <= text.len()
    &&& text.subrange(text.len() - suffix.len(), text.len() as int) == suffix
}

/// What is left of `text` once its last `suffix.len()` characters are cut off.
pub open spec fn without_suffix(text: Seq<char>, suffix: Seq<char>) -> Seq<char> {
    text.subrange(0, text.len() - suffix.len())
}

/// The characters of `text`.
pub fn chars_of(text: &str) -> (chars: Vec<char>)
    ensures
        chars@ == text@,
{
    let mut chars: Vec<char> = Vec::new();
    let mut rest = text.chars();
    loop
        invariant
            rest.obeys_prophetic_iter_laws(),
            rest.decrease() is Some,
            chars@ + rest.remaining() == text@,
        decreases rest.decrease()->0,
    {
        match rest.next() {
            Some(c) => {
                chars.push(c);
                assert(chars@ + rest.remaining() =~= text@);
            },
            None => {
                assert(chars@ + rest.remaining() =~= chars@);
                return chars;
            },
        }
    }
}

/// Whether `pattern` stands in `text` at `at`.
pub fn matches_at(text: &Vec<char>, pattern: &Vec<char>, at: usize) -> (found: bool)
    ensures
        found == occurs_at(text@, pattern@, at as int),
{
    let m: usize = pattern.len();
    let n: usize = text.len();
    if at > n || m > n - at {
        return false;
    }
    let ghost window = text@.subrange(at as int, at + m);
    let mut k: usize = 0;
    while k < m
        invariant
            k <= m,
            m == pattern@.len(),
            n == text@.len(),
            at + m <= n,
            window == text@.subrange(at as int, at + m),
            forall|j: int| 0 <= j < k ==> window[j] == pattern@[j],
        decreases m - k,
    {
        if text[at + k] != pattern[k] {
            assert(window[k as int] != pattern@[k as int]);
            return false;
        }
        k = k + 1;
    }
    assert(window =~= pattern@);
    true
}

/// Replaces every occurrence of `pattern` in `text` by `with`.
pub fn replace_all(text: &str, pattern: &str, with: &str) -> (out: String)
    ensures
        out@ == replaced(text@, pattern@, with@),
{
    let chars = chars_of(text);
    let wanted = chars_of(pattern);
    let n: usize = chars.len();
    let m: usize = wanted.len();
    if m == 0 || n < m {
        return String::from_str(text);
    }
    let mut out = String::new();
    let mut start: usize = 0;
    let mut i: usize = 0;
    proof {
        assert(text@.subrange(0, n as int) =~= text@);
        assert(out@ + text@.subrange(0, 0) + replaced(text@, pattern@, with@) =~= replaced(
            text@,
            pattern@,
            with@,
        ));
    }
    while i <= n - m
        invariant
            0 < m <= n,
            n == text@.len(),
            m == pattern@.len(),
            chars@ == text@,
            wanted@ == pattern@,
            start <= i <= n,
            replaced(text@, pattern@, with@) == out@ + text@.subrange(start as int, i as int)
                + replaced(text@.subrange(i as int, n as int), pattern@, with@),
        decreases n - i,
    {
        let ghost rest = text@.subrange(i as int, n as int);
        proof {
            assert(rest.subrange(0, m as int) =~= text@.subrange(i as int, i + m));
        }
        if matches_at(&chars, &wanted, i) {
            out.append(text.substring_char(start, i));
            out.append(with);
            proof {
                assert(rest.subrange(m as int, rest.len() as int) =~= text@.subrange(
                    i + m,
                    n as int,
                ));
                assert(text@.subrange(i + m, i + m) =~= Seq::<char>::empty());
                assert(out@ + text@.subrange(i + m, i + m) =~= out@);
            }
            i = i + m;
            start = i;
        } else {
            proof {
                assert(rest.subrange(1, rest.len() as int) =~= text@.subrange(i + 1, n as int));
                assert(text@.subrange(start as int, i as int) + rest.subrange(0, 1)
                    =~= text@.subrange(start as int, i + 1));
                assert(out@ + text@.subrange(start as int, i as int) + (rest.subrange(0, 1)
                    + replaced(text@.subrange(i + 1, n as int), pattern@, with@)) =~= out@
                    + text@.subrange(start as int, i + 1) + replaced(
                    text@.subrange(i + 1, n as int),
                    pattern@,
                    with@,
                ));
            }
            i = i + 1;
        }
    }
    proof {
        assert(text@.subrange(start as int, i as int) + text@.subrange(i as int, n as int)
            =~= text@.subrange(start as int, n as int));
        assert(out@ + text@.subrange(start as int, i as int) + text@.subrange(i as int, n as int)
            =~= out@ + text@.subrange(start as int, n as int));
    }
    out.append(text.substring_char(start, n));
    out
}

/// Cuts `suffix` off the end of `text`, where `text` ends with it.
pub fn strip_suffix(text: &str, suffix: &str) -> (stem: Option<String>)
    ensures
        stem is Some <==> has_suffix(text@, suffix@),
        stem matches Some(s) ==> s@ == without_suffix(text@, suffix@),
{
    let n: usize = text.unicode_len();
    let m: usize = suffix.unicode_len();
    if n < m {
        return None;
    }
    let tail = String::from_str(text.substring_char(n - m, n));
    let wanted = String::from_str(suffix);
    if tail == wanted {
        Some(String::from_str(text.substring_char(0, n - m)))
    } else {
        None
    }
}

/// No occurrence, no change.
pub proof fn lemma_replaced_without_occurrence(
    text: Seq<char>,
    pattern: Seq<char>,
    with: Seq<char>,
)
    requires
        !occurs(text, pattern),
    ensures
        replaced(text, pattern, with) == text,
    decreases text.len(),
{
    if pattern.len() == 0 || text.len() < pattern.len() {
    } else {
        assert(!occurs_at(text, pattern, 0));
        let rest = text.subrange(1, text.len() as int);
        assert forall|at: int| !occurs_at(rest, pattern, at) by {
            if occurs_at(rest, pattern, at) {
                assert(rest.subrange(at, at + pattern.len()) =~= text.subrange(
                    at + 1,
                    at + 1 + pattern.len(),
                ));
                assert(occurs_at(text, pattern, at + 1));
            }
        }
        lemma_replaced_without_occurrence(rest, pattern, with);
        assert(text.subrange(0, 1) + rest =~= text);
    }
}

/// Where the first occurrence of a non-empty `pattern` follows `before`, the
/// replacement keeps `before`, puts `with` in the pattern's place and goes on
/// with what follows.
pub proof fn lemma_replaced_first_occurrence(
    before: Seq<char>,
    pattern: Seq<char>,
    after: Seq<char>,
    with: Seq<char>,
)
    requires
        pattern.len() > 0,
        forall|at: int| 0 <= at < before.len() ==> !occurs_at(before + pattern + after, pattern, at),
    ensures
        replaced(before + pattern + after, pattern, with) == before + with + replaced(
            after,
            pattern,
            with,
        ),
    decreases before.len(),
{
    let text = before + pattern + after;
    if before.len() == 0 {
        assert(text.subrange(0, pattern.len() as int) =~= pattern);
        assert(text.subrange(pattern.len() as int, text.len() as int) =~= after);
        assert(before + with + replaced(after, pattern, with) =~= with + replaced(
            after,
            pattern,
            with,
        ));
    } else {
        assert(!occurs_at(text, pattern, 0));
        let shorter = before.subrange(1, before.len() as int);
        let rest = text.subrange(1, text.len() as int);
        assert(rest =~= shorter + pattern + after);
        assert forall|at: int| 0 <= at < shorter.len() implies !occurs_at(
            shorter + pattern + after,
            pattern,
            at,
        ) by {
            if occurs_at(rest, pattern, at) {
                assert(rest.subrange(at, at + pattern.len()) =~= text.subrange(
                    at + 1,
                    at + 1 + pattern.len(),
                ));
                assert(occurs_at(text, pattern, at + 1));
            }
        }
        lemma_replaced_first_occurrence(shorter, pattern, after, with);
        assert(text.subrange(0, 1) =~= before.subrange(0, 1));
        assert(before.subrange(0, 1) + (shorter + with + replaced(after, pattern, with))
            =~= before + with + replaced(after, pattern, with));
    }
}

} // verus!
