//! Angle brackets in markup: texts in which every `<` opens a tag that the
//! next `>` closes, and why replacing whole tags in such texts leaves no tag
//! of the same spelling behind.

use crate::text::{
    lemma_replaced_first_occurrence, lemma_replaced_without_occurrence, occurs, occurs_at,
    replaced,
};
use vstd::prelude::*;

verus! {

/// Where a reader of the brackets stands: between tags, inside one, or lost
/// after a `>` between tags or a `<` inside one.
pub enum Scan {
    Outside,
    Inside,
    Broken,
}

/// The reader's state after the character `c`.
pub open spec fn step(state: Scan, c: char) -> Scan {
    match state {
        Scan::Broken => Scan::Broken,
        Scan::Outside => if c == '<' {
            Scan::Inside
        } else if c == '>' {
            Scan::Broken
        } else {
            Scan::Outside
        },
        Scan::Inside => if c == '>' {
            Scan::Outside
        } else if c == '<' {
            Scan::Broken
        } else {
            Scan::Inside
        },
    }
}

/// The reader's state after `text`.
pub open spec fn scan(state: Scan, text: Seq<char>) -> Scan
    decreases text.len(),
{
    if text.len() == 0 {
        state
    } else {
        scan(step(state, text[0]), text.drop_first())
    }
}

/// Every `<` of `text` opens a tag, every `>` closes one, and none is left
/// open at the end.
pub open spec fn balanced(text: Seq<char>) -> bool {
    scan(Scan::Outside, text) == Scan::Outside
}

/// `text` holds neither `<` nor `>`.
pub open spec fn bracket_free(text: Seq<char>) -> bool {
    forall|i: int| 0 <= i < text.len() ==> #[trigger] text[i] != '<' && text[i] != '>'
}

/// `pattern` is one tag: a `<`, then no bracket until the closing `>`.
pub open spec fn is_tag(pattern: Seq<char>) -> bool {
    &&& pattern.len() >= 2
    &&& pattern[0] == '<'
    &&& pattern.last() == '>'
    &&& forall|i: int| 0 < i < pattern.len() - 1 ==> #[trigger] pattern[i] != '<' && pattern[i] != '>'
}

/// Reading `first + second` is reading `first`, then `second`.
pub proof fn lemma_scan_concat(state: Scan, first: Seq<char>, second: Seq<char>)
    ensures
        scan(state, first + second) == scan(scan(state, first), second),
    decreases first.len(),
{
    if first.len() == 0 {
        assert(first + second =~= second);
    } else {
        assert((first + second).drop_first() =~= first.drop_first() + second);
        lemma_scan_concat(step(state, first[0]), first.drop_first(), second);
    }
}

/// A lost reader stays lost.
pub proof fn lemma_scan_broken(text: Seq<char>)
    ensures
        scan(Scan::Broken, text) == Scan::Broken,
    decreases text.len(),
{
    if text.len() > 0 {
        lemma_scan_broken(text.drop_first());
    }
}

/// Text without brackets leaves the reader where it stood.
pub proof fn lemma_scan_bracket_free(state: Scan, text: Seq<char>)
    requires
        bracket_free(text),
    ensures
        scan(state, text) == state,
    decreases text.len(),
{
    if text.len() > 0 {
        let rest = text.drop_first();
        assert(text[0] != '<' && text[0] != '>');
        assert forall|i: int| 0 <= i < rest.len() implies #[trigger] rest[i] != '<' && rest[i]
            != '>' by {
            assert(rest[i] == text[i + 1]);
        }
        lemma_scan_bracket_free(state, rest);
    }
}

/// After a `<` and bracket-free text the reader is inside a tag if it stood
/// between tags, and lost otherwise.
pub proof fn lemma_scan_open_tag(state: Scan, text: Seq<char>)
    requires
        text.len() > 0,
        text[0] == '<',
        bracket_free(text.drop_first()),
    ensures
        state == Scan::Outside ==> scan(state, text) == Scan::Inside,
        state != Scan::Outside ==> scan(state, text) == Scan::Broken,
{
    lemma_scan_bracket_free(step(state, '<'), text.drop_first());
}

/// A tag takes the reader from between tags to between tags, and a reader
/// inside a tag gets lost on it.
pub proof fn lemma_scan_tag(pattern: Seq<char>)
    requires
        is_tag(pattern),
    ensures
        scan(Scan::Outside, pattern) == Scan::Outside,
        scan(Scan::Inside, pattern) == Scan::Broken,
{
    let open = pattern.drop_last();
    let close = seq![pattern.last()];
    assert(pattern =~= open + close);
    assert forall|i: int| 0 <= i < open.drop_first().len() implies #[trigger] open.drop_first()[i]
        != '<' && open.drop_first()[i] != '>' by {
        assert(open.drop_first()[i] == pattern[i + 1]);
    }
    lemma_scan_open_tag(Scan::Outside, open);
    lemma_scan_open_tag(Scan::Inside, open);
    lemma_scan_concat(Scan::Outside, open, close);
    lemma_scan_concat(Scan::Inside, open, close);
    assert(close.drop_first() =~= Seq::<char>::empty());
    assert(scan(Scan::Inside, close) == scan(Scan::Outside, close.drop_first()));
    assert(scan(Scan::Broken, close) == scan(Scan::Broken, close.drop_first()));
}

/// What occurs in a part occurs in the whole.
pub proof fn lemma_occurs_in_part(
    before: Seq<char>,
    part: Seq<char>,
    after: Seq<char>,
    pattern: Seq<char>,
)
    requires
        occurs(part, pattern),
    ensures
        occurs(before + part + after, pattern),
{
    let at = choose|at: int| occurs_at(part, pattern, at);
    let whole = before + part + after;
    assert(whole.subrange(before.len() + at, before.len() + at + pattern.len())
        =~= part.subrange(at, at + pattern.len()));
    assert(occurs_at(whole, pattern, before.len() + at));
}

/// A tag that occurs neither in a balanced `first` nor in `second` does not
/// occur in `first + second`: it cannot lie across the seam.
pub proof fn lemma_no_tag_across(first: Seq<char>, second: Seq<char>, pattern: Seq<char>)
    requires
        is_tag(pattern),
        balanced(first),
        !occurs(first, pattern),
        !occurs(second, pattern),
    ensures
        !occurs(first + second, pattern),
{
    let whole = first + second;
    assert forall|at: int| !occurs_at(whole, pattern, at) by {
        if occurs_at(whole, pattern, at) {
            let found = whole.subrange(at, at + pattern.len());
            if at + pattern.len() <= first.len() {
                assert(first.subrange(at, at + pattern.len()) =~= found);
                assert(occurs_at(first, pattern, at));
            } else if at >= first.len() {
                assert(second.subrange(at - first.len(), at - first.len() + pattern.len())
                    =~= found);
                assert(occurs_at(second, pattern, at - first.len()));
            } else {
                let head = first.subrange(0, at);
                let tail = first.subrange(at, first.len() as int);
                assert(first =~= head + tail);
                assert(tail[0] == found[0]);
                assert forall|i: int| 0 <= i < tail.drop_first().len() implies
                    #[trigger] tail.drop_first()[i] != '<' && tail.drop_first()[i] != '>' by {
                    assert(tail.drop_first()[i] == found[i + 1]);
                    assert(found[i + 1] == pattern[i + 1]);
                }
                lemma_scan_concat(Scan::Outside, head, tail);
                lemma_scan_open_tag(scan(Scan::Outside, head), tail);
            }
        }
    }
}

/// The place of the first occurrence of `pattern` in `text`, given one at
/// `known`.
pub proof fn lemma_first_occurrence(text: Seq<char>, pattern: Seq<char>, known: int) -> (first: int)
    requires
        occurs_at(text, pattern, known),
    ensures
        0 <= first <= known,
        occurs_at(text, pattern, first),
        forall|at: int| 0 <= at < first ==> !occurs_at(text, pattern, at),
    decreases known,
{
    if exists|at: int| 0 <= at < known && occurs_at(text, pattern, at) {
        let earlier = choose|at: int| 0 <= at < known && occurs_at(text, pattern, at);
        lemma_first_occurrence(text, pattern, earlier)
    } else {
        known
    }
}

/// Splits a balanced text at the first occurrence of a tag: what stands before
/// it is balanced and free of the tag, and what stands after it is balanced.
pub proof fn lemma_split_at_first_tag(text: Seq<char>, pattern: Seq<char>) -> (first: int)
    requires
        is_tag(pattern),
        balanced(text),
        occurs(text, pattern),
    ensures
        occurs_at(text, pattern, first),
        text == text.subrange(0, first) + pattern + text.subrange(
            first + pattern.len(),
            text.len() as int,
        ),
        forall|at: int| 0 <= at < first ==> !occurs_at(text, pattern, at),
        !occurs(text.subrange(0, first), pattern),
        balanced(text.subrange(0, first)),
        balanced(text.subrange(first + pattern.len(), text.len() as int)),
{
    let known = choose|at: int| occurs_at(text, pattern, at);
    let first = lemma_first_occurrence(text, pattern, known);
    let before = text.subrange(0, first);
    let after = text.subrange(first + pattern.len(), text.len() as int);
    assert(text =~= before + pattern + after);
    assert forall|at: int| !occurs_at(before, pattern, at) by {
        if occurs_at(before, pattern, at) {
            assert(text.subrange(at, at + pattern.len()) =~= before.subrange(
                at,
                at + pattern.len(),
            ));
            assert(occurs_at(text, pattern, at));
        }
    }
    lemma_scan_concat(Scan::Outside, before + pattern, after);
    lemma_scan_concat(Scan::Outside, before, pattern);
    lemma_scan_tag(pattern);
    lemma_scan_broken(pattern);
    lemma_scan_broken(after);
    first
}

/// Replacing a tag by balanced text in a balanced text leaves a balanced text.
pub proof fn lemma_replaced_balanced(text: Seq<char>, pattern: Seq<char>, with: Seq<char>)
    requires
        is_tag(pattern),
        balanced(text),
        balanced(with),
    ensures
        balanced(replaced(text, pattern, with)),
    decreases text.len(),
{
    if !occurs(text, pattern) {
        lemma_replaced_without_occurrence(text, pattern, with);
    } else {
        let first = lemma_split_at_first_tag(text, pattern);
        let before = text.subrange(0, first);
        let after = text.subrange(first + pattern.len(), text.len() as int);
        lemma_replaced_first_occurrence(before, pattern, after, with);
        lemma_replaced_balanced(after, pattern, with);
        lemma_scan_concat(Scan::Outside, before, with);
        lemma_scan_concat(Scan::Outside, before + with, replaced(after, pattern, with));
    }
}

/// Replacing the tag `pattern` by balanced text in a balanced text leaves no
/// occurrence of the tag `target`, where the replacement holds none and
/// `target` either is the tag replaced or did not occur in the text.
pub proof fn lemma_replaced_clear(
    text: Seq<char>,
    pattern: Seq<char>,
    with: Seq<char>,
    target: Seq<char>,
)
    requires
        is_tag(pattern),
        is_tag(target),
        balanced(text),
        balanced(with),
        !occurs(with, target),
        target == pattern || !occurs(text, target),
    ensures
        !occurs(replaced(text, pattern, with), target),
    decreases text.len(),
{
    if !occurs(text, pattern) {
        lemma_replaced_without_occurrence(text, pattern, with);
    } else {
        let first = lemma_split_at_first_tag(text, pattern);
        let before = text.subrange(0, first);
        let after = text.subrange(first + pattern.len(), text.len() as int);
        let rest = replaced(after, pattern, with);
        lemma_replaced_first_occurrence(before, pattern, after, with);
        if target != pattern {
            if occurs(before, target) {
                assert(before + pattern + after =~= Seq::<char>::empty() + before + (pattern
                    + after));
                lemma_occurs_in_part(Seq::empty(), before, pattern + after, target);
            }
            if occurs(after, target) {
                lemma_occurs_in_part(before + pattern, after, Seq::empty(), target);
                assert(before + pattern + after + Seq::<char>::empty() =~= before + pattern
                    + after);
            }
        }
        lemma_replaced_clear(after, pattern, with, target);
        lemma_no_tag_across(before, with, target);
        lemma_scan_concat(Scan::Outside, before, with);
        lemma_no_tag_across(before + with, rest, target);
    }
}

} // verus!
