//! What holds of every resolution.

use crate::markup::{
    balanced, bracket_free, is_tag, lemma_replaced_balanced, lemma_replaced_clear,
};
use crate::page::{FillView, PageView};
use crate::resolve::{
    fill_step, fill_text, filled, is_run, marker, page_output, resolved, Failure, RunView,
};
use crate::store::{fragment_suffix, layout_suffix, page_suffix};
use crate::text::has_suffix;
use crate::text::{
    lemma_replaced_first_occurrence, lemma_replaced_without_occurrence, occurs, occurs_at,
    replaced,
};
use vstd::prelude::*;

verus! {

/// The fill names its placeholder and its text can be had.
pub open spec fn fill_ready(
    fill: FillView,
    fragments: Map<Seq<char>, Seq<char>>,
    disk: Map<Seq<char>, Seq<char>>,
) -> bool {
    fill.placeholder is Some && fill_text(fill, fragments, disk) is Ok
}

/// A page without a `layout` element fails for want of that tag, whatever
/// else it holds and whatever the store holds.
pub proof fn law_page_without_layout(
    page: PageView,
    layouts: Map<Seq<char>, Seq<char>>,
    fragments: Map<Seq<char>, Seq<char>>,
    disk: Map<Seq<char>, Seq<char>>,
)
    requires
        page.layout is None,
    ensures
        resolved(page, layouts, fragments, disk) == Err::<Seq<char>, Failure>(
            Failure::TagNotFound("layout"@),
        ),
{
}

/// A page that names a layout which the store does not hold fails with that
/// name as an unknown layout.
pub proof fn law_unknown_layout(
    page: PageView,
    name: Seq<char>,
    layouts: Map<Seq<char>, Seq<char>>,
    fragments: Map<Seq<char>, Seq<char>>,
    disk: Map<Seq<char>, Seq<char>>,
)
    requires
        page.layout == Some(Some(name)),
        !layouts.contains_key(name),
    ensures
        resolved(page, layouts, fragments, disk) == Err::<Seq<char>, Failure>(
            Failure::LayoutNotFound(name),
        ),
{
}

/// Where every fill before the one at `at` is ready and that one fails, the
/// fills fail as that one does, whatever the buffer holds.
pub proof fn law_first_failing_fill(
    buffer: Seq<char>,
    fills: Seq<FillView>,
    fragments: Map<Seq<char>, Seq<char>>,
    disk: Map<Seq<char>, Seq<char>>,
    at: int,
)
    requires
        0 <= at < fills.len(),
        forall|j: int| 0 <= j < at ==> fill_ready(#[trigger] fills[j], fragments, disk),
        !fill_ready(fills[at], fragments, disk),
    ensures
        filled(buffer, fills, fragments, disk) is Err,
        filled(buffer, fills, fragments, disk) == fill_step(buffer, fills[at], fragments, disk),
        fill_step(buffer, fills[at], fragments, disk) == fill_step(
            Seq::empty(),
            fills[at],
            fragments,
            disk,
        ),
    decreases fills.len(),
{
    if at > 0 {
        assert(fill_ready(fills[0], fragments, disk));
        let next = fill_step(buffer, fills[0], fragments, disk)->Ok_0;
        let rest = fills.drop_first();
        assert forall|j: int| 0 <= j < at - 1 implies fill_ready(
            #[trigger] rest[j],
            fragments,
            disk,
        ) by {
            assert(rest[j] == fills[j + 1]);
        }
        law_first_failing_fill(next, rest, fragments, disk, at - 1);
    }
}

/// A page whose layout can be read, and in which the first fill that is not
/// ready names a fragment `name` which the store does not hold, fails with
/// that name as an unknown fragment.
pub proof fn law_unknown_fragment(
    page: PageView,
    layout: Seq<char>,
    name: Seq<char>,
    layouts: Map<Seq<char>, Seq<char>>,
    fragments: Map<Seq<char>, Seq<char>>,
    disk: Map<Seq<char>, Seq<char>>,
    at: int,
)
    requires
        page.layout == Some(Some(layout)),
        layouts.contains_key(layout),
        disk.contains_key(layouts[layout]),
        0 <= at < page.fills.len(),
        forall|j: int| 0 <= j < at ==> fill_ready(#[trigger] page.fills[j], fragments, disk),
        page.fills[at].placeholder is Some,
        page.fills[at].fragment == Some(name),
        !fragments.contains_key(name),
    ensures
        resolved(page, layouts, fragments, disk) == Err::<Seq<char>, Failure>(
            Failure::FragmentNotFound(name),
        ),
{
    law_first_failing_fill(disk[layouts[layout]], page.fills, fragments, disk, at);
}

/// Fills whose markers the buffer does not hold leave it as it is: each is
/// dropped without a trace, and whatever marker the buffer holds stays.
pub proof fn law_unmatched_fills(
    buffer: Seq<char>,
    fills: Seq<FillView>,
    fragments: Map<Seq<char>, Seq<char>>,
    disk: Map<Seq<char>, Seq<char>>,
)
    requires
        forall|j: int| 0 <= j < fills.len() ==> fill_ready(#[trigger] fills[j], fragments, disk),
        forall|j: int|
            0 <= j < fills.len() ==> !occurs(buffer, marker((#[trigger] fills[j]).placeholder->0)),
    ensures
        filled(buffer, fills, fragments, disk) == Ok::<Seq<char>, Failure>(buffer),
    decreases fills.len(),
{
    if fills.len() > 0 {
        assert(fill_ready(fills[0], fragments, disk));
        lemma_replaced_without_occurrence(
            buffer,
            marker(fills[0].placeholder->0),
            fill_text(fills[0], fragments, disk)->Ok_0,
        );
        let rest = fills.drop_first();
        assert forall|j: int| 0 <= j < rest.len() implies fill_ready(
            #[trigger] rest[j],
            fragments,
            disk,
        ) && !occurs(buffer, marker(rest[j].placeholder->0)) by {
            assert(rest[j] == fills[j + 1]);
        }
        law_unmatched_fills(buffer, rest, fragments, disk);
    }
}

/// A layout that holds the marker of a placeholder once, between `before` and
/// `after`, and a single ready fill of that placeholder: the result is
/// `before`, the fill's text, `after`.
pub proof fn law_single_fill(
    before: Seq<char>,
    after: Seq<char>,
    fill: FillView,
    fragments: Map<Seq<char>, Seq<char>>,
    disk: Map<Seq<char>, Seq<char>>,
)
    requires
        fill_ready(fill, fragments, disk),
        forall|at: int|
            0 <= at < before.len() ==> !occurs_at(
                before + marker(fill.placeholder->0) + after,
                marker(fill.placeholder->0),
                at,
            ),
        !occurs(after, marker(fill.placeholder->0)),
    ensures
        filled(before + marker(fill.placeholder->0) + after, seq![fill], fragments, disk) == Ok::<
            Seq<char>,
            Failure,
        >(before + fill_text(fill, fragments, disk)->Ok_0 + after),
{
    let pattern = marker(fill.placeholder->0);
    let text = fill_text(fill, fragments, disk)->Ok_0;
    assert(pattern.len() > 0) by {
        reveal_strlit("<placeholder name=\"");
    }
    lemma_replaced_first_occurrence(before, pattern, after, text);
    lemma_replaced_without_occurrence(after, pattern, text);
    let fills = seq![fill];
    assert(fills.drop_first() =~= Seq::<FillView>::empty());
    let next = before + text + after;
    assert(filled(next, fills.drop_first(), fragments, disk) == Ok::<Seq<char>, Failure>(next));
}

/// The fill is ready, its placeholder's name holds no angle bracket, and its
/// text is balanced.
pub open spec fn fill_tidy(
    fill: FillView,
    fragments: Map<Seq<char>, Seq<char>>,
    disk: Map<Seq<char>, Seq<char>>,
) -> bool {
    &&& fill_ready(fill, fragments, disk)
    &&& bracket_free(fill.placeholder->0)
    &&& balanced(fill_text(fill, fragments, disk)->Ok_0)
}

/// The marker of a name without angle brackets is one tag.
pub proof fn lemma_marker_is_tag(name: Seq<char>)
    requires
        bracket_free(name),
    ensures
        is_tag(marker(name)),
{
    reveal_strlit("<placeholder name=\"");
    reveal_strlit("\" />");
    let open = "<placeholder name=\""@;
    let close = "\" />"@;
    let whole = marker(name);
    assert(whole.len() == open.len() + name.len() + close.len());
    assert(whole[0] == open[0]);
    assert(whole.last() == close[3]);
    assert forall|i: int| 0 < i < whole.len() - 1 implies #[trigger] whole[i] != '<' && whole[i]
        != '>' by {
        if i < open.len() {
            assert(whole[i] == open[i]);
        } else if i < open.len() + name.len() {
            assert(whole[i] == name[i - open.len()]);
        } else {
            assert(whole[i] == close[i - open.len() - name.len()]);
        }
    }
}

/// Tidy fills, applied to a balanced buffer, succeed and leave no marker of
/// `name`, where no fill from `from` on holds that marker in its text and
/// either the fill at `from` is one of `name` or, with `from` negative, the
/// buffer held no such marker to begin with.
pub proof fn lemma_fills_clear(
    buffer: Seq<char>,
    fills: Seq<FillView>,
    fragments: Map<Seq<char>, Seq<char>>,
    disk: Map<Seq<char>, Seq<char>>,
    name: Seq<char>,
    from: int,
)
    requires
        balanced(buffer),
        bracket_free(name),
        forall|j: int| 0 <= j < fills.len() ==> fill_tidy(#[trigger] fills[j], fragments, disk),
        from < fills.len(),
        from >= 0 ==> fills[from].placeholder == Some(name),
        from < 0 ==> !occurs(buffer, marker(name)),
        forall|j: int|
            0 <= j < fills.len() && from <= j ==> !occurs(
                fill_text(#[trigger] fills[j], fragments, disk)->Ok_0,
                marker(name),
            ),
    ensures
        filled(buffer, fills, fragments, disk) is Ok,
        balanced(filled(buffer, fills, fragments, disk)->Ok_0),
        !occurs(filled(buffer, fills, fragments, disk)->Ok_0, marker(name)),
    decreases fills.len(),
{
    if fills.len() > 0 {
        let fill = fills[0];
        assert(fill_tidy(fill, fragments, disk));
        let pattern = marker(fill.placeholder->0);
        let text = fill_text(fill, fragments, disk)->Ok_0;
        let next = replaced(buffer, pattern, text);
        let rest = fills.drop_first();
        lemma_marker_is_tag(fill.placeholder->0);
        lemma_marker_is_tag(name);
        lemma_replaced_balanced(buffer, pattern, text);
        assert forall|j: int| 0 <= j < rest.len() implies fill_tidy(
            #[trigger] rest[j],
            fragments,
            disk,
        ) by {
            assert(rest[j] == fills[j + 1]);
        }
        assert forall|j: int| 0 <= j < rest.len() && from - 1 <= j implies !occurs(
            fill_text(#[trigger] rest[j], fragments, disk)->Ok_0,
            marker(name),
        ) by {
            assert(rest[j] == fills[j + 1]);
        }
        if from <= 0 {
            lemma_replaced_clear(buffer, pattern, text, marker(name));
            lemma_fills_clear(next, rest, fragments, disk, name, -1);
        } else {
            assert(rest[from - 1] == fills[from]);
            lemma_fills_clear(next, rest, fragments, disk, name, from - 1);
        }
    }
}

/// Where the layout and the fills' texts are balanced, the placeholders'
/// names hold no angle bracket, and no fill's text holds the marker of any
/// fill's placeholder, the fills succeed and the result holds the marker of
/// none of them.
pub proof fn law_filled_placeholders_leave_no_marker(
    layout: Seq<char>,
    fills: Seq<FillView>,
    fragments: Map<Seq<char>, Seq<char>>,
    disk: Map<Seq<char>, Seq<char>>,
)
    requires
        balanced(layout),
        forall|j: int| 0 <= j < fills.len() ==> fill_tidy(#[trigger] fills[j], fragments, disk),
        forall|j: int, k: int|
            0 <= j < fills.len() && 0 <= k < fills.len() ==> !occurs(
                fill_text(#[trigger] fills[j], fragments, disk)->Ok_0,
                marker((#[trigger] fills[k]).placeholder->0),
            ),
    ensures
        filled(layout, fills, fragments, disk) is Ok,
        forall|k: int|
            0 <= k < fills.len() ==> !occurs(
                filled(layout, fills, fragments, disk)->Ok_0,
                marker((#[trigger] fills[k]).placeholder->0),
            ),
{
    if fills.len() == 0 {
    } else {
        assert forall|k: int| 0 <= k < fills.len() implies filled(layout, fills, fragments, disk)
            is Ok && !occurs(
            filled(layout, fills, fragments, disk)->Ok_0,
            marker((#[trigger] fills[k]).placeholder->0),
        ) by {
            assert(fill_tidy(fills[k], fragments, disk));
            lemma_fills_clear(layout, fills, fragments, disk, fills[k].placeholder->0, k);
        }
        assert(fill_tidy(fills[0], fragments, disk));
    }
}

/// A run is determined by the pages, the store, the disk and the output
/// root: two runs over the same are the same, output for output.
pub proof fn law_run_is_determined(
    first: RunView,
    second: RunView,
    pages: Seq<Seq<char>>,
    layouts: Map<Seq<char>, Seq<char>>,
    fragments: Map<Seq<char>, Seq<char>>,
    disk: Map<Seq<char>, Seq<char>>,
    dist: Seq<char>,
)
    requires
        is_run(first, pages, layouts, fragments, disk, dist),
        is_run(second, pages, layouts, fragments, disk, dist),
    ensures
        first == second,
{
    let m = first.outputs.len() as int;
    let n = second.outputs.len() as int;
    if m < n {
        let beyond = second.outputs[m];
        assert(page_output(pages[m], layouts, fragments, disk, dist) is Ok);
    }
    if n < m {
        let beyond = first.outputs[n];
        assert(page_output(pages[n], layouts, fragments, disk, dist) is Ok);
    }
    assert forall|i: int| 0 <= i < m implies first.outputs[i] == second.outputs[i] by {
        let output = page_output(pages[i], layouts, fragments, disk, dist);
        assert(output == Ok::<(Seq<char>, Seq<char>), Failure>(first.outputs[i]));
        assert(output == Ok::<(Seq<char>, Seq<char>), Failure>(second.outputs[i]));
    }
    assert(first.outputs =~= second.outputs);
}

/// No file name ends with two of the three suffixes: the order in which they
/// are tried decides nothing.
pub proof fn law_suffixes_exclude_each_other(file_name: Seq<char>)
    ensures
        !(has_suffix(file_name, page_suffix()) && has_suffix(file_name, layout_suffix())),
        !(has_suffix(file_name, page_suffix()) && has_suffix(file_name, fragment_suffix())),
        !(has_suffix(file_name, layout_suffix()) && has_suffix(file_name, fragment_suffix())),
{
    reveal_strlit(".page.html");
    reveal_strlit(".layout.html");
    reveal_strlit(".fragment.html");
    let n = file_name.len() as int;
    if has_suffix(file_name, page_suffix()) {
        assert(file_name.subrange(n - 10, n)[4] == file_name[n - 6]);
    }
    if has_suffix(file_name, layout_suffix()) {
        assert(file_name.subrange(n - 12, n)[6] == file_name[n - 6]);
        assert(file_name.subrange(n - 12, n)[5] == file_name[n - 7]);
    }
    if has_suffix(file_name, fragment_suffix()) {
        assert(file_name.subrange(n - 14, n)[8] == file_name[n - 6]);
        assert(file_name.subrange(n - 14, n)[7] == file_name[n - 7]);
    }
}

/// A second fill of a placeholder finds nothing to replace: where the buffer
/// and the first text are balanced, the name holds no angle bracket and the
/// first text does not hold the marker, the first fill's text stays.
pub proof fn law_repeated_fill(
    buffer: Seq<char>,
    name: Seq<char>,
    first: Seq<char>,
    second: Seq<char>,
)
    requires
        balanced(buffer),
        balanced(first),
        bracket_free(name),
        !occurs(first, marker(name)),
    ensures
        replaced(replaced(buffer, marker(name), first), marker(name), second) == replaced(
            buffer,
            marker(name),
            first,
        ),
{
    lemma_marker_is_tag(name);
    lemma_replaced_clear(buffer, marker(name), first, marker(name));
    lemma_replaced_without_occurrence(replaced(buffer, marker(name), first), marker(name), second);
}

} // verus!
