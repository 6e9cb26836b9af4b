//! Line segmentation of a byte buffer and the selection of matching lines.
//!
//! A buffer is cut at every newline byte. The pieces, delimiters left out,
//! are its segments: one more than it has newlines, the last one being what
//! follows the final newline (empty when the buffer ends with one). Segment
//! `k`, counted from one, is line `k` of the file.

use crate::pattern::{lossy_text, Probe};
use vstd::prelude::*;
use vstd::utf8::{decode_utf8, valid_utf8};

verus! {

/// The line terminator.
pub const NEWLINE: u8 = 10;

/// The segments of a buffer, in order.
pub open spec fn segments(bytes: Seq<u8>) -> Seq<Seq<u8>>
    decreases bytes.len(),
{
    if bytes.len() == 0 {
        seq![Seq::<u8>::empty()]
    } else if bytes.last() == NEWLINE {
        segments(bytes.drop_last()).push(Seq::<u8>::empty())
    } else {
        let before = segments(bytes.drop_last());
        before.drop_last().push(before.last().push(bytes.last()))
    }
}

/// No byte of `run` is a newline.
pub open spec fn newline_free(run: Seq<u8>) -> bool {
    forall|i: int| 0 <= i < run.len() ==> run[i] != NEWLINE
}

/// A line is reported when it is not empty and the predicate, negated under
/// `invert`, holds of it. Search and count share this filter.
pub open spec fn included(probe: Probe, invert: bool, line: Seq<u8>) -> bool {
    line.len() > 0 && (probe.hits(line) != invert)
}

/// The included lines among `lines`, each with its one-based line number.
pub open spec fn selected(probe: Probe, invert: bool, lines: Seq<Seq<u8>>) -> Seq<(nat, Seq<u8>)>
    decreases lines.len(),
{
    if lines.len() == 0 {
        Seq::empty()
    } else if included(probe, invert, lines.last()) {
        selected(probe, invert, lines.drop_last()).push((lines.len(), lines.last()))
    } else {
        selected(probe, invert, lines.drop_last())
    }
}

/// The matches of one file: its included lines in file order.
pub open spec fn file_hits(probe: Probe, invert: bool, bytes: Seq<u8>) -> Seq<(nat, Seq<u8>)> {
    selected(probe, invert, segments(bytes))
}

/// A match as callers see it: the line number and the line's text, bytes
/// that are not UTF-8 replaced by U+FFFD.
pub open spec fn rendered(hits: Seq<(nat, Seq<u8>)>) -> Seq<(nat, Seq<char>)> {
    hits.map_values(|h: (nat, Seq<u8>)| (h.0, lossy_text(h.1)))
}

/// The mathematical content of a result vector.
pub open spec fn results_view(results: Seq<(usize, String)>) -> Seq<(nat, Seq<char>)> {
    results.map_values(|r: (usize, String)| (r.0 as nat, r.1@))
}

/// The results stand for the matches one for one, with the same line
/// numbers, and a line that is valid UTF-8 is reported as exactly its text.
pub open spec fn results_show(results: Seq<(usize, String)>, hits: Seq<(nat, Seq<u8>)>) -> bool {
    &&& results_view(results) == rendered(hits)
    &&& forall|k: int|
        0 <= k < hits.len() && valid_utf8((#[trigger] hits[k]).1) ==> results[k].1@ == decode_utf8(
            hits[k].1,
        )
}

/// Results that show one run of matches, followed by results that show
/// another, show the two runs in a row.
pub proof fn results_show_concat(
    first: Seq<(usize, String)>,
    first_hits: Seq<(nat, Seq<u8>)>,
    second: Seq<(usize, String)>,
    second_hits: Seq<(nat, Seq<u8>)>,
)
    requires
        results_show(first, first_hits),
        results_show(second, second_hits),
    ensures
        results_show(first + second, first_hits + second_hits),
{
    assert(first.len() == results_view(first).len());
    assert(second.len() == results_view(second).len());
    assert(results_view(first + second) =~= results_view(first) + results_view(second));
    assert(rendered(first_hits + second_hits) =~= rendered(first_hits) + rendered(second_hits));
    assert forall|k: int|
        0 <= k < (first_hits + second_hits).len() && valid_utf8(
            (#[trigger] (first_hits + second_hits)[k]).1,
        ) implies (first + second)[k].1@ == decode_utf8((first_hits + second_hits)[k].1) by {
        if k < first_hits.len() {
            assert((first_hits + second_hits)[k] == first_hits[k]);
        } else {
            assert((first_hits + second_hits)[k] == second_hits[k - first_hits.len()]);
        }
    }
}

/// One more result for one more match.
pub proof fn results_show_push(
    results: Seq<(usize, String)>,
    hits: Seq<(nat, Seq<u8>)>,
    result: (usize, String),
    hit: (nat, Seq<u8>),
)
    requires
        results_show(results, hits),
        result.0 == hit.0,
        result.1@ == lossy_text(hit.1),
        valid_utf8(hit.1) ==> result.1@ == decode_utf8(hit.1),
    ensures
        results_show(results.push(result), hits.push(hit)),
{
    assert(results.len() == results_view(results).len());
    assert(results_view(results.push(result)) =~= results_view(results).push(
        (result.0 as nat, result.1@),
    ));
    assert(rendered(hits.push(hit)) =~= rendered(hits).push((hit.0, lossy_text(hit.1))));
}

/// A buffer always has at least one segment.
pub proof fn segments_nonempty(bytes: Seq<u8>)
    ensures
        segments(bytes).len() >= 1,
    decreases bytes.len(),
{
    if bytes.len() > 0 {
        segments_nonempty(bytes.drop_last());
    }
}

/// Appending a newline closes the open segment and opens an empty one.
pub proof fn segments_after_newline(prefix: Seq<u8>)
    ensures
        segments(prefix.push(NEWLINE)) == segments(prefix).push(Seq::<u8>::empty()),
{
    assert(prefix.push(NEWLINE).drop_last() =~= prefix);
}

/// Appending bytes other than newlines lengthens the open segment.
pub proof fn segments_after_run(prefix: Seq<u8>, run: Seq<u8>)
    requires
        newline_free(run),
    ensures
        segments(prefix + run) == segments(prefix).drop_last().push(
            segments(prefix).last() + run,
        ),
    decreases run.len(),
{
    segments_nonempty(prefix);
    let before = segments(prefix);
    if run.len() == 0 {
        assert(prefix + run =~= prefix);
        assert(before.last() + run =~= before.last());
        assert(before.drop_last().push(before.last()) =~= before);
    } else {
        let shorter = run.drop_last();
        segments_after_run(prefix, shorter);
        assert((prefix + run).drop_last() =~= prefix + shorter);
        assert((prefix + run).last() == run.last());
        let mid = segments(prefix + shorter);
        assert(mid.drop_last() =~= before.drop_last());
        assert(mid.last().push(run.last()) =~= before.last() + run);
    }
}

/// Selection after one more line: the earlier matches, then the new line if
/// it is included.
pub proof fn selected_push(probe: Probe, invert: bool, lines: Seq<Seq<u8>>, line: Seq<u8>)
    ensures
        selected(probe, invert, lines.push(line)) == if included(probe, invert, line) {
            selected(probe, invert, lines).push(((lines.len() + 1) as nat, line))
        } else {
            selected(probe, invert, lines)
        },
{
    assert(lines.push(line).drop_last() =~= lines);
}

/// Matches come out in strictly increasing line-number order, each on a
/// line of the file, and every reported line is included.
pub proof fn selected_is_ordered(probe: Probe, invert: bool, lines: Seq<Seq<u8>>)
    ensures
        forall|k: int|
            0 <= k < selected(probe, invert, lines).len() ==> {
                let hit = #[trigger] selected(probe, invert, lines)[k];
                &&& 1 <= hit.0 <= lines.len()
                &&& hit.1 == lines[hit.0 - 1]
                &&& included(probe, invert, hit.1)
            },
        forall|j: int, k: int|
            0 <= j < k < selected(probe, invert, lines).len() ==> (#[trigger] selected(
                probe,
                invert,
                lines,
            )[j]).0 < (#[trigger] selected(probe, invert, lines)[k]).0,
    decreases lines.len(),
{
    if lines.len() > 0 {
        let all = selected(probe, invert, lines);
        let shorter = lines.drop_last();
        let earlier = selected(probe, invert, shorter);
        selected_is_ordered(probe, invert, shorter);
        assert forall|k: int| 0 <= k < all.len() implies {
            let hit = #[trigger] all[k];
            &&& 1 <= hit.0 <= lines.len()
            &&& hit.1 == lines[hit.0 - 1]
            &&& included(probe, invert, hit.1)
        } by {
            if k < earlier.len() {
                let hit = earlier[k];
                assert(all[k] == hit);
                assert(hit.1 == shorter[hit.0 - 1]);
            }
        }
        assert forall|j: int, k: int| 0 <= j < k < all.len() implies (#[trigger] all[j]).0 < (
        #[trigger] all[k]).0 by {
            assert(all[j] == earlier[j]);
            if k < earlier.len() {
                assert(all[k] == earlier[k]);
            }
        }
    }
}

/// Every included line is reported.
pub proof fn selected_is_complete(probe: Probe, invert: bool, lines: Seq<Seq<u8>>, number: int)
    requires
        1 <= number <= lines.len(),
        included(probe, invert, lines[number - 1]),
    ensures
        selected(probe, invert, lines).contains((number as nat, lines[number - 1])),
    decreases lines.len(),
{
    let all = selected(probe, invert, lines);
    if number == lines.len() {
        assert(all.last() == (number as nat, lines[number - 1]));
    } else {
        selected_is_complete(probe, invert, lines.drop_last(), number);
        let earlier = selected(probe, invert, lines.drop_last());
        let k = choose|k: int| 0 <= k < earlier.len() && earlier[k] == (number as nat, lines[number - 1]);
        assert(all[k] == earlier[k]);
    }
}

/// Counting needs no order: the number of matches is the number of lines
/// that pass the filter, each judged on its own.
pub proof fn selected_len_is_filter_len(probe: Probe, invert: bool, lines: Seq<Seq<u8>>)
    ensures
        selected(probe, invert, lines).len() == lines.filter(
            |line: Seq<u8>| included(probe, invert, line),
        ).len(),
    decreases lines.len(),
{
    reveal(Seq::filter);
    if lines.len() > 0 {
        selected_len_is_filter_len(probe, invert, lines.drop_last());
    }
}

} // verus!
