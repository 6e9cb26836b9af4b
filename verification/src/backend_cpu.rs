//! The line-oriented search engine: ordered search, counting and
//! replacement over the bytes of one file or of the files of a tree.
//!
//! The caller reads or maps the files and hands their bytes over; nothing
//! here touches the file system. Lines whose bytes are not valid UTF-8 are
//! still matched, and reported with the invalid bytes replaced by U+FFFD.

use crate::lines::{
    file_hits, included, newline_free, rendered, results_show, results_show_concat,
    results_show_push, results_view, segments, segments_after_newline, segments_after_run,
    selected, selected_is_complete, selected_is_ordered, selected_push, NEWLINE,
};
use crate::pattern::{
    compile_regex, compiled, decode_lossy, find_byte, query_probe, regex_finds, regex_is_match,
    regex_replace_all, regex_rewrite, regex_source, Matcher, Probe,
};
use vstd::prelude::*;
use vstd::string::StringSliceAdditionalSpecFns;
use vstd::utf8::encode_utf8;

verus! {

/// The bytes of one file, or the fact that it could not be opened or mapped.
#[derive(Clone, Copy, Debug)]
pub enum FileBytes<'a> {
    Readable(&'a [u8]),
    Unreadable,
}

impl<'a> View for FileBytes<'a> {
    type V = Option<Seq<u8>>;

    open spec fn view(&self) -> Option<Seq<u8>> {
        match self {
            FileBytes::Readable(bytes) => Some(bytes@),
            FileBytes::Unreadable => None,
        }
    }
}

/// The contents of the files of a tree.
pub open spec fn file_views<'a>(files: Seq<FileBytes<'a>>) -> Seq<Option<Seq<u8>>> {
    files.map_values(|f: FileBytes<'a>| f@)
}

/// What a query runs on: a single file, or the files of a directory tree in
/// walk order.
#[derive(Debug)]
pub enum Target<'a> {
    File(FileBytes<'a>),
    Tree(Vec<FileBytes<'a>>),
}

/// The contents of a target.
pub enum TargetView {
    File(Option<Seq<u8>>),
    Tree(Seq<Option<Seq<u8>>>),
}

impl<'a> View for Target<'a> {
    type V = TargetView;

    open spec fn view(&self) -> TargetView {
        match self {
            Target::File(file) => TargetView::File(file@),
            Target::Tree(files) => TargetView::Tree(file_views(files@)),
        }
    }
}

/// Why an invocation failed as a whole.
#[derive(Debug)]
pub enum SearchError {
    /// The regex engine rejected the pattern. No file was looked at.
    InvalidPattern(regex::Error),
    /// The target is a single file and it could not be read.
    Unreadable,
    /// There are more matching lines than `usize` can count.
    CountOverflow,
}

/// The matches of one file of a tree: none when it could not be read.
pub open spec fn entry_hits(probe: Probe, invert: bool, file: Option<Seq<u8>>) -> Seq<
    (nat, Seq<u8>),
> {
    match file {
        Some(bytes) => file_hits(probe, invert, bytes),
        None => Seq::empty(),
    }
}

/// The matches of the files of a tree, file after file in walk order.
pub open spec fn tree_hits(probe: Probe, invert: bool, files: Seq<Option<Seq<u8>>>) -> Seq<
    (nat, Seq<u8>),
>
    decreases files.len(),
{
    if files.len() == 0 {
        Seq::empty()
    } else {
        tree_hits(probe, invert, files.drop_last()) + entry_hits(probe, invert, files.last())
    }
}

/// The matches of a target.
pub open spec fn target_hits(probe: Probe, invert: bool, target: TargetView) -> Seq<
    (nat, Seq<u8>),
> {
    match target {
        TargetView::File(file) => entry_hits(probe, invert, file),
        TargetView::Tree(files) => tree_hits(probe, invert, files),
    }
}

/// A single file that cannot be read fails the invocation; inside a tree it
/// is passed over.
pub open spec fn target_unreadable(target: TargetView) -> bool {
    target == TargetView::File(None)
}

/// What a search returns: the pattern error if the pattern is malformed,
/// else the read failure of a single file, else the matches.
pub open spec fn search_outcome(
    pattern: Seq<char>,
    ignore_case: bool,
    fixed_strings: bool,
    invert: bool,
    target: TargetView,
) -> Result<Seq<(nat, Seq<char>)>, SearchError> {
    match query_probe(pattern, ignore_case, fixed_strings) {
        Err(e) => Err(SearchError::InvalidPattern(e)),
        Ok(probe) => if target_unreadable(target) {
            Err(SearchError::Unreadable)
        } else {
            Ok(rendered(target_hits(probe, invert, target)))
        },
    }
}

/// What a count with a compiled query returns: the read failure of a single
/// file, else the number of matches, which has to fit in `usize`.
pub open spec fn target_count(probe: Probe, invert: bool, target: TargetView) -> Result<
    nat,
    SearchError,
> {
    if target_unreadable(target) {
        Err(SearchError::Unreadable)
    } else if target_hits(probe, invert, target).len() > usize::MAX {
        Err(SearchError::CountOverflow)
    } else {
        Ok(target_hits(probe, invert, target).len())
    }
}

/// What a count returns: the number of matching lines, where search returns
/// the lines themselves.
pub open spec fn count_outcome(
    pattern: Seq<char>,
    ignore_case: bool,
    fixed_strings: bool,
    invert: bool,
    target: TargetView,
) -> Result<nat, SearchError> {
    match query_probe(pattern, ignore_case, fixed_strings) {
        Err(e) => Err(SearchError::InvalidPattern(e)),
        Ok(probe) => target_count(probe, invert, target),
    }
}

/// The new contents of a file under replacement, or `None` when the pattern
/// occurs nowhere in it and the file is to be left alone.
pub open spec fn rewritten(re: regex::bytes::Regex, replacement: Seq<u8>, content: Seq<u8>) -> Option<
    Seq<u8>,
> {
    if regex_finds(re, content) {
        Some(regex_rewrite(re, content, replacement))
    } else {
        None
    }
}

/// The rewrite of one file of a tree: none when it could not be read.
pub open spec fn entry_rewrite(
    re: regex::bytes::Regex,
    replacement: Seq<u8>,
    file: Option<Seq<u8>>,
) -> Option<Seq<u8>> {
    match file {
        Some(content) => rewritten(re, replacement, content),
        None => None,
    }
}

/// What a replacement with a compiled regex returns: the read failure of a
/// single file, else for each file of the target, in walk order, its new
/// contents or `None`.
pub open spec fn target_rewrites(
    re: regex::bytes::Regex,
    replacement: Seq<u8>,
    target: TargetView,
) -> Result<Seq<Option<Seq<u8>>>, SearchError> {
    match target {
        TargetView::File(None) => Err(SearchError::Unreadable),
        TargetView::File(Some(content)) => Ok(seq![rewritten(re, replacement, content)]),
        TargetView::Tree(files) => Ok(
            files.map_values(|f: Option<Seq<u8>>| entry_rewrite(re, replacement, f)),
        ),
    }
}

/// What a replacement returns: the pattern error if the pattern is
/// malformed, else what the compiled regex makes of the target.
pub open spec fn replace_outcome(
    pattern: Seq<char>,
    replacement: Seq<char>,
    ignore_case: bool,
    fixed_strings: bool,
    target: TargetView,
) -> Result<Seq<Option<Seq<u8>>>, SearchError> {
    match compiled(regex_source(pattern, fixed_strings), ignore_case) {
        Err(e) => Err(SearchError::InvalidPattern(e)),
        Ok(re) => target_rewrites(re, encode_utf8(replacement), target),
    }
}

/// The mathematical content of a vector of rewrites.
pub open spec fn rewrites_view(rewrites: Seq<Option<Vec<u8>>>) -> Seq<Option<Seq<u8>>> {
    rewrites.map_values(
        |r: Option<Vec<u8>>|
            match r {
                Some(bytes) => Some(bytes@),
                None => None,
            },
    )
}

/// Tests the filter that search and count share on one line.
pub fn line_included(matcher: &Matcher, invert_match: bool, line: &[u8]) -> (keep: bool)
    ensures
        keep == included(matcher@, invert_match, line@),
{
    if line.len() == 0 {
        false
    } else {
        let hit = matcher.is_match(line);
        if invert_match {
            !hit
        } else {
            hit
        }
    }
}

/// Ordered search of one file: a single forward scan that cuts the buffer at
/// each newline and reports the included lines with their line numbers.
pub fn search_bytes(matcher: &Matcher, bytes: &[u8], invert_match: bool) -> (found: Vec<
    (usize, String),
>)
    ensures
        results_show(found@, file_hits(matcher@, invert_match, bytes@)),
{
    let mut found: Vec<(usize, String)> = Vec::new();
    let mut finished: usize = 0;
    let mut start: usize = 0;
    let mut i: usize = 0;
    let ghost mut done: Seq<Seq<u8>> = Seq::empty();
    proof {
        assert(bytes@.subrange(0, 0) =~= Seq::<u8>::empty());
        assert(segments(bytes@.subrange(0, 0)) =~= done.push(bytes@.subrange(0, 0)));
        assert(results_view(found@) =~= rendered(selected(matcher@, invert_match, done)));
    }
    while i < bytes.len()
        invariant
            start <= i <= bytes.len(),
            finished == done.len(),
            finished <= start,
            segments(bytes@.subrange(0, i as int)) == done.push(
                bytes@.subrange(start as int, i as int),
            ),
            results_show(found@, selected(matcher@, invert_match, done)),
        decreases bytes.len() - i,
    {
        let ghost prefix = bytes@.subrange(0, i as int);
        let ghost open = bytes@.subrange(start as int, i as int);
        proof {
            assert(bytes@.subrange(0, i + 1).drop_last() =~= prefix);
            assert(done.push(open).drop_last() =~= done);
        }
        if bytes[i] == NEWLINE {
            let line = &bytes[start..i];
            let number = finished + 1;
            proof {
                selected_push(matcher@, invert_match, done, open);
            }
            if line_included(matcher, invert_match, line) {
                let text = decode_lossy(line);
                proof {
                    results_show_push(
                        found@,
                        selected(matcher@, invert_match, done),
                        (number, text),
                        (number as nat, open),
                    );
                }
                found.push((number, text));
            }
            proof {
                done = done.push(open);
                assert(bytes@.subrange(i + 1, i + 1) =~= Seq::<u8>::empty());
            }
            finished = number;
            start = i + 1;
        } else {
            proof {
                assert(open.push(bytes@[i as int]) =~= bytes@.subrange(start as int, i + 1));
            }
        }
        i = i + 1;
    }
    let ghost last = bytes@.subrange(start as int, bytes.len() as int);
    proof {
        assert(bytes@.subrange(0, bytes.len() as int) =~= bytes@);
        selected_push(matcher@, invert_match, done, last);
    }
    if start < bytes.len() {
        let line = &bytes[start..bytes.len()];
        if line_included(matcher, invert_match, line) {
            let number = finished + 1;
            let text = decode_lossy(line);
            proof {
                results_show_push(
                    found@,
                    selected(matcher@, invert_match, done),
                    (number, text),
                    (number as nat, last),
                );
            }
            found.push((number, text));
        }
    }
    found
}

/// Count of one file. The buffer is split at its newlines into independent
/// segments and each is tested on its own; the empty segment after a final
/// newline falls to the same emptiness filter that search applies.
pub fn count_bytes(matcher: &Matcher, bytes: &[u8], invert_match: bool) -> (count: usize)
    ensures
        count == file_hits(matcher@, invert_match, bytes@).len(),
        count <= bytes@.len(),
{
    let mut count: usize = 0;
    let mut start: usize = 0;
    let mut at_end = false;
    let ghost mut done: Seq<Seq<u8>> = Seq::empty();
    proof {
        assert(bytes@.subrange(0, 0) =~= Seq::<u8>::empty());
        assert(segments(bytes@.subrange(0, 0)) =~= done.push(Seq::<u8>::empty()));
    }
    while !at_end
        invariant
            start <= bytes.len(),
            done.len() <= start,
            !at_end ==> count <= done.len(),
            !at_end ==> segments(bytes@.subrange(0, start as int)) == done.push(
                Seq::<u8>::empty(),
            ),
            !at_end ==> count == selected(matcher@, invert_match, done).len(),
            at_end ==> count == file_hits(matcher@, invert_match, bytes@).len(),
            at_end ==> count <= bytes@.len(),
        decreases bytes.len() - start + if at_end { 0int } else { 1int },
    {
        let rest = &bytes[start..bytes.len()];
        let ghost prefix = bytes@.subrange(0, start as int);
        proof {
            assert(done.push(Seq::<u8>::empty()).drop_last() =~= done);
        }
        match find_byte(NEWLINE, rest) {
            Some(offset) => {
                let end = start + offset;
                let line = &bytes[start..end];
                proof {
                    assert(newline_free(line@));
                    segments_after_run(prefix, line@);
                    assert(prefix + line@ =~= bytes@.subrange(0, end as int));
                    assert(Seq::<u8>::empty() + line@ =~= line@);
                    segments_after_newline(bytes@.subrange(0, end as int));
                    assert(bytes@.subrange(0, end as int).push(NEWLINE) =~= bytes@.subrange(
                        0,
                        end + 1,
                    ));
                    selected_push(matcher@, invert_match, done, line@);
                    done = done.push(line@);
                }
                if line_included(matcher, invert_match, line) {
                    count = count + 1;
                }
                start = end + 1;
            },
            None => {
                proof {
                    assert(newline_free(rest@));
                    segments_after_run(prefix, rest@);
                    assert(prefix + rest@ =~= bytes@);
                    assert(Seq::<u8>::empty() + rest@ =~= rest@);
                    selected_push(matcher@, invert_match, done, rest@);
                }
                if line_included(matcher, invert_match, rest) {
                    count = count + 1;
                }
                at_end = true;
            },
        }
    }
    count
}

/// Replacement in one file. The pattern is tested once against the whole
/// buffer; a file in which it occurs nowhere is not rewritten at all.
/// Otherwise every occurrence is substituted, capture references in the
/// replacement expanded, and the new contents are returned.
pub fn replace_bytes(regex: &regex::bytes::Regex, replacement: &[u8], content: &[u8]) -> (out:
    Option<Vec<u8>>)
    ensures
        match out {
            Some(bytes) => rewritten(*regex, replacement@, content@) == Some(bytes@),
            None => rewritten(*regex, replacement@, content@) is None,
        },
        !regex_finds(*regex, content@) <==> out is None,
{
    if !regex_is_match(regex, content) {
        None
    } else {
        Some(regex_replace_all(regex, content, replacement))
    }
}

/// Counting agrees with searching: for every query and every target, the
/// count is the number of results that the search returns, and the two fail
/// alike. (A count that `usize` cannot hold is reported as an overflow.)
pub proof fn count_is_number_of_search_results(
    pattern: Seq<char>,
    ignore_case: bool,
    fixed_strings: bool,
    invert: bool,
    target: TargetView,
)
    ensures
        match search_outcome(pattern, ignore_case, fixed_strings, invert, target) {
            Ok(results) => count_outcome(pattern, ignore_case, fixed_strings, invert, target)
                == if results.len() <= usize::MAX {
                Ok::<nat, SearchError>(results.len())
            } else {
                Err::<nat, SearchError>(SearchError::CountOverflow)
            },
            Err(e) => count_outcome(pattern, ignore_case, fixed_strings, invert, target) == Err::<
                nat,
                SearchError,
            >(e),
        },
{
}

/// Within one file the results stand in strictly increasing line-number
/// order, each is a line of the file that passes the filter, and no such
/// line is missing.
pub proof fn file_hits_are_the_included_lines(probe: Probe, invert: bool, bytes: Seq<u8>)
    ensures
        forall|k: int|
            0 <= k < file_hits(probe, invert, bytes).len() ==> {
                let hit = #[trigger] file_hits(probe, invert, bytes)[k];
                &&& 1 <= hit.0 <= segments(bytes).len()
                &&& hit.1 == segments(bytes)[hit.0 - 1]
                &&& included(probe, invert, hit.1)
            },
        forall|j: int, k: int|
            0 <= j < k < file_hits(probe, invert, bytes).len() ==> (#[trigger] file_hits(
                probe,
                invert,
                bytes,
            )[j]).0 < (#[trigger] file_hits(probe, invert, bytes)[k]).0,
        forall|number: int|
            1 <= number <= segments(bytes).len() && included(
                probe,
                invert,
                #[trigger] segments(bytes)[number - 1],
            ) ==> file_hits(probe, invert, bytes).contains(
                (number as nat, segments(bytes)[number - 1]),
            ),
{
    selected_is_ordered(probe, invert, segments(bytes));
    assert forall|number: int|
        1 <= number <= segments(bytes).len() && included(
            probe,
            invert,
            #[trigger] segments(bytes)[number - 1],
        ) implies file_hits(probe, invert, bytes).contains(
        (number as nat, segments(bytes)[number - 1]),
    ) by {
        selected_is_complete(probe, invert, segments(bytes), number);
    }
}

/// The files of a target, in walk order.
pub open spec fn target_files(target: TargetView) -> Seq<Option<Seq<u8>>> {
    match target {
        TargetView::File(file) => seq![file],
        TargetView::Tree(files) => files,
    }
}

/// Replacing a pattern that is absent from a file leaves that file alone:
/// no new contents are produced for it, so nothing is written.
pub proof fn absent_pattern_writes_nothing(
    pattern: Seq<char>,
    replacement: Seq<char>,
    ignore_case: bool,
    fixed_strings: bool,
    target: TargetView,
    k: int,
)
    requires
        compiled(regex_source(pattern, fixed_strings), ignore_case) matches Ok(re) && (
        0 <= k < target_files(target).len()) && (target_files(target)[k] matches Some(content)
            && !regex_finds(re, content)),
    ensures
        replace_outcome(pattern, replacement, ignore_case, fixed_strings, target) matches Ok(
            rewrites,
        ) && rewrites.len() == target_files(target).len() && rewrites[k] is None,
{
}

/// The matching lines of a target counted file by file, in walk order;
/// `None` stands for a file that could not be read. The files may be
/// counted in any order and at the same time: only the sum is taken.
#[derive(Debug)]
pub enum Counts {
    File(Option<usize>),
    Tree(Vec<Option<usize>>),
}

/// The content of per-file counts.
pub enum CountsView {
    File(Option<usize>),
    Tree(Seq<Option<usize>>),
}

impl View for Counts {
    type V = CountsView;

    open spec fn view(&self) -> CountsView {
        match self {
            Counts::File(count) => CountsView::File(*count),
            Counts::Tree(counts) => CountsView::Tree(counts@),
        }
    }
}

/// The sum of the counts of the files that could be read.
pub open spec fn counted_sum(counts: Seq<Option<usize>>) -> nat
    decreases counts.len(),
{
    if counts.len() == 0 {
        0
    } else {
        counted_sum(counts.drop_last()) + match counts.last() {
            Some(n) => n as nat,
            None => 0,
        }
    }
}

/// What per-file counts add up to: the read failure of a single file, else
/// their sum, which has to fit in `usize`.
pub open spec fn combined(counts: CountsView) -> Result<nat, SearchError> {
    match counts {
        CountsView::File(None) => Err(SearchError::Unreadable),
        CountsView::File(Some(n)) => Ok(n as nat),
        CountsView::Tree(each) => if counted_sum(each) > usize::MAX {
            Err(SearchError::CountOverflow)
        } else {
            Ok(counted_sum(each))
        },
    }
}

/// The count belongs to the file: the number of its matches, or `None` for
/// a file that could not be read.
pub open spec fn count_fits(
    count: Option<usize>,
    probe: Probe,
    invert: bool,
    file: Option<Seq<u8>>,
) -> bool {
    match file {
        Some(bytes) => count matches Some(n) && n == file_hits(probe, invert, bytes).len(),
        None => count is None,
    }
}

/// The counts belong to the target, file for file.
pub open spec fn counts_fit(
    counts: CountsView,
    probe: Probe,
    invert: bool,
    target: TargetView,
) -> bool {
    match (counts, target) {
        (CountsView::File(count), TargetView::File(file)) => count_fits(
            count,
            probe,
            invert,
            file,
        ),
        (CountsView::Tree(each), TargetView::Tree(files)) => {
            &&& each.len() == files.len()
            &&& forall|k: int|
                0 <= k < each.len() ==> count_fits(#[trigger] each[k], probe, invert, files[k])
        },
        _ => false,
    }
}

/// The counts walked so far never add up to more than all of them.
pub proof fn counted_sum_prefix(counts: Seq<Option<usize>>, walked: int)
    requires
        0 <= walked <= counts.len(),
    ensures
        counted_sum(counts.subrange(0, walked)) <= counted_sum(counts),
    decreases counts.len(),
{
    if walked == counts.len() {
        assert(counts.subrange(0, walked) =~= counts);
    } else {
        counted_sum_prefix(counts.drop_last(), walked);
        assert(counts.drop_last().subrange(0, walked) =~= counts.subrange(0, walked));
    }
}

/// The counts of the files of a tree add up to the number of its matches.
pub proof fn counted_sum_is_number_of_hits(
    each: Seq<Option<usize>>,
    probe: Probe,
    invert: bool,
    files: Seq<Option<Seq<u8>>>,
)
    requires
        each.len() == files.len(),
        forall|k: int|
            0 <= k < each.len() ==> count_fits(#[trigger] each[k], probe, invert, files[k]),
    ensures
        counted_sum(each) == tree_hits(probe, invert, files).len(),
    decreases each.len(),
{
    if each.len() > 0 {
        counted_sum_is_number_of_hits(each.drop_last(), probe, invert, files.drop_last());
        assert(count_fits(each[each.len() - 1], probe, invert, files[each.len() - 1]));
    }
}

/// Counts taken file by file, in whatever order, combine to the count of
/// the target.
pub proof fn counts_combine_to_the_count(
    counts: CountsView,
    probe: Probe,
    invert: bool,
    target: TargetView,
)
    requires
        counts_fit(counts, probe, invert, target),
    ensures
        combined(counts) == target_count(probe, invert, target),
{
    match (counts, target) {
        (CountsView::Tree(each), TargetView::Tree(files)) => {
            counted_sum_is_number_of_hits(each, probe, invert, files);
        },
        _ => {},
    }
}

/// The search engine.
pub struct CpuBackend;

impl Default for CpuBackend {
    fn default() -> (backend: Self)
        ensures
            backend == CpuBackend,
    {
        CpuBackend
    }
}

impl CpuBackend {
    pub fn new() -> (backend: Self)
        ensures
            backend == CpuBackend,
    {
        CpuBackend
    }

    /// Ordered search with a compiled query. The matches of the files are
    /// concatenated in walk order; within a file they stand in increasing
    /// line-number order. An unreadable file fails the search only when it
    /// is the single-file target; inside a tree it is passed over.
    pub fn search_with(&self, matcher: &Matcher, target: &Target, invert_match: bool) -> (found:
        Result<Vec<(usize, String)>, SearchError>)
        ensures
            match found {
                Ok(results) => !target_unreadable(target@) && results_show(
                    results@,
                    target_hits(matcher@, invert_match, target@),
                ),
                Err(e) => target_unreadable(target@) && e == SearchError::Unreadable,
            },
    {
        match target {
            Target::File(FileBytes::Unreadable) => Err(SearchError::Unreadable),
            Target::File(FileBytes::Readable(bytes)) => Ok(
                search_bytes(matcher, bytes, invert_match),
            ),
            Target::Tree(files) => {
                let ghost views = file_views(files@);
                let mut found: Vec<(usize, String)> = Vec::new();
                let mut k: usize = 0;
                proof {
                    assert(views.subrange(0, 0) =~= Seq::<Option<Seq<u8>>>::empty());
                    assert(results_view(found@) =~= rendered(
                        tree_hits(matcher@, invert_match, views.subrange(0, 0)),
                    ));
                }
                while k < files.len()
                    invariant
                        k <= files.len(),
                        views == file_views(files@),
                        results_show(
                            found@,
                            tree_hits(matcher@, invert_match, views.subrange(0, k as int)),
                        ),
                    decreases files.len() - k,
                {
                    proof {
                        assert(views.subrange(0, k + 1).drop_last() =~= views.subrange(
                            0,
                            k as int,
                        ));
                        assert(views.subrange(0, k + 1).last() == files@[k as int]@);
                    }
                    match &files[k] {
                        FileBytes::Readable(bytes) => {
                            let mut more = search_bytes(matcher, bytes, invert_match);
                            let ghost before = found@;
                            let ghost added = more@;
                            found.append(&mut more);
                            proof {
                                results_show_concat(
                                    before,
                                    tree_hits(matcher@, invert_match, views.subrange(0, k as int)),
                                    added,
                                    file_hits(matcher@, invert_match, bytes@),
                                );
                            }
                        },
                        FileBytes::Unreadable => {
                            proof {
                                let earlier = tree_hits(
                                    matcher@,
                                    invert_match,
                                    views.subrange(0, k as int),
                                );
                                assert(earlier + Seq::<(nat, Seq<u8>)>::empty() =~= earlier);
                            }
                        },
                    }
                    k = k + 1;
                }
                proof {
                    assert(views.subrange(0, files.len() as int) =~= views);
                }
                Ok(found)
            },
        }
    }

    /// Ordered search. A malformed pattern fails before any file is looked
    /// at; the rest is [`CpuBackend::search_with`] on the compiled query.
    pub fn search(
        &self,
        pattern: &str,
        target: &Target,
        ignore_case: bool,
        fixed_strings: bool,
        invert_match: bool,
    ) -> (found: Result<Vec<(usize, String)>, SearchError>)
        ensures
            match found {
                Ok(results) => {
                    &&& search_outcome(
                        pattern@,
                        ignore_case,
                        fixed_strings,
                        invert_match,
                        target@,
                    ) == Ok::<Seq<(nat, Seq<char>)>, SearchError>(results_view(results@))
                    &&& query_probe(pattern@, ignore_case, fixed_strings) matches Ok(probe)
                    &&& results_show(results@, target_hits(probe, invert_match, target@))
                },
                Err(e) => search_outcome(
                    pattern@,
                    ignore_case,
                    fixed_strings,
                    invert_match,
                    target@,
                ) == Err::<Seq<(nat, Seq<char>)>, SearchError>(e),
            },
    {
        match Matcher::compile(pattern, ignore_case, fixed_strings) {
            Ok(matcher) => self.search_with(&matcher, target, invert_match),
            Err(e) => Err(SearchError::InvalidPattern(e)),
        }
    }

    /// Counts the matching lines of each file of a target on its own.
    pub fn count_files(&self, matcher: &Matcher, target: &Target, invert_match: bool) -> (counts:
        Counts)
        ensures
            counts_fit(counts@, matcher@, invert_match, target@),
    {
        match target {
            Target::File(FileBytes::Unreadable) => Counts::File(None),
            Target::File(FileBytes::Readable(bytes)) => Counts::File(
                Some(count_bytes(matcher, bytes, invert_match)),
            ),
            Target::Tree(files) => {
                let mut each: Vec<Option<usize>> = Vec::new();
                let mut k: usize = 0;
                while k < files.len()
                    invariant
                        k <= files.len(),
                        each@.len() == k,
                        forall|j: int|
                            0 <= j < k ==> count_fits(
                                #[trigger] each@[j],
                                matcher@,
                                invert_match,
                                file_views(files@)[j],
                            ),
                    decreases files.len() - k,
                {
                    let count = match &files[k] {
                        FileBytes::Readable(bytes) => Some(
                            count_bytes(matcher, bytes, invert_match),
                        ),
                        FileBytes::Unreadable => None,
                    };
                    each.push(count);
                    k = k + 1;
                }
                Counts::Tree(each)
            },
        }
    }

    /// Adds per-file counts up. The count of a single file that could not
    /// be read is a failure; inside a tree such a file counts for nothing.
    pub fn combine_counts(&self, counts: &Counts) -> (counted: Result<usize, SearchError>)
        ensures
            match counted {
                Ok(n) => combined(counts@) == Ok::<nat, SearchError>(n as nat),
                Err(e) => combined(counts@) == Err::<nat, SearchError>(e),
            },
    {
        match counts {
            Counts::File(None) => Err(SearchError::Unreadable),
            Counts::File(Some(n)) => Ok(*n),
            Counts::Tree(each) => {
                let mut total: usize = 0;
                let mut k: usize = 0;
                proof {
                    assert(each@.subrange(0, 0) =~= Seq::<Option<usize>>::empty());
                }
                while k < each.len()
                    invariant
                        k <= each.len(),
                        counts@ == CountsView::Tree(each@),
                        total == counted_sum(each@.subrange(0, k as int)),
                    decreases each.len() - k,
                {
                    proof {
                        assert(each@.subrange(0, k + 1).drop_last() =~= each@.subrange(
                            0,
                            k as int,
                        ));
                        assert(each@.subrange(0, k + 1).last() == each@[k as int]);
                    }
                    match each[k] {
                        Some(count) => {
                            match total.checked_add(count) {
                                Some(sum) => {
                                    total = sum;
                                },
                                None => {
                                    proof {
                                        counted_sum_prefix(each@, k + 1);
                                    }
                                    return Err(SearchError::CountOverflow);
                                },
                            }
                        },
                        None => {},
                    }
                    k = k + 1;
                }
                proof {
                    assert(each@.subrange(0, each.len() as int) =~= each@);
                }
                Ok(total)
            },
        }
    }

    /// Counts the matching lines with a compiled query: each file on its
    /// own, then the sum.
    pub fn count_with(&self, matcher: &Matcher, target: &Target, invert_match: bool) -> (counted:
        Result<usize, SearchError>)
        ensures
            match counted {
                Ok(n) => target_count(matcher@, invert_match, target@) == Ok::<nat, SearchError>(
                    n as nat,
                ),
                Err(e) => target_count(matcher@, invert_match, target@) == Err::<
                    nat,
                    SearchError,
                >(e),
            },
    {
        let counts = self.count_files(matcher, target, invert_match);
        proof {
            counts_combine_to_the_count(counts@, matcher@, invert_match, target@);
        }
        self.combine_counts(&counts)
    }

    /// Counts the matching lines, not the occurrences. The number is that of
    /// the results that `search` returns for the same query and target.
    pub fn count_matches(
        &self,
        pattern: &str,
        target: &Target,
        ignore_case: bool,
        fixed_strings: bool,
        invert_match: bool,
    ) -> (counted: Result<usize, SearchError>)
        ensures
            match counted {
                Ok(n) => count_outcome(
                    pattern@,
                    ignore_case,
                    fixed_strings,
                    invert_match,
                    target@,
                ) == Ok::<nat, SearchError>(n as nat),
                Err(e) => count_outcome(
                    pattern@,
                    ignore_case,
                    fixed_strings,
                    invert_match,
                    target@,
                ) == Err::<nat, SearchError>(e),
            },
    {
        match Matcher::compile(pattern, ignore_case, fixed_strings) {
            Ok(matcher) => self.count_with(&matcher, target, invert_match),
            Err(e) => Err(SearchError::InvalidPattern(e)),
        }
    }

    /// Replacement with a compiled regex. For each file of the target, in
    /// walk order, the new contents with which the caller is to truncate and
    /// rewrite it, or `None` where no write is due: the pattern occurs
    /// nowhere in the file, or the file of a tree could not be read.
    pub fn replace_with(
        &self,
        regex: &regex::bytes::Regex,
        replacement: &str,
        target: &Target,
    ) -> (rewrites: Result<Vec<Option<Vec<u8>>>, SearchError>)
        ensures
            match rewrites {
                Ok(files) => target_rewrites(*regex, encode_utf8(replacement@), target@) == Ok::<
                    Seq<Option<Seq<u8>>>,
                    SearchError,
                >(rewrites_view(files@)),
                Err(e) => target_rewrites(*regex, encode_utf8(replacement@), target@) == Err::<
                    Seq<Option<Seq<u8>>>,
                    SearchError,
                >(e),
            },
    {
        let with = replacement.as_bytes();
        match target {
            Target::File(FileBytes::Unreadable) => Err(SearchError::Unreadable),
            Target::File(FileBytes::Readable(content)) => {
                let mut rewrites: Vec<Option<Vec<u8>>> = Vec::new();
                rewrites.push(replace_bytes(regex, with, content));
                proof {
                    assert(rewrites_view(rewrites@) =~= seq![
                        rewritten(*regex, encode_utf8(replacement@), content@),
                    ]);
                }
                Ok(rewrites)
            },
            Target::Tree(files) => {
                let ghost views = file_views(files@);
                let mut rewrites: Vec<Option<Vec<u8>>> = Vec::new();
                let mut k: usize = 0;
                while k < files.len()
                    invariant
                        k <= files.len(),
                        with@ == encode_utf8(replacement@),
                        views == file_views(files@),
                        rewrites@.len() == k,
                        forall|j: int|
                            0 <= j < k ==> (#[trigger] rewrites_view(rewrites@)[j])
                                == entry_rewrite(*regex, with@, views[j]),
                    decreases files.len() - k,
                {
                    let next = match &files[k] {
                        FileBytes::Readable(content) => replace_bytes(regex, with, content),
                        FileBytes::Unreadable => None,
                    };
                    let ghost before = rewrites@;
                    rewrites.push(next);
                    proof {
                        assert forall|j: int| 0 <= j < k + 1 implies (#[trigger] rewrites_view(
                            rewrites@,
                        )[j]) == entry_rewrite(*regex, with@, views[j]) by {
                            if j < k {
                                assert(rewrites_view(rewrites@)[j] == rewrites_view(before)[j]);
                            }
                        }
                    }
                    k = k + 1;
                }
                proof {
                    assert(rewrites_view(rewrites@) =~= views.map_values(
                        |f: Option<Seq<u8>>| entry_rewrite(*regex, encode_utf8(replacement@), f),
                    ));
                }
                Ok(rewrites)
            },
        }
    }

    /// Replacement. A malformed pattern fails before any file is looked at;
    /// the rest is [`CpuBackend::replace_with`] on the compiled regex.
    /// Replacement always goes through the regex engine and knows no
    /// inverted matching.
    pub fn replace_in_place(
        &self,
        pattern: &str,
        replacement: &str,
        target: &Target,
        ignore_case: bool,
        fixed_strings: bool,
    ) -> (rewrites: Result<Vec<Option<Vec<u8>>>, SearchError>)
        ensures
            match rewrites {
                Ok(files) => replace_outcome(
                    pattern@,
                    replacement@,
                    ignore_case,
                    fixed_strings,
                    target@,
                ) == Ok::<Seq<Option<Seq<u8>>>, SearchError>(rewrites_view(files@)),
                Err(e) => replace_outcome(
                    pattern@,
                    replacement@,
                    ignore_case,
                    fixed_strings,
                    target@,
                ) == Err::<Seq<Option<Seq<u8>>>, SearchError>(e),
            },
    {
        match compile_regex(pattern, ignore_case, fixed_strings) {
            Ok(regex) => self.replace_with(&regex, replacement, target),
            Err(e) => Err(SearchError::InvalidPattern(e)),
        }
    }
}

} // verus!
