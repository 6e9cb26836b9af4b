//! The columnar view of a mapped file: one string value per line, described
//! by a table of 32-bit offsets into the mapped bytes, which are never
//! copied.
//!
//! Value `i` lies between offset `i` and offset `i + 1`, its newline left
//! out. The bytes are not checked for UTF-8: whoever decodes a value has to
//! deal with invalid sequences.

use crate::lines::{newline_free, segments, segments_nonempty, NEWLINE};
use crate::pattern::find_byte;
use vstd::prelude::*;
use vstd::slice::{slice_subrange, slice_to_vec};

verus! {

/// The largest mapped region that 32-bit offsets can address.
pub const MAX_REGION: usize = 0x7fff_ffff;

/// For a prefix of a file: offset 0, then the offset just after each newline.
pub open spec fn closed_offsets(bytes: Seq<u8>) -> Seq<int>
    decreases bytes.len(),
{
    if bytes.len() == 0 {
        seq![0int]
    } else if bytes.last() == NEWLINE {
        closed_offsets(bytes.drop_last()).push(bytes.len() as int)
    } else {
        closed_offsets(bytes.drop_last())
    }
}

/// The offset table of a file: the offsets after its newlines, and its
/// length as the final offset when it does not end with a newline.
pub open spec fn line_offsets(bytes: Seq<u8>) -> Seq<int> {
    if bytes.len() > 0 && bytes.last() != NEWLINE {
        closed_offsets(bytes).push(bytes.len() as int)
    } else {
        closed_offsets(bytes)
    }
}

/// The lines of a file: its segments, without the empty one that follows a
/// final newline. An empty file has no lines.
pub open spec fn text_lines(bytes: Seq<u8>) -> Seq<Seq<u8>> {
    let all = segments(bytes);
    if all.last().len() == 0 {
        all.drop_last()
    } else {
        all
    }
}

/// A byte range without the newline that ends it, if one does.
pub open spec fn strip_delimiter(range: Seq<u8>) -> Seq<u8> {
    if range.len() > 0 && range.last() == NEWLINE {
        range.drop_last()
    } else {
        range
    }
}

/// The values one after the other.
pub open spec fn joined(values: Seq<Seq<u8>>) -> Seq<u8>
    decreases values.len(),
{
    if values.len() == 0 {
        Seq::empty()
    } else {
        joined(values.drop_last()) + values.last()
    }
}

/// The number of bytes in the values.
pub open spec fn total_bytes(values: Seq<Seq<u8>>) -> nat
    decreases values.len(),
{
    if values.len() == 0 {
        0
    } else {
        total_bytes(values.drop_last()) + values.last().len()
    }
}

/// The bytes of a buffer that are not newlines, in order.
pub open spec fn without_newlines(bytes: Seq<u8>) -> Seq<u8>
    decreases bytes.len(),
{
    if bytes.len() == 0 {
        Seq::empty()
    } else if bytes.last() == NEWLINE {
        without_newlines(bytes.drop_last())
    } else {
        without_newlines(bytes.drop_last()).push(bytes.last())
    }
}

/// The offsets after the newlines of a prefix delimit its segments: each
/// closed segment ends just before the newline that the next offset follows,
/// and the open segment runs from the last offset to the end.
pub proof fn closed_offsets_delimit_segments(bytes: Seq<u8>)
    ensures
        closed_offsets(bytes).len() == segments(bytes).len(),
        closed_offsets(bytes)[0] == 0,
        forall|k: int|
            0 <= k < closed_offsets(bytes).len() ==> 0 <= #[trigger] closed_offsets(bytes)[k]
                <= bytes.len(),
        forall|k: int|
            0 <= k < closed_offsets(bytes).len() - 1 ==> {
                &&& closed_offsets(bytes)[k] < #[trigger] closed_offsets(bytes)[k + 1]
                &&& bytes[closed_offsets(bytes)[k + 1] - 1] == NEWLINE
                &&& segments(bytes)[k] == bytes.subrange(
                    closed_offsets(bytes)[k],
                    closed_offsets(bytes)[k + 1] - 1,
                )
            },
        segments(bytes).last() == bytes.subrange(
            closed_offsets(bytes).last(),
            bytes.len() as int,
        ),
    decreases bytes.len(),
{
    let offs = closed_offsets(bytes);
    let segs = segments(bytes);
    if bytes.len() == 0 {
        assert(segs.last() =~= bytes.subrange(0, 0));
    } else {
        let shorter = bytes.drop_last();
        let offs0 = closed_offsets(shorter);
        let segs0 = segments(shorter);
        closed_offsets_delimit_segments(shorter);
        segments_nonempty(shorter);
        if bytes.last() == NEWLINE {
            assert forall|k: int| 0 <= k < offs.len() - 1 implies {
                &&& offs[k] < #[trigger] offs[k + 1]
                &&& bytes[offs[k + 1] - 1] == NEWLINE
                &&& segs[k] == bytes.subrange(offs[k], offs[k + 1] - 1)
            } by {
                if k < offs0.len() - 1 {
                    assert(offs0[k] < offs0[k + 1]);
                    assert(shorter.subrange(offs0[k], offs0[k + 1] - 1) =~= bytes.subrange(
                        offs[k],
                        offs[k + 1] - 1,
                    ));
                } else {
                    assert(shorter.subrange(offs0.last(), shorter.len() as int)
                        =~= bytes.subrange(offs[k], offs[k + 1] - 1));
                }
            }
            assert(segs.last() =~= bytes.subrange(offs.last(), bytes.len() as int));
        } else {
            assert forall|k: int| 0 <= k < offs.len() - 1 implies {
                &&& offs[k] < #[trigger] offs[k + 1]
                &&& bytes[offs[k + 1] - 1] == NEWLINE
                &&& segs[k] == bytes.subrange(offs[k], offs[k + 1] - 1)
            } by {
                assert(offs0[k] < offs0[k + 1]);
                assert(shorter.subrange(offs0[k], offs0[k + 1] - 1) =~= bytes.subrange(
                    offs[k],
                    offs[k + 1] - 1,
                ));
            }
            assert(segs.last() =~= bytes.subrange(offs.last(), bytes.len() as int));
        }
    }
}

/// Bytes other than newlines add no offset.
pub proof fn closed_offsets_after_run(prefix: Seq<u8>, run: Seq<u8>)
    requires
        newline_free(run),
    ensures
        closed_offsets(prefix + run) == closed_offsets(prefix),
    decreases run.len(),
{
    if run.len() == 0 {
        assert(prefix + run =~= prefix);
    } else {
        closed_offsets_after_run(prefix, run.drop_last());
        assert((prefix + run).drop_last() =~= prefix + run.drop_last());
    }
}

/// A newline adds the offset that follows it.
pub proof fn closed_offsets_after_newline(prefix: Seq<u8>)
    ensures
        closed_offsets(prefix.push(NEWLINE)) == closed_offsets(prefix).push(prefix.len() as int + 1),
{
    assert(prefix.push(NEWLINE).drop_last() =~= prefix);
}

/// Joining goes value by value.
pub proof fn joined_push(values: Seq<Seq<u8>>, value: Seq<u8>)
    ensures
        joined(values.push(value)) == joined(values) + value,
        total_bytes(values.push(value)) == total_bytes(values) + value.len(),
{
    assert(values.push(value).drop_last() =~= values);
}

/// Joining and sizes distribute over concatenation.
pub proof fn joined_concat(first: Seq<Seq<u8>>, second: Seq<Seq<u8>>)
    ensures
        joined(first + second) == joined(first) + joined(second),
        total_bytes(first + second) == total_bytes(first) + total_bytes(second),
    decreases second.len(),
{
    if second.len() == 0 {
        assert(first + second =~= first);
        assert(joined(first) + joined(second) =~= joined(first));
    } else {
        joined_concat(first, second.drop_last());
        assert((first + second).drop_last() =~= first + second.drop_last());
        assert(joined(first + second) =~= joined(first) + joined(second));
    }
}

/// The size of some values is the length of what they join to.
pub proof fn joined_len(values: Seq<Seq<u8>>)
    ensures
        joined(values).len() == total_bytes(values),
    decreases values.len(),
{
    if values.len() > 0 {
        joined_len(values.drop_last());
    }
}

/// The segments of a buffer join to the buffer without its newlines.
pub proof fn segments_join(bytes: Seq<u8>)
    ensures
        joined(segments(bytes)) == without_newlines(bytes),
    decreases bytes.len(),
{
    if bytes.len() == 0 {
        joined_push(Seq::<Seq<u8>>::empty(), Seq::<u8>::empty());
        assert(segments(bytes) =~= Seq::<Seq<u8>>::empty().push(Seq::<u8>::empty()));
        assert(joined(segments(bytes)) =~= Seq::<u8>::empty());
    } else {
        let before = segments(bytes.drop_last());
        segments_join(bytes.drop_last());
        segments_nonempty(bytes.drop_last());
        if bytes.last() == NEWLINE {
            joined_push(before, Seq::<u8>::empty());
            assert(joined(before) + Seq::<u8>::empty() =~= joined(before));
        } else {
            joined_push(before.drop_last(), before.last().push(bytes.last()));
            assert(joined(before.drop_last()) + before.last().push(bytes.last()) =~= (joined(
                before.drop_last(),
            ) + before.last()).push(bytes.last()));
        }
    }
}

/// The lines of a file, one after the other, are the file with its
/// delimiters removed.
pub proof fn text_lines_join(bytes: Seq<u8>)
    ensures
        joined(text_lines(bytes)) == without_newlines(bytes),
{
    segments_join(bytes);
    segments_nonempty(bytes);
    let all = segments(bytes);
    if all.last().len() == 0 {
        assert(joined(all.drop_last()) + all.last() =~= joined(all.drop_last()));
    }
}

/// The offset table of a file starts at 0, ends at the file's length, never
/// decreases, and cuts the file into its lines: the range between two
/// neighbouring offsets is a line with the newline that ends it, if any.
pub proof fn line_offsets_cut_lines(bytes: Seq<u8>)
    ensures
        line_offsets(bytes).len() == text_lines(bytes).len() + 1,
        line_offsets(bytes)[0] == 0,
        line_offsets(bytes).last() == bytes.len(),
        forall|k: int|
            0 <= k < line_offsets(bytes).len() ==> 0 <= #[trigger] line_offsets(bytes)[k]
                <= bytes.len(),
        forall|k: int|
            0 <= k < line_offsets(bytes).len() - 1 ==> {
                &&& line_offsets(bytes)[k] < #[trigger] line_offsets(bytes)[k + 1]
                &&& text_lines(bytes)[k] == strip_delimiter(
                    bytes.subrange(line_offsets(bytes)[k], line_offsets(bytes)[k + 1]),
                )
            },
{
    let table = line_offsets(bytes);
    let closed = closed_offsets(bytes);
    let segs = segments(bytes);
    let lines = text_lines(bytes);
    closed_offsets_delimit_segments(bytes);
    segments_nonempty(bytes);
    if bytes.len() > 0 && bytes.last() != NEWLINE {
        closed_offsets_delimit_segments(bytes.drop_last());
        assert(closed.last() < bytes.len());
        assert(segs.last().len() > 0);
        assert forall|k: int| 0 <= k < table.len() - 1 implies {
            &&& table[k] < #[trigger] table[k + 1]
            &&& lines[k] == strip_delimiter(bytes.subrange(table[k], table[k + 1]))
        } by {
            let range = bytes.subrange(table[k], table[k + 1]);
            if k < closed.len() - 1 {
                assert(closed[k] < closed[k + 1]);
                assert(range.last() == bytes[closed[k + 1] - 1]);
                assert(range.drop_last() =~= bytes.subrange(closed[k], closed[k + 1] - 1));
            } else {
                assert(range.last() == bytes.last());
            }
        }
    } else {
        if bytes.len() > 0 {
            assert(closed.last() == bytes.len());
        }
        assert(segs.last().len() == 0);
        assert forall|k: int| 0 <= k < table.len() - 1 implies {
            &&& table[k] < #[trigger] table[k + 1]
            &&& lines[k] == strip_delimiter(bytes.subrange(table[k], table[k + 1]))
        } by {
            let range = bytes.subrange(table[k], table[k + 1]);
            assert(closed[k] < closed[k + 1]);
            assert(range.last() == bytes[closed[k + 1] - 1]);
            assert(range.drop_last() =~= bytes.subrange(closed[k], closed[k + 1] - 1));
        }
    }
}

/// The 128-bit view with which the Arrow columnar format describes a
/// value that lies at `offset` in data buffer `buffer_index`: its length,
/// and either the value itself, if it is short, or its first bytes and its
/// place. It is what `arrow_array::builder::make_view` returns.
pub uninterp spec fn arrow_view(value: Seq<u8>, buffer_index: u32, offset: u32) -> u128;

/// Calls `arrow_array::builder::make_view`, which reads nothing but its
/// three arguments.
#[verifier::external_body]
pub(crate) fn make_arrow_view(value: &[u8], buffer_index: u32, offset: u32) -> (view: u128)
    ensures
        view == arrow_view(value@, buffer_index, offset),
{
    arrow_array::builder::make_view(value, buffer_index, offset)
}

/// The values of several arrays, array after array.
pub open spec fn all_values(arrays: Seq<ColumnarTextArray>) -> Seq<Seq<u8>>
    decreases arrays.len(),
{
    if arrays.len() == 0 {
        Seq::empty()
    } else {
        all_values(arrays.drop_last()) + arrays.last()@
    }
}

/// The number of values that the arrays before array `k` hold.
pub open spec fn values_before(arrays: Seq<ColumnarTextArray>, k: int) -> int {
    all_values(arrays.subrange(0, k)).len() as int
}

/// Each array's offset table is the stretch of `table` that belongs to its
/// values, the arrays taken as consecutive slices of one array.
#[verifier::opaque]
pub open spec fn tables_follow(arrays: Seq<ColumnarTextArray>, table: Seq<int>) -> bool {
    forall|k: int|
        0 <= k < arrays.len() ==> (#[trigger] arrays[k]).offset_table() == table.subrange(
            values_before(arrays, k),
            values_before(arrays, k) + arrays[k]@.len() + 1,
        )
}

/// One more slice, cut where the earlier ones end, keeps the tables in step.
pub proof fn tables_follow_push(
    arrays: Seq<ColumnarTextArray>,
    table: Seq<int>,
    next: ColumnarTextArray,
)
    requires
        tables_follow(arrays, table),
        next.offset_table() == table.subrange(
            all_values(arrays).len() as int,
            (all_values(arrays).len() + next@.len() + 1) as int,
        ),
    ensures
        tables_follow(arrays.push(next), table),
{
    reveal(tables_follow);
    let longer = arrays.push(next);
    assert forall|k: int| 0 <= k < longer.len() implies (#[trigger] longer[k]).offset_table()
        == table.subrange(
        values_before(longer, k),
        values_before(longer, k) + longer[k]@.len() + 1,
    ) by {
        if k < arrays.len() {
            assert(longer[k] == arrays[k]);
            assert(longer.subrange(0, k) =~= arrays.subrange(0, k));
        } else {
            assert(longer.subrange(0, k) =~= arrays);
        }
    }
}

/// Why a file cannot be exported.
#[derive(Clone, Copy, Debug, PartialEq, Eq, Structural)]
pub enum ExportError {
    /// The mapped region is longer than 32-bit offsets can address.
    TooLarge,
}

impl ExportError {
    /// The message of a failure.
    pub open spec fn message_text(self) -> Seq<char> {
        match self {
            ExportError::TooLarge =>
                "File is too large for standard StringArray (exceeds 2GB). Use LargeStringArray."@,
        }
    }

    /// The message to show for this failure.
    pub fn message(&self) -> (text: String)
        ensures
            text@ == self.message_text(),
    {
        match self {
            ExportError::TooLarge =>
                "File is too large for standard StringArray (exceeds 2GB). Use LargeStringArray.".to_owned(),
        }
    }
}

/// A line-indexed array of string values over the bytes of a mapped file.
/// It borrows the mapped bytes, so the mapping outlives the array and every
/// slice of it.
#[derive(Debug)]
pub struct ColumnarTextArray<'a> {
    data: &'a [u8],
    offsets: Vec<i32>,
}

impl<'a> View for ColumnarTextArray<'a> {
    type V = Seq<Seq<u8>>;

    /// The values, in order.
    open spec fn view(&self) -> Seq<Seq<u8>> {
        Seq::new((self.offset_table().len() - 1) as nat, |i: int| self.value_at(i))
    }
}

impl<'a> ColumnarTextArray<'a> {
    /// The mapped bytes that the offsets point into.
    pub closed spec fn region(&self) -> Seq<u8> {
        self.data@
    }

    /// The offsets: one more than there are values.
    pub closed spec fn offset_table(&self) -> Seq<int> {
        self.offsets@.map_values(|o: i32| o as int)
    }

    /// Value `i`: the bytes between offset `i` and offset `i + 1`, a
    /// delimiter at their end left out.
    pub open spec fn value_at(&self, i: int) -> Seq<u8> {
        strip_delimiter(self.region().subrange(self.offset_table()[i], self.offset_table()[i + 1]))
    }

    /// The table is not empty, stays inside the region and never decreases;
    /// the region is one that 32-bit offsets can address.
    #[verifier::type_invariant]
    spec fn well_formed(&self) -> bool {
        &&& self.region().len() <= MAX_REGION
        &&& self.offset_table().len() >= 1
        &&& forall|k: int|
            0 <= k < self.offset_table().len() ==> 0 <= #[trigger] self.offset_table()[k]
                <= self.region().len()
        &&& forall|k: int|
            0 <= k < self.offset_table().len() - 1 ==> self.offset_table()[k]
                <= #[trigger] self.offset_table()[k + 1]
    }

    /// The number of values.
    pub fn len(&self) -> (n: usize)
        ensures
            n == self@.len(),
    {
        proof {
            use_type_invariant(self);
        }
        self.offsets.len() - 1
    }

    /// Whether the array has no value, as that of an empty file.
    pub fn is_empty(&self) -> (none: bool)
        ensures
            none == (self@.len() == 0),
    {
        self.len() == 0
    }

    /// The mapped bytes.
    pub fn data(&self) -> (bytes: &'a [u8])
        ensures
            bytes@ == self.region(),
    {
        self.data
    }

    /// The offset table.
    pub fn offsets(&self) -> (table: &[i32])
        ensures
            table@.map_values(|o: i32| o as int) == self.offset_table(),
    {
        self.offsets.as_slice()
    }

    /// Value `i`, zero-copy.
    pub fn value(&self, i: usize) -> (bytes: &'a [u8])
        requires
            i < self@.len(),
        ensures
            bytes@ == self@[i as int],
    {
        proof {
            use_type_invariant(self);
            assert(self@.len() == self.offsets@.len() - 1);
            assert(self.offset_table()[i as int] == self.offsets@[i as int]);
            assert(self.offset_table()[i + 1] == self.offsets@[i + 1]);
        }
        let entries = self.offsets.len();
        proof {
            assert(i + 1 < entries);
        }
        let start = self.offsets[i] as usize;
        let end = self.offsets[i + 1] as usize;
        proof {
            assert(self.offset_table()[i as int] == start);
            assert(self.offset_table()[i + 1] == end);
        }
        if end > start && self.data[end - 1] == NEWLINE {
            proof {
                assert(self.data@.subrange(start as int, end as int).drop_last()
                    =~= self.data@.subrange(start as int, end - 1));
            }
            &self.data[start..end - 1]
        } else {
            &self.data[start..end]
        }
    }

    /// The number of bytes in value `i`.
    pub fn value_length(&self, i: usize) -> (n: usize)
        requires
            i < self@.len(),
        ensures
            n == self@[i as int].len(),
    {
        self.value(i).len()
    }

    /// The values as views into the mapped region, for an Arrow view array
    /// whose one data buffer is that region: view `i` describes value `i`,
    /// delimiter left out, at the offset at which it starts.
    pub fn to_arrow_views(&self) -> (views: Vec<u128>)
        ensures
            views@.len() == self@.len(),
            forall|i: int|
                0 <= i < self@.len() ==> #[trigger] views@[i] == arrow_view(
                    self@[i],
                    0,
                    self.offset_table()[i] as u32,
                ),
    {
        proof {
            use_type_invariant(self);
        }
        let total = self.len();
        let mut views: Vec<u128> = Vec::new();
        let mut i: usize = 0;
        while i < total
            invariant
                total == self@.len(),
                total == self.offsets@.len() - 1,
                i <= total,
                views@.len() == i,
                forall|k: int|
                    0 <= k < self.offset_table().len() ==> 0 <= #[trigger] self.offset_table()[k]
                        <= MAX_REGION,
                forall|j: int|
                    0 <= j < i ==> #[trigger] views@[j] == arrow_view(
                        self@[j],
                        0,
                        self.offset_table()[j] as u32,
                    ),
            decreases total - i,
        {
            proof {
                assert(self.offset_table()[i as int] == self.offsets@[i as int]);
            }
            let view = make_arrow_view(self.value(i), 0, self.offsets[i] as u32);
            views.push(view);
            i = i + 1;
        }
        views
    }

    /// Values lie between their offsets, so those from `lo` up to `hi` hold
    /// no more bytes than the offsets are apart.
    proof fn values_fit_between_offsets(self, lo: int, hi: int)
        requires
            self.well_formed(),
            0 <= lo <= hi <= self@.len(),
        ensures
            total_bytes(self@.subrange(lo, hi)) <= self.offset_table()[hi]
                - self.offset_table()[lo],
            self.offset_table()[hi] - self.offset_table()[lo] <= MAX_REGION,
        decreases hi - lo,
    {
        if lo < hi {
            self.values_fit_between_offsets(lo, hi - 1);
            assert(self@.subrange(lo, hi).drop_last() =~= self@.subrange(lo, hi - 1));
            assert(self@.subrange(lo, hi).last() == self.value_at(hi - 1));
            assert(self.offset_table()[hi - 1] <= self.offset_table()[hi - 1 + 1]);
        } else {
            assert(self.offset_table()[lo] <= self.region().len());
        }
    }

    /// The slice of `count` values that starts at value `first`. Only
    /// offsets are copied; the slice points into the same mapped bytes.
    pub fn slice(&self, first: usize, count: usize) -> (part: ColumnarTextArray<'a>)
        requires
            first + count <= self@.len(),
        ensures
            part.region() == self.region(),
            part.offset_table() == self.offset_table().subrange(
                first as int,
                first + count + 1,
            ),
            part@ == self@.subrange(first as int, first + count),
    {
        proof {
            use_type_invariant(self);
        }
        let entries = self.offsets.len();
        proof {
            assert(first + count + 1 <= entries);
        }
        let table = slice_to_vec(slice_subrange(self.offsets.as_slice(), first, first + count + 1));
        proof {
            assert(table@.map_values(|o: i32| o as int) =~= self.offset_table().subrange(
                first as int,
                first + count + 1,
            ));
            let sub = self.offset_table().subrange(first as int, first + count + 1);
            assert forall|k: int| 0 <= k < sub.len() implies 0 <= #[trigger] sub[k]
                <= self.region().len() by {
                assert(sub[k] == self.offset_table()[first + k]);
            }
            assert forall|k: int| 0 <= k < sub.len() - 1 implies sub[k] <= #[trigger] sub[k
                + 1] by {
                assert(self.offset_table()[first + k] <= self.offset_table()[first + k + 1]);
            }
        }
        let part = ColumnarTextArray { data: self.data, offsets: table };
        proof {
            assert(part@ =~= self@.subrange(first as int, first + count));
        }
        part
    }

    /// How many values the slice that starts at value `from` takes under a
    /// budget of `max_bytes`: as many as fit, and one in any case, so that a
    /// value larger than the budget goes out alone.
    pub fn chunk_len(&self, from: usize, max_bytes: usize) -> (n: usize)
        requires
            from < self@.len(),
        ensures
            1 <= n <= self@.len() - from,
            n == 1 || total_bytes(self@.subrange(from as int, from + n)) <= max_bytes,
            from + n == self@.len() || total_bytes(self@.subrange(from as int, from + n))
                + self@[from + n].len() > max_bytes,
    {
        proof {
            use_type_invariant(self);
        }
        let total = self.len();
        let mut used = self.value_length(from);
        let mut n: usize = 1;
        let mut full = false;
        proof {
            joined_push(Seq::<Seq<u8>>::empty(), self@[from as int]);
            assert(self@.subrange(from as int, from + 1) =~= Seq::<Seq<u8>>::empty().push(
                self@[from as int],
            ));
        }
        while !full && from + n < total
            invariant
                self.well_formed(),
                total == self@.len(),
                1 <= n <= total - from,
                used == total_bytes(self@.subrange(from as int, from + n)),
                n == 1 || used <= max_bytes,
                full ==> from + n < total && used + self@[from + n].len() > max_bytes,
            decreases total - from - n + if full { 0int } else { 1int },
        {
            let size = self.value_length(from + n);
            proof {
                self.values_fit_between_offsets(from as int, from + n + 1);
                joined_push(self@.subrange(from as int, from + n), self@[from + n]);
                assert(self@.subrange(from as int, from + n + 1) =~= self@.subrange(
                    from as int,
                    from + n,
                ).push(self@[from + n]));
            }
            if used + size > max_bytes {
                full = true;
            } else {
                used = used + size;
                n = n + 1;
            }
        }
        n
    }

    /// Cuts the array into consecutive slices under a byte budget. Each
    /// slice takes as many values as fit; a value larger than the budget
    /// makes a slice of its own. The slices cover the array once, in order.
    pub fn chunks(&self, max_bytes: usize) -> (parts: Vec<ColumnarTextArray<'a>>)
        ensures
            all_values(parts@) == self@,
            forall|k: int| 0 <= k < parts@.len() ==> (#[trigger] parts@[k]).region() == self.region(),
            forall|k: int|
                0 <= k < parts@.len() ==> (#[trigger] parts@[k]).offset_table()
                    == self.offset_table().subrange(
                    values_before(parts@, k),
                    values_before(parts@, k) + parts@[k]@.len() + 1,
                ),
            forall|k: int| 0 <= k < parts@.len() ==> (#[trigger] parts@[k])@.len() >= 1,
            forall|k: int|
                0 <= k < parts@.len() ==> (#[trigger] parts@[k])@.len() == 1 || total_bytes(
                    parts@[k]@,
                ) <= max_bytes,
            forall|k: int|
                0 <= k < parts@.len() - 1 ==> total_bytes((#[trigger] parts@[k])@) + parts@[k
                    + 1]@[0].len() > max_bytes,
    {
        let total = self.len();
        let mut parts: Vec<ColumnarTextArray<'a>> = Vec::new();
        let mut from: usize = 0;
        proof {
            assert(self@.subrange(0, 0) =~= all_values(parts@));
            assert(tables_follow(parts@, self.offset_table())) by {
                reveal(tables_follow);
            }
        }
        while from < total
            invariant
                total == self@.len(),
                from <= total,
                all_values(parts@) == self@.subrange(0, from as int),
                forall|k: int|
                    0 <= k < parts@.len() ==> (#[trigger] parts@[k]).region() == self.region(),
                tables_follow(parts@, self.offset_table()),
                forall|k: int| 0 <= k < parts@.len() ==> (#[trigger] parts@[k])@.len() >= 1,
                forall|k: int|
                    0 <= k < parts@.len() ==> (#[trigger] parts@[k])@.len() == 1 || total_bytes(
                        parts@[k]@,
                    ) <= max_bytes,
                forall|k: int|
                    0 <= k < parts@.len() - 1 ==> total_bytes((#[trigger] parts@[k])@)
                        + parts@[k + 1]@[0].len() > max_bytes,
                parts@.len() > 0 && from < total ==> total_bytes(parts@.last()@)
                    + self@[from as int].len() > max_bytes,
            decreases total - from,
        {
            let n = self.chunk_len(from, max_bytes);
            let part = self.slice(from, n);
            let ghost before = parts@;
            parts.push(part);
            proof {
                assert(parts@.drop_last() =~= before);
                assert(self@.subrange(0, from as int) + self@.subrange(from as int, from + n)
                    =~= self@.subrange(0, from + n));
                assert(part@[0] == self@[from as int]);
                tables_follow_push(before, self.offset_table(), part);
                assert(parts@ =~= before.push(part));
                assert forall|k: int| 0 <= k < parts@.len() - 1 implies total_bytes(
                    (#[trigger] parts@[k])@,
                ) + parts@[k + 1]@[0].len() > max_bytes by {
                    if k < before.len() - 1 {
                        assert(parts@[k] == before[k]);
                        assert(parts@[k + 1] == before[k + 1]);
                    } else {
                        assert(parts@[k] == before.last());
                    }
                }
            }
            from = from + n;
        }
        proof {
            assert(self@.subrange(0, total as int) =~= self@);
            reveal(tables_follow);
        }
        parts
    }
}

/// Builds the array of a mapped file in one forward scan for newlines. An
/// empty file gives an array without values. A region that 32-bit offsets
/// cannot address is refused, never truncated.
pub fn create_arrow_string_array_from_mmap<'a>(mapped: &'a [u8]) -> (made: Result<
    ColumnarTextArray<'a>,
    ExportError,
>)
    ensures
        made is Err <==> mapped@.len() > MAX_REGION,
        made matches Ok(array) ==> {
            &&& array.region() == mapped@
            &&& array.offset_table() == line_offsets(mapped@)
            &&& array@ == text_lines(mapped@)
            &&& joined(array@) == without_newlines(mapped@)
            &&& array.offset_table()[0] == 0
            &&& array.offset_table().last() == mapped@.len()
        },
{
    let len = mapped.len();
    if len > MAX_REGION {
        return Err(ExportError::TooLarge);
    }
    let mut offsets: Vec<i32> = Vec::new();
    offsets.push(0i32);
    let mut start: usize = 0;
    let mut unterminated = false;
    proof {
        assert(mapped@.subrange(0, 0) =~= Seq::<u8>::empty());
        assert(offsets@.map_values(|o: i32| o as int) =~= closed_offsets(mapped@.subrange(0, 0)));
    }
    while start < len
        invariant
            len == mapped@.len(),
            len <= MAX_REGION,
            start <= len,
            !unterminated && start > 0 ==> mapped@[start - 1] == NEWLINE,
            !unterminated ==> offsets@.map_values(|o: i32| o as int) == closed_offsets(
                mapped@.subrange(0, start as int),
            ),
            unterminated ==> start == len && len > 0 && mapped@.last() != NEWLINE
                && offsets@.map_values(|o: i32| o as int) == closed_offsets(mapped@).push(
                len as int,
            ),
        decreases len - start,
    {
        let rest = &mapped[start..len];
        let ghost prefix = mapped@.subrange(0, start as int);
        let ghost before = offsets@;
        match find_byte(NEWLINE, rest) {
            Some(skip) => {
                let next = start + skip + 1;
                offsets.push(next as i32);
                proof {
                    let run = mapped@.subrange(start as int, next - 1);
                    assert(newline_free(run)) by {
                        assert forall|i: int| 0 <= i < run.len() implies run[i] != NEWLINE by {
                            assert(run[i] == rest@[i]);
                        }
                    }
                    closed_offsets_after_run(prefix, run);
                    closed_offsets_after_newline(prefix + run);
                    assert(rest@[skip as int] == NEWLINE);
                    assert((prefix + run).push(NEWLINE) =~= mapped@.subrange(0, next as int));
                    assert(before.push(next as i32).map_values(|o: i32| o as int)
                        =~= before.map_values(|o: i32| o as int).push(next as int));
                }
                start = next;
            },
            None => {
                offsets.push(len as i32);
                proof {
                    assert(newline_free(rest@));
                    closed_offsets_after_run(prefix, rest@);
                    assert(prefix + rest@ =~= mapped@);
                    assert(mapped@.last() == rest@.last());
                    assert(before.push(len as i32).map_values(|o: i32| o as int)
                        =~= before.map_values(|o: i32| o as int).push(len as int));
                }
                unterminated = true;
                start = len;
            },
        }
    }
    proof {
        assert(mapped@.subrange(0, len as int) =~= mapped@);
        line_offsets_cut_lines(mapped@);
        text_lines_join(mapped@);
    }
    let array = ColumnarTextArray { data: mapped, offsets };
    proof {
        assert(array.offset_table() == line_offsets(mapped@));
        assert(array@ =~= text_lines(mapped@));
    }
    Ok(array)
}

/// Exports a mapped file in slices under a byte budget: the array of the
/// whole file, cut by [`ColumnarTextArray::chunks`].
pub fn read_mmap_to_arrow_chunked<'a>(mapped: &'a [u8], max_bytes: usize) -> (made: Result<
    Vec<ColumnarTextArray<'a>>,
    ExportError,
>)
    ensures
        made is Err <==> mapped@.len() > MAX_REGION,
        made matches Ok(parts) ==> {
            &&& all_values(parts@) == text_lines(mapped@)
            &&& forall|k: int|
                0 <= k < parts@.len() ==> (#[trigger] parts@[k]).region() == mapped@
            &&& forall|k: int|
                0 <= k < parts@.len() ==> (#[trigger] parts@[k]).offset_table() == line_offsets(
                    mapped@,
                ).subrange(
                    values_before(parts@, k),
                    values_before(parts@, k) + parts@[k]@.len() + 1,
                )
            &&& forall|k: int| 0 <= k < parts@.len() ==> (#[trigger] parts@[k])@.len() >= 1
            &&& forall|k: int|
                0 <= k < parts@.len() ==> (#[trigger] parts@[k])@.len() == 1 || total_bytes(
                    parts@[k]@,
                ) <= max_bytes
            &&& forall|k: int|
                0 <= k < parts@.len() - 1 ==> total_bytes((#[trigger] parts@[k])@) + parts@[k
                    + 1]@[0].len() > max_bytes
        },
{
    match create_arrow_string_array_from_mmap(mapped) {
        Ok(array) => Ok(array.chunks(max_bytes)),
        Err(e) => Err(e),
    }
}

} // verus!
