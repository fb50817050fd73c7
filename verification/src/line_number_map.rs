//! Monotone piecewise maps between the line numberings of two commits.
//!
//! From an ascending part list, `new_new_from_old` builds a map that takes a
//! line number valid on the parent ("old") side of a commit to the matching
//! line number on the child ("new") side; `new_old_from_new` builds the
//! mirror-image map.  A map is a partition of `[0, usize::MAX]` into boundary
//! items, each carrying the accumulated insertion (`add`) and deletion
//! (`sub`) counts in force on its stretch; a query lands in one item and is
//! shifted by `add - sub`, or clamped to the first surviving line when it
//! lands in a deleted span.

use vstd::prelude::*;

use crate::diff_part::{part_wf, parts_list_valid, DiffPart, DiffRange};
use crate::errors::BlameError;

verus! {

/// One boundary item: on `[start, end]`, queries shift by `add - sub`;
/// on a delete item they clamp to `start + add - sub`.
#[derive(Clone, Copy, Debug, PartialEq, Eq, Structural)]
pub struct LineNumberMapItem {
    pub start: usize,
    pub end: usize,
    pub add: usize,
    pub sub: usize,
    pub is_delete: bool,
}

/// The items a single part contributes, given the insertion and deletion
/// counts accumulated before it.  `end` fields are assigned later.
pub open spec fn part_items(p: DiffPart, add: int, sub: int) -> Seq<LineNumberMapItem> {
    let old_size = p.old.spec_len();
    let new_size = p.new.spec_len();
    if new_size == old_size {
        Seq::empty()
    } else if new_size > old_size {
        seq![
            LineNumberMapItem {
                start: (p.old.start + old_size) as usize,
                end: 0,
                add: (add + (new_size - old_size)) as usize,
                sub: sub as usize,
                is_delete: false,
            },
        ]
    } else {
        seq![
            LineNumberMapItem {
                start: (p.old.start + new_size) as usize,
                end: 0,
                add: add as usize,
                sub: sub as usize,
                is_delete: true,
            },
            LineNumberMapItem {
                start: (p.old.start + old_size) as usize,
                end: 0,
                add: add as usize,
                sub: (sub + (old_size - new_size)) as usize,
                is_delete: false,
            },
        ]
    }
}

/// Insertions accumulated over a whole part list.
pub open spec fn add_acc(parts: Seq<DiffPart>) -> int
    decreases parts.len(),
{
    if parts.len() == 0 {
        0
    } else {
        let p = parts.last();
        add_acc(parts.drop_last()) + if p.new.spec_len() > p.old.spec_len() {
            p.new.spec_len() - p.old.spec_len()
        } else {
            0
        }
    }
}

/// Deletions accumulated over a whole part list.
pub open spec fn sub_acc(parts: Seq<DiffPart>) -> int
    decreases parts.len(),
{
    if parts.len() == 0 {
        0
    } else {
        let p = parts.last();
        sub_acc(parts.drop_last()) + if p.old.spec_len() > p.new.spec_len() {
            p.old.spec_len() - p.new.spec_len()
        } else {
            0
        }
    }
}

/// All items contributed by a part list, before `end` assignment.
pub open spec fn raw_items(parts: Seq<DiffPart>) -> Seq<LineNumberMapItem>
    decreases parts.len(),
{
    if parts.len() == 0 {
        Seq::empty()
    } else {
        raw_items(parts.drop_last()) + part_items(
            parts.last(),
            add_acc(parts.drop_last()),
            sub_acc(parts.drop_last()),
        )
    }
}

/// Give every item its `end`: the next item's `start`, and `usize::MAX`
/// for the last, so the items partition `[first.start, usize::MAX]`.
pub open spec fn with_ends(raw: Seq<LineNumberMapItem>) -> Seq<LineNumberMapItem> {
    Seq::new(
        raw.len(),
        |i: int|
            LineNumberMapItem {
                end: if i == raw.len() - 1 {
                    usize::MAX
                } else {
                    raw[i + 1].start
                },
                ..raw[i]
            },
    )
}

/// The items a part list builds into.
pub open spec fn built_items(parts: Seq<DiffPart>) -> Seq<LineNumberMapItem> {
    with_ends(raw_items(parts))
}

/// Well-formed item sequence: contiguous ascending stretches covering up to
/// `usize::MAX`, with deletion counts never exceeding the stretch start.
pub open spec fn items_wf(items: Seq<LineNumberMapItem>) -> bool {
    &&& forall|i: int, j: int|
        #![trigger items[i], items[j]]
        0 <= i && j == i + 1 && j < items.len() ==> items[i].end == items[j].start
    &&& items.len() > 0 ==> items.last().end == usize::MAX
    &&& forall|i: int| 0 <= i < items.len() ==> (#[trigger] items[i]).start <= items[i].end
    &&& forall|i: int| 0 <= i < items.len() ==> (#[trigger] items[i]).sub <= items[i].start
}

/// What one item does to a query value.
pub open spec fn item_map(item: LineNumberMapItem, v: int) -> int {
    if v < item.start {
        v
    } else if item.is_delete {
        item.start + item.add - item.sub
    } else if v == usize::MAX {
        usize::MAX as int
    } else {
        v + item.add - item.sub
    }
}

/// What the whole map does to a query value: the first item whose stretch
/// has not ended before `v` decides.
pub open spec fn map_value(items: Seq<LineNumberMapItem>, v: int) -> int
    decreases items.len(),
{
    if items.len() == 0 {
        v
    } else if v <= items[0].end {
        item_map(items[0], v)
    } else {
        map_value(items.drop_first(), v)
    }
}

/// Skipping items whose stretch ended before `v` does not change the result.
proof fn lemma_map_value_skip(items: Seq<LineNumberMapItem>, v: int, j: int)
    requires
        0 <= j <= items.len(),
        forall|m: int| 0 <= m < j ==> (#[trigger] items[m]).end < v,
    ensures
        map_value(items, v) == map_value(items.skip(j), v),
    decreases j,
{
    if j > 0 {
        assert(items[0].end < v);
        lemma_map_value_skip(items.drop_first(), v, j - 1);
        assert(items.drop_first().skip(j - 1) =~= items.skip(j));
    } else {
        assert(items.skip(0) =~= items);
    }
}

/// Dropping the first item of a well-formed sequence keeps it well-formed.
proof fn lemma_items_wf_drop_first(items: Seq<LineNumberMapItem>)
    requires
        items_wf(items),
        items.len() > 1,
    ensures
        items_wf(items.drop_first()),
{
    let s = items.drop_first();
    assert forall|i: int, j: int|
        #![trigger s[i], s[j]]
        0 <= i && j == i + 1 && j < s.len() implies s[i].end == s[j].start by {
        assert(items[i + 1].end == items[i + 2].start);
    }
    assert(s.last() == items.last());
}

/// A well-formed map never sends a non-negative value below zero.
proof fn lemma_map_value_nonneg(items: Seq<LineNumberMapItem>, v: int)
    requires
        items_wf(items),
        0 <= v <= usize::MAX,
    ensures
        map_value(items, v) >= 0,
    decreases items.len(),
{
    if items.len() == 0 {
    } else if v <= items[0].end {
        assert(items[0].sub <= items[0].start);
    } else {
        assert(items.last().end == usize::MAX);
        assert(items.len() > 1);
        lemma_items_wf_drop_first(items);
        lemma_map_value_nonneg(items.drop_first(), v);
    }
}

/// A non-decreasing sequence of values.
pub open spec fn values_non_decreasing(s: Seq<usize>) -> bool {
    forall|i: int, j: int|
        #![trigger s[i], s[j]]
        0 <= i && j == i + 1 && j < s.len() ==> s[i] <= s[j]
}

/// Every mapped value fits in `usize`.
pub open spec fn mapped_values_fit(items: Seq<LineNumberMapItem>, s: Seq<usize>) -> bool {
    forall|i: int|
        #![trigger s[i]]
        0 <= i < s.len() ==> map_value(items, s[i] as int) <= usize::MAX
}

/// The mapped values are non-decreasing in turn.
pub open spec fn mapped_values_non_decreasing(
    items: Seq<LineNumberMapItem>,
    s: Seq<usize>,
) -> bool {
    forall|i: int, j: int|
        #![trigger s[i], s[j]]
        0 <= i && j == i + 1 && j < s.len() ==> map_value(items, s[i] as int) <= map_value(
            items,
            s[j] as int,
        )
}

/// A value stream the map accepts: non-decreasing, with every mapped value
/// representable and the mapped stream non-decreasing as well.  An empty map
/// accepts everything (and changes nothing).
pub open spec fn values_mappable(items: Seq<LineNumberMapItem>, s: Seq<usize>) -> bool {
    items.len() == 0 || {
        &&& values_non_decreasing(s)
        &&& mapped_values_fit(items, s)
        &&& mapped_values_non_decreasing(items, s)
    }
}

/// A monotone piecewise map from one side's line numbers to the other's.
#[derive(Debug)]
pub struct LineNumberMap {
    items: Vec<LineNumberMapItem>,
}

impl View for LineNumberMap {
    type V = Seq<LineNumberMapItem>;

    closed spec fn view(&self) -> Seq<LineNumberMapItem> {
        self.items@
    }
}

impl LineNumberMap {
    /// The map of an empty part list: the identity.
    pub fn empty() -> (r: LineNumberMap)
        ensures
            r@ == Seq::<LineNumberMapItem>::empty(),
            items_wf(r@),
    {
        let r = LineNumberMap { items: Vec::new() };
        proof {
            assert(r@ =~= Seq::<LineNumberMapItem>::empty());
        }
        r
    }

    /// Build the map that takes old-side line numbers to new-side ones.
    pub fn new_new_from_old(parts: &Vec<DiffPart>) -> (r: LineNumberMap)
        requires
            parts_list_valid(parts@),
        ensures
            r@ == built_items(parts@),
            items_wf(r@),
    {
        let mut raw: Vec<LineNumberMapItem> = Vec::new();
        let mut add: usize = 0;
        let mut sub: usize = 0;
        let ghost all = parts@;
        let mut i: usize = 0;
        while i < parts.len()
            invariant
                parts_list_valid(all),
                all == parts@,
                i <= parts.len(),
                raw@ == raw_items(all.subrange(0, i as int)),
                add == add_acc(all.subrange(0, i as int)),
                sub == sub_acc(all.subrange(0, i as int)),
                add <= if i == 0 {
                    0
                } else {
                    all[i - 1].new.end
                },
                sub <= if i == 0 {
                    0
                } else {
                    all[i - 1].old.end
                },
                raw_starts_ordered_up_to(raw@),
                raw@.len() > 0 && i > 0 ==> raw@.last().start <= all[i - 1].old.end,
                forall|k: int| 0 <= k < raw@.len() ==> (#[trigger] raw@[k]).sub <= raw@[k].start,
            decreases parts.len() - i,
        {
            let ghost pref = all.subrange(0, i as int);
            let ghost pref1 = all.subrange(0, i + 1);
            proof {
                assert(pref1.drop_last() =~= pref);
                assert(pref1.last() == all[i as int]);
                if i > 0 {
                    // adjacent ordering between parts i-1 and i
                    assert(all[i as int].old.start >= all[i - 1].old.end);
                    assert(all[i as int].new.start >= all[i - 1].new.end);
                }
                assert(part_wf(all[i as int]));
            }
            let part = &parts[i];
            let old_size = part.old.len();
            let new_size = part.new.len();
            if new_size > old_size {
                let start = part.old.start + old_size;
                add = add + (new_size - old_size);
                raw.push(
                    LineNumberMapItem { start, end: 0, add, sub, is_delete: false },
                );
            } else if new_size < old_size {
                let start = part.old.start + new_size;
                raw.push(
                    LineNumberMapItem { start, end: 0, add, sub, is_delete: true },
                );
                let delta = old_size - new_size;
                sub = sub + delta;
                raw.push(
                    LineNumberMapItem {
                        start: start + delta,
                        end: 0,
                        add,
                        sub,
                        is_delete: false,
                    },
                );
            }
            i = i + 1;
            proof {
                assert(raw@ =~= raw_items(pref1));
            }
        }
        proof {
            assert(all.subrange(0, all.len() as int) =~= all);
        }
        // Assign each item's `end`: the next item's `start`, `usize::MAX`
        // for the last.
        let mut items: Vec<LineNumberMapItem> = Vec::new();
        let mut k: usize = 0;
        while k < raw.len()
            invariant
                k <= raw.len(),
                raw@ == raw_items(all),
                raw_starts_ordered_up_to(raw@),
                forall|m: int| 0 <= m < raw@.len() ==> (#[trigger] raw@[m]).sub <= raw@[m].start,
                items@ == with_ends(raw@).subrange(0, k as int),
            decreases raw.len() - k,
        {
            let end = if k + 1 < raw.len() {
                raw[k + 1].start
            } else {
                usize::MAX
            };
            let item = raw[k];
            items.push(LineNumberMapItem { end, ..item });
            k = k + 1;
            proof {
                assert(items@ =~= with_ends(raw@).subrange(0, k as int));
            }
        }
        proof {
            assert(items@ =~= with_ends(raw@));
        }
        let r = LineNumberMap { items };
        proof {
            lemma_with_ends_wf(raw@);
        }
        r
    }

    /// Build the map that takes new-side line numbers back to old-side ones:
    /// the same construction with the roles of the two sides exchanged.
    pub fn new_old_from_new(parts: &Vec<DiffPart>) -> (r: LineNumberMap)
        requires
            parts_list_valid(parts@),
        ensures
            r@ == built_items(swap_parts(parts@)),
            items_wf(r@),
    {
        let mut swapped: Vec<DiffPart> = Vec::new();
        let mut i: usize = 0;
        while i < parts.len()
            invariant
                i <= parts.len(),
                swapped@ == swap_parts(parts@.subrange(0, i as int)),
            decreases parts.len() - i,
        {
            let part = &parts[i];
            swapped.push(DiffPart { old: part.new, new: part.old });
            i = i + 1;
            proof {
                assert(swapped@ =~= swap_parts(parts@.subrange(0, i as int)));
            }
        }
        proof {
            assert(parts@.subrange(0, parts@.len() as int) =~= parts@);
            assert(parts_list_valid(swap_parts(parts@)));
        }
        Self::new_new_from_old(&swapped)
    }

    /// Map one line number.  Fails exactly when the shifted value would not
    /// fit in `usize`.
    pub fn map(&self, old_line: usize) -> (r: Result<usize, BlameError>)
        requires
            items_wf(self@),
        ensures
            r is Ok <==> (self@.len() == 0 || map_value(self@, old_line as int) <= usize::MAX),
            r is Ok ==> r.unwrap() == map_value(self@, old_line as int),
    {
        let mut values: Vec<usize> = Vec::new();
        values.push(old_line);
        let mapped = self.map_values(&values);
        match mapped {
            Ok(out) => {
                proof {
                    assert(values@[0] == old_line);
                }
                Ok(out[0])
            },
            Err(e) => {
                proof {
                    if self@.len() > 0 {
                        assert(values_non_decreasing(values@));
                        assert(mapped_values_non_decreasing(self@, values@));
                        assert(!mapped_values_fit(self@, values@));
                        assert(map_value(self@, values@[0] as int) > usize::MAX);
                    }
                }
                Err(e)
            },
        }
    }

    /// Map a non-decreasing stream of values in one forward pass.
    /// Fails exactly when the stream is not accepted (`values_mappable`);
    /// on failure nothing is changed.
    pub fn apply_to_values(&self, values: &mut Vec<usize>) -> (r: Result<(), BlameError>)
        requires
            items_wf(self@),
        ensures
            r is Ok <==> values_mappable(self@, old(values)@),
            r is Ok ==> {
                &&& final(values)@.len() == old(values)@.len()
                &&& forall|i: int|
                    0 <= i < old(values)@.len() ==> final(values)@[i] == map_value(
                        self@,
                        old(values)@[i] as int,
                    )
            },
            r is Err ==> final(values)@ == old(values)@,
    {
        match self.map_values(values) {
            Ok(out) => {
                *values = out;
                Ok(())
            },
            Err(e) => Err(e),
        }
    }

    /// Map every value of the stream into a fresh vector.
    fn map_values(&self, values: &Vec<usize>) -> (r: Result<Vec<usize>, BlameError>)
        requires
            items_wf(self@),
        ensures
            r is Ok <==> values_mappable(self@, values@),
            r is Ok ==> {
                &&& r.unwrap()@.len() == values@.len()
                &&& forall|i: int|
                    0 <= i < values@.len() ==> r.unwrap()@[i] == map_value(
                        self@,
                        values@[i] as int,
                    )
            },
    {
        let ghost items = self@;
        let mut out: Vec<usize> = Vec::new();
        if self.items.len() == 0 {
            let mut i: usize = 0;
            while i < values.len()
                invariant
                    i <= values.len(),
                    out@.len() == i,
                    items.len() == 0,
                    items == self@,
                    forall|m: int| 0 <= m < i ==> out@[m] == map_value(items, values@[m] as int),
                decreases values.len() - i,
            {
                out.push(values[i]);
                i = i + 1;
            }
            return Ok(out);
        }
        let mut j: usize = 0;
        let mut last_value: usize = 0;
        let mut last_new_value: usize = 0;
        let mut i: usize = 0;
        while i < values.len()
            invariant
                items_wf(items),
                items == self@,
                items.len() > 0,
                self.items@ == items,
                i <= values.len(),
                j < items.len(),
                out@.len() == i,
                forall|m: int| 0 <= m < i ==> out@[m] == map_value(items, values@[m] as int),
                forall|m: int, n: int|
                    #![trigger values@[m], values@[n]]
                    0 <= m && n == m + 1 && n < i ==> values@[m] <= values@[n],
                forall|m: int, n: int|
                    #![trigger values@[m], values@[n]]
                    0 <= m && n == m + 1 && n < i ==> map_value(items, values@[m] as int)
                        <= map_value(items, values@[n] as int),
                i > 0 ==> last_value == values@[i - 1],
                i > 0 ==> last_new_value == map_value(items, values@[i - 1] as int),
                i == 0 ==> last_value == 0 && last_new_value == 0 && j == 0,
                forall|m: int| 0 <= m < j ==> (#[trigger] items[m]).end < last_value,
            decreases values.len() - i,
        {
            let v = values[i];
            if v < last_value {
                proof {
                    assert(values@[i as int] < values@[i - 1]);
                    assert(!values_non_decreasing(values@));
                }
                return Err(BlameError::InvariantViolation);
            }
            while j < self.items.len() && v > self.items[j].end
                invariant
                    items_wf(items),
                    self.items@ == items,
                    j < items.len(),
                    forall|m: int| 0 <= m < j ==> (#[trigger] items[m]).end < v,
                decreases items.len() - j,
            {
                proof {
                    // the last stretch ends at usize::MAX, so the scan stops
                    if j == items.len() - 1 {
                        assert(items.last().end == usize::MAX);
                        assert(false);
                    }
                }
                j = j + 1;
            }
            let item = &self.items[j];
            proof {
                lemma_map_value_skip(items, v as int, j as int);
                assert(items.skip(j as int)[0] == items[j as int]);
                assert(v <= items[j as int].end);
                assert(map_value(items.skip(j as int), v as int) == item_map(
                    items[j as int],
                    v as int,
                ));
            }
            let new_value: usize;
            if v < item.start {
                new_value = v;
            } else if item.is_delete {
                let base = item.start - item.sub;
                if item.add > usize::MAX - base {
                    proof {
                        assert(map_value(items, v as int) > usize::MAX);
                        assert(!mapped_values_fit(items, values@));
                    }
                    return Err(BlameError::InvariantViolation);
                }
                new_value = base + item.add;
            } else if v == usize::MAX {
                new_value = usize::MAX;
            } else {
                let base = v - item.sub;
                if item.add > usize::MAX - base {
                    proof {
                        assert(map_value(items, v as int) > usize::MAX);
                        assert(!mapped_values_fit(items, values@));
                    }
                    return Err(BlameError::InvariantViolation);
                }
                new_value = base + item.add;
            }
            proof {
                assert(new_value == map_value(items, v as int));
            }
            if new_value < last_new_value {
                proof {
                    assert(map_value(items, values@[i as int] as int) < map_value(
                        items,
                        values@[i - 1] as int,
                    ));
                    assert(!mapped_values_non_decreasing(items, values@));
                }
                return Err(BlameError::InvariantViolation);
            }
            out.push(new_value);
            last_value = v;
            last_new_value = new_value;
            i = i + 1;
        }
        proof {
            assert forall|m: int| 0 <= m < values@.len() implies map_value(
                items,
                #[trigger] values@[m] as int,
            ) <= usize::MAX by {
                assert(out@[m] == map_value(items, values@[m] as int));
            }
        }
        Ok(out)
    }
}

/// The starts and ends of a range sequence, flattened in order into the
/// monotone stream the map consumes.
pub open spec fn flat_bounds(rs: Seq<DiffRange>) -> Seq<usize> {
    Seq::new(
        2 * rs.len(),
        |i: int|
            if i % 2 == 0 {
                rs[i / 2].start
            } else {
                rs[i / 2].end
            },
    )
}

/// A range with both bounds mapped.
pub open spec fn mapped_range(items: Seq<LineNumberMapItem>, r: DiffRange) -> DiffRange {
    DiffRange {
        start: map_value(items, r.start as int) as usize,
        end: map_value(items, r.end as int) as usize,
    }
}

/// A part with all four bounds mapped.
pub open spec fn mapped_part(items: Seq<LineNumberMapItem>, p: DiffPart) -> DiffPart {
    DiffPart { old: mapped_range(items, p.old), new: mapped_range(items, p.new) }
}

/// A part list with all bounds mapped.
pub open spec fn mapped_parts(items: Seq<LineNumberMapItem>, s: Seq<DiffPart>) -> Seq<DiffPart> {
    Seq::new(s.len(), |i: int| mapped_part(items, s[i]))
}

impl LineNumberMap {
    /// Map both bounds of every range, in one forward pass over the
    /// flattened bound stream.  Fails exactly when that stream is not
    /// accepted; on failure nothing is changed.
    pub fn apply_to_ranges(&self, ranges: &mut Vec<DiffRange>) -> (r: Result<(), BlameError>)
        requires
            items_wf(self@),
        ensures
            r is Ok <==> values_mappable(self@, flat_bounds(old(ranges)@)),
            r is Ok ==> {
                &&& final(ranges)@.len() == old(ranges)@.len()
                &&& forall|i: int|
                    0 <= i < old(ranges)@.len() ==> final(ranges)@[i] == mapped_range(
                        self@,
                        old(ranges)@[i],
                    )
            },
            r is Err ==> final(ranges)@ == old(ranges)@,
    {
        let ghost items = self@;
        let mut values: Vec<usize> = Vec::new();
        let mut i: usize = 0;
        while i < ranges.len()
            invariant
                i <= ranges.len(),
                values@ =~= flat_bounds(ranges@.subrange(0, i as int)),
            decreases ranges.len() - i,
        {
            values.push(ranges[i].start);
            values.push(ranges[i].end);
            i = i + 1;
            proof {
                assert(values@ =~= flat_bounds(ranges@.subrange(0, i as int)));
            }
        }
        proof {
            assert(ranges@.subrange(0, ranges@.len() as int) =~= ranges@);
        }
        let out = match self.map_values(&values) {
            Ok(out) => out,
            Err(e) => {
                return Err(e);
            },
        };
        let mut result: Vec<DiffRange> = Vec::new();
        let mut k: usize = 0;
        while k < ranges.len()
            invariant
                k <= ranges.len(),
                items == self@,
                out@.len() == 2 * ranges@.len(),
                forall|m: int|
                    0 <= m < out@.len() ==> out@[m] == map_value(
                        items,
                        flat_bounds(ranges@)[m] as int,
                    ),
                result@.len() == k,
                forall|m: int|
                    0 <= m < k ==> result@[m] == mapped_range(items, ranges@[m]),
            decreases ranges.len() - k,
        {
            let n = out.len();
            proof {
                assert(flat_bounds(ranges@)[2 * k as int] == ranges@[k as int].start);
                assert(flat_bounds(ranges@)[2 * k as int + 1] == ranges@[k as int].end);
                assert(2 * (k as int) + 1 < n);
            }
            result.push(DiffRange { start: out[2 * k], end: out[2 * k + 1] });
            k = k + 1;
        }
        *ranges = result;
        Ok(())
    }

    /// Re-express a whole part list in the numbering on the far side of this
    /// map: map every bound of every part, then re-validate the ascending
    /// invariant.  Fails exactly when the input list is not structurally
    /// valid or one of its two bound streams is not accepted; on failure
    /// nothing is changed.
    pub fn apply_to_parts(&self, parts: &mut Vec<DiffPart>) -> (r: Result<(), BlameError>)
        requires
            items_wf(self@),
        ensures
            r is Ok <==> {
                &&& parts_list_valid(old(parts)@)
                &&& values_mappable(self@, flat_bounds(old_sides(old(parts)@)))
                &&& values_mappable(self@, flat_bounds(new_sides(old(parts)@)))
            },
            r is Ok ==> {
                &&& final(parts)@ == mapped_parts(self@, old(parts)@)
                &&& parts_list_valid(final(parts)@)
            },
            r is Err ==> final(parts)@ == old(parts)@,
    {
        let ghost items = self@;
        if DiffPart::validate_ascending_parts(parts).is_err() {
            return Err(BlameError::InvariantViolation);
        }
        let mut olds: Vec<DiffRange> = Vec::new();
        let mut news: Vec<DiffRange> = Vec::new();
        let mut i: usize = 0;
        while i < parts.len()
            invariant
                i <= parts.len(),
                olds@ =~= old_sides(parts@).subrange(0, i as int),
                news@ =~= new_sides(parts@).subrange(0, i as int),
            decreases parts.len() - i,
        {
            olds.push(parts[i].old);
            news.push(parts[i].new);
            i = i + 1;
            proof {
                assert(olds@ =~= old_sides(parts@).subrange(0, i as int));
                assert(news@ =~= new_sides(parts@).subrange(0, i as int));
            }
        }
        proof {
            assert(olds@ =~= old_sides(parts@));
            assert(news@ =~= new_sides(parts@));
        }
        if self.apply_to_ranges(&mut olds).is_err() {
            return Err(BlameError::InvariantViolation);
        }
        if self.apply_to_ranges(&mut news).is_err() {
            return Err(BlameError::InvariantViolation);
        }
        let mut result: Vec<DiffPart> = Vec::new();
        let mut k: usize = 0;
        while k < parts.len()
            invariant
                k <= parts.len(),
                items == self@,
                olds@.len() == parts@.len(),
                news@.len() == parts@.len(),
                forall|m: int|
                    0 <= m < parts@.len() ==> olds@[m] == mapped_range(
                        items,
                        old_sides(parts@)[m],
                    ),
                forall|m: int|
                    0 <= m < parts@.len() ==> news@[m] == mapped_range(
                        items,
                        new_sides(parts@)[m],
                    ),
                result@.len() == k,
                forall|m: int| 0 <= m < k ==> result@[m] == mapped_part(items, parts@[m]),
            decreases parts.len() - k,
        {
            result.push(DiffPart { old: olds[k], new: news[k] });
            k = k + 1;
        }
        proof {
            assert(result@ =~= mapped_parts(items, parts@));
            lemma_mapped_parts_valid(items, parts@);
        }
        let check = DiffPart::validate_ascending_parts(&result);
        proof {
            assert(check is Ok);
        }
        *parts = result;
        Ok(())
    }
}

/// The old-side ranges of a part list.
pub open spec fn old_sides(s: Seq<DiffPart>) -> Seq<DiffRange> {
    Seq::new(s.len(), |i: int| s[i].old)
}

/// The new-side ranges of a part list.
pub open spec fn new_sides(s: Seq<DiffPart>) -> Seq<DiffRange> {
    Seq::new(s.len(), |i: int| s[i].new)
}

/// When both flattened bound streams of a valid part list are accepted,
/// the mapped part list is structurally valid in turn: the monotone mapped
/// streams give back exactly the ascending invariant.
proof fn lemma_mapped_parts_valid(items: Seq<LineNumberMapItem>, s: Seq<DiffPart>)
    requires
        items_wf(items),
        parts_list_valid(s),
        values_mappable(items, flat_bounds(old_sides(s))),
        values_mappable(items, flat_bounds(new_sides(s))),
    ensures
        parts_list_valid(mapped_parts(items, s)),
{
    let m = mapped_parts(items, s);
    if items.len() == 0 {
        assert forall|i: int| 0 <= i < m.len() implies part_wf(#[trigger] m[i]) by {
            assert(map_value(items, s[i].old.start as int) == s[i].old.start as int);
            assert(map_value(items, s[i].old.end as int) == s[i].old.end as int);
            assert(map_value(items, s[i].new.start as int) == s[i].new.start as int);
            assert(map_value(items, s[i].new.end as int) == s[i].new.end as int);
        }
        assert forall|i: int, j: int|
            0 <= i && j == i + 1 && j < m.len() implies (#[trigger] m[j]).old.start
            >= (#[trigger] m[i]).old.end && m[j].new.start >= m[i].new.end by {
            assert(map_value(items, s[i].old.end as int) == s[i].old.end as int);
            assert(map_value(items, s[j].old.start as int) == s[j].old.start as int);
            assert(map_value(items, s[i].new.end as int) == s[i].new.end as int);
            assert(map_value(items, s[j].new.start as int) == s[j].new.start as int);
        }
    } else {
        let fo = flat_bounds(old_sides(s));
        let fw = flat_bounds(new_sides(s));
        assert forall|i: int| 0 <= i < m.len() implies part_wf(#[trigger] m[i]) by {
            assert(fo[2 * i] == s[i].old.start);
            assert(fo[2 * i + 1] == s[i].old.end);
            assert(map_value(items, fo[2 * i] as int) <= map_value(items, fo[2 * i + 1] as int));
            assert(map_value(items, fo[2 * i] as int) <= usize::MAX);
            assert(map_value(items, fo[2 * i + 1] as int) <= usize::MAX);
            lemma_map_value_nonneg(items, s[i].old.start as int);
            lemma_map_value_nonneg(items, s[i].old.end as int);
            assert(fw[2 * i] == s[i].new.start);
            assert(fw[2 * i + 1] == s[i].new.end);
            assert(map_value(items, fw[2 * i] as int) <= map_value(items, fw[2 * i + 1] as int));
            assert(map_value(items, fw[2 * i] as int) <= usize::MAX);
            assert(map_value(items, fw[2 * i + 1] as int) <= usize::MAX);
            lemma_map_value_nonneg(items, s[i].new.start as int);
            lemma_map_value_nonneg(items, s[i].new.end as int);
        }
        assert forall|i: int, j: int|
            0 <= i && j == i + 1 && j < m.len() implies (#[trigger] m[j]).old.start
            >= (#[trigger] m[i]).old.end && m[j].new.start >= m[i].new.end by {
            assert(fo[2 * i + 1] == s[i].old.end);
            assert(fo[2 * j] == s[j].old.start);
            assert(map_value(items, fo[2 * i + 1] as int) <= map_value(items, fo[2 * j] as int));
            assert(map_value(items, fo[2 * i] as int) <= map_value(items, fo[2 * i + 1] as int));
            assert(map_value(items, fw[2 * i + 1] as int) <= map_value(items, fw[2 * j] as int));
            assert(fw[2 * i + 1] == s[i].new.end);
            assert(fw[2 * j] == s[j].new.start);
            lemma_map_value_nonneg(items, s[i].old.end as int);
            lemma_map_value_nonneg(items, s[j].old.start as int);
            lemma_map_value_nonneg(items, s[i].new.end as int);
            lemma_map_value_nonneg(items, s[j].new.start as int);
        }
    }
}

/// The part list with the old and new side of every part exchanged.
pub open spec fn swap_parts(parts: Seq<DiffPart>) -> Seq<DiffPart> {
    Seq::new(parts.len(), |i: int| DiffPart { old: parts[i].new, new: parts[i].old })
}

/// Raw item starts never decrease.
pub open spec fn raw_starts_ordered_up_to(raw: Seq<LineNumberMapItem>) -> bool {
    forall|i: int, j: int|
        #![trigger raw[i], raw[j]]
        0 <= i && j == i + 1 && j < raw.len() ==> raw[i].start <= raw[j].start
}

/// Assigning ends to an ordered raw sequence yields a well-formed map.
proof fn lemma_with_ends_wf(raw: Seq<LineNumberMapItem>)
    requires
        raw_starts_ordered_up_to(raw),
        forall|m: int| 0 <= m < raw.len() ==> (#[trigger] raw[m]).sub <= raw[m].start,
    ensures
        items_wf(with_ends(raw)),
{
    let items = with_ends(raw);
    assert forall|i: int| 0 <= i < items.len() implies (#[trigger] items[i]).start
        <= items[i].end by {
        if i < items.len() - 1 {
            assert(raw[i].start <= raw[i + 1].start);
        }
    }
}


/// Round trip through one hunk's two maps: for a single well-formed part
/// anchored where the diff anchors it (its two sides starting at the same
/// line), the map from the old numbering to the new one and the map back
/// invert each other on every surviving line — every line outside the
/// part's old-side span whose image is representable.
pub proof fn lemma_round_trip_single_part(p: DiffPart, x: int)
    requires
        part_wf(p),
        p.new.start == p.old.start,
        0 <= x < usize::MAX,
        x < p.old.start || x >= p.old.end,
        map_value(built_items(seq![p]), x) < usize::MAX,
    ensures
        map_value(built_items(swap_parts(seq![p])), map_value(built_items(seq![p]), x)) == x,
{
    let parts = seq![p];
    let sparts = swap_parts(parts);
    let q = DiffPart { old: p.new, new: p.old };
    assert(sparts =~= seq![q]);
    assert(parts.drop_last() =~= Seq::<DiffPart>::empty());
    assert(sparts.drop_last() =~= Seq::<DiffPart>::empty());
    assert(parts.last() == p);
    assert(sparts.last() == q);
    assert(add_acc(parts.drop_last()) == 0);
    assert(sub_acc(parts.drop_last()) == 0);
    assert(add_acc(sparts.drop_last()) == 0);
    assert(sub_acc(sparts.drop_last()) == 0);
    assert(raw_items(parts.drop_last()) =~= (Seq::<LineNumberMapItem>::empty()));
    assert(raw_items(sparts.drop_last()) =~= (Seq::<LineNumberMapItem>::empty()));
    let fwd_raw = raw_items(parts);
    let bwd_raw = raw_items(sparts);
    assert(fwd_raw =~= part_items(p, 0, 0));
    assert(bwd_raw =~= part_items(q, 0, 0));
    let fwd = built_items(parts);
    let bwd = built_items(sparts);
    let old_size = p.old.spec_len();
    let new_size = p.new.spec_len();
    if new_size == old_size {
        assert(fwd =~= (Seq::<LineNumberMapItem>::empty()));
        assert(bwd =~= (Seq::<LineNumberMapItem>::empty()));
    } else if new_size > old_size {
        // a net insertion of d lines at the end of the old span
        let d = new_size - old_size;
        assert(fwd =~= seq![
            LineNumberMapItem {
                start: (p.old.start + old_size) as usize,
                end: usize::MAX,
                add: d as usize,
                sub: 0,
                is_delete: false,
            },
        ]);
        assert(bwd =~= seq![
            LineNumberMapItem {
                start: (p.new.start + old_size) as usize,
                end: (p.new.start + old_size + d) as usize,
                add: 0,
                sub: 0,
                is_delete: true,
            },
            LineNumberMapItem {
                start: (p.new.start + new_size) as usize,
                end: usize::MAX,
                add: 0,
                sub: d as usize,
                is_delete: false,
            },
        ]);
        let y = map_value(fwd, x);
        assert(bwd.drop_first() =~= seq![bwd[1]]);
        if x < p.old.start + old_size {
            assert(x < p.old.start);
            assert(y == item_map(fwd[0], x));
            assert(y == x);
            assert(x < bwd[0].start);
            assert(map_value(bwd, y) == item_map(bwd[0], y));
            assert(map_value(bwd, y) == x);
        } else {
            assert(y == item_map(fwd[0], x));
            assert(y == x + d);
            if y <= p.new.start + old_size + d {
                assert(y == bwd[0].end);
                assert(x == p.old.start + old_size);
                assert(map_value(bwd, y) == item_map(bwd[0], y));
                assert(item_map(bwd[0], y) == bwd[0].start as int);
                assert(map_value(bwd, y) == x);
            } else {
                assert(map_value(bwd, y) == map_value(bwd.drop_first(), y));
                assert(map_value(bwd.drop_first(), y) == item_map(bwd[1], y));
                assert(y >= bwd[1].start);
                assert(y < usize::MAX);
                assert(item_map(bwd[1], y) == y - d);
                assert(map_value(bwd, y) == x);
            }
        }
        assert(map_value(bwd, y) == x);
    } else {
        // a net deletion of d lines at the end of the new span
        let d = old_size - new_size;
        assert(fwd =~= seq![
            LineNumberMapItem {
                start: (p.old.start + new_size) as usize,
                end: (p.old.start + new_size + d) as usize,
                add: 0,
                sub: 0,
                is_delete: true,
            },
            LineNumberMapItem {
                start: (p.old.start + old_size) as usize,
                end: usize::MAX,
                add: 0,
                sub: d as usize,
                is_delete: false,
            },
        ]);
        assert(bwd =~= seq![
            LineNumberMapItem {
                start: (p.new.start + new_size) as usize,
                end: usize::MAX,
                add: d as usize,
                sub: 0,
                is_delete: false,
            },
        ]);
        let y = map_value(fwd, x);
        assert(fwd.drop_first() =~= seq![fwd[1]]);
        if x < p.old.start {
            assert(x <= fwd[0].end);
            assert(y == item_map(fwd[0], x));
            assert(y == x);
            assert(y < bwd[0].start);
            assert(map_value(bwd, y) == item_map(bwd[0], y));
            assert(map_value(bwd, y) == x);
        } else {
            assert(x >= p.old.end);
            if x <= fwd[0].end {
                assert(x == fwd[0].end);
                assert(x == p.old.start + old_size);
                assert(y == item_map(fwd[0], x));
                assert(item_map(fwd[0], x) == fwd[0].start as int);
                assert(y == x - d);
            } else {
                assert(map_value(fwd, x) == map_value(fwd.drop_first(), x));
                assert(map_value(fwd.drop_first(), x) == item_map(fwd[1], x));
                assert(x >= fwd[1].start);
                assert(item_map(fwd[1], x) == x - d);
                assert(y == x - d);
            }
            assert(y >= bwd[0].start);
            assert(y < usize::MAX);
            assert(map_value(bwd, y) == item_map(bwd[0], y));
            assert(item_map(bwd[0], y) == y + d);
            assert(map_value(bwd, y) == x);
        }
        assert(map_value(bwd, y) == x);
    }
}


/// Exchanging the sides of every part exchanges the two accumulators.
proof fn lemma_swap_acc(parts: Seq<DiffPart>)
    ensures
        add_acc(swap_parts(parts)) == sub_acc(parts),
        sub_acc(swap_parts(parts)) == add_acc(parts),
    decreases parts.len(),
{
    if parts.len() > 0 {
        assert(swap_parts(parts).drop_last() =~= swap_parts(parts.drop_last()));
        lemma_swap_acc(parts.drop_last());
    }
}

/// Every part keeps at least as many lines as it replaces: nothing is
/// deleted net.
pub open spec fn parts_no_deletions(parts: Seq<DiffPart>) -> bool {
    forall|i: int|
        0 <= i < parts.len() ==> (#[trigger] parts[i]).new.spec_len() >= parts[i].old.spec_len()
}

/// Each part's two sides start where the accumulated offset of the parts
/// before it puts them — the shape every part list read off a real diff
/// has.
pub open spec fn parts_aligned(parts: Seq<DiffPart>) -> bool {
    forall|i: int|
        0 <= i < parts.len() ==> (#[trigger] parts[i]).new.start - parts[i].old.start == add_acc(
            parts.take(i),
        ) - sub_acc(parts.take(i))
}

/// Without deletions nothing is ever subtracted.
proof fn lemma_no_del_sub_zero(parts: Seq<DiffPart>)
    requires
        parts_no_deletions(parts),
    ensures
        sub_acc(parts) == 0,
    decreases parts.len(),
{
    if parts.len() > 0 {
        assert(parts[parts.len() - 1].new.spec_len() >= parts[parts.len() - 1].old.spec_len());
        assert forall|i: int|
            0 <= i < parts.drop_last().len() implies (#[trigger] parts.drop_last()[
        i]).new.spec_len() >= parts.drop_last()[i].old.spec_len() by {
            assert(parts.drop_last()[i] == parts[i]);
        }
        lemma_no_del_sub_zero(parts.drop_last());
    }
}

/// The raw items of a valid part list: starts ordered, deletion counts
/// within starts, the last start within the last part's old side, and the
/// accumulators within the last part's ends.
proof fn lemma_raw_props(parts: Seq<DiffPart>)
    requires
        parts_list_valid(parts),
    ensures
        raw_starts_ordered_up_to(raw_items(parts)),
        forall|m: int|
            0 <= m < raw_items(parts).len() ==> (#[trigger] raw_items(parts)[m]).sub
                <= raw_items(parts)[m].start,
        raw_items(parts).len() > 0 ==> parts.len() > 0 && raw_items(parts).last().start
            <= parts.last().old.end,
        parts.len() > 0 ==> add_acc(parts) <= parts.last().new.end && sub_acc(parts)
            <= parts.last().old.end,
        parts.len() == 0 ==> add_acc(parts) == 0 && sub_acc(parts) == 0,
        add_acc(parts) >= 0,
        sub_acc(parts) >= 0,
    decreases parts.len(),
{
    if parts.len() > 0 {
        let q = parts.drop_last();
        let p = parts.last();
        assert forall|i: int| 0 <= i < q.len() implies part_wf(#[trigger] q[i]) by {
            assert(q[i] == parts[i]);
        }
        assert forall|i: int, j: int|
            #![trigger q[i], q[j]]
            0 <= i && j == i + 1 && j < q.len() implies q[j].old.start >= q[i].old.end
            && q[j].new.start >= q[i].new.end by {
            assert(parts[j].old.start >= parts[i].old.end);
            assert(parts[j].new.start >= parts[i].new.end);
        }
        lemma_raw_props(q);
        assert(part_wf(p));
        if q.len() > 0 {
            assert(parts[parts.len() - 2] == q.last());
            assert(p.old.start >= q.last().old.end);
            assert(p.new.start >= q.last().new.end);
        }
        assert(add_acc(q) <= p.new.start);
        assert(sub_acc(q) <= p.old.start);
        assert(raw_items(parts) == raw_items(q) + part_items(p, add_acc(q), sub_acc(q)));
        assert forall|m: int|
            0 <= m < raw_items(parts).len() implies (#[trigger] raw_items(parts)[m]).sub
            <= raw_items(parts)[m].start by {
            if m < raw_items(q).len() {
                assert(raw_items(parts)[m] == raw_items(q)[m]);
            } else {
                assert(raw_items(parts)[m] == part_items(p, add_acc(q), sub_acc(q))[m
                    - raw_items(q).len()]);
            }
        }
    }
}

/// In a map whose items never delete, never subtract, and add at most `a`,
/// every value maps between itself and itself plus `a`.
proof fn lemma_map_value_bounds(items: Seq<LineNumberMapItem>, x: int, a: int)
    requires
        forall|m: int|
            0 <= m < items.len() ==> !(#[trigger] items[m]).is_delete && items[m].sub == 0
                && items[m].add <= a,
        0 <= x < usize::MAX,
        0 <= a,
    ensures
        x <= map_value(items, x) <= x + a,
    decreases items.len(),
{
    if items.len() > 0 && !(x <= items[0].end) {
        assert forall|m: int|
            0 <= m < items.drop_first().len() implies !(#[trigger] items.drop_first()[
        m]).is_delete && items.drop_first()[m].sub == 0 && items.drop_first()[m].add <= a by {
            assert(items.drop_first()[m] == items[m + 1]);
        }
        lemma_map_value_bounds(items.drop_first(), x, a);
    }
}

/// Appending items to a map and capping the formerly last stretch does not
/// change where values inside the old coverage go.
proof fn lemma_map_value_extend(a: Seq<LineNumberMapItem>, b: Seq<LineNumberMapItem>, x: int)
    requires
        1 <= a.len() <= b.len(),
        forall|m: int| 0 <= m < a.len() - 1 ==> a[m] == b[m],
        a.last().start == b[a.len() - 1].start,
        a.last().add == b[a.len() - 1].add,
        a.last().sub == b[a.len() - 1].sub,
        a.last().is_delete == b[a.len() - 1].is_delete,
        a.last().end == usize::MAX,
        x <= b[a.len() - 1].end,
        x <= usize::MAX,
    ensures
        map_value(a, x) == map_value(b, x),
    decreases a.len(),
{
    if a.len() == 1 {
        assert(x <= a[0].end);
        assert(item_map(a[0], x) == item_map(b[0], x));
    } else {
        assert(a[0] == b[0]);
        if x <= a[0].end {
        } else {
            assert forall|m: int|
                0 <= m < a.drop_first().len() - 1 implies a.drop_first()[m] == b.drop_first()[
            m] by {
                assert(a.drop_first()[m] == a[m + 1]);
                assert(b.drop_first()[m] == b[m + 1]);
            }
            assert(a.drop_first().last() == a.last());
            assert(b.drop_first()[a.drop_first().len() - 1] == b[a.len() - 1]);
            lemma_map_value_extend(a.drop_first(), b.drop_first(), x);
        }
    }
}


/// Ordered starts are ordered across any distance.
proof fn lemma_starts_mono(raw: Seq<LineNumberMapItem>, i: int, j: int)
    requires
        raw_starts_ordered_up_to(raw),
        0 <= i <= j < raw.len(),
    ensures
        raw[i].start <= raw[j].start,
    decreases j - i,
{
    if i < j {
        assert(raw[j - 1].start <= raw[j].start);
        lemma_starts_mono(raw, i, j - 1);
    }
}

/// Without deletions, a part list's items never delete, never subtract,
/// and add at most the accumulated insertion count; items exist exactly
/// when something was inserted, on both sides of the swap.
proof fn lemma_no_del_items(parts: Seq<DiffPart>)
    requires
        parts_list_valid(parts),
        parts_no_deletions(parts),
    ensures
        forall|m: int|
            0 <= m < raw_items(parts).len() ==> !(#[trigger] raw_items(parts)[m]).is_delete
                && raw_items(parts)[m].sub == 0 && raw_items(parts)[m].add <= add_acc(parts),
        raw_items(parts).len() == 0 <==> add_acc(parts) == 0,
        raw_items(swap_parts(parts)).len() == 0 <==> raw_items(parts).len() == 0,
    decreases parts.len(),
{
    if parts.len() == 0 {
        assert(raw_items(parts) =~= (Seq::<LineNumberMapItem>::empty()));
        assert(swap_parts(parts) =~= (Seq::<DiffPart>::empty()));
        assert(raw_items(swap_parts(parts)) =~= (Seq::<LineNumberMapItem>::empty()));
    } else {
        let q = parts.drop_last();
        let p = parts.last();
        assert forall|i: int| 0 <= i < q.len() implies part_wf(#[trigger] q[i]) by {
            assert(q[i] == parts[i]);
        }
        assert forall|i: int, j: int|
            #![trigger q[i], q[j]]
            0 <= i && j == i + 1 && j < q.len() implies q[j].old.start >= q[i].old.end
            && q[j].new.start >= q[i].new.end by {
            assert(parts[j].old.start >= parts[i].old.end);
            assert(parts[j].new.start >= parts[i].new.end);
        }
        assert forall|i: int|
            0 <= i < q.len() implies (#[trigger] q[i]).new.spec_len() >= q[i].old.spec_len() by {
            assert(q[i] == parts[i]);
        }
        lemma_no_del_items(q);
        lemma_raw_props(q);
        lemma_no_del_sub_zero(q);
        assert(p.new.spec_len() >= p.old.spec_len());
        assert(raw_items(parts) == raw_items(q) + part_items(p, add_acc(q), 0));
        assert(swap_parts(parts).drop_last() =~= swap_parts(q));
        assert(swap_parts(parts).last() == (DiffPart { old: p.new, new: p.old }));
        lemma_swap_acc(q);
        assert(raw_items(swap_parts(parts)) == raw_items(swap_parts(q)) + part_items(
            DiffPart { old: p.new, new: p.old },
            0,
            add_acc(q),
        ));
        assert forall|m: int|
            0 <= m < raw_items(parts).len() implies !(#[trigger] raw_items(parts)[
        m]).is_delete && raw_items(parts)[m].sub == 0 && raw_items(parts)[m].add <= add_acc(
            parts,
        ) by {
            if m < raw_items(q).len() {
                assert(raw_items(parts)[m] == raw_items(q)[m]);
            } else {
                assert(raw_items(parts)[m] == part_items(p, add_acc(q), 0)[m - raw_items(
                    q,
                ).len()]);
            }
        }
    }
}

/// Round trip through a whole part list without deletions: for a valid
/// part list anchored where a diff anchors it — each part's two sides
/// starting the accumulated offset apart — in which every part keeps at
/// least as many lines as it replaces, the map from the old numbering to
/// the new one and the map back invert each other on every line whose
/// image is representable.  (With a net deletion, lines in and at the end
/// of the deleted span collapse and cannot come back; an unanchored part
/// list does not describe a diff, and the two maps need not invert.)
#[verifier::rlimit(100)]
pub proof fn lemma_round_trip_no_deletions(parts: Seq<DiffPart>, x: int)
    requires
        parts_list_valid(parts),
        parts_no_deletions(parts),
        parts_aligned(parts),
        0 <= x < usize::MAX,
        map_value(built_items(parts), x) < usize::MAX,
    ensures
        map_value(built_items(swap_parts(parts)), map_value(built_items(parts), x)) == x,
    decreases parts.len(),
{
    if parts.len() == 0 {
        assert(raw_items(parts) =~= (Seq::<LineNumberMapItem>::empty()));
        assert(built_items(parts) =~= (Seq::<LineNumberMapItem>::empty()));
        assert(swap_parts(parts) =~= (Seq::<DiffPart>::empty()));
        assert(built_items(swap_parts(parts)) =~= (Seq::<LineNumberMapItem>::empty()));
    } else {
        let q = parts.drop_last();
        let p = parts.last();
        let sp = DiffPart { old: p.new, new: p.old };
        let sq = swap_parts(q);
        // the hypotheses descend to the prefix
        assert forall|i: int| 0 <= i < q.len() implies part_wf(#[trigger] q[i]) by {
            assert(q[i] == parts[i]);
        }
        assert forall|i: int, j: int|
            #![trigger q[i], q[j]]
            0 <= i && j == i + 1 && j < q.len() implies q[j].old.start >= q[i].old.end
            && q[j].new.start >= q[i].new.end by {
            assert(parts[j].old.start >= parts[i].old.end);
            assert(parts[j].new.start >= parts[i].new.end);
        }
        assert forall|i: int|
            0 <= i < q.len() implies (#[trigger] q[i]).new.spec_len() >= q[i].old.spec_len() by {
            assert(q[i] == parts[i]);
        }
        assert forall|i: int|
            0 <= i < q.len() implies (#[trigger] q[i]).new.start - q[i].old.start == add_acc(
            q.take(i),
        ) - sub_acc(q.take(i)) by {
            assert(q[i] == parts[i]);
            assert(q.take(i) =~= parts.take(i));
        }
        lemma_no_del_sub_zero(q);
        lemma_no_del_sub_zero(parts);
        lemma_swap_acc(q);
        lemma_raw_props(parts);
        lemma_raw_props(q);
        lemma_no_del_items(q);
        lemma_no_del_items(parts);
        let a = add_acc(q);
        // the last part is anchored the accumulated offset apart
        assert(parts.take(parts.len() - 1) =~= q);
        assert(p.new.start - p.old.start == a);
        assert(part_wf(p));
        let old_size = p.old.spec_len();
        let new_size = p.new.spec_len();
        assert(raw_items(parts) == raw_items(q) + part_items(p, a, 0));
        assert(swap_parts(parts).drop_last() =~= sq);
        assert(swap_parts(parts).last() == sp);
        assert(raw_items(swap_parts(parts)) == raw_items(sq) + part_items(sp, 0, a));
        if new_size == old_size {
            // the last part substitutes in place and contributes nothing
            assert(part_items(p, a, 0) =~= (Seq::<LineNumberMapItem>::empty()));
            assert(part_items(sp, 0, a) =~= (Seq::<LineNumberMapItem>::empty()));
            assert(raw_items(parts) =~= raw_items(q));
            assert(raw_items(swap_parts(parts)) =~= raw_items(sq));
            assert(built_items(parts) == built_items(q));
            assert(built_items(swap_parts(parts)) == built_items(sq));
            lemma_round_trip_no_deletions(q, x);
        } else {
            let d = new_size - old_size;
            let b = p.old.end as int;
            assert(p.old.start + old_size == b);
            let fw = built_items(parts);
            let fq = built_items(q);
            let gw = built_items(swap_parts(parts));
            let gq = built_items(sq);
            let nf = raw_items(q).len() as int;
            let ng = raw_items(sq).len() as int;
            // the one item the last part contributes forward, and the
            // deletion pair it contributes backward
            let praw = LineNumberMapItem {
                start: b as usize,
                end: 0,
                add: (a + d) as usize,
                sub: 0,
                is_delete: false,
            };
            let bdel = LineNumberMapItem {
                start: (b + a) as usize,
                end: 0,
                add: 0,
                sub: a as usize,
                is_delete: true,
            };
            let bnd = LineNumberMapItem {
                start: (b + a + d) as usize,
                end: 0,
                add: 0,
                sub: (a + d) as usize,
                is_delete: false,
            };
            assert(a + d == add_acc(parts));
            assert(a + d <= p.new.end);
            assert(part_items(p, a, 0) =~= seq![praw]);
            assert(sp.old.start + sp.new.spec_len() == b + a) by {
                assert(sp.old.start == p.new.start);
                assert(p.new.start == p.old.start + a);
            }
            assert(sp.old.start + sp.old.spec_len() == b + a + d) by {
                assert(sp.old.spec_len() == new_size);
                assert(p.old.start + old_size == b);
            }
            assert(part_items(sp, 0, a) =~= seq![bdel, bnd]);
            assert(fw.len() == nf + 1);
            assert(gw.len() == ng + 2);
            assert(fw[nf] == (LineNumberMapItem { end: usize::MAX, ..praw }));
            assert(gw[ng] == (LineNumberMapItem { end: bnd.start, ..bdel }));
            assert(gw[ng + 1] == (LineNumberMapItem { end: usize::MAX, ..bnd }));
            if nf == 0 {
                // nothing before the last part inserted anything
                assert(a == 0);
                assert(ng == 0);
                assert(fw =~= seq![fw[0]]);
                assert(gw.drop_first() =~= seq![gw[1]]);
                if x < b {
                    assert(map_value(fw, x) == x);
                    assert(map_value(gw, x) == x);
                } else {
                    assert(map_value(fw, x) == x + d);
                    let y = x + d;
                    if y <= b + d {
                        assert(x == b);
                        assert(map_value(gw, y) == item_map(gw[0], y));
                        assert(map_value(gw, y) == b);
                    } else {
                        assert(map_value(gw, y) == map_value(gw.drop_first(), y));
                        assert(map_value(gw, y) == y - d);
                    }
                }
            } else {
                assert(q.len() > 0);
                assert(raw_items(q).last().start <= q.last().old.end);
                assert(q.last().old.end <= p.old.start);
                // the prefix of the forward map matches the prefix map,
                // with only the formerly last stretch capped at `b`
                assert forall|m: int| 0 <= m < nf - 1 implies fq[m] == fw[m] by {
                    assert(raw_items(parts)[m] == raw_items(q)[m]);
                    assert(raw_items(parts)[m + 1] == raw_items(q)[m + 1]);
                }
                assert(fw[nf - 1].start == fq[nf - 1].start);
                assert(fw[nf - 1].add == fq[nf - 1].add);
                assert(fw[nf - 1].sub == fq[nf - 1].sub);
                assert(fw[nf - 1].is_delete == fq[nf - 1].is_delete);
                assert(fq[nf - 1].end == usize::MAX);
                assert(fw[nf - 1].end == b);
                // and likewise on the swap side, capped at `b + a`
                assert(ng > 0);
                assert(parts_list_valid(sq));
                lemma_raw_props(sq);
                assert(raw_items(sq).last().start <= sq.last().old.end);
                assert(sq.last() == (DiffPart { old: q.last().new, new: q.last().old }));
                assert(sq.last().old.end <= p.new.start);
                assert forall|m: int| 0 <= m < ng - 1 implies gq[m] == gw[m] by {
                    assert(raw_items(swap_parts(parts))[m] == raw_items(sq)[m]);
                    assert(raw_items(swap_parts(parts))[m + 1] == raw_items(sq)[m + 1]);
                }
                assert(gw[ng - 1].start == gq[ng - 1].start);
                assert(gw[ng - 1].add == gq[ng - 1].add);
                assert(gw[ng - 1].sub == gq[ng - 1].sub);
                assert(gw[ng - 1].is_delete == gq[ng - 1].is_delete);
                assert(gq[ng - 1].end == usize::MAX);
                assert(gw[ng - 1].end == b + a);
                if x <= b {
                    lemma_map_value_extend(fq, fw, x);
                    let y = map_value(fq, x);
                    assert forall|m: int|
                        0 <= m < fq.len() implies !(#[trigger] fq[m]).is_delete && fq[m].sub
                        == 0 && fq[m].add <= a by {
                        assert(raw_items(q)[m].add <= add_acc(q));
                    }
                    lemma_map_value_bounds(fq, x, a);
                    assert(y <= b + a);
                    lemma_round_trip_no_deletions(q, x);
                    lemma_map_value_extend(gq, gw, y);
                } else {
                    // the last part's own stretch decides
                    assert forall|m: int| 0 <= m < nf implies (#[trigger] fw[m]).end < x by {
                        if m < nf - 1 {
                            assert(fw[m].end == raw_items(q)[m + 1].start);
                            lemma_starts_mono(raw_items(q), m + 1, nf - 1);
                        }
                    }
                    lemma_map_value_skip(fw, x, nf);
                    assert(fw.skip(nf) =~= seq![fw[nf]]);
                    assert(map_value(fw, x) == x + (a + d));
                    let y = x + a + d;
                    assert forall|m: int| 0 <= m < ng + 1 implies (#[trigger] gw[m]).end < y by {
                        if m < ng - 1 {
                            assert(gw[m].end == raw_items(sq)[m + 1].start);
                            lemma_starts_mono(raw_items(sq), m + 1, ng - 1);
                        }
                    }
                    lemma_map_value_skip(gw, y, ng + 1);
                    assert(gw.skip(ng + 1) =~= seq![gw[ng + 1]]);
                    assert(map_value(gw, y) == y - (a + d));
                }
            }
        }
    }
}

} // verus!
