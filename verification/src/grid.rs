//! Size negotiation for widgets laid out in a grid.
//!
//! Along each axis a grid has tracks: its columns from left to right, its
//! rows from top to bottom. A cell covers one track or several neighbouring
//! ones. The rules of a track are the maximum of the rules of the cells that
//! cover it alone; a cell that covers several tracks and needs more than
//! they offer has what is missing divided among them.

use vstd::prelude::*;
use crate::geom::{add_extent, clamp_i32, clamp_u32, offset_ordinate, sub_extent, Coord, Rect, Size};
use crate::layout::{
    lemma_total_grows, offset_at, offsets, spec_share, spec_total, SizeRules, StretchPolicy,
};

verus! {

/// The tracks that a cell covers along one axis: `len` tracks from `first`
/// on.
#[derive(Clone, Copy, Debug, PartialEq, Eq)]
pub struct Span {
    pub first: usize,
    pub len: usize,
}

/// A cell of a grid along one axis: the tracks that it covers and the rules
/// of the widget in it.
#[derive(Clone, Copy, Debug, PartialEq, Eq)]
pub struct Cell {
    pub span: Span,
    pub rules: SizeRules,
}

impl Span {
    /// Whether the span covers at least one track and lies within the first
    /// `n` tracks.
    pub open spec fn spec_within(self, n: int) -> bool {
        self.len >= 1 && self.first + self.len <= n
    }

    /// Whether track `k` is one of the span.
    pub open spec fn holds(self, k: int) -> bool {
        self.first <= k < self.first + self.len
    }

    pub fn within(self, n: usize) -> (r: bool)
        ensures
            r == self.spec_within(n as int),
    {
        self.len >= 1 && self.first <= n && self.len <= n - self.first
    }
}

/// The part that falls to place `j` when `left` is divided among `n` places
/// in equal parts, the first places taking one more where the parts do not
/// come out even.
pub open spec fn part_of(left: int, n: int, j: int) -> int {
    if n > 0 {
        left / n + if j < left % n {
            1int
        } else {
            0int
        }
    } else {
        0
    }
}

/// The rules of track `c` as far as the cells that cover one track say:
/// the maximum of the rules of the cells that cover track `c` alone.
pub open spec fn single(cells: Seq<Cell>, c: int) -> SizeRules
    decreases cells.len(),
{
    if cells.len() == 0 {
        SizeRules::spec_empty(StretchPolicy::Fixed)
    } else {
        let rest = single(cells.drop_last(), c);
        let cell = cells.last();
        if cell.span.len == 1 && cell.span.first == c {
            rest.spec_max(cell.rules)
        } else {
            rest
        }
    }
}

/// Rules that ask for `by` more, as minimum and as ideal size.
pub open spec fn raised(rules: SizeRules, by: int) -> SizeRules {
    SizeRules { min: clamp_u32(rules.min + by), ideal: clamp_u32(rules.ideal + by), ..rules }
}

/// Rules that ask for `by` more as ideal size.
pub open spec fn raised_ideal(rules: SizeRules, by: int) -> SizeRules {
    SizeRules { ideal: clamp_u32(rules.ideal + by), ..rules }
}

/// What the tracks of `span` lack of `need`, given what they offer as
/// minimum sizes or, with `ideal`, as ideal sizes, margins in between
/// included.
pub open spec fn lack(tracks: Seq<SizeRules>, span: Span, need: u32, ideal: bool) -> int {
    let have = spec_total(tracks.subrange(span.first as int, span.first + span.len), ideal);
    if need > have {
        need - have
    } else {
        0
    }
}

/// The tracks with those of `span` raised each by its part of `missing`: in
/// minimum and ideal size, or with `ideal` in ideal size alone.
pub open spec fn lifted(tracks: Seq<SizeRules>, span: Span, missing: int, ideal: bool) -> Seq<SizeRules> {
    Seq::new(
        tracks.len(),
        |k: int|
            if span.holds(k) {
                let by = part_of(missing, span.len as int, k - span.first);
                if ideal {
                    raised_ideal(tracks[k], by)
                } else {
                    raised(tracks[k], by)
                }
            } else {
                tracks[k]
            },
    )
}

/// The tracks after a cell that covers several of them was taken into
/// account: what the tracks of the cell lack of its minimum size is divided
/// among them, and then what they lack of its ideal size. A cell that
/// covers one track, or tracks that are not there, changes nothing.
pub open spec fn spread(tracks: Seq<SizeRules>, cell: Cell) -> Seq<SizeRules> {
    if cell.span.len >= 2 && cell.span.spec_within(tracks.len() as int) {
        let first = lifted(tracks, cell.span, lack(tracks, cell.span, cell.rules.min, false), false);
        lifted(first, cell.span, lack(first, cell.span, cell.rules.ideal, true), true)
    } else {
        tracks
    }
}

/// The tracks after each of `cells` was taken into account, in order.
pub open spec fn spread_all(tracks: Seq<SizeRules>, cells: Seq<Cell>) -> Seq<SizeRules>
    decreases cells.len(),
{
    if cells.len() == 0 {
        tracks
    } else {
        spread(spread_all(tracks, cells.drop_last()), cells.last())
    }
}

/// The rules of the `n` tracks of a grid with the given cells.
pub open spec fn spec_track_rules(cells: Seq<Cell>, n: int) -> Seq<SizeRules> {
    spread_all(Seq::new(n as nat, |c: int| single(cells, c)), cells)
}

/// The most that is counted when the needs of tracks are added up: more
/// than any widget can ask for.
pub open spec fn cap() -> int {
    0x2_0000_0000
}

/// What the tracks of `span` offer, as far as it matters: the sum of their
/// minimum or ideal sizes with the margins in between, counted up to
/// [`cap`].
fn offered(tracks: &Vec<SizeRules>, span: Span, ideal: bool) -> (r: u64)
    requires
        span.spec_within(tracks.len() as int),
    ensures
        r == if spec_total(tracks@.subrange(span.first as int, span.first + span.len), ideal) > cap() {
            cap()
        } else {
            spec_total(tracks@.subrange(span.first as int, span.first + span.len), ideal)
        },
{
    let ghost part = tracks@.subrange(span.first as int, span.first + span.len);
    let mut acc: u64 = 0;
    let mut j: usize = 0;
    proof {
        assert(part.take(0).len() == 0);
    }
    while j < span.len
        invariant
            0 <= j <= span.len,
            span.spec_within(tracks.len() as int),
            part == tracks@.subrange(span.first as int, span.first + span.len),
            acc == if spec_total(part.take(j as int), ideal) > cap() {
                cap()
            } else {
                spec_total(part.take(j as int), ideal)
            },
        decreases span.len - j,
    {
        proof {
            lemma_total_grows(part, ideal, j as int);
        }
        let k = span.first + j;
        let rule = tracks[k];
        let size: u32 = if ideal {
            rule.ideal
        } else {
            rule.min
        };
        let gap: u16 = if j > 0 {
            let before = tracks[k - 1].margins.1;
            if before >= rule.margins.0 {
                before
            } else {
                rule.margins.0
            }
        } else {
            0
        };
        let more: u64 = acc + gap as u64 + size as u64;
        acc = if more > 0x2_0000_0000 {
            0x2_0000_0000
        } else {
            more
        };
        j += 1;
    }
    proof {
        assert(part.take(span.len as int) =~= part);
    }
    acc
}

/// Raises the tracks of `span` each by its part of `missing`.
fn lift(tracks: &mut Vec<SizeRules>, span: Span, missing: u32, ideal: bool)
    requires
        span.spec_within(old(tracks).len() as int),
    ensures
        final(tracks)@ == lifted(old(tracks)@, span, missing as int, ideal),
{
    let ghost before = tracks@;
    let count = tracks.len();
    let part: u64 = missing as u64 / (span.len as u64);
    let rest: u64 = missing as u64 % (span.len as u64);
    proof {
        let n = span.len as int;
        let m = missing as int;
        assert(0 <= m / n <= m && 0 <= m % n < n && m == n * (m / n) + m % n) by (nonlinear_arith)
            requires
                n >= 1,
                m >= 0,
        ;
        assert(m % n >= 1 ==> m / n + 1 <= m) by (nonlinear_arith)
            requires
                n >= 1,
                m / n >= 0,
                m == n * (m / n) + m % n,
        ;
    }
    let mut j: usize = 0;
    while j < span.len
        invariant
            0 <= j <= span.len,
            span.spec_within(before.len() as int),
            tracks@.len() == before.len(),
            before.len() == count,
            part == missing as int / span.len as int,
            rest == missing as int % span.len as int,
            part <= missing,
            rest >= 1 ==> part + 1 <= missing,
            forall|k: int|
                0 <= k < before.len() ==> #[trigger] tracks@[k] == if span.first <= k < span.first + j {
                    lifted(before, span, missing as int, ideal)[k]
                } else {
                    before[k]
                },
        decreases span.len - j,
    {
        let k = span.first + j;
        let by: u32 = if (j as u64) < rest {
            (part + 1) as u32
        } else {
            part as u32
        };
        let rule = tracks[k];
        let next = if ideal {
            SizeRules { ideal: add_extent(rule.ideal, by), ..rule }
        } else {
            SizeRules { min: add_extent(rule.min, by), ideal: add_extent(rule.ideal, by), ..rule }
        };
        tracks.set(k, next);
        j += 1;
    }
    proof {
        assert(tracks@ =~= lifted(before, span, missing as int, ideal));
    }
}

/// Takes a cell that covers several tracks into account.
fn spread_cell(tracks: &mut Vec<SizeRules>, cell: Cell)
    ensures
        final(tracks)@ == spread(old(tracks)@, cell),
{
    if cell.span.len >= 2 && cell.span.within(tracks.len()) {
        let have = offered(tracks, cell.span, false);
        let missing: u32 = if (cell.rules.min as u64) > have {
            (cell.rules.min as u64 - have) as u32
        } else {
            0
        };
        lift(tracks, cell.span, missing, false);
        let have = offered(tracks, cell.span, true);
        let missing: u32 = if (cell.rules.ideal as u64) > have {
            (cell.rules.ideal as u64 - have) as u32
        } else {
            0
        };
        lift(tracks, cell.span, missing, true);
    }
}

/// The rules of the `n` tracks of a grid with the given cells, for the
/// first pass of layout. The rules of the whole grid along the axis are
/// those of the tracks appended.
pub fn track_rules(cells: &Vec<Cell>, n: usize) -> (tracks: Vec<SizeRules>)
    ensures
        tracks@ == spec_track_rules(cells@, n as int),
        tracks@.len() == n,
{
    let mut tracks: Vec<SizeRules> = Vec::new();
    let mut c: usize = 0;
    while c < n
        invariant
            0 <= c <= n,
            tracks@.len() == c,
            forall|k: int| 0 <= k < c ==> #[trigger] tracks@[k] == SizeRules::spec_empty(StretchPolicy::Fixed),
        decreases n - c,
    {
        tracks.push(SizeRules::empty(StretchPolicy::Fixed));
        c += 1;
    }
    let mut i: usize = 0;
    proof {
        assert(cells@.take(0).len() == 0);
    }
    while i < cells.len()
        invariant
            0 <= i <= cells.len(),
            tracks@.len() == n,
            forall|k: int| 0 <= k < n ==> #[trigger] tracks@[k] == single(cells@.take(i as int), k),
        decreases cells.len() - i,
    {
        let cell = cells[i];
        proof {
            assert(cells@.take(i as int + 1).drop_last() =~= cells@.take(i as int));
            assert(cells@.take(i as int + 1).last() == cell);
        }
        if cell.span.len == 1 && cell.span.first < n {
            let rule = tracks[cell.span.first];
            tracks.set(cell.span.first, rule.max(cell.rules));
        }
        i += 1;
    }
    proof {
        assert(cells@.take(i as int) =~= cells@);
        assert(tracks@ =~= Seq::new(n as nat, |c: int| single(cells@, c)));
    }
    let ghost start = tracks@;
    let mut i: usize = 0;
    while i < cells.len()
        invariant
            0 <= i <= cells.len(),
            tracks@ == spread_all(start, cells@.take(i as int)),
        decreases cells.len() - i,
    {
        proof {
            assert(cells@.take(i as int + 1).drop_last() =~= cells@.take(i as int));
            assert(cells@.take(i as int + 1).last() == cells@[i as int]);
        }
        spread_cell(&mut tracks, cells[i]);
        i += 1;
    }
    proof {
        assert(cells@.take(i as int) =~= cells@);
        lemma_spread_all_len(start, cells@);
    }
    tracks
}

/// Where a cell begins along one axis, counted from the start of the grid,
/// and how long it is there, when `target` is divided among the tracks:
/// from the start of its first track to the end of its last one. A cell
/// whose tracks are not there is empty.
pub open spec fn spec_place(tracks: Seq<SizeRules>, target: u32, span: Span) -> (u32, u32) {
    if span.spec_within(tracks.len() as int) {
        let extents = spec_share(tracks, target);
        let start = offset_at(tracks, extents, span.first as int);
        let last = span.first + span.len - 1;
        let end = clamp_u32(offset_at(tracks, extents, last) + extents[last]);
        (start, clamp_u32(end - start))
    } else {
        (0u32, 0u32)
    }
}

/// The rectangle of a cell within `rect`, from its place along the columns
/// and its place along the rows.
pub open spec fn spec_cell_rect(rect: Rect, across: (u32, u32), down: (u32, u32)) -> Rect {
    Rect {
        pos: Coord(clamp_i32(rect.pos.0 + across.0), clamp_i32(rect.pos.1 + down.0)),
        size: Size(across.1, down.1),
    }
}

/// The places of the cells along one axis, for the second pass of layout:
/// `target` is divided among the tracks by their rules.
pub fn places(tracks: &Vec<SizeRules>, target: u32, cells: &Vec<Cell>) -> (out: Vec<(u32, u32)>)
    ensures
        out@.len() == cells@.len(),
        forall|i: int| 0 <= i < cells@.len() ==> #[trigger] out@[i] == spec_place(tracks@, target, cells@[i].span),
{
    let extents = SizeRules::solve_seq(tracks, target);
    let starts = offsets(tracks, &extents);
    let mut out: Vec<(u32, u32)> = Vec::new();
    let mut i: usize = 0;
    while i < cells.len()
        invariant
            0 <= i <= cells.len(),
            extents@ == spec_share(tracks@, target),
            extents@.len() == tracks@.len(),
            starts@.len() == tracks@.len(),
            forall|k: int| 0 <= k < starts@.len() ==> #[trigger] starts@[k] == offset_at(tracks@, extents@, k),
            out@.len() == i,
            forall|t: int| 0 <= t < i ==> #[trigger] out@[t] == spec_place(tracks@, target, cells@[t].span),
        decreases cells.len() - i,
    {
        let span = cells[i].span;
        let place = if span.within(tracks.len()) {
            let last = span.first + span.len - 1;
            let end = add_extent(starts[last], extents[last]);
            (starts[span.first], sub_extent(end, starts[span.first]))
        } else {
            (0, 0)
        };
        out.push(place);
        i += 1;
    }
    out
}

/// The rectangle of a cell within `rect`.
pub fn cell_rect(rect: Rect, across: (u32, u32), down: (u32, u32)) -> (r: Rect)
    ensures
        r == spec_cell_rect(rect, across, down),
{
    Rect {
        pos: Coord(offset_ordinate(rect.pos.0, across.0), offset_ordinate(rect.pos.1, down.0)),
        size: Size(across.1, down.1),
    }
}

/// Taking cells into account changes the sizes of tracks, not their
/// number.
pub proof fn lemma_spread_all_len(tracks: Seq<SizeRules>, cells: Seq<Cell>)
    ensures
        spread_all(tracks, cells).len() == tracks.len(),
    decreases cells.len(),
{
    if cells.len() > 0 {
        lemma_spread_all_len(tracks, cells.drop_last());
    }
}

/// The size that `rules` ask for: the minimum or, with `ideal`, the ideal
/// size.
pub open spec fn size_of(rules: SizeRules, ideal: bool) -> int {
    if ideal {
        rules.ideal as int
    } else {
        rules.min as int
    }
}

/// Whether the tracks `b` are the tracks `a` with sizes that are no
/// smaller.
pub open spec fn grown(a: Seq<SizeRules>, b: Seq<SizeRules>) -> bool {
    &&& a.len() == b.len()
    &&& forall|k: int|
        0 <= k < a.len() ==> {
            &&& (#[trigger] a[k]).min <= b[k].min
            &&& a[k].ideal <= b[k].ideal
            &&& a[k].margins == b[k].margins
            &&& a[k].stretch == b[k].stretch
        }
}

/// The sum of the first `m` parts when `left` is divided among `n` places.
pub open spec fn parts_sum(left: int, n: int, m: int) -> int
    decreases m,
{
    if m <= 0 {
        0
    } else {
        parts_sum(left, n, m - 1) + part_of(left, n, m - 1)
    }
}

/// A part is never negative, and the first `m` parts add up to `m` times
/// the even part and one more for each of them that takes one more; all the
/// parts add up to what was divided.
pub proof fn lemma_parts_sum(left: int, n: int, m: int)
    requires
        left >= 0,
        n >= 1,
        0 <= m <= n,
    ensures
        parts_sum(left, n, m) == m * (left / n) + if m < left % n {
            m
        } else {
            left % n
        },
        m == n ==> parts_sum(left, n, m) == left,
        m < n ==> part_of(left, n, m) >= 0,
    decreases m,
{
    let q = left / n;
    let r = left % n;
    assert(0 <= q && 0 <= r < n && left == n * q + r) by (nonlinear_arith)
        requires
            n >= 1,
            left >= 0,
            q == left / n,
            r == left % n,
    ;
    if m > 0 {
        lemma_parts_sum(left, n, m - 1);
        assert(m * q == (m - 1) * q + q) by (nonlinear_arith);
    } else {
        assert(0 * q == 0) by (nonlinear_arith);
    }
}

/// The maximum of the rules of single cells is no less than each of them.
pub proof fn lemma_single_holds(cells: Seq<Cell>, i: int)
    requires
        0 <= i < cells.len(),
        cells[i].span.len == 1,
    ensures
        single(cells, cells[i].span.first as int).min >= cells[i].rules.min,
        single(cells, cells[i].span.first as int).ideal >= cells[i].rules.ideal,
    decreases cells.len(),
{
    let c = cells[i].span.first as int;
    if i < cells.len() - 1 {
        lemma_single_holds(cells.drop_last(), i);
    }
}

/// Larger tracks need no less space.
pub proof fn lemma_total_mono(a: Seq<SizeRules>, b: Seq<SizeRules>, ideal: bool)
    requires
        grown(a, b),
    ensures
        spec_total(a, ideal) <= spec_total(b, ideal),
        spec_total(a, ideal) >= 0,
    decreases a.len(),
{
    if a.len() > 0 {
        let a0 = a.drop_last();
        let b0 = b.drop_last();
        assert forall|k: int| 0 <= k < a0.len() implies {
            &&& (#[trigger] a0[k]).min <= b0[k].min
            &&& a0[k].ideal <= b0[k].ideal
            &&& a0[k].margins == b0[k].margins
            &&& a0[k].stretch == b0[k].stretch
        } by {
            assert(a0[k] == a[k]);
            assert(b0[k] == b[k]);
        }
        lemma_total_mono(a0, b0, ideal);
        assert(a.last() == a[a.len() - 1]);
        assert(b.last() == b[b.len() - 1]);
        if a.len() > 1 {
            assert(a[a.len() - 2].margins == b[b.len() - 2].margins);
        }
    }
}

/// Where each of some tracks is raised by its part of `left`, the tracks
/// need as much more as the parts add up to, unless they need more than any
/// widget can ask for.
pub proof fn lemma_raised_total(old: Seq<SizeRules>, new: Seq<SizeRules>, left: int, n: int, ideal: bool)
    requires
        left >= 0,
        n >= 1,
        old.len() == new.len(),
        old.len() <= n,
        forall|j: int|
            0 <= j < old.len() ==> {
                &&& (#[trigger] new[j]).margins == old[j].margins
                &&& size_of(new[j], ideal) == clamp_u32(size_of(old[j], ideal) + part_of(left, n, j))
            },
    ensures
        spec_total(new, ideal) >= u32::MAX || spec_total(new, ideal) == spec_total(old, ideal) + parts_sum(
            left,
            n,
            old.len() as int,
        ),
        spec_total(new, ideal) >= 0,
    decreases old.len(),
{
    let m = old.len() as int;
    if m > 0 {
        let old0 = old.drop_last();
        let new0 = new.drop_last();
        assert forall|j: int| 0 <= j < old0.len() implies {
            &&& (#[trigger] new0[j]).margins == old0[j].margins
            &&& size_of(new0[j], ideal) == clamp_u32(size_of(old0[j], ideal) + part_of(left, n, j))
        } by {
            assert(new0[j] == new[j]);
            assert(old0[j] == old[j]);
        }
        lemma_raised_total(old0, new0, left, n, ideal);
        lemma_parts_sum(left, n, m - 1);
        assert(new.last() == new[m - 1]);
        assert(old.last() == old[m - 1]);
        if m > 1 {
            assert(new[m - 2].margins == old[m - 2].margins);
        }
    }
}

/// Lifting tracks leaves them as they are but for sizes that are no
/// smaller.
pub proof fn lemma_lifted_grows(tracks: Seq<SizeRules>, span: Span, missing: int, ideal: bool)
    requires
        missing >= 0,
        span.spec_within(tracks.len() as int),
    ensures
        grown(tracks, lifted(tracks, span, missing, ideal)),
        !ideal ==> forall|k: int|
            0 <= k < tracks.len() && (#[trigger] tracks[k]).min <= tracks[k].ideal ==> lifted(
                tracks,
                span,
                missing,
                ideal,
            )[k].min <= lifted(tracks, span, missing, ideal)[k].ideal,
        ideal ==> forall|k: int|
            0 <= k < tracks.len() ==> (#[trigger] lifted(tracks, span, missing, ideal)[k]).min == tracks[k].min,
{
    let out = lifted(tracks, span, missing, ideal);
    assert forall|k: int| 0 <= k < tracks.len() implies {
        &&& (#[trigger] tracks[k]).min <= out[k].min
        &&& tracks[k].ideal <= out[k].ideal
        &&& tracks[k].margins == out[k].margins
        &&& tracks[k].stretch == out[k].stretch
        &&& (!ideal && tracks[k].min <= tracks[k].ideal ==> out[k].min <= out[k].ideal)
        &&& (ideal ==> out[k].min == tracks[k].min)
    } by {
        if span.holds(k) {
            lemma_parts_sum(missing, span.len as int, k - span.first);
        }
    }
}

/// After lifting by what they lack, the tracks of a span offer what is
/// needed.
pub proof fn lemma_lifted_fits(tracks: Seq<SizeRules>, span: Span, need: u32, ideal: bool)
    requires
        span.spec_within(tracks.len() as int),
    ensures
        spec_total(
            lifted(tracks, span, lack(tracks, span, need, ideal), ideal).subrange(
                span.first as int,
                span.first + span.len,
            ),
            ideal,
        ) >= need,
{
    let missing = lack(tracks, span, need, ideal);
    let old = tracks.subrange(span.first as int, span.first + span.len);
    let new = lifted(tracks, span, missing, ideal).subrange(span.first as int, span.first + span.len);
    assert forall|j: int| 0 <= j < old.len() implies {
        &&& (#[trigger] new[j]).margins == old[j].margins
        &&& size_of(new[j], ideal) == clamp_u32(size_of(old[j], ideal) + part_of(missing, span.len as int, j))
    } by {
        assert(span.holds(span.first + j));
        assert(new[j] == lifted(tracks, span, missing, ideal)[span.first + j]);
        assert(old[j] == tracks[span.first + j]);
    }
    lemma_raised_total(old, new, missing, span.len as int, ideal);
    lemma_parts_sum(missing, span.len as int, span.len as int);
}

/// Taking a cell into account leaves the tracks as they are but for sizes
/// that are no smaller, and keeps ideal sizes no smaller than minimum
/// sizes.
pub proof fn lemma_spread_grows(tracks: Seq<SizeRules>, cell: Cell)
    ensures
        grown(tracks, spread(tracks, cell)),
        (forall|k: int| 0 <= k < tracks.len() ==> (#[trigger] tracks[k]).wf()) ==> forall|k: int|
            0 <= k < tracks.len() ==> (#[trigger] spread(tracks, cell)[k]).wf(),
{
    if cell.span.len >= 2 && cell.span.spec_within(tracks.len() as int) {
        let m1 = lack(tracks, cell.span, cell.rules.min, false);
        let first = lifted(tracks, cell.span, m1, false);
        lemma_lifted_grows(tracks, cell.span, m1, false);
        let m2 = lack(first, cell.span, cell.rules.ideal, true);
        lemma_lifted_grows(first, cell.span, m2, true);
        let out = spread(tracks, cell);
        assert forall|k: int| 0 <= k < tracks.len() implies {
            &&& (#[trigger] tracks[k]).min <= out[k].min
            &&& tracks[k].ideal <= out[k].ideal
            &&& tracks[k].margins == out[k].margins
            &&& tracks[k].stretch == out[k].stretch
        } by {
            assert(first[k].min <= out[k].min);
        }
        if forall|k: int| 0 <= k < tracks.len() ==> (#[trigger] tracks[k]).wf() {
            assert forall|k: int| 0 <= k < tracks.len() implies (#[trigger] out[k]).wf() by {
                assert(tracks[k].wf());
                assert(first[k].min <= first[k].ideal);
                assert(first[k].ideal <= out[k].ideal);
                assert(out[k].min == first[k].min);
            }
        }
    }
}

/// A cell that covers several tracks fits into them once it was taken into
/// account.
pub proof fn lemma_spread_fits(tracks: Seq<SizeRules>, cell: Cell)
    requires
        cell.span.len >= 2,
        cell.span.spec_within(tracks.len() as int),
    ensures
        spec_total(spread(tracks, cell).subrange(cell.span.first as int, cell.span.first + cell.span.len), false)
            >= cell.rules.min,
        spec_total(spread(tracks, cell).subrange(cell.span.first as int, cell.span.first + cell.span.len), true)
            >= cell.rules.ideal,
{
    let span = cell.span;
    let m1 = lack(tracks, span, cell.rules.min, false);
    let first = lifted(tracks, span, m1, false);
    lemma_lifted_fits(tracks, span, cell.rules.min, false);
    let m2 = lack(first, span, cell.rules.ideal, true);
    let out = lifted(first, span, m2, true);
    lemma_lifted_fits(first, span, cell.rules.ideal, true);
    lemma_lifted_grows(first, span, m2, true);
    lemma_part_grown(first, out, span);
    lemma_total_mono(
        first.subrange(span.first as int, span.first + span.len),
        out.subrange(span.first as int, span.first + span.len),
        false,
    );
}

/// What holds of tracks and larger tracks holds of the same part of both.
pub proof fn lemma_part_grown(a: Seq<SizeRules>, b: Seq<SizeRules>, span: Span)
    requires
        grown(a, b),
        span.spec_within(a.len() as int),
    ensures
        grown(
            a.subrange(span.first as int, span.first + span.len),
            b.subrange(span.first as int, span.first + span.len),
        ),
{
    let pa = a.subrange(span.first as int, span.first + span.len);
    let pb = b.subrange(span.first as int, span.first + span.len);
    assert forall|k: int| 0 <= k < pa.len() implies {
        &&& (#[trigger] pa[k]).min <= pb[k].min
        &&& pa[k].ideal <= pb[k].ideal
        &&& pa[k].margins == pb[k].margins
        &&& pa[k].stretch == pb[k].stretch
    } by {
        assert(pa[k] == a[span.first + k]);
        assert(pb[k] == b[span.first + k]);
    }
}

/// Taking cells into account leaves the tracks as they are but for sizes
/// that are no smaller.
pub proof fn lemma_spread_all_grows(tracks: Seq<SizeRules>, cells: Seq<Cell>)
    ensures
        grown(tracks, spread_all(tracks, cells)),
        (forall|k: int| 0 <= k < tracks.len() ==> (#[trigger] tracks[k]).wf()) ==> forall|k: int|
            0 <= k < tracks.len() ==> (#[trigger] spread_all(tracks, cells)[k]).wf(),
    decreases cells.len(),
{
    if cells.len() > 0 {
        let mid = spread_all(tracks, cells.drop_last());
        lemma_spread_all_grows(tracks, cells.drop_last());
        lemma_spread_grows(mid, cells.last());
        let out = spread_all(tracks, cells);
        assert forall|k: int| 0 <= k < tracks.len() implies {
            &&& (#[trigger] tracks[k]).min <= out[k].min
            &&& tracks[k].ideal <= out[k].ideal
            &&& tracks[k].margins == out[k].margins
            &&& tracks[k].stretch == out[k].stretch
        } by {
            assert(mid[k].min <= out[k].min);
        }
    }
}

/// Taking cells into account one after the other is the same as taking the
/// first of them into account and then the others.
pub proof fn lemma_spread_all_split(tracks: Seq<SizeRules>, cells: Seq<Cell>, i: int)
    requires
        0 <= i <= cells.len(),
    ensures
        spread_all(tracks, cells) == spread_all(spread_all(tracks, cells.take(i)), cells.skip(i)),
    decreases cells.len() - i,
{
    if i == cells.len() {
        assert(cells.take(i) =~= cells);
        assert(cells.skip(i).len() == 0);
    } else {
        let init = cells.drop_last();
        lemma_spread_all_split(tracks, init, i);
        assert(init.take(i) =~= cells.take(i));
        assert(cells.skip(i).drop_last() =~= init.skip(i));
        assert(cells.skip(i).last() == cells.last());
    }
}

/// Every cell fits into the tracks that it covers: what these tracks ask
/// for as minimum sizes, margins in between included, is no less than the
/// minimum size of the cell, and so for the ideal sizes.
pub proof fn lemma_cells_fit(cells: Seq<Cell>, n: int, i: int)
    requires
        0 <= i < cells.len(),
        cells[i].span.spec_within(n),
    ensures
        spec_track_rules(cells, n).len() == n,
        spec_total(
            spec_track_rules(cells, n).subrange(cells[i].span.first as int, cells[i].span.first + cells[i].span.len),
            false,
        ) >= cells[i].rules.min,
        spec_total(
            spec_track_rules(cells, n).subrange(cells[i].span.first as int, cells[i].span.first + cells[i].span.len),
            true,
        ) >= cells[i].rules.ideal,
{
    let cell = cells[i];
    let span = cell.span;
    let start = Seq::new(n as nat, |c: int| single(cells, c));
    let out = spec_track_rules(cells, n);
    lemma_spread_all_len(start, cells);
    lemma_spread_all_grows(start, cells);
    if span.len == 1 {
        lemma_single_holds(cells, i);
        let part = out.subrange(span.first as int, span.first + 1);
        assert(part.len() == 1);
        assert(part.last() == out[span.first as int]);
        assert(start[span.first as int].min <= out[span.first as int].min);
    } else {
        lemma_spread_all_split(start, cells, i + 1);
        let before = spread_all(start, cells.take(i));
        let mid = spread_all(start, cells.take(i + 1));
        assert(cells.take(i + 1).drop_last() =~= cells.take(i));
        assert(cells.take(i + 1).last() == cell);
        lemma_spread_all_len(start, cells.take(i));
        lemma_spread_fits(before, cell);
        lemma_spread_all_len(start, cells.take(i + 1));
        lemma_spread_all_grows(mid, cells.skip(i + 1));
        lemma_part_grown(mid, out, span);
        lemma_total_mono(
            mid.subrange(span.first as int, span.first + span.len),
            out.subrange(span.first as int, span.first + span.len),
            false,
        );
        lemma_total_mono(
            mid.subrange(span.first as int, span.first + span.len),
            out.subrange(span.first as int, span.first + span.len),
            true,
        );
    }
}

/// The tracks ask for ideal sizes that are no less than their minimum
/// sizes, where the cells do.
pub proof fn lemma_tracks_wf(cells: Seq<Cell>, n: int, k: int)
    requires
        forall|i: int| 0 <= i < cells.len() ==> (#[trigger] cells[i]).rules.wf(),
        0 <= k < n,
    ensures
        spec_track_rules(cells, n).len() == n,
        spec_track_rules(cells, n)[k].wf(),
{
    let start = Seq::new(n as nat, |c: int| single(cells, c));
    assert forall|c: int| 0 <= c < n implies (#[trigger] start[c]).wf() by {
        lemma_single_wf(cells, c);
    }
    lemma_spread_all_len(start, cells);
    lemma_spread_all_grows(start, cells);
}

/// The maximum of rules with ideal sizes no less than their minimum sizes
/// is such too.
pub proof fn lemma_single_wf(cells: Seq<Cell>, c: int)
    requires
        forall|i: int| 0 <= i < cells.len() ==> (#[trigger] cells[i]).rules.wf(),
    ensures
        single(cells, c).wf(),
    decreases cells.len(),
{
    if cells.len() > 0 {
        let init = cells.drop_last();
        assert forall|i: int| 0 <= i < init.len() implies (#[trigger] init[i]).rules.wf() by {
            assert(init[i] == cells[i]);
        }
        lemma_single_wf(init, c);
        assert(cells.last() == cells[cells.len() - 1]);
    }
}

} // verus!
