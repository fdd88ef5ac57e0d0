//! Size negotiation: the per-axis requirement of a widget and how the
//! requirements of neighbours combine.

use vstd::prelude::*;
use crate::geom::{clamp_u32, add_extent, Margins, Size};

verus! {

/// How eagerly a widget takes space beyond its ideal size. Later variants
/// take precedence over earlier ones.
#[derive(Clone, Copy, Debug, PartialEq, Eq, Structural)]
pub enum StretchPolicy {
    /// Never grows beyond the ideal size.
    Fixed,
    /// Grows only to fill space that nothing else wants.
    Filler,
    /// Extra space is of some use.
    LowUtility,
    /// Extra space is of much use.
    HighUtility,
    /// Takes all the space it can get.
    Maximise,
}

impl StretchPolicy {
    /// Position of the policy in the order of precedence.
    pub open spec fn spec_rank(self) -> u8 {
        match self {
            StretchPolicy::Fixed => 0u8,
            StretchPolicy::Filler => 1u8,
            StretchPolicy::LowUtility => 2u8,
            StretchPolicy::HighUtility => 3u8,
            StretchPolicy::Maximise => 4u8,
        }
    }

    /// The policy of higher precedence; `self` where both are alike.
    pub open spec fn spec_stronger(self, rhs: StretchPolicy) -> StretchPolicy {
        if self.spec_rank() >= rhs.spec_rank() {
            self
        } else {
            rhs
        }
    }

    #[verifier::when_used_as_spec(spec_rank)]
    pub fn rank(self) -> (r: u8)
        ensures
            r == self.spec_rank(),
    {
        match self {
            StretchPolicy::Fixed => 0,
            StretchPolicy::Filler => 1,
            StretchPolicy::LowUtility => 2,
            StretchPolicy::HighUtility => 3,
            StretchPolicy::Maximise => 4,
        }
    }

    #[verifier::when_used_as_spec(spec_stronger)]
    pub fn stronger(self, rhs: StretchPolicy) -> (r: StretchPolicy)
        ensures
            r == self.spec_stronger(rhs),
    {
        if self.rank() >= rhs.rank() {
            self
        } else {
            rhs
        }
    }
}

/// The axis along which sizes are being negotiated, and the size already
/// fixed on the other axis, if any.
#[derive(Clone, Copy, Debug, PartialEq, Eq)]
pub struct AxisInfo {
    pub vertical: bool,
    pub other: Option<u32>,
}

impl AxisInfo {
    pub fn new(vertical: bool, fixed: Option<u32>) -> (r: AxisInfo)
        ensures
            r == (AxisInfo { vertical, other: fixed }),
    {
        AxisInfo { vertical, other: fixed }
    }

    pub open spec fn spec_is_vertical(&self) -> bool {
        self.vertical
    }

    pub open spec fn spec_is_horizontal(&self) -> bool {
        !self.vertical
    }

    /// The size fixed on the other axis, given that `vertical` names that
    /// other axis.
    pub open spec fn spec_fixed(&self, vertical: bool) -> Option<u32> {
        if vertical == self.vertical {
            None
        } else {
            self.other
        }
    }

    #[verifier::when_used_as_spec(spec_is_vertical)]
    pub fn is_vertical(&self) -> (r: bool)
        ensures
            r == self.vertical,
    {
        self.vertical
    }

    #[verifier::when_used_as_spec(spec_is_horizontal)]
    pub fn is_horizontal(&self) -> (r: bool)
        ensures
            r == !self.vertical,
    {
        !self.vertical
    }

    #[verifier::when_used_as_spec(spec_fixed)]
    pub fn fixed(&self, vertical: bool) -> (r: Option<u32>)
        ensures
            r == self.spec_fixed(vertical),
    {
        if vertical == self.vertical {
            None
        } else {
            self.other
        }
    }
}

/// The larger of two margins.
pub open spec fn wider(a: u16, b: u16) -> u16 {
    if a >= b {
        a
    } else {
        b
    }
}

/// The larger of two extents.
pub open spec fn larger(a: u32, b: u32) -> u32 {
    if a >= b {
        a
    } else {
        b
    }
}

/// What a widget asks for along one axis: the least size it can be drawn in,
/// the size it would like, the margin it wants before and after itself, and
/// how it treats space beyond the ideal.
#[derive(Clone, Copy, Debug, PartialEq, Eq)]
pub struct SizeRules {
    pub min: u32,
    pub ideal: u32,
    pub margins: (u16, u16),
    pub stretch: StretchPolicy,
}

impl SizeRules {
    /// The ideal size is no less than the minimum.
    pub open spec fn wf(&self) -> bool {
        self.min <= self.ideal
    }

    /// Rules that ask for no space and no margins.
    pub open spec fn spec_empty(stretch: StretchPolicy) -> SizeRules {
        SizeRules { min: 0, ideal: 0, margins: (0u16, 0u16), stretch }
    }

    /// Rules for content of exactly `size`.
    pub open spec fn spec_fixed(size: u32, margins: (u16, u16)) -> SizeRules {
        SizeRules { min: size, ideal: size, margins, stretch: StretchPolicy::Fixed }
    }

    /// Rules with the given parts; an ideal below the minimum is raised to it.
    pub open spec fn spec_new(min: u32, ideal: u32, margins: (u16, u16), stretch: StretchPolicy) -> SizeRules {
        SizeRules { min, ideal: larger(min, ideal), margins, stretch }
    }

    /// Fixed rules for one axis of a two-dimensional size with margins.
    pub open spec fn spec_extract_fixed(vertical: bool, size: Size, margins: Margins) -> SizeRules {
        if vertical {
            Self::spec_fixed(size.1, margins.vert)
        } else {
            Self::spec_fixed(size.0, margins.horiz)
        }
    }

    /// Combination across the axis of a layout: two widgets side by side on
    /// the other axis need the larger of each part.
    pub open spec fn spec_max(self, rhs: SizeRules) -> SizeRules {
        SizeRules {
            min: larger(self.min, rhs.min),
            ideal: larger(self.ideal, rhs.ideal),
            margins: (wider(self.margins.0, rhs.margins.0), wider(self.margins.1, rhs.margins.1)),
            stretch: self.stretch.spec_stronger(rhs.stretch),
        }
    }

    /// Combination along the axis of a layout: `rhs` placed after `self`.
    /// Sizes add up, with the larger of the two margins that meet in between;
    /// the outer margins are those of the outer sides.
    pub open spec fn spec_appended(self, rhs: SizeRules) -> SizeRules {
        let gap = wider(self.margins.1, rhs.margins.0) as int;
        SizeRules {
            min: clamp_u32(self.min + rhs.min + gap),
            ideal: clamp_u32(self.ideal + rhs.ideal + gap),
            margins: (self.margins.0, rhs.margins.1),
            stretch: self.stretch.spec_stronger(rhs.stretch),
        }
    }

    /// Content `self` placed inside `frame`. With `internal_margins` the
    /// content's margins lie inside the frame and add to its size, and the
    /// result has the frame's margins; otherwise the result has the larger
    /// margin on each side.
    pub open spec fn spec_surrounded_by(self, frame: SizeRules, internal_margins: bool) -> SizeRules {
        let inner = if internal_margins {
            self.margins.0 + self.margins.1
        } else {
            0
        };
        SizeRules {
            min: clamp_u32(self.min + frame.min + inner),
            ideal: clamp_u32(self.ideal + frame.ideal + inner),
            margins: if internal_margins {
                frame.margins
            } else {
                (wider(self.margins.0, frame.margins.0), wider(self.margins.1, frame.margins.1))
            },
            stretch: self.stretch,
        }
    }

    /// All of `rules` appended in order, starting from `acc`.
    pub open spec fn spec_sum_from(acc: SizeRules, rules: Seq<SizeRules>) -> SizeRules
        decreases rules.len(),
    {
        if rules.len() == 0 {
            acc
        } else {
            Self::spec_sum_from(acc.spec_appended(rules[0]), rules.drop_first())
        }
    }

    /// The maximum over `acc` and all of `rules`.
    pub open spec fn spec_max_from(acc: SizeRules, rules: Seq<SizeRules>) -> SizeRules
        decreases rules.len(),
    {
        if rules.len() == 0 {
            acc
        } else {
            Self::spec_max_from(acc.spec_max(rules[0]), rules.drop_first())
        }
    }

    #[verifier::when_used_as_spec(spec_empty)]
    pub fn empty(stretch: StretchPolicy) -> (r: SizeRules)
        ensures
            r == Self::spec_empty(stretch),
            r.wf(),
    {
        SizeRules { min: 0, ideal: 0, margins: (0, 0), stretch }
    }

    #[verifier::when_used_as_spec(spec_fixed)]
    pub fn fixed(size: u32, margins: (u16, u16)) -> (r: SizeRules)
        ensures
            r == Self::spec_fixed(size, margins),
            r.wf(),
    {
        SizeRules { min: size, ideal: size, margins, stretch: StretchPolicy::Fixed }
    }

    #[verifier::when_used_as_spec(spec_new)]
    pub fn new(min: u32, ideal: u32, margins: (u16, u16), stretch: StretchPolicy) -> (r: SizeRules)
        ensures
            r == Self::spec_new(min, ideal, margins, stretch),
            r.wf(),
    {
        let ideal: u32 = if min >= ideal { min } else { ideal };
        SizeRules { min, ideal, margins, stretch }
    }

    #[verifier::when_used_as_spec(spec_extract_fixed)]
    pub fn extract_fixed(vertical: bool, size: Size, margins: Margins) -> (r: SizeRules)
        ensures
            r == Self::spec_extract_fixed(vertical, size, margins),
            r.wf(),
    {
        if vertical {
            SizeRules::fixed(size.1, margins.vert)
        } else {
            SizeRules::fixed(size.0, margins.horiz)
        }
    }

    pub fn min_size(&self) -> (r: u32)
        ensures
            r == self.min,
    {
        self.min
    }

    pub fn ideal_size(&self) -> (r: u32)
        ensures
            r == self.ideal,
    {
        self.ideal
    }

    pub fn margins(&self) -> (r: (u16, u16))
        ensures
            r == self.margins,
    {
        self.margins
    }

    pub fn stretch(&self) -> (r: StretchPolicy)
        ensures
            r == self.stretch,
    {
        self.stretch
    }

    #[verifier::when_used_as_spec(spec_max)]
    pub fn max(self, rhs: SizeRules) -> (r: SizeRules)
        ensures
            r == self.spec_max(rhs),
            self.wf() && rhs.wf() ==> r.wf(),
    {
        SizeRules {
            min: if self.min >= rhs.min { self.min } else { rhs.min },
            ideal: if self.ideal >= rhs.ideal { self.ideal } else { rhs.ideal },
            margins: (
                if self.margins.0 >= rhs.margins.0 { self.margins.0 } else { rhs.margins.0 },
                if self.margins.1 >= rhs.margins.1 { self.margins.1 } else { rhs.margins.1 },
            ),
            stretch: self.stretch.stronger(rhs.stretch),
        }
    }

    #[verifier::when_used_as_spec(spec_appended)]
    pub fn appended(self, rhs: SizeRules) -> (r: SizeRules)
        ensures
            r == self.spec_appended(rhs),
            self.wf() && rhs.wf() ==> r.wf(),
    {
        let gap: u16 = if self.margins.1 >= rhs.margins.0 { self.margins.1 } else { rhs.margins.0 };
        SizeRules {
            min: add_extent(add_extent(self.min, rhs.min), gap as u32),
            ideal: add_extent(add_extent(self.ideal, rhs.ideal), gap as u32),
            margins: (self.margins.0, rhs.margins.1),
            stretch: self.stretch.stronger(rhs.stretch),
        }
    }

    #[verifier::when_used_as_spec(spec_surrounded_by)]
    pub fn surrounded_by(self, frame: SizeRules, internal_margins: bool) -> (r: SizeRules)
        ensures
            r == self.spec_surrounded_by(frame, internal_margins),
            self.wf() && frame.wf() ==> r.wf(),
    {
        if internal_margins {
            let inner: u32 = self.margins.0 as u32 + self.margins.1 as u32;
            SizeRules {
                min: add_extent(add_extent(self.min, frame.min), inner),
                ideal: add_extent(add_extent(self.ideal, frame.ideal), inner),
                margins: frame.margins,
                stretch: self.stretch,
            }
        } else {
            SizeRules {
                min: add_extent(self.min, frame.min),
                ideal: add_extent(self.ideal, frame.ideal),
                margins: (
                    if self.margins.0 >= frame.margins.0 { self.margins.0 } else { frame.margins.0 },
                    if self.margins.1 >= frame.margins.1 { self.margins.1 } else { frame.margins.1 },
                ),
                stretch: self.stretch,
            }
        }
    }

    /// The rules of a sequence of widgets laid out one after the other;
    /// empty rules for no widget.
    pub fn sum(rules: &Vec<SizeRules>) -> (r: SizeRules)
        ensures
            r == Self::spec_sum(rules@),
    {
        if rules.len() == 0 {
            return SizeRules::empty(StretchPolicy::Fixed);
        }
        let mut acc = rules[0];
        let mut i: usize = 1;
        proof {
            assert(rules@.subrange(1, rules@.len() as int) =~= rules@.drop_first());
        }
        while i < rules.len()
            invariant
                1 <= i <= rules.len(),
                Self::spec_sum_from(acc, rules@.subrange(i as int, rules@.len() as int))
                    == Self::spec_sum_from(rules@[0], rules@.drop_first()),
            decreases rules.len() - i,
        {
            proof {
                let rest = rules@.subrange(i as int, rules@.len() as int);
                assert(rest[0] == rules@[i as int]);
                assert(rest.drop_first() =~= rules@.subrange(i as int + 1, rules@.len() as int));
            }
            acc = acc.appended(rules[i]);
            i += 1;
        }
        proof {
            assert(rules@.subrange(i as int, rules@.len() as int).len() == 0);
        }
        acc
    }

    /// The rules of a set of widgets laid out side by side on the other
    /// axis; empty rules for no widget.
    pub fn max_of(rules: &Vec<SizeRules>) -> (r: SizeRules)
        ensures
            r == Self::spec_max_of(rules@),
    {
        let mut acc = SizeRules::empty(StretchPolicy::Fixed);
        let mut i: usize = 0;
        proof {
            assert(rules@.subrange(0, rules@.len() as int) =~= rules@);
        }
        while i < rules.len()
            invariant
                0 <= i <= rules.len(),
                Self::spec_max_from(acc, rules@.subrange(i as int, rules@.len() as int))
                    == Self::spec_max_from(Self::spec_empty(StretchPolicy::Fixed), rules@),
            decreases rules.len() - i,
        {
            proof {
                let rest = rules@.subrange(i as int, rules@.len() as int);
                assert(rest[0] == rules@[i as int]);
                assert(rest.drop_first() =~= rules@.subrange(i as int + 1, rules@.len() as int));
            }
            acc = acc.max(rules[i]);
            i += 1;
        }
        proof {
            assert(rules@.subrange(i as int, rules@.len() as int).len() == 0);
        }
        acc
    }
}

/// The space that widgets with `rules` need in a row when each has its
/// ideal size, or with `ideal` false its minimum size: the sizes and, between
/// neighbours, the larger of the two margins that meet.
pub open spec fn spec_total(rules: Seq<SizeRules>, ideal: bool) -> int
    decreases rules.len(),
{
    if rules.len() == 0 {
        0
    } else {
        let last = rules.last();
        let size = if ideal {
            last.ideal as int
        } else {
            last.min as int
        };
        if rules.len() == 1 {
            size
        } else {
            spec_total(rules.drop_last(), ideal) + wider(rules[rules.len() - 2].margins.1, last.margins.0)
                + size
        }
    }
}

/// The rank of the strongest stretch policy among `rules`.
pub open spec fn spec_top(rules: Seq<SizeRules>) -> u8
    decreases rules.len(),
{
    if rules.len() == 0 {
        0
    } else {
        let rest = spec_top(rules.drop_last());
        let rank = rules.last().stretch.spec_rank();
        if rank > rest {
            rank
        } else {
            rest
        }
    }
}

/// How many of `rules` have a stretch policy of rank `rank`.
pub open spec fn spec_count(rules: Seq<SizeRules>, rank: u8) -> int
    decreases rules.len(),
{
    if rules.len() == 0 {
        0
    } else {
        spec_count(rules.drop_last(), rank) + if rules.last().stretch.spec_rank() == rank {
            1int
        } else {
            0int
        }
    }
}

/// What widget `i` of a row gets beyond its ideal size when `left` is left
/// over: nothing unless its stretch policy is the strongest in the row and
/// is not `Fixed`; else an equal part of what is left, the earlier ones of
/// these widgets taking one more where the parts do not come out even.
pub open spec fn spec_extra(rules: Seq<SizeRules>, left: int, i: int) -> int {
    let top = spec_top(rules);
    let n = spec_count(rules, top);
    if top > 0 && rules[i].stretch.spec_rank() == top && n > 0 {
        left / n + if spec_count(rules.take(i), top) < left % n {
            1int
        } else {
            0int
        }
    } else {
        0
    }
}

/// The size that widget `i` of a row gets when `target` is to be divided:
/// its ideal size and its part of the rest where all ideal sizes fit, else
/// its minimum size.
pub open spec fn spec_share_at(rules: Seq<SizeRules>, target: u32, i: int) -> int {
    let total = spec_total(rules, true);
    if total <= target {
        rules[i].ideal + spec_extra(rules, target - total, i)
    } else {
        rules[i].min as int
    }
}

/// The sizes that the widgets of a row get when `target` is divided among
/// them.
pub open spec fn spec_share(rules: Seq<SizeRules>, target: u32) -> Seq<u32> {
    Seq::new(rules.len(), |i: int| spec_share_at(rules, target, i) as u32)
}

/// A longer row needs no less space, and no less than its last widget.
pub proof fn lemma_total_grows(rules: Seq<SizeRules>, ideal: bool, i: int)
    requires
        0 <= i < rules.len(),
    ensures
        spec_total(rules.take(i), ideal) <= spec_total(rules.take(i + 1), ideal),
        spec_total(rules.take(i + 1), ideal) == spec_total(rules.take(i), ideal) + (if i > 0 {
            wider(rules[i - 1].margins.1, rules[i].margins.0) as int
        } else {
            0int
        }) + (if ideal {
            rules[i].ideal as int
        } else {
            rules[i].min as int
        }),
        spec_total(rules.take(i), ideal) >= 0,
    decreases i,
{
    let next = rules.take(i + 1);
    assert(next.drop_last() =~= rules.take(i));
    assert(next.last() == rules[i]);
    if i > 0 {
        lemma_total_grows(rules, ideal, i - 1);
        assert(next[next.len() - 2] == rules[i - 1]);
    } else {
        assert(rules.take(0).len() == 0);
    }
}

/// A row needs at least the ideal size of each of its widgets.
pub proof fn lemma_total_holds(rules: Seq<SizeRules>, i: int)
    requires
        0 <= i < rules.len(),
    ensures
        rules[i].ideal <= spec_total(rules, true),
    decreases rules.len(),
{
    let n = rules.len() as int;
    assert(rules.take(n) =~= rules);
    lemma_total_grows(rules, true, n - 1);
    if i < n - 1 {
        let init = rules.take(n - 1);
        lemma_total_holds(init, i);
    }
}

/// The counts of a prefix: one more widget adds one where its rank is the
/// one counted, and counts stay within the number of widgets.
pub proof fn lemma_count_step(rules: Seq<SizeRules>, rank: u8, i: int)
    requires
        0 <= i < rules.len(),
    ensures
        spec_count(rules.take(i + 1), rank) == spec_count(rules.take(i), rank) + if rules[i].stretch.spec_rank()
            == rank {
            1int
        } else {
            0int
        },
        0 <= spec_count(rules.take(i), rank) <= i,
        spec_top(rules.take(i + 1)) == if rules[i].stretch.spec_rank() > spec_top(rules.take(i)) {
            rules[i].stretch.spec_rank()
        } else {
            spec_top(rules.take(i))
        },
    decreases i,
{
    let next = rules.take(i + 1);
    assert(next.drop_last() =~= rules.take(i));
    assert(next.last() == rules[i]);
    if i > 0 {
        lemma_count_step(rules, rank, i - 1);
    } else {
        assert(rules.take(0).len() == 0);
    }
}

/// What a widget gets beyond its ideal size is no more than what is left
/// over.
pub proof fn lemma_extra_bounded(rules: Seq<SizeRules>, left: int, i: int)
    requires
        0 <= i < rules.len(),
        0 <= left,
    ensures
        0 <= spec_extra(rules, left, i) <= left,
{
    let top = spec_top(rules);
    let n = spec_count(rules, top);
    if top > 0 && rules[i].stretch.spec_rank() == top && n > 0 {
        lemma_count_step(rules, top, i);
        assert(0 <= left / n && 0 <= left % n < n && left == n * (left / n) + left % n) by (nonlinear_arith)
            requires
                n > 0,
                left >= 0,
        ;
        if spec_count(rules.take(i), top) < left % n {
            assert(left / n + 1 <= left) by (nonlinear_arith)
                requires
                    n >= 1,
                    left % n >= 1,
                    left / n >= 0,
                    left == n * (left / n) + left % n,
            ;
        } else {
            assert(left / n <= left) by (nonlinear_arith)
                requires
                    n >= 1,
                    left % n >= 0,
                    left / n >= 0,
                    left == n * (left / n) + left % n,
            ;
        }
    }
}

/// Every share fits in the target where the ideal sizes do.
pub proof fn lemma_share_fits(rules: Seq<SizeRules>, target: u32, i: int)
    requires
        0 <= i < rules.len(),
    ensures
        0 <= spec_share_at(rules, target, i) <= u32::MAX,
        spec_total(rules, true) <= target ==> spec_share_at(rules, target, i) <= target,
{
    let total = spec_total(rules, true);
    if total <= target {
        lemma_total_holds(rules, i);
        lemma_extra_bounded(rules, target - total, i);
    }
}

impl SizeRules {
    /// All of `rules` appended in order; empty rules for none.
    pub open spec fn spec_sum(rules: Seq<SizeRules>) -> SizeRules {
        if rules.len() == 0 {
            Self::spec_empty(StretchPolicy::Fixed)
        } else {
            Self::spec_sum_from(rules[0], rules.drop_first())
        }
    }

    /// The maximum over all of `rules`; empty rules for none.
    pub open spec fn spec_max_of(rules: Seq<SizeRules>) -> SizeRules {
        Self::spec_max_from(Self::spec_empty(StretchPolicy::Fixed), rules)
    }

    /// Divides `target` among the widgets of a row with the given rules.
    ///
    /// Where the ideal sizes with the margins in between fit into `target`,
    /// every widget gets its ideal size, and what is left over goes in equal
    /// parts to the widgets with the strongest stretch policy, unless that
    /// is `Fixed`. Where they do not fit, every widget gets its minimum
    /// size.
    pub fn solve_seq(rules: &Vec<SizeRules>, target: u32) -> (out: Vec<u32>)
        ensures
            out@ == spec_share(rules@, target),
    {
        let n = rules.len();
        let mut total: u64 = 0;
        let mut fits = true;
        let mut top: u8 = 0;
        let mut i: usize = 0;
        proof {
            assert(rules@.take(0).len() == 0);
        }
        while i < n
            invariant
                0 <= i <= n,
                n == rules.len(),
                top == spec_top(rules@.take(i as int)),
                fits ==> total == spec_total(rules@.take(i as int), true) && total <= target,
                !fits ==> spec_total(rules@.take(i as int), true) > target,
            decreases n - i,
        {
            proof {
                lemma_total_grows(rules@, true, i as int);
                lemma_count_step(rules@, 0, i as int);
            }
            let rule = rules[i];
            let gap: u16 = if i > 0 {
                let before = rules[i - 1].margins.1;
                if before >= rule.margins.0 {
                    before
                } else {
                    rule.margins.0
                }
            } else {
                0
            };
            if fits {
                let more: u64 = total + gap as u64 + rule.ideal as u64;
                if more > target as u64 {
                    fits = false;
                } else {
                    total = more;
                }
            }
            let rank = rule.stretch.rank();
            if rank > top {
                top = rank;
            }
            i += 1;
        }
        proof {
            assert(rules@.take(n as int) =~= rules@);
        }
        let mut count: u64 = 0;
        let mut i: usize = 0;
        while i < n
            invariant
                0 <= i <= n,
                n == rules.len(),
                count == spec_count(rules@.take(i as int), top),
                count <= i,
            decreases n - i,
        {
            proof {
                lemma_count_step(rules@, top, i as int);
            }
            if rules[i].stretch.rank() == top {
                count += 1;
            }
            i += 1;
        }
        let left: u64 = if fits {
            target as u64 - total
        } else {
            0
        };
        let part: u64 = if count > 0 {
            left / count
        } else {
            0
        };
        let rest: u64 = if count > 0 {
            left % count
        } else {
            0
        };
        let mut out: Vec<u32> = Vec::new();
        let mut seen: u64 = 0;
        let mut i: usize = 0;
        while i < n
            invariant
                0 <= i <= n,
                n == rules.len(),
                rules@.take(n as int) == rules@,
                count == spec_count(rules@, top),
                top == spec_top(rules@),
                fits ==> total == spec_total(rules@, true) && total <= target && left == target - total,
                !fits ==> spec_total(rules@, true) > target,
                count > 0 ==> part == left as int / count as int && rest == left as int % count as int,
                seen == spec_count(rules@.take(i as int), top),
                seen <= i,
                out@.len() == i,
                forall|k: int| 0 <= k < i ==> out@[k] == #[trigger] spec_share_at(rules@, target, k) as u32,
            decreases n - i,
        {
            proof {
                lemma_count_step(rules@, top, i as int);
                lemma_share_fits(rules@, target, i as int);
                if fits {
                    lemma_extra_bounded(rules@, left as int, i as int);
                }
            }
            let rule = rules[i];
            let is_top = rule.stretch.rank() == top;
            let size: u32 = if fits {
                if top > 0 && is_top && count > 0 {
                    let extra: u64 = if seen < rest {
                        part + 1
                    } else {
                        part
                    };
                    (rule.ideal as u64 + extra) as u32
                } else {
                    rule.ideal
                }
            } else {
                rule.min
            };
            out.push(size);
            if is_top {
                seen += 1;
            }
            i += 1;
        }
        proof {
            assert(out@ =~= spec_share(rules@, target));
        }
        out
    }
}

/// The margin between widget `i` of a row and the next one.
pub open spec fn gap_after(rules: Seq<SizeRules>, i: int) -> int {
    if 0 <= i && i + 1 < rules.len() {
        wider(rules[i].margins.1, rules[i + 1].margins.0) as int
    } else {
        0
    }
}

/// The size of widget `i` of a row; nothing where no size is known.
pub open spec fn extent_at(extents: Seq<u32>, i: int) -> u32 {
    if 0 <= i < extents.len() {
        extents[i]
    } else {
        0
    }
}

/// Where widget `i` of a row begins, counted from the start of the row.
pub open spec fn offset_at(rules: Seq<SizeRules>, extents: Seq<u32>, i: int) -> u32
    decreases i,
{
    if i <= 0 {
        0
    } else {
        clamp_u32(offset_at(rules, extents, i - 1) + extent_at(extents, i - 1) + gap_after(rules, i - 1))
    }
}

/// Where each widget of a row begins, counted from the start of the row.
pub fn offsets(row: &Vec<SizeRules>, extents: &Vec<u32>) -> (out: Vec<u32>)
    requires
        extents.len() == row.len(),
    ensures
        out@.len() == row.len(),
        forall|k: int| 0 <= k < out@.len() ==> #[trigger] out@[k] == offset_at(row@, extents@, k),
{
    let n = row.len();
    let mut out: Vec<u32> = Vec::new();
    let mut offset: u32 = 0;
    let mut k: usize = 0;
    while k < n
        invariant
            0 <= k <= n,
            n == row.len(),
            n == extents.len(),
            out@.len() == k,
            offset == offset_at(row@, extents@, k as int),
            forall|t: int| 0 <= t < k ==> #[trigger] out@[t] == offset_at(row@, extents@, t),
        decreases n - k,
    {
        out.push(offset);
        let gap: u16 = if k + 1 < n {
            let a = row[k].margins.1;
            let b = row[k + 1].margins.0;
            if a >= b {
                a
            } else {
                b
            }
        } else {
            0
        };
        offset = add_extent(add_extent(offset, extents[k]), gap as u32);
        k += 1;
    }
    out
}

/// Combination across the axis does not depend on the order of the two.
pub proof fn lemma_max_commutative(a: SizeRules, b: SizeRules)
    ensures
        a.spec_max(b) == b.spec_max(a),
{
}

/// Combination across the axis does not depend on the grouping.
pub proof fn lemma_max_associative(a: SizeRules, b: SizeRules, c: SizeRules)
    ensures
        a.spec_max(b).spec_max(c) == a.spec_max(b.spec_max(c)),
{
}

/// Combination along the axis does not depend on the grouping: three
/// widgets in a row need the same whichever neighbours are joined first.
pub proof fn lemma_appended_associative(a: SizeRules, b: SizeRules, c: SizeRules)
    ensures
        a.spec_appended(b).spec_appended(c) == a.spec_appended(b.spec_appended(c)),
{
}

} // verus!
