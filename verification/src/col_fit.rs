//! Choosing the columns on screen while measuring them one at a time.
//!
//! A column's width is only known once it is formatted, and formatting is
//! done by R, column by column.  So the greedy layout of
//! [`crate::col_layout`] runs as a state machine: it asks for the width of
//! one column at a time, in the order the layout examines them, and stops
//! as soon as the columns on screen are decided.  The caller formats the
//! requested column and hands its width back.
use std::ops::Range;
use vstd::prelude::*;
use crate::col_layout::{
    fold_width, grow_left, grow_right, lemma_fold_le_seg, lemma_layout_reserves_leftmost, lemma_seg_first, min_int, reserved_width, seg, total_width,
    visible_range,
};

verus! {

/// What a layout run waits for.
#[derive(Clone, Copy)]
pub enum FitPhase {
    /// The width of the anchor column.
    Anchor,
    /// The width of the column right of the run, while filling rightwards
    /// from an anchor at the left edge; `used` columns of room are taken
    /// right of the anchor.
    FillRight { used: u128 },
    /// The width of the column left of the run, while extending it leftwards.
    ExtendLeft { used: u128 },
    /// The width of the column left of the run, while filling leftwards
    /// from an anchor at the right edge.
    FillLeft { used: u128 },
    /// The width of the column right of the run, while extending it rightwards.
    ExtendRight { used: u128 },
    /// Nothing: the columns on screen are decided.
    Done,
}

/// What the caller does next: measure a column, or draw the columns decided.
pub enum FitStep {
    Measure(usize),
    Done(Range<usize>),
}

/// A layout run: the byte length of every column's full name, the columns
/// on screen before, the side the layout is anchored at and the room
/// available; then the anchor, the run of columns `start..end` chosen so
/// far with their widths, the anchor's reserved room (when filling
/// rightwards) and what the run waits for.
pub struct ColumnFit {
    pub name_lens: Vec<usize>,
    pub shown: Range<usize>,
    pub from_start: bool,
    pub limit: usize,
    pub anchor: usize,
    pub start: usize,
    pub end: usize,
    pub widths: Vec<usize>,
    pub extra: u128,
    pub phase: FitPhase,
}

/// The reserved room of every column, given the widths `w` and the name lengths.
pub open spec fn reserved_seq(w: Seq<usize>, name_lens: Seq<usize>) -> Seq<usize> {
    Seq::new(w.len(), |i: int| reserved_width(w[i], name_lens[i]))
}

/// `seg` reads only the widths it sums: widths shifted by `k` give the same sum.
proof fn lemma_seg_same(u: Seq<usize>, v: Seq<usize>, k: int, s: int, e: int)
    requires
        forall|i: int| s <= i < e ==> u[i + k] == v[i],
    ensures
        seg(u, s + k, e + k) == seg(v, s, e),
    decreases e - s,
{
    if e > s {
        lemma_seg_same(u, v, k, s, e - 1);
        assert(u[(e - 1) + k] == v[e - 1]);
    }
}

/// `fold_width` reads only the widths it folds: widths shifted by `k` give the same width.
proof fn lemma_fold_same(u: Seq<usize>, v: Seq<usize>, k: int, s: int, e: int)
    requires
        forall|i: int| s <= i < e ==> u[i + k] == v[i],
    ensures
        fold_width(u, s + k, e + k) == fold_width(v, s, e),
    decreases e - s,
{
    if e > s {
        lemma_fold_same(u, v, k, s, e - 1);
        assert(u[(e - 1) + k] == v[e - 1]);
    }
}

impl ColumnFit {
    /// Number of columns.
    pub open spec fn ncols(&self) -> nat {
        self.name_lens@.len()
    }

    /// The columns a layout with widths `w` puts on screen.
    pub open spec fn target(&self, w: Seq<usize>) -> (int, int) {
        visible_range(w, reserved_seq(w, self.name_lens@), self.shown.start, self.shown.end, self.from_start, self.limit)
    }

    /// The column whose width the run waits for.
    pub open spec fn pending(&self) -> int {
        match self.phase {
            FitPhase::Anchor => self.anchor as int,
            FitPhase::FillRight { .. } => self.end as int,
            FitPhase::ExtendRight { .. } => self.end as int,
            FitPhase::ExtendLeft { .. } => self.start - 1,
            FitPhase::FillLeft { .. } => self.start - 1,
            FitPhase::Done => -1,
        }
    }

    /// `step` tells the caller what the run waits for.
    pub open spec fn announces(&self, step: FitStep) -> bool {
        match step {
            FitStep::Measure(i) => !(self.phase is Done) && i == self.pending(),
            FitStep::Done(r) => self.phase is Done && r.start == self.start && r.end == self.end,
        }
    }

    /// A bound on the number of widths the run still asks for.
    pub open spec fn work_left(&self) -> int {
        let n = self.ncols() as int;
        match self.phase {
            FitPhase::Anchor => 3 * n + 3,
            FitPhase::FillRight { .. } => (n - self.end) + self.start + 2,
            FitPhase::FillLeft { .. } => self.start + (n - self.end) + 2,
            FitPhase::ExtendLeft { .. } => self.start + 1,
            FitPhase::ExtendRight { .. } => (n - self.end) + 1,
            FitPhase::Done => 0,
        }
    }

    /// The shape of a run, whatever the widths of the columns not yet measured.
    pub open spec fn wf(&self) -> bool {
        let n = self.ncols() as int;
        let len = self.widths@.len() as int;
        &&& n > 0 ==> self.anchor == (if self.from_start {
            min_int(self.shown.start as int, n - 1)
        } else {
            min_int(self.shown.end as int, n - 1)
        })
        &&& n == 0 ==> self.phase is Done
        &&& !(self.phase is Anchor) ==> (len == self.end - self.start && self.start <= self.end <= n)
        &&& match self.phase {
            FitPhase::Anchor => n > 0,
            FitPhase::FillRight { used } => {
                &&& self.from_start
                &&& self.start == self.anchor < self.end < n
                &&& used == seg(self.widths@, 1, len)
                &&& used <= self.limit
                &&& self.extra == reserved_width(self.widths@[0], self.name_lens@[self.anchor as int])
            },
            FitPhase::ExtendLeft { used } => {
                &&& self.from_start
                &&& 0 < self.start <= self.anchor < self.end
                &&& used <= self.limit + usize::MAX
            },
            FitPhase::FillLeft { used } => {
                &&& !self.from_start
                &&& 0 < self.start <= self.anchor
                &&& self.end == self.anchor + 1
                &&& used == seg(self.widths@, 0, len)
                &&& (used <= self.limit || used <= usize::MAX + 1)
            },
            FitPhase::ExtendRight { used } => {
                &&& !self.from_start
                &&& self.start <= self.anchor < self.end < n
                &&& used <= self.limit + usize::MAX
            },
            FitPhase::Done => true,
        }
    }

    /// The widths of the run are those of `w`.
    pub open spec fn measured(&self, w: Seq<usize>) -> bool {
        &&& w.len() == self.ncols()
        &&& self.widths@ == w.subrange(self.start as int, self.end as int)
    }

    /// Growing rightwards from the end of the run, with `extra` reserved and
    /// `used` taken, ends where the layout with widths `w` ends.
    pub open spec fn right_ready(&self, w: Seq<usize>, extra: int, used: int) -> bool {
        &&& self.measured(w)
        &&& self.target(w).1 == grow_right(w, extra, self.limit as int, self.end as int, used)
    }

    /// Growing leftwards from the start of the run, with `used` taken,
    /// starts where the layout with widths `w` starts.
    pub open spec fn left_ready(&self, w: Seq<usize>, used: int) -> bool {
        &&& self.measured(w)
        &&& self.target(w).0 == grow_left(w, reserved_seq(w, self.name_lens@), self.limit as int, self.start as int, used)
    }

    /// The run ends where the layout with widths `w` ends.
    pub open spec fn right_settled(&self, w: Seq<usize>) -> bool {
        &&& self.measured(w)
        &&& self.end == self.target(w).1
    }

    /// The run starts where the layout with widths `w` starts.
    pub open spec fn left_settled(&self, w: Seq<usize>) -> bool {
        &&& self.measured(w)
        &&& self.start == self.target(w).0
    }

    /// The run is on its way to the layout with widths `w`: every width
    /// handed in so far was the width in `w`, and what is left to do
    /// reaches the columns that layout shows.
    pub open spec fn inv(&self, w: Seq<usize>) -> bool {
        match self.phase {
            FitPhase::Anchor => w.len() == self.ncols(),
            FitPhase::FillRight { used } => self.right_ready(w, self.extra as int, used as int),
            FitPhase::ExtendLeft { used } => self.right_settled(w) && self.left_ready(w, used as int),
            FitPhase::FillLeft { used } => self.left_ready(w, used as int),
            FitPhase::ExtendRight { used } => self.left_settled(w) && self.right_ready(w, 0, used as int),
            FitPhase::Done => self.left_settled(w) && self.right_settled(w),
        }
    }

    /// `other` is a later state of the same run.
    pub open spec fn same_run(&self, other: &ColumnFit) -> bool {
        &&& other.name_lens@ == self.name_lens@
        &&& other.shown == self.shown
        &&& other.from_start == self.from_start
        &&& other.limit == self.limit
        &&& other.anchor == self.anchor
    }

    /// The anchor of a run over at least one column.
    pub open spec fn anchored(&self) -> bool {
        let n = self.ncols() as int;
        &&& n > 0
        &&& self.anchor == (if self.from_start {
            min_int(self.shown.start as int, n - 1)
        } else {
            min_int(self.shown.end as int, n - 1)
        })
    }

    /// Once the run from a left anchor has stopped growing rightwards, it
    /// grows leftwards from its accumulated width.
    fn enter_extend_left(&mut self) -> (r: FitStep)
        requires
            old(self).anchored(),
            old(self).from_start,
            old(self).start == old(self).anchor < old(self).end <= old(self).ncols(),
            old(self).widths@.len() == old(self).end - old(self).start,
            fold_width(old(self).widths@, 0, old(self).widths@.len() as int) <= old(self).limit + usize::MAX,
        ensures
            final(self).wf(),
            old(self).same_run(final(self)),
            final(self).announces(r),
            final(self).work_left() <= old(self).start + 1,
            forall|w: Seq<usize>| #[trigger] old(self).right_settled(w) ==> final(self).inv(w),
    {
        let len = self.widths.len();
        let used = total_width(&self.widths, &(0..len));
        let ghost before = *self;
        if self.start == 0 {
            self.phase = FitPhase::Done;
            proof {
                assert forall|w: Seq<usize>| #[trigger] before.right_settled(w) implies self.inv(w) by {
                    assert(self.start == self.target(w).0);
                }
            }
            return FitStep::Done(self.start..self.end);
        }
        self.phase = FitPhase::ExtendLeft { used };
        proof {
            assert forall|w: Seq<usize>| #[trigger] before.right_settled(w) implies self.inv(w) by {
                assert forall|i: int| 0 <= i < len implies w[i + before.start] == before.widths@[i] by {
                    assert(before.widths@[i] == w.subrange(before.start as int, before.end as int)[i]);
                }
                lemma_fold_same(w, before.widths@, before.start as int, 0, len as int);
            }
        }
        FitStep::Measure(self.start - 1)
    }

    /// Once the run from a right anchor has stopped growing leftwards, it
    /// grows rightwards from its accumulated width.
    fn enter_extend_right(&mut self) -> (r: FitStep)
        requires
            old(self).anchored(),
            !old(self).from_start,
            old(self).start <= old(self).anchor,
            old(self).end == old(self).anchor + 1,
            old(self).widths@.len() == old(self).end - old(self).start,
            fold_width(old(self).widths@, 0, old(self).widths@.len() as int) <= old(self).limit + usize::MAX,
        ensures
            final(self).wf(),
            old(self).same_run(final(self)),
            final(self).announces(r),
            final(self).work_left() <= (old(self).ncols() - old(self).end) + 1,
            forall|w: Seq<usize>| #[trigger] old(self).left_settled(w) ==> final(self).inv(w),
    {
        let len = self.widths.len();
        let used = total_width(&self.widths, &(0..len));
        let ghost before = *self;
        if self.end >= self.name_lens.len() {
            self.phase = FitPhase::Done;
            proof {
                assert forall|w: Seq<usize>| #[trigger] before.left_settled(w) implies self.inv(w) by {
                    assert forall|i: int| 0 <= i < len implies w[i + before.start] == before.widths@[i] by {
                        assert(before.widths@[i] == w.subrange(before.start as int, before.end as int)[i]);
                    }
                    lemma_fold_same(w, before.widths@, before.start as int, 0, len as int);
                    assert(self.end == self.target(w).1);
                }
            }
            return FitStep::Done(self.start..self.end);
        }
        self.phase = FitPhase::ExtendRight { used };
        proof {
            assert forall|w: Seq<usize>| #[trigger] before.left_settled(w) implies self.inv(w) by {
                assert forall|i: int| 0 <= i < len implies w[i + before.start] == before.widths@[i] by {
                    assert(before.widths@[i] == w.subrange(before.start as int, before.end as int)[i]);
                }
                lemma_fold_same(w, before.widths@, before.start as int, 0, len as int);
            }
        }
        FitStep::Measure(self.end)
    }

    /// Goes on filling rightwards from a left anchor, with `used` columns of
    /// room taken right of the anchor: past the last column, the run turns
    /// leftwards.
    fn continue_right(&mut self, used: u128) -> (r: FitStep)
        requires
            old(self).anchored(),
            old(self).from_start,
            old(self).start == old(self).anchor < old(self).end <= old(self).ncols(),
            old(self).widths@.len() == old(self).end - old(self).start,
            used == seg(old(self).widths@, 1, old(self).widths@.len() as int),
            used <= old(self).limit,
            old(self).extra == reserved_width(old(self).widths@[0], old(self).name_lens@[old(self).anchor as int]),
        ensures
            final(self).wf(),
            old(self).same_run(final(self)),
            final(self).announces(r),
            final(self).work_left() <= (old(self).ncols() - old(self).end) + old(self).start + 2,
            forall|w: Seq<usize>| #[trigger] old(self).right_ready(w, old(self).extra as int, used as int) ==> final(self).inv(w),
    {
        let ghost before = *self;
        if self.end >= self.name_lens.len() {
            proof {
                let v = before.widths@;
                lemma_fold_le_seg(v, 0, v.len() as int);
                lemma_seg_first(v, 0, v.len() as int);
            }
            let r = self.enter_extend_left();
            proof {
                assert forall|w: Seq<usize>| #[trigger] before.right_ready(w, before.extra as int, used as int) implies self.inv(w) by {
                    assert(before.right_settled(w));
                }
            }
            return r;
        }
        self.phase = FitPhase::FillRight { used };
        FitStep::Measure(self.end)
    }

    /// Goes on filling leftwards from a right anchor, with `used` columns of
    /// room taken by the run: past the first column, the run turns rightwards.
    fn continue_left(&mut self, used: u128) -> (r: FitStep)
        requires
            old(self).anchored(),
            !old(self).from_start,
            old(self).start <= old(self).anchor,
            old(self).end == old(self).anchor + 1,
            old(self).widths@.len() == old(self).end - old(self).start,
            used == seg(old(self).widths@, 0, old(self).widths@.len() as int),
            used <= old(self).limit || used <= usize::MAX + 1,
        ensures
            final(self).wf(),
            old(self).same_run(final(self)),
            final(self).announces(r),
            final(self).work_left() <= old(self).start + (old(self).ncols() - old(self).end) + 2,
            forall|w: Seq<usize>| #[trigger] old(self).left_ready(w, used as int) ==> final(self).inv(w),
    {
        let ghost before = *self;
        if self.start == 0 {
            proof {
                lemma_fold_le_seg(before.widths@, 0, before.widths@.len() as int);
            }
            let r = self.enter_extend_right();
            proof {
                assert forall|w: Seq<usize>| #[trigger] before.left_ready(w, used as int) implies self.inv(w) by {
                    assert(before.left_settled(w));
                }
            }
            return r;
        }
        self.phase = FitPhase::FillLeft { used };
        FitStep::Measure(self.start - 1)
    }

    /// Hands in `width`, the width of the column the run waits for, and
    /// returns what to do next.  For any widths `w` of all the columns: if
    /// the run was on its way to the layout of `w` and `width` is `w`'s
    /// width of the column asked for, the run is still on its way to it;
    /// and each step brings the run closer to its end.
    pub fn give_width(&mut self, width: usize) -> (r: FitStep)
        requires
            old(self).wf(),
            !(old(self).phase is Done),
        ensures
            final(self).wf(),
            old(self).same_run(final(self)),
            final(self).announces(r),
            final(self).work_left() < old(self).work_left(),
            forall|w: Seq<usize>|
                #[trigger] old(self).inv(w) && 0 <= old(self).pending() < w.len() && w[old(self).pending()] == width
                    ==> final(self).inv(w),
    {
        let ghost before = *self;
        let n = self.name_lens.len();
        assert(n == before.ncols());
        let phase = self.phase;
        match phase {
            FitPhase::Anchor => {
                let a = self.anchor;
                proof {
                    assert(before.anchor < before.ncols());
                }
                self.start = a;
                self.end = a + 1;
                let mut ws: Vec<usize> = Vec::new();
                ws.push(width);
                self.widths = ws;
                if self.from_start {
                    let nl = self.name_lens[a];
                    let reserved = if width >= nl { width } else { nl };
                    self.extra = reserved as u128;
                    let ghost mid = *self;
                    let r = self.continue_right(0);
                    proof {
                        assert forall|w: Seq<usize>|
                            #[trigger] before.inv(w) && 0 <= before.pending() < w.len() && w[before.pending()] == width
                                implies self.inv(w) by {
                            assert(mid.widths@ =~= w.subrange(a as int, a + 1));
                            assert(mid.right_ready(w, mid.extra as int, 0int));
                        }
                    }
                    r
                } else {
                    let ghost mid = *self;
                    proof {
                        assert(seg(mid.widths@, 0, 0) == 0);
                        assert(seg(mid.widths@, 0, 1) == width + 1);
                    }
                    let r = self.continue_left(width as u128 + 1);
                    proof {
                        assert forall|w: Seq<usize>|
                            #[trigger] before.inv(w) && 0 <= before.pending() < w.len() && w[before.pending()] == width
                                implies self.inv(w) by {
                            assert(mid.widths@ =~= w.subrange(a as int, a + 1));
                            assert(mid.left_ready(w, width + 1));
                        }
                    }
                    r
                }
            },
            FitPhase::FillRight { used } => {
                let candidate = used + self.extra + width as u128 + 1;
                if candidate > self.limit as u128 {
                    proof {
                        let v = before.widths@;
                        lemma_fold_le_seg(v, 0, v.len() as int);
                        lemma_seg_first(v, 0, v.len() as int);
                    }
                    let r = self.enter_extend_left();
                    proof {
                        assert forall|w: Seq<usize>|
                            #[trigger] before.inv(w) && 0 <= before.pending() < w.len() && w[before.pending()] == width
                                implies self.inv(w) by {
                            assert(before.right_settled(w));
                        }
                    }
                    r
                } else {
                    let new_used = used + width as u128 + 1;
                    self.widths.push(width);
                    self.end = self.end + 1;
                    let ghost mid = *self;
                    proof {
                        let v = before.widths@;
                        let u = mid.widths@;
                        assert(u == v.push(width));
                        lemma_seg_same(u, v, 0, 1, v.len() as int);
                        assert(seg(u, 1, u.len() as int) == seg(u, 1, v.len() as int) + width + 1);
                    }
                    let r = self.continue_right(new_used);
                    proof {
                        assert forall|w: Seq<usize>|
                            #[trigger] before.inv(w) && 0 <= before.pending() < w.len() && w[before.pending()] == width
                                implies self.inv(w) by {
                            assert(mid.widths@ =~= w.subrange(mid.start as int, mid.end as int));
                            assert(mid.right_ready(w, mid.extra as int, new_used as int));
                        }
                    }
                    r
                }
            },
            FitPhase::ExtendLeft { used } => {
                let p = self.start - 1;
                let nl = self.name_lens[p];
                let reserved = if width >= nl { width } else { nl };
                let candidate = used + reserved as u128 + 1;
                if candidate > self.limit as u128 {
                    self.phase = FitPhase::Done;
                    proof {
                        assert forall|w: Seq<usize>|
                            #[trigger] before.inv(w) && 0 <= before.pending() < w.len() && w[before.pending()] == width
                                implies self.inv(w) by {
                            assert(reserved_seq(w, before.name_lens@)[p as int] == reserved);
                        }
                    }
                    return FitStep::Done(self.start..self.end);
                }
                let new_used = used + width as u128 + 1;
                self.widths.insert(0, width);
                self.start = p;
                let ghost mid = *self;
                if p == 0 {
                    self.phase = FitPhase::Done;
                } else {
                    self.phase = FitPhase::ExtendLeft { used: new_used };
                }
                proof {
                    assert forall|w: Seq<usize>|
                        #[trigger] before.inv(w) && 0 <= before.pending() < w.len() && w[before.pending()] == width
                            implies self.inv(w) by {
                        let rs = reserved_seq(w, before.name_lens@);
                        assert(w[p as int] == width);
                        assert(rs[p as int] == reserved);
                        assert(mid.widths@ =~= w.subrange(mid.start as int, mid.end as int));
                        assert(grow_left(w, rs, before.limit as int, before.start as int, used as int)
                            == grow_left(w, rs, before.limit as int, p as int, new_used as int));
                    }
                }
                if p == 0 {
                    FitStep::Done(self.start..self.end)
                } else {
                    FitStep::Measure(p - 1)
                }
            },
            FitPhase::FillLeft { used } => {
                let p = self.start - 1;
                let nl = self.name_lens[p];
                let reserved = if width >= nl { width } else { nl };
                let candidate = used + reserved as u128 + 1;
                if candidate > self.limit as u128 {
                    proof {
                        lemma_fold_le_seg(before.widths@, 0, before.widths@.len() as int);
                    }
                    let r = self.enter_extend_right();
                    proof {
                        assert forall|w: Seq<usize>|
                            #[trigger] before.inv(w) && 0 <= before.pending() < w.len() && w[before.pending()] == width
                                implies self.inv(w) by {
                            assert(reserved_seq(w, before.name_lens@)[p as int] == reserved);
                            assert(before.left_settled(w));
                        }
                    }
                    r
                } else {
                    let new_used = used + width as u128 + 1;
                    self.widths.insert(0, width);
                    self.start = p;
                    let ghost mid = *self;
                    proof {
                        let v = before.widths@;
                        let u = mid.widths@;
                        assert(u =~= seq![width] + v);
                        assert forall|i: int| 0 <= i < v.len() implies u[i + 1] == v[i] by {}
                        lemma_seg_same(u, v, 1, 0, v.len() as int);
                        lemma_seg_first(u, 0, u.len() as int);
                    }
                    let r = self.continue_left(new_used);
                    proof {
                        assert forall|w: Seq<usize>|
                            #[trigger] before.inv(w) && 0 <= before.pending() < w.len() && w[before.pending()] == width
                                implies self.inv(w) by {
                            assert(mid.widths@ =~= w.subrange(mid.start as int, mid.end as int));
                            assert(reserved_seq(w, before.name_lens@)[p as int] == reserved);
                            assert(mid.left_ready(w, new_used as int));
                        }
                    }
                    r
                }
            },
            FitPhase::ExtendRight { used } => {
                let candidate = used + width as u128 + 1;
                if candidate > self.limit as u128 {
                    self.phase = FitPhase::Done;
                    return FitStep::Done(self.start..self.end);
                }
                let new_used = used + width as u128 + 1;
                self.widths.push(width);
                self.end = self.end + 1;
                let ghost mid = *self;
                proof {
                    assert forall|w: Seq<usize>|
                        #[trigger] before.inv(w) && 0 <= before.pending() < w.len() && w[before.pending()] == width
                            implies grow_right(w, 0, before.limit as int, before.end as int, used as int)
                                == grow_right(w, 0, before.limit as int, mid.end as int, new_used as int) by {
                        assert(w[before.end as int] == width);
                    }
                }
                if self.end >= self.name_lens.len() {
                    self.phase = FitPhase::Done;
                } else {
                    self.phase = FitPhase::ExtendRight { used: new_used };
                }
                proof {
                    assert forall|w: Seq<usize>|
                        #[trigger] before.inv(w) && 0 <= before.pending() < w.len() && w[before.pending()] == width
                            implies self.inv(w) by {
                        assert(mid.widths@ =~= w.subrange(mid.start as int, mid.end as int));
                    }
                }
                if self.end >= self.name_lens.len() {
                    FitStep::Done(self.start..self.end)
                } else {
                    FitStep::Measure(self.end)
                }
            },
            FitPhase::Done => FitStep::Done(self.start..self.end),
        }
    }

    /// Starts a layout run over columns whose full names are `name_lens`
    /// bytes long, in `limit` columns of room, with the columns `shown` on
    /// screen before, anchored at the left edge when `from_start`.
    pub fn new(name_lens: Vec<usize>, shown: Range<usize>, from_start: bool, limit: usize) -> (r: (ColumnFit, FitStep))
        ensures
            r.0.wf(),
            r.0.name_lens@ == name_lens@,
            r.0.shown == shown,
            r.0.from_start == from_start,
            r.0.limit == limit,
            r.0.announces(r.1),
            forall|w: Seq<usize>| w.len() == name_lens@.len() ==> #[trigger] r.0.inv(w),
    {
        let n = name_lens.len();
        if n == 0 {
            let fit = ColumnFit {
                name_lens,
                shown,
                from_start,
                limit,
                anchor: 0,
                start: 0,
                end: 0,
                widths: Vec::new(),
                extra: 0,
                phase: FitPhase::Done,
            };
            proof {
                assert forall|w: Seq<usize>| w.len() == fit.ncols() implies #[trigger] fit.inv(w) by {
                    assert(fit.widths@ =~= w.subrange(0, 0));
                }
            }
            return (fit, FitStep::Done(0..0));
        }
        let anchor = if from_start {
            if shown.start < n - 1 { shown.start } else { n - 1 }
        } else {
            if shown.end < n - 1 { shown.end } else { n - 1 }
        };
        let fit = ColumnFit {
            name_lens,
            shown,
            from_start,
            limit,
            anchor,
            start: anchor,
            end: anchor,
            widths: Vec::new(),
            extra: 0,
            phase: FitPhase::Anchor,
        };
        (fit, FitStep::Measure(anchor))
    }
}

/// A finished layout run shows the columns of the layout of the widths it
/// was given: when every width handed in was the width in `w`, the run's
/// columns are `visible_range` of `w`, exactly as if every width had been
/// known from the start.
pub proof fn lemma_finished_run_is_the_layout(fit: ColumnFit, w: Seq<usize>)
    requires
        fit.inv(w),
        fit.phase is Done,
    ensures
        (fit.start as int, fit.end as int) == visible_range(
            w,
            reserved_seq(w, fit.name_lens@),
            fit.shown.start,
            fit.shown.end,
            fit.from_start,
            fit.limit,
        ),
{
}

/// A finished layout run keeps room for the leftmost column's full name:
/// with every width handed in taken from `w` (all positive), when anchored
/// at the left edge the leftmost column at its reserved room and every other
/// column with its blank fit in the room, unless only one column is shown;
/// when anchored at the right edge, the leftmost column at its reserved room
/// and the columns up to the anchor fit, and the whole run fits with the
/// leftmost column at its own width.
pub proof fn lemma_finished_run_reserves_leftmost(fit: ColumnFit, w: Seq<usize>)
    requires
        fit.wf(),
        fit.inv(w),
        fit.phase is Done,
        fit.ncols() > 0,
        forall|i: int| 0 <= i < w.len() ==> w[i] > 0,
    ensures
        ({
            let r = reserved_seq(w, fit.name_lens@);
            let s = fit.start as int;
            let e = fit.end as int;
            let a = fit.anchor as int;
            &&& fit.from_start ==> (e == s + 1 || r[s] + seg(w, s + 1, e) <= fit.limit)
            &&& !fit.from_start ==> (s == a || r[s] + seg(w, s + 1, a + 1) <= fit.limit)
            &&& !fit.from_start ==> (e == s + 1 || w[s] + seg(w, s + 1, e) <= fit.limit)
        }),
{
    let r = reserved_seq(w, fit.name_lens@);
    assert forall|i: int| 0 <= i < w.len() implies w[i] <= r[i] by {}
    lemma_layout_reserves_leftmost(w, r, fit.shown.start, fit.shown.end, fit.from_start, fit.limit);
}

} // verus!
