//! Pairwise matcher: the all-pairs sweep over one bucket's working set.
//!
//! Pairs (i, j) with i < j are visited in lexicographic order, each at most
//! once. A pair whose decoded dimensions differ is reported as a mismatch and
//! never scored. A scored pair is judged against a threshold by the caller,
//! who hands back only whether the score was at or below it; in threshold
//! mode an anchor's first accepted match ends the scan of that anchor. The
//! matcher keeps a ghost history of every evaluation, over which the sweep's
//! guarantees are stated.

use crate::loader::ImageMeta;
use vstd::prelude::*;

verus! {

/// The reporting policy of the sweep: report every evaluated pair, or report
/// only at-or-below-threshold pairs and stop scanning an anchor after its
/// first accepted match.
#[derive(Clone, Copy, PartialEq, Eq, Structural, Debug)]
pub enum MatchMode {
    Exhaustive,
    Threshold,
}

/// One reportable result of the sweep, naming working-set positions.
#[derive(Clone, Copy, PartialEq, Eq, Structural, Debug)]
pub enum PairReport {
    /// The two images decoded to different dimensions; no score was computed.
    DimensionMismatch { a: usize, b: usize },
    /// Exhaustive mode: the pair was scored, and whether the score was at or
    /// below the threshold.
    Evaluated { a: usize, b: usize, below: bool },
    /// Threshold mode: the pair was scored at or below the threshold; its
    /// anchor is finished.
    SimilarFound { a: usize, b: usize },
}

/// What the sweep asks of its caller next.
#[derive(Clone, Copy, PartialEq, Eq, Structural, Debug)]
pub enum Pending {
    /// The sweep is over.
    Finished,
    /// The current pair's dimensions differ: record the mismatch.
    Mismatch { a: usize, b: usize },
    /// The current pair's dimensions agree: score it and hand back whether
    /// the score was at or below the threshold.
    NeedsCompare { a: usize, b: usize },
}

/// How one evaluated pair ended, in the ghost history.
pub enum EvalKind {
    DimMismatch,
    Scored { below: bool },
}

/// One evaluation in the ghost history: the pair's positions and how it
/// ended.
pub struct Evaluation {
    pub a: int,
    pub b: int,
    pub kind: EvalKind,
}

/// An accepted match: in threshold mode, a scored pair at or below the
/// threshold, which finishes its anchor.
pub open spec fn accepted(mode: MatchMode, e: Evaluation) -> bool {
    mode == MatchMode::Threshold && e.kind == (EvalKind::Scored { below: true })
}

/// Strict lexicographic order on pairs.
pub open spec fn lex_before(a1: int, b1: int, a2: int, b2: int) -> bool {
    a1 < a2 || (a1 == a2 && b1 < b2)
}

/// The pair (x, y) stands somewhere in the history.
pub open spec fn pair_evaluated(h: Seq<Evaluation>, x: int, y: int) -> bool {
    exists|k: int| #![trigger h[k]] 0 <= k < h.len() && h[k].a == x && h[k].b == y
}

/// The number of pairs with anchor below `i`, out of `n` images.
pub open spec fn anchors_done(n: int, i: int) -> int
    decreases i,
{
    if i <= 0 {
        0
    } else {
        anchors_done(n, i - 1) + (n - i)
    }
}

/// The number of pairs that precede the cursor (i, j) in lexicographic
/// order, for a cursor with i < j.
pub open spec fn pairs_done(n: int, i: int, j: int) -> int {
    anchors_done(n, i) + (j - i - 1)
}

/// The cursor that follows (i, j) when anchor `i` goes on: the next pair in
/// lexicographic order.
pub open spec fn next_in_anchor(n: int, i: int, j: int) -> (int, int) {
    if j + 1 < n {
        (i, j + 1)
    } else {
        (i + 1, i + 2)
    }
}

/// The pairwise sweep over one bucket's working set.
pub struct Matcher {
    /// The decoded dimensions of the working set, by position.
    pub images: Vec<ImageMeta>,
    /// The reporting policy.
    pub mode: MatchMode,
    /// The current pair's anchor.
    pub i: usize,
    /// The current pair's second position.
    pub j: usize,
    /// Every evaluation so far, in order.
    pub history: Ghost<Seq<Evaluation>>,
}

impl Matcher {
    /// The working-set size.
    pub open spec fn n(self) -> int {
        self.images@.len() as int
    }

    /// The sweep is over: the cursor has run past the last pair.
    pub open spec fn done(self) -> bool {
        self.j >= self.n()
    }

    /// The images at positions `a` and `b` decoded to the same dimensions.
    pub open spec fn dims_eq(self, a: int, b: int) -> bool {
        self.images@[a].width == self.images@[b].width && self.images@[a].height
            == self.images@[b].height
    }

    /// One history entry is sound: a real pair, never a position with
    /// itself, and scored only with equal dimensions.
    pub open spec fn entry_ok(self, e: Evaluation) -> bool {
        &&& 0 <= e.a < e.b < self.n()
        &&& (e.kind is Scored ==> self.dims_eq(e.a, e.b))
    }

    /// The sweep's invariant.
    pub open spec fn wf(self) -> bool {
        let h = self.history@;
        &&& self.i < self.j
        &&& (self.done() ==> (if self.n() >= 2 {
            self.i == self.n() - 1 && self.j == self.n()
        } else {
            self.i == 0 && self.j == 1
        }))
        &&& forall|k: int| 0 <= k < h.len() ==> self.entry_ok(#[trigger] h[k])
        &&& forall|k: int|
            0 <= k < h.len() ==> lex_before(
                (#[trigger] h[k]).a,
                h[k].b,
                self.i as int,
                self.j as int,
            )
        &&& forall|k: int, l: int|
            #![trigger h[k], h[l]]
            0 <= k < l < h.len() ==> lex_before(h[k].a, h[k].b, h[l].a, h[l].b)
        &&& forall|k: int|
            0 <= k < h.len() && accepted(self.mode, #[trigger] h[k]) ==> h[k].a < self.i
        &&& forall|k: int, l: int|
            #![trigger h[k], h[l]]
            0 <= k < l < h.len() && accepted(self.mode, h[k]) ==> h[k].a < h[l].a
        &&& (self.mode == MatchMode::Exhaustive ==> h.len() == pairs_done(
            self.n(),
            self.i as int,
            self.j as int,
        ))
        &&& (self.mode == MatchMode::Exhaustive ==> forall|x: int, y: int|
            0 <= x < y < self.n() && lex_before(x, y, self.i as int, self.j as int)
                ==> pair_evaluated(h, x, y))
    }

    /// What the sweep asks for at its current cursor.
    pub open spec fn pending_spec(self) -> Pending {
        if self.done() {
            Pending::Finished
        } else if !self.dims_eq(self.i as int, self.j as int) {
            Pending::Mismatch { a: self.i, b: self.j }
        } else {
            Pending::NeedsCompare { a: self.i, b: self.j }
        }
    }

    /// A fresh sweep over a working set: no evaluations yet, and already
    /// finished when the set holds fewer than two images.
    pub fn new(images: Vec<ImageMeta>, mode: MatchMode) -> (m: Matcher)
        ensures
            m.wf(),
            m.images@ == images@,
            m.mode == mode,
            m.history@ == Seq::<Evaluation>::empty(),
            m.i == 0 && m.j == 1,
            m.done() <==> images@.len() < 2,
    {
        Matcher { images, mode, i: 0, j: 1, history: Ghost(Seq::empty()) }
    }

    /// What the caller must do next: finish, record the current pair as a
    /// dimension mismatch, or score the current pair.
    pub fn pending(&self) -> (p: Pending)
        requires
            self.wf(),
        ensures
            p == self.pending_spec(),
    {
        if self.j >= self.images.len() {
            Pending::Finished
        } else {
            let a = &self.images[self.i];
            let b = &self.images[self.j];
            if a.width != b.width || a.height != b.height {
                Pending::Mismatch { a: self.i, b: self.j }
            } else {
                Pending::NeedsCompare { a: self.i, b: self.j }
            }
        }
    }

    /// Records that the current pair's dimensions differ: the pair is
    /// reported as a mismatch, never scored, and the sweep moves to the next
    /// pair in order.
    pub fn record_mismatch(&mut self) -> (r: PairReport)
        requires
            old(self).wf(),
            !old(self).done(),
            !old(self).dims_eq(old(self).i as int, old(self).j as int),
        ensures
            final(self).wf(),
            final(self).images@ == old(self).images@,
            final(self).mode == old(self).mode,
            r == (PairReport::DimensionMismatch { a: old(self).i, b: old(self).j }),
            final(self).history@ == old(self).history@.push(
                Evaluation {
                    a: old(self).i as int,
                    b: old(self).j as int,
                    kind: EvalKind::DimMismatch,
                },
            ),
            (final(self).i as int, final(self).j as int) == next_in_anchor(
                old(self).n(),
                old(self).i as int,
                old(self).j as int,
            ),
    {
        let a = self.i;
        let b = self.j;
        let n = self.images.len();
        self.history = Ghost(
            self.history@.push(Evaluation { a: a as int, b: b as int, kind: EvalKind::DimMismatch }),
        );
        if b + 1 < n {
            self.j = b + 1;
        } else {
            self.i = a + 1;
            self.j = a + 2;
        }
        proof {
            if self.mode == MatchMode::Exhaustive {
                lemma_pairs_before_next_cursor(
                    old(self).history@,
                    self.history@,
                    self.n(),
                    a as int,
                    b as int,
                    self.i as int,
                    self.j as int,
                );
            }
        }
        PairReport::DimensionMismatch { a, b }
    }

    /// Records the caller's verdict on the current pair's score: whether it
    /// was at or below the threshold. In exhaustive mode the pair is always
    /// reported and the sweep moves to the next pair; in threshold mode an
    /// at-or-below score reports a found duplicate and finishes the whole
    /// anchor, and a score above it reports nothing.
    pub fn record_score(&mut self, below: bool) -> (r: Option<PairReport>)
        requires
            old(self).wf(),
            !old(self).done(),
            old(self).dims_eq(old(self).i as int, old(self).j as int),
        ensures
            final(self).wf(),
            final(self).images@ == old(self).images@,
            final(self).mode == old(self).mode,
            final(self).history@ == old(self).history@.push(
                Evaluation {
                    a: old(self).i as int,
                    b: old(self).j as int,
                    kind: EvalKind::Scored { below },
                },
            ),
            old(self).mode == MatchMode::Exhaustive ==> r == Some(
                PairReport::Evaluated { a: old(self).i, b: old(self).j, below },
            ) && (final(self).i as int, final(self).j as int) == next_in_anchor(
                old(self).n(),
                old(self).i as int,
                old(self).j as int,
            ),
            old(self).mode == MatchMode::Threshold && below ==> r == Some(
                PairReport::SimilarFound { a: old(self).i, b: old(self).j },
            ) && final(self).i == old(self).i + 1 && final(self).j == old(self).i + 2,
            old(self).mode == MatchMode::Threshold && !below ==> r is None && (
            final(self).i as int,
            final(self).j as int,
            ) == next_in_anchor(old(self).n(), old(self).i as int, old(self).j as int),
    {
        let a = self.i;
        let b = self.j;
        let n = self.images.len();
        self.history = Ghost(
            self.history@.push(Evaluation { a: a as int, b: b as int, kind: EvalKind::Scored { below } }),
        );
        match self.mode {
            MatchMode::Exhaustive => {
                if b + 1 < n {
                    self.j = b + 1;
                } else {
                    self.i = a + 1;
                    self.j = a + 2;
                }
                proof {
                    lemma_pairs_before_next_cursor(
                        old(self).history@,
                        self.history@,
                        self.n(),
                        a as int,
                        b as int,
                        self.i as int,
                        self.j as int,
                    );
                }
                Some(PairReport::Evaluated { a, b, below })
            },
            MatchMode::Threshold => {
                if below {
                    self.i = a + 1;
                    self.j = a + 2;
                    Some(PairReport::SimilarFound { a, b })
                } else {
                    if b + 1 < n {
                        self.j = b + 1;
                    } else {
                        self.i = a + 1;
                        self.j = a + 2;
                    }
                    None
                }
            },
        }
    }
}

/// Pushing the cursor's pair onto a history that covers everything before
/// the cursor yields one that covers everything before the next cursor.
proof fn lemma_pairs_before_next_cursor(
    h: Seq<Evaluation>,
    h2: Seq<Evaluation>,
    n: int,
    a: int,
    b: int,
    i2: int,
    j2: int,
)
    requires
        0 <= a < b < n,
        forall|x: int, y: int|
            0 <= x < y < n && lex_before(x, y, a, b) ==> pair_evaluated(h, x, y),
        h2.len() == h.len() + 1,
        forall|k: int| 0 <= k < h.len() ==> h2[k] == h[k],
        h2[h.len() as int].a == a && h2[h.len() as int].b == b,
        (i2, j2) == next_in_anchor(n, a, b),
    ensures
        forall|x: int, y: int|
            0 <= x < y < n && lex_before(x, y, i2, j2) ==> pair_evaluated(h2, x, y),
{
    assert forall|x: int, y: int|
        0 <= x < y < n && lex_before(x, y, i2, j2) implies pair_evaluated(h2, x, y) by {
        if x == a && y == b {
            assert(h2[h.len() as int].a == x && h2[h.len() as int].b == y);
        } else {
            assert(lex_before(x, y, a, b));
            assert(pair_evaluated(h, x, y));
            let k = choose|k: int|
                #![trigger h[k]]
                0 <= k < h.len() && h[k].a == x && h[k].b == y;
            assert(h2[k] == h[k]);
            assert(h2[k].a == x && h2[k].b == y);
        }
    }
}

/// Twice the number of pairs with anchor below `i` is `i * (2n - i - 1)`.
proof fn lemma_anchors_done_closed(n: int, i: int)
    requires
        0 <= i <= n,
    ensures
        2 * anchors_done(n, i) == i * (2 * n - i - 1),
    decreases i,
{
    if i > 0 {
        lemma_anchors_done_closed(n, i - 1);
        assert(anchors_done(n, i) == anchors_done(n, i - 1) + (n - i));
        assert(2 * anchors_done(n, i - 1) == (i - 1) * (2 * n - i));
        assert((i - 1) * (2 * n - i) + 2 * (n - i) == i * (2 * n - i - 1)) by (nonlinear_arith);
    } else {
        assert(anchors_done(n, i) == 0);
        assert(i * (2 * n - i - 1) == 0) by (nonlinear_arith)
            requires
                i == 0,
        ;
    }
}

/// The mismatch guard: every scored comparison was made between two images
/// of equal decoded width and height. Equality of byte length holds by
/// construction of the bucket index, which never mixes sizes.
pub proof fn lemma_scored_pairs_have_equal_dims(m: Matcher, k: int)
    requires
        m.wf(),
        0 <= k < m.history@.len(),
        m.history@[k].kind is Scored,
    ensures
        m.images@[m.history@[k].a].width == m.images@[m.history@[k].b].width,
        m.images@[m.history@[k].a].height == m.images@[m.history@[k].b].height,
{
    assert(m.entry_ok(m.history@[k]));
}

/// No unordered pair is evaluated twice, and no candidate is ever paired
/// with itself: the history's pairs are strictly ordered and strictly
/// diagonal-free.
pub proof fn lemma_pairs_distinct(m: Matcher, k: int, l: int)
    requires
        m.wf(),
        0 <= k < l < m.history@.len(),
    ensures
        m.history@[k].a < m.history@[k].b,
        !(m.history@[k].a == m.history@[l].a && m.history@[k].b == m.history@[l].b),
{
    assert(m.entry_ok(m.history@[k]));
    assert(lex_before(m.history@[k].a, m.history@[k].b, m.history@[l].a, m.history@[l].b));
}

/// In exhaustive mode a finished sweep over `n` images has evaluated exactly
/// `n * (n - 1) / 2` pairs.
pub proof fn lemma_exhaustive_pair_count(m: Matcher)
    requires
        m.wf(),
        m.done(),
        m.mode == MatchMode::Exhaustive,
    ensures
        m.history@.len() == m.n() * (m.n() - 1) / 2,
{
    let n = m.n();
    if n >= 2 {
        lemma_anchors_done_closed(n, n - 1);
        assert(m.i == n - 1 && m.j == n);
        assert(m.history@.len() == pairs_done(n, n - 1, n));
        assert(pairs_done(n, n - 1, n) == anchors_done(n, n - 1));
        assert(2 * pairs_done(n, n - 1, n) == n * (n - 1)) by (nonlinear_arith)
            requires
                2 * anchors_done(n, n - 1) == (n - 1) * (2 * n - (n - 1) - 1),
                pairs_done(n, n - 1, n) == anchors_done(n, n - 1),
        ;
    } else {
        assert(m.history@.len() == pairs_done(n, 0, 1));
        assert(anchors_done(n, 0) == 0);
        assert(n * (n - 1) == 0) by (nonlinear_arith)
            requires
                0 <= n < 2,
        ;
    }
}

/// A bucket whose working set holds fewer than two images is finished from
/// the start and evaluates nothing.
pub proof fn lemma_small_bucket_no_evaluations(m: Matcher)
    requires
        m.wf(),
        m.images@.len() < 2,
    ensures
        m.done(),
        m.history@.len() == 0,
{
    if m.history@.len() > 0 {
        assert(m.entry_ok(m.history@[0]));
    }
}

/// In exhaustive mode a finished sweep has evaluated every unordered pair of
/// the working set: together with the distinctness of the history this pins
/// the sweep to exactly the n * (n - 1) / 2 pairs.
pub proof fn lemma_exhaustive_covers_all_pairs(m: Matcher, x: int, y: int)
    requires
        m.wf(),
        m.done(),
        m.mode == MatchMode::Exhaustive,
        0 <= x < y < m.n(),
    ensures
        pair_evaluated(m.history@, x, y),
{
    assert(m.n() >= 2);
    assert(lex_before(x, y, m.i as int, m.j as int));
}

/// Threshold-mode early exit: once an anchor's at-or-below-threshold match
/// is recorded, the matched anchor takes part in no later evaluation — every
/// later pair lies strictly beyond it — while later anchors go on.
pub proof fn lemma_anchor_early_exit(m: Matcher, k: int, l: int)
    requires
        m.wf(),
        m.mode == MatchMode::Threshold,
        0 <= k < l < m.history@.len(),
        m.history@[k].kind == (EvalKind::Scored { below: true }),
    ensures
        m.history@[l].a > m.history@[k].a,
        m.history@[l].b > m.history@[k].a,
{
    assert(accepted(m.mode, m.history@[k]));
    assert(m.entry_ok(m.history@[l]));
}

} // verus!

