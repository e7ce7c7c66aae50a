//! Candidate loader: turns per-candidate decode outcomes into a bucket's
//! working set.
//!
//! Decoding itself is the surrounding program's job; this module decides
//! which candidates survive it. A failed decode drops only its own
//! candidate: the survivors, in their original order, form the working set
//! that the matcher sweeps.

use vstd::prelude::*;

verus! {

/// The decoded dimensions of one candidate image.
#[derive(Clone, Copy, PartialEq, Eq, Structural, Debug)]
pub struct ImageMeta {
    pub width: u32,
    pub height: u32,
}

/// What decoding one candidate produced: its dimensions, or a failure that
/// drops the candidate from the bucket.
#[derive(Clone, Copy, PartialEq, Eq, Structural, Debug)]
pub enum DecodeOutcome {
    Loaded(ImageMeta),
    Failed,
}

impl DecodeOutcome {
    /// Whether this candidate decoded successfully.
    pub open spec fn is_loaded(self) -> bool {
        self is Loaded
    }

    /// The decoded dimensions of a successful candidate.
    pub open spec fn meta(self) -> ImageMeta
        recommends
            self.is_loaded(),
    {
        self->Loaded_0
    }
}

/// Builds a bucket's working set from its decode outcomes: the positions of
/// the candidates that decoded, in their original order, paired with their
/// dimensions. Every successful candidate is kept and every failed one is
/// dropped.
pub fn select_loaded(outcomes: &Vec<DecodeOutcome>) -> (r: (Vec<usize>, Vec<ImageMeta>))
    ensures
        r.0@.len() == r.1@.len(),
        forall|a: int, b: int| 0 <= a < b < r.0@.len() ==> r.0@[a] < r.0@[b],
        forall|k: int| #![trigger r.0@[k]]
            0 <= k < r.0@.len() ==> r.0@[k] < outcomes@.len() && outcomes@[r.0@[k] as int].is_loaded(),
        forall|k: int| #![trigger r.1@[k]]
            0 <= k < r.0@.len() ==> r.1@[k] == outcomes@[r.0@[k] as int].meta(),
        forall|t: int|
            0 <= t < outcomes@.len() && outcomes@[t].is_loaded() ==> exists|k: int|
                0 <= k < r.0@.len() && r.0@[k] == t,
{
    let mut idx: Vec<usize> = Vec::new();
    let mut metas: Vec<ImageMeta> = Vec::new();
    let mut t: usize = 0;
    while t < outcomes.len()
        invariant
            t <= outcomes@.len(),
            idx@.len() == metas@.len(),
            forall|a: int, b: int| 0 <= a < b < idx@.len() ==> idx@[a] < idx@[b],
            forall|k: int| 0 <= k < idx@.len() ==> idx@[k] < t,
            forall|k: int| #![trigger idx@[k]]
                0 <= k < idx@.len() ==> outcomes@[idx@[k] as int].is_loaded(),
            forall|k: int| #![trigger metas@[k]]
                0 <= k < idx@.len() ==> metas@[k] == outcomes@[idx@[k] as int].meta(),
            forall|u: int|
                0 <= u < t && outcomes@[u].is_loaded() ==> exists|k: int|
                    0 <= k < idx@.len() && idx@[k] == u,
        decreases outcomes@.len() - t,
    {
        let ghost idx0 = idx@;
        let ghost metas0 = metas@;
        let oc = outcomes[t];
        match oc {
            DecodeOutcome::Loaded(m) => {
                idx.push(t);
                metas.push(m);
                proof {
                    assert(oc == outcomes@[t as int]);
                    assert(outcomes@[t as int].is_loaded());
                    assert(outcomes@[t as int].meta() == m);
                    assert forall|k: int|
                        0 <= k < idx@.len() implies outcomes@[#[trigger] idx@[k] as int].is_loaded()
                        && #[trigger] metas@[k] == outcomes@[idx@[k] as int].meta() by {
                        if k < idx@.len() - 1 {
                            assert(idx@[k] == idx0[k]);
                            assert(metas@[k] == metas0[k]);
                            assert(outcomes@[idx0[k] as int].is_loaded());
                            assert(metas0[k] == outcomes@[idx0[k] as int].meta());
                        } else {
                            assert(idx@[k] == t);
                            assert(metas@[k] == m);
                        }
                    }
                    assert forall|u: int|
                        0 <= u < t + 1 && outcomes@[u].is_loaded() implies exists|k: int|
                        0 <= k < idx@.len() && idx@[k] == u by {
                        if u < t {
                            let k = choose|k: int| 0 <= k < idx0.len() && idx0[k] == u;
                            assert(idx@[k] == u);
                        } else {
                            assert(idx@[idx@.len() - 1] == u);
                        }
                    }
                }
            },
            DecodeOutcome::Failed => {
                proof {
                    assert(!outcomes@[t as int].is_loaded());
                    assert forall|u: int|
                        0 <= u < t + 1 && outcomes@[u].is_loaded() implies exists|k: int|
                        0 <= k < idx@.len() && idx@[k] == u by {
                        let k = choose|k: int| 0 <= k < idx0.len() && idx0[k] == u;
                        assert(idx@[k] == u);
                    }
                }
            },
        }
        t += 1;
    }
    (idx, metas)
}

} // verus!
