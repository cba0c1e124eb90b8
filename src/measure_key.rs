use vstd::prelude::*;

verus! {

/// Identifies a tracked metric: wall-clock time, peak resident memory,
/// or the user-defined metric with the given position.
#[derive(Copy, Clone, Debug, PartialEq, Eq, Structural, Hash)]
pub enum MeasureKey {
    WallTime,
    MaxRss,
    User(usize),
}

/// The dense index of a metric: wall time first, peak memory second,
/// user metrics after them in order.
pub open spec fn key_index(k: MeasureKey) -> int {
    match k {
        MeasureKey::WallTime => 0,
        MeasureKey::MaxRss => 1,
        MeasureKey::User(u) => 2 + u,
    }
}

/// A key whose dense index fits in `usize`.
pub open spec fn key_indexable(k: MeasureKey) -> bool {
    key_index(k) <= usize::MAX
}

impl MeasureKey {
    pub fn index(&self) -> (r: usize)
        requires
            key_indexable(*self),
        ensures
            r == key_index(*self),
    {
        match self {
            MeasureKey::WallTime => 0,
            MeasureKey::MaxRss => 1,
            MeasureKey::User(u) => 2 + *u,
        }
    }

    pub fn from_index(index: usize) -> (r: MeasureKey)
        ensures
            key_index(r) == index,
    {
        match index {
            0 => MeasureKey::WallTime,
            1 => MeasureKey::MaxRss,
            u => MeasureKey::User(u - 2),
        }
    }
}

/// Converting a key to its index and back gives the key again.
pub proof fn lemma_index_round_trip(k: MeasureKey, j: MeasureKey)
    requires
        key_index(k) == key_index(j),
    ensures
        k == j,
{
}

} // verus!
