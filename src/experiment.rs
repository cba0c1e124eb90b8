use vstd::prelude::*;
use crate::measure_key::key_index;
use crate::measure_key::MeasureKey;

verus! {

/// One of the five experiment slots.
#[derive(Copy, Clone, Debug, PartialEq, Eq, Structural, Hash)]
pub enum ExperimentName {
    A,
    B,
    C,
    D,
    E,
}

/// The letter of an experiment.
pub open spec fn name_chars(n: ExperimentName) -> Seq<char> {
    match n {
        ExperimentName::A => seq!['A'],
        ExperimentName::B => seq!['B'],
        ExperimentName::C => seq!['C'],
        ExperimentName::D => seq!['D'],
        ExperimentName::E => seq!['E'],
    }
}

/// The terminal color sequence of an experiment.
pub open spec fn color_chars(n: ExperimentName) -> Seq<char> {
    let d = match n {
        ExperimentName::A => '4',
        ExperimentName::B => '5',
        ExperimentName::C => '6',
        ExperimentName::D => '3',
        ExperimentName::E => '7',
    };
    seq!['\x1b', '[', '3', d, 'm']
}

impl ExperimentName {
    pub fn name(&self) -> (r: &'static str)
        ensures
            r@ == name_chars(*self),
    {
        proof {
            reveal_strlit("A");
            reveal_strlit("B");
            reveal_strlit("C");
            reveal_strlit("D");
            reveal_strlit("E");
        }
        match self {
            ExperimentName::A => "A",
            ExperimentName::B => "B",
            ExperimentName::C => "C",
            ExperimentName::D => "D",
            ExperimentName::E => "E",
        }
    }

    pub fn color(&self) -> (r: &'static str)
        ensures
            r@ == color_chars(*self),
    {
        proof {
            reveal_strlit("\x1b[34m");
            reveal_strlit("\x1b[35m");
            reveal_strlit("\x1b[36m");
            reveal_strlit("\x1b[33m");
            reveal_strlit("\x1b[37m");
        }
        match self {
            ExperimentName::A => "\x1b[34m",
            ExperimentName::B => "\x1b[35m",
            ExperimentName::C => "\x1b[36m",
            ExperimentName::D => "\x1b[33m",
            ExperimentName::E => "\x1b[37m",
        }
    }
}

/// A copy of a sample sequence.
pub fn copy_samples(v: &Vec<u64>) -> (r: Vec<u64>)
    ensures
        r@ == v@,
{
    let mut r: Vec<u64> = Vec::new();
    let mut i: usize = 0;
    while i < v.len()
        invariant
            i <= v@.len(),
            r@ == v@.take(i as int),
        decreases v@.len() - i,
    {
        r.push(v[i]);
        proof {
            assert(r@ =~= v@.take(i + 1));
        }
        i = i + 1;
    }
    proof {
        assert(v@.take(v@.len() as int) =~= v@);
    }
    r
}

/// A script variant under comparison with its recorded samples, one sample
/// sequence per configured metric, indexed by the metric's dense index.
pub struct Experiment {
    pub name: ExperimentName,
    pub warmup: String,
    pub run: String,
    pub measures: Vec<Vec<u64>>,
}

impl Experiment {
    /// All sample sequences have the same length: every successful run
    /// records one sample per metric.
    pub open spec fn wf(&self) -> bool {
        &&& self.measures@.len() >= 1
        &&& forall|i: int|
            0 <= i < self.measures@.len() ==> (#[trigger] self.measures@[i])@.len()
                == self.measures@[0]@.len()
    }

    /// Samples recorded for metric `k`.
    pub open spec fn samples(&self, k: MeasureKey) -> Seq<u64> {
        self.measures@[key_index(k)]@
    }

    /// An experiment with no samples yet, for wall time, peak memory and
    /// `user_count` user metrics.
    pub fn new(name: ExperimentName, warmup: String, run: String, user_count: usize) -> (r: Experiment)
        requires
            user_count <= usize::MAX - 2,
        ensures
            r.wf(),
            r.name == name,
            r.warmup == warmup,
            r.run == run,
            r.measures@.len() == user_count + 2,
            forall|i: int| 0 <= i < r.measures@.len() ==> (#[trigger] r.measures@[i])@.len() == 0,
    {
        let mut measures: Vec<Vec<u64>> = Vec::new();
        let mut i: usize = 0;
        while i < user_count + 2
            invariant
                user_count <= usize::MAX - 2,
                i <= user_count + 2,
                measures@.len() == i,
                forall|j: int| 0 <= j < i ==> (#[trigger] measures@[j])@.len() == 0,
            decreases user_count + 2 - i,
        {
            measures.push(Vec::new());
            i = i + 1;
        }
        Experiment { name, warmup, run, measures }
    }

    /// Number of successful runs recorded.
    pub fn runs(&self) -> (r: usize)
        requires
            self.wf(),
        ensures
            r == self.measures@[0]@.len(),
    {
        self.measures[0].len()
    }

    /// Records one run: `values[i]` is the sample for the metric of index `i`.
    pub fn record(&mut self, values: &Vec<u64>)
        requires
            old(self).wf(),
            values@.len() == old(self).measures@.len(),
        ensures
            final(self).wf(),
            final(self).name == old(self).name,
            final(self).warmup == old(self).warmup,
            final(self).run == old(self).run,
            final(self).measures@.len() == old(self).measures@.len(),
            forall|i: int|
                0 <= i < final(self).measures@.len() ==> (#[trigger] final(self).measures@[i])@
                    == old(self).measures@[i]@.push(values@[i]),
    {
        let n = self.measures.len();
        let mut out: Vec<Vec<u64>> = Vec::new();
        let mut i: usize = 0;
        while i < n
            invariant
                n == self.measures@.len(),
                values@.len() == n,
                i <= n,
                out@.len() == i,
                forall|j: int| 0 <= j < i ==> (#[trigger] out@[j])@ == self.measures@[j]@.push(values@[j]),
            decreases n - i,
        {
            let mut v = copy_samples(&self.measures[i]);
            v.push(values[i]);
            out.push(v);
            i = i + 1;
        }
        proof {
            assert forall|j: int| 0 <= j < n implies (#[trigger] out@[j])@.len() == out@[0]@.len() by {
                assert(self.measures@[j]@.len() == self.measures@[0]@.len());
            }
        }
        self.measures = out;
    }

    /// Discards every recorded sample.
    pub fn clear(&mut self)
        requires
            old(self).wf(),
        ensures
            final(self).wf(),
            final(self).name == old(self).name,
            final(self).warmup == old(self).warmup,
            final(self).run == old(self).run,
            final(self).measures@.len() == old(self).measures@.len(),
            forall|i: int| 0 <= i < final(self).measures@.len() ==> (#[trigger] final(self).measures@[i])@.len() == 0,
    {
        let n = self.measures.len();
        let mut i: usize = 0;
        while i < n
            invariant
                n == self.measures@.len(),
                i <= n,
                self.name == old(self).name,
                self.warmup == old(self).warmup,
                self.run == old(self).run,
                forall|j: int| 0 <= j < i ==> (#[trigger] self.measures@[j])@.len() == 0,
            decreases n - i,
        {
            self.measures.set(i, Vec::new());
            i = i + 1;
        }
    }
}

} // verus!
