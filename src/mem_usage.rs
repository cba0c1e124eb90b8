use vstd::prelude::*;
use vstd::string::StringExecFns;
use crate::text::decimal;
use crate::text::decimal_spec;

verus! {

/// A memory size in bytes.
#[derive(Copy, Clone, Debug, PartialEq, Eq, Structural, PartialOrd, Ord, Hash)]
pub struct MemUsage {
    bytes: u64,
}

impl MemUsage {
    /// The size in bytes.
    pub closed spec fn spec_bytes(&self) -> u64 {
        self.bytes
    }

    pub fn from_bytes(bytes: u64) -> (r: MemUsage)
        ensures
            r.spec_bytes() == bytes,
    {
        MemUsage { bytes }
    }

    pub fn bytes(&self) -> (r: u64)
        ensures
            r == self.spec_bytes(),
    {
        self.bytes
    }

    /// Whole megabytes (10^6 bytes).
    pub fn mb(&self) -> (r: u64)
        ensures
            r == self.spec_bytes() / 1_000_000,
    {
        self.bytes / 1_000_000
    }

    /// Whole mebibytes (2^20 bytes).
    pub fn mib(&self) -> (r: u64)
        ensures
            r == self.spec_bytes() / 0x10_0000,
    {
        let b = self.bytes;
        assert(b >> 20u64 == b / 0x10_0000) by (bit_vector);
        b >> 20u64
    }

    pub fn add(self, rhs: MemUsage) -> (r: MemUsage)
        requires
            self.spec_bytes() + rhs.spec_bytes() <= u64::MAX,
        ensures
            r.spec_bytes() == self.spec_bytes() + rhs.spec_bytes(),
    {
        MemUsage { bytes: self.bytes + rhs.bytes }
    }

    pub fn sub(self, rhs: MemUsage) -> (r: MemUsage)
        requires
            rhs.spec_bytes() <= self.spec_bytes(),
        ensures
            r.spec_bytes() == self.spec_bytes() - rhs.spec_bytes(),
    {
        MemUsage { bytes: self.bytes - rhs.bytes }
    }

    /// Total of the sizes; `None` when it does not fit in 64 bits.
    pub fn sum(items: &Vec<MemUsage>) -> (r: Option<MemUsage>)
        ensures
            match r {
                Some(m) => m.spec_bytes() == mem_total(items@),
                None => mem_total(items@) > u64::MAX,
            },
    {
        let mut acc: u64 = 0;
        let mut i: usize = 0;
        while i < items.len()
            invariant
                i <= items@.len(),
                acc == mem_total(items@.take(i as int)),
            decreases items@.len() - i,
        {
            proof {
                assert(items@.take(i + 1).drop_last() =~= items@.take(i as int));
            }
            match acc.checked_add(items[i].bytes) {
                Some(a) => {
                    acc = a;
                },
                None => {
                    proof {
                        lemma_mem_total_prefix(items@, i + 1, items@.len() as int);
                        assert(items@.take(items@.len() as int) =~= items@);
                    }
                    return None;
                },
            }
            i = i + 1;
        }
        proof {
            assert(items@.take(items@.len() as int) =~= items@);
        }
        Some(MemUsage { bytes: acc })
    }

    /// The size divided by a count, rounded down.
    pub fn div_usize(&self, rhs: usize) -> (r: MemUsage)
        requires
            rhs >= 1,
        ensures
            r.spec_bytes() == self.spec_bytes() as int / (rhs as int),
    {
        MemUsage { bytes: self.bytes / (rhs as u64) }
    }

    /// The size in whole mebibytes followed by `MiB`.
    pub fn to_string(&self) -> (r: String)
        ensures
            r@ == decimal_spec((self.spec_bytes() / 0x10_0000) as nat) + seq!['M', 'i', 'B'],
    {
        proof {
            reveal_strlit("MiB");
        }
        decimal(self.mib() as u128).concat("MiB")
    }
}

impl Default for MemUsage {
    fn default() -> (r: MemUsage)
        ensures
            r.spec_bytes() == 0,
    {
        MemUsage { bytes: 0 }
    }
}

/// Total bytes of the sizes.
pub open spec fn mem_total(s: Seq<MemUsage>) -> int
    decreases s.len(),
{
    if s.len() == 0 {
        0
    } else {
        mem_total(s.drop_last()) + s.last().spec_bytes()
    }
}

proof fn lemma_mem_total_prefix(s: Seq<MemUsage>, i: int, j: int)
    requires
        0 <= i <= j <= s.len(),
    ensures
        mem_total(s.take(i)) <= mem_total(s.take(j)),
    decreases j,
{
    if j > i {
        assert(s.take(j).drop_last() =~= s.take(j - 1));
        lemma_mem_total_prefix(s, i, j - 1);
    }
}

} // verus!
