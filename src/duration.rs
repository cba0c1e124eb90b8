use vstd::prelude::*;
use vstd::string::StringExecFns;
use crate::text::decimal;
use crate::text::decimal3;
use crate::text::decimal3_spec;
use crate::text::decimal_spec;

verus! {

/// A span of wall-clock time in nanoseconds.
#[derive(Copy, Clone, Debug, PartialEq, Eq, Structural, PartialOrd, Ord, Hash)]
pub struct Duration {
    nanos: u64,
}

impl Duration {
    /// The span in nanoseconds.
    pub closed spec fn spec_nanos(&self) -> u64 {
        self.nanos
    }

    pub fn from_nanos(nanos: u64) -> (r: Duration)
        ensures
            r.spec_nanos() == nanos,
    {
        Duration { nanos }
    }

    pub fn nanos(&self) -> (r: u64)
        ensures
            r == self.spec_nanos(),
    {
        self.nanos
    }

    pub fn add(self, rhs: Duration) -> (r: Duration)
        requires
            self.spec_nanos() + rhs.spec_nanos() <= u64::MAX,
        ensures
            r.spec_nanos() == self.spec_nanos() + rhs.spec_nanos(),
    {
        Duration { nanos: self.nanos + rhs.nanos }
    }

    /// The span divided by a count, rounded down.
    pub fn div_usize(&self, rhs: usize) -> (r: Duration)
        requires
            rhs >= 1,
        ensures
            r.spec_nanos() == self.spec_nanos() as int / (rhs as int),
    {
        Duration { nanos: self.nanos / (rhs as u64) }
    }

    /// The span in seconds with three decimals, such as `1.250`.
    pub fn to_string(&self) -> (r: String)
        ensures
            r@ == decimal_spec((self.spec_nanos() / 1_000_000_000) as nat) + seq!['.'] + decimal3_spec(
                ((self.spec_nanos() / 1_000_000) % 1000) as nat,
            ),
    {
        proof {
            reveal_strlit(".");
        }
        let mut out = decimal((self.nanos / 1_000_000_000) as u128);
        out.append(".");
        let frac = decimal3(((self.nanos / 1_000_000) % 1000) as u128);
        out.append(frac.as_str());
        out
    }
}

} // verus!
