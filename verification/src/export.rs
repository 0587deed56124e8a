//! The data export: one decimal memory value per line, newline-terminated,
//! no header and no time column, in the original time order.

use vstd::prelude::*;

use crate::stats::{memory_values, MemoryStats};

verus! {

/// The decimal digits of `n`, most significant first, with no sign and no
/// leading zero (a single `0` for zero).
pub open spec fn dec_bytes(n: nat) -> Seq<u8>
    decreases n,
{
    if n < 10 {
        seq![(48 + n) as u8]
    } else {
        dec_bytes(n / 10).push((48 + n % 10) as u8)
    }
}

/// The exported bytes for a sequence of values: each value's digits followed
/// by a newline, concatenated in order.
pub open spec fn csv_spec(vals: Seq<u64>) -> Seq<u8>
    decreases vals.len(),
{
    if vals.len() == 0 {
        Seq::<u8>::empty()
    } else {
        csv_spec(vals.drop_last()) + dec_bytes(vals.last() as nat) + seq![10u8]
    }
}

/// Appends the decimal digits of `n` to `out`.
fn push_decimal(out: &mut Vec<u8>, n: u64)
    ensures
        final(out)@ == old(out)@ + dec_bytes(n as nat),
    decreases n,
{
    if n >= 10 {
        push_decimal(out, n / 10);
        out.push(48 + (n % 10) as u8);
        proof {
            assert(out@ =~= old(out)@ + dec_bytes(n as nat));
        }
    } else {
        out.push(48 + n as u8);
        proof {
            assert(out@ =~= old(out)@ + dec_bytes(n as nat));
        }
    }
}

impl MemoryStats {
    /// The full export for this series, ready to be written out as a file.
    pub fn csv_bytes(&self) -> (out: Vec<u8>)
        ensures
            out@ == csv_spec(memory_values(self@)),
    {
        let ghost vals = memory_values(self@);
        let n = self.len();
        let mut out: Vec<u8> = Vec::new();
        let mut i: usize = 0;
        while i < n
            invariant
                i <= n,
                n == self@.len(),
                vals == memory_values(self@),
                out@ == csv_spec(vals.take(i as int)),
            decreases n - i,
        {
            let kb = self.sample_at(i).memory_kb;
            proof {
                assert(vals[i as int] == self@[i as int].memory_kb);
            }
            push_decimal(&mut out, kb);
            out.push(10);
            proof {
                assert(vals.take(i as int + 1).drop_last() =~= vals.take(i as int));
                assert(vals.take(i as int + 1).last() == vals[i as int]);
                assert(out@ =~= csv_spec(vals.take(i as int)) + dec_bytes(vals[i as int] as nat)
                    + seq![10u8]);
            }
            i += 1;
        }
        proof {
            assert(vals.take(n as int) =~= vals);
        }
        out
    }
}

} // verus!
