//! Stack-canary helpers for sizing a reserved call-stack region.
//!
//! At startup, before any user code has claimed stack frames, the painter
//! overwrites the whole reserved region with the fixed byte [`PATTERN`].
//! Later, at any time, the prober re-reads the region in the same order the
//! painter wrote it and counts how many consecutive bytes still hold the
//! pattern; that count is an estimate of how many stack bytes were never
//! used.
//!
//! The region is handled here as its plain bytes, index 0 being the far end
//! of the stack (the address the scan starts from, farthest from where the
//! stack begins to grow). Reading the live region out of raw memory, and
//! writing the startup fill into it, is target-specific and stays with the
//! surrounding program; on a target where no scan is implemented the prober
//! is handed no region and reports zero.

use vstd::prelude::*;

verus! {

/// Memory pattern for unused stack space.
///
/// The unused stack space is filled with this byte pattern.
pub const PATTERN: u8 = 0x5A;

/// The region as the painter leaves it: the same length, every byte the
/// pattern.
pub open spec fn painted(s: Seq<u8>) -> Seq<u8> {
    Seq::new(s.len(), |i: int| PATTERN)
}

/// How many consecutive bytes, counted from the scanned end of the region,
/// still hold the pattern: the length of the leading run of pattern bytes.
pub open spec fn sentinel_run(s: Seq<u8>) -> nat
    decreases s.len(),
{
    if s.len() == 0 {
        0
    } else if s[0] == PATTERN {
        (1 + sentinel_run(s.skip(1))) as nat
    } else {
        0
    }
}

/// Overwrite every byte of the region with the [`PATTERN`].
///
/// The painter walks the region once, from the scanned end onward, and
/// leaves every byte equal to the pattern; the region's length does not
/// change. Running it again on a region nothing else has written to merely
/// repaints the same bytes.
pub fn mark_pattern(region: &mut Vec<u8>)
    ensures
        final(region)@ == painted(old(region)@),
{
    let n = region.len();
    let mut i: usize = 0;
    while i < n
        invariant
            i <= n,
            region@.len() == n,
            forall|j: int| 0 <= j < i ==> region@[j] == PATTERN,
        decreases n - i,
    {
        region.set(i, PATTERN);
        i = i + 1;
    }
    proof {
        assert(region@ =~= painted(old(region)@));
    }
}

/// The run never reaches past the end of the region.
pub proof fn lemma_run_le_len(s: Seq<u8>)
    ensures
        sentinel_run(s) <= s.len(),
    decreases s.len(),
{
    if s.len() != 0 && s[0] == PATTERN {
        lemma_run_le_len(s.skip(1));
    }
}

/// Scan termination: where the first `k` scanned bytes hold the pattern and
/// the byte after them (if the region goes on) does not, the run is exactly
/// `k`. This pins the prober's result for every region, the fully matching
/// one (`k == s.len()`) included.
pub proof fn lemma_run_of_prefix(s: Seq<u8>, k: int)
    requires
        0 <= k <= s.len(),
        forall|i: int| 0 <= i < k ==> s[i] == PATTERN,
        k < s.len() ==> s[k] != PATTERN,
    ensures
        sentinel_run(s) == k,
    decreases k,
{
    if k == 0 {
    } else {
        let t = s.skip(1);
        assert forall|i: int| 0 <= i < k - 1 implies t[i] == PATTERN by {
            assert(t[i] == s[i + 1]);
        }
        assert(k - 1 < t.len() ==> t[k - 1] == s[k]);
        lemma_run_of_prefix(t, k - 1);
    }
}

/// Count how many consecutive bytes at the scanned end of the region still
/// hold the [`PATTERN`].
///
/// The scan reads byte by byte from index 0 onward and stops at the first
/// byte that differs from the pattern, or at the end of the region when
/// every byte still matches. The region is only read, never written.
pub fn count_sentinel_run(region: &[u8]) -> (n: usize)
    ensures
        n == sentinel_run(region@),
{
    let len = region.len();
    let mut i: usize = 0;
    while i < len
        invariant
            0 <= i <= len,
            region@.len() == len,
            forall|j: int| 0 <= j < i ==> region@[j] == PATTERN,
        decreases len - i,
    {
        if region[i] != PATTERN {
            proof {
                lemma_run_of_prefix(region@, i as int);
            }
            return i;
        }
        i = i + 1;
    }
    proof {
        lemma_run_of_prefix(region@, len as int);
    }
    i
}

/// Returns the number of stack bytes that have never been written to.
///
/// This function can be called at any time, any number of times; it only
/// reads the region. It walks the region from the scanned end onward and
/// checks whether the initialization [`PATTERN`] is still there; the number
/// of bytes that still hold the pattern is returned. The result never
/// exceeds the region's size, and it is zero exactly when the first scanned
/// byte already differs from the pattern.
///
/// The returned value is only an estimate: if the program wrote pattern
/// bytes to the stack itself, those bytes are indistinguishable from unused
/// ones and are counted too.
///
/// On a target where the scan is not implemented there is no region to
/// read; `None` is passed and zero is returned, meaning "no estimate
/// available". This function makes no stack-overflow claim: if the stack
/// has already overflowed, the count is meaningless.
pub fn estimate_unused_stack_space(region: Option<&[u8]>) -> (nrbytes: u16)
    requires
        region matches Some(r) ==> r@.len() <= u16::MAX,
    ensures
        match region {
            Some(r) => nrbytes == sentinel_run(r@),
            None => nrbytes == 0,
        },
{
    match region {
        Some(r) => {
            let n = count_sentinel_run(r);
            proof {
                lemma_run_le_len(r@);
            }
            n as u16
        },
        None => 0,
    }
}

/// Idempotent fill: painting a region that nothing has written to since the
/// last coat leaves it exactly as one coat does, however often the painter
/// runs.
pub proof fn lemma_paint_idempotent(s: Seq<u8>)
    ensures
        painted(painted(s)) == painted(s),
{
    assert(painted(painted(s)) =~= painted(s));
}

/// Full match: where the whole region still holds the pattern, the run is
/// the full region size.
pub proof fn lemma_run_of_full_region(s: Seq<u8>)
    requires
        forall|i: int| 0 <= i < s.len() ==> s[i] == PATTERN,
    ensures
        sentinel_run(s) == s.len(),
{
    lemma_run_of_prefix(s, s.len() as int);
}

/// Immediate mismatch: where the first scanned byte already differs from
/// the pattern, the run is zero.
pub proof fn lemma_run_of_leading_mismatch(s: Seq<u8>)
    requires
        s.len() > 0,
        s[0] != PATTERN,
    ensures
        sentinel_run(s) == 0,
{
}

/// The run is at least as long as any leading stretch of pattern bytes.
pub proof fn lemma_run_at_least(s: Seq<u8>, k: int)
    requires
        0 <= k <= s.len(),
        forall|i: int| 0 <= i < k ==> s[i] == PATTERN,
    ensures
        sentinel_run(s) >= k,
    decreases k,
{
    if k > 0 {
        let t = s.skip(1);
        assert forall|i: int| 0 <= i < k - 1 implies t[i] == PATTERN by {
            assert(t[i] == s[i + 1]);
        }
        lemma_run_at_least(t, k - 1);
    }
}

/// Monotonic consumption: losing pattern bytes never lengthens the run.
/// Where every byte that holds the pattern after some stack activity held
/// it before as well, the run over the later region is no longer than over
/// the earlier one.
pub proof fn lemma_run_monotonic(s: Seq<u8>, t: Seq<u8>)
    requires
        s.len() == t.len(),
        forall|i: int| 0 <= i < t.len() && t[i] == PATTERN ==> s[i] == PATTERN,
    ensures
        sentinel_run(t) <= sentinel_run(s),
    decreases t.len(),
{
    if t.len() > 0 && t[0] == PATTERN {
        let s1 = s.skip(1);
        let t1 = t.skip(1);
        assert forall|i: int| 0 <= i < t1.len() && t1[i] == PATTERN implies s1[i] == PATTERN by {
            assert(t1[i] == t[i + 1]);
            assert(s1[i] == s[i + 1]);
        }
        lemma_run_monotonic(s1, t1);
    }
}

/// Bounded consumption: starting from a fully painted region, overwriting
/// at most the `m` bytes nearest where the stack begins to grow (the far
/// end of the scan order) lowers the run by at most `m`, and never raises
/// it.
pub proof fn lemma_run_after_consumption(s: Seq<u8>, t: Seq<u8>, m: int)
    requires
        s.len() == t.len(),
        forall|i: int| 0 <= i < s.len() ==> s[i] == PATTERN,
        0 <= m <= t.len(),
        forall|i: int| 0 <= i < t.len() - m ==> t[i] == s[i],
    ensures
        sentinel_run(s) == s.len(),
        sentinel_run(s) - m <= sentinel_run(t) <= sentinel_run(s),
{
    lemma_run_of_full_region(s);
    lemma_run_at_least(t, s.len() - m);
    lemma_run_le_len(t);
}

} // verus!
