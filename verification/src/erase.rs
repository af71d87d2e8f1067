//! The erase ranges that cover a set of write chunks.
use vstd::prelude::*;

use crate::chunks::chunk_end;
use crate::error::PlanError;
use crate::geometry::{lemma_sector_of_bounds, sector_ceil, sector_of, LAST_SECTOR, SECTOR_SIZE};

verus! {

/// Why a write chunk cannot be given an erase range, if it cannot.
pub open spec fn chunk_error(c: (u32, Vec<u8>)) -> Option<PlanError> {
    if c.1@.len() > u32::MAX {
        Some(PlanError::ChunkTooLarge { addr: c.0 })
    } else if chunk_end(c) > u32::MAX {
        Some(PlanError::ChunkWraps { addr: c.0 })
    } else {
        None
    }
}

/// A chunk whose sector span can be computed in 32-bit arithmetic: it ends at
/// or before the last sector and starts below it.
pub open spec fn chunk_erasable(c: (u32, Vec<u8>)) -> bool {
    chunk_end(c) <= LAST_SECTOR && c.0 < LAST_SECTOR
}

/// First sector address of the sectors a chunk touches.
pub open spec fn span_start(c: (u32, Vec<u8>)) -> int {
    sector_of(c.0 as int)
}

/// One past the last address of the sectors a chunk touches; a chunk always
/// touches at least the sector it starts in.
pub open spec fn span_end(c: (u32, Vec<u8>)) -> int {
    let up = sector_ceil(chunk_end(c));
    if up > span_start(c) + SECTOR_SIZE {
        up
    } else {
        span_start(c) + SECTOR_SIZE
    }
}

/// Address `x` lies in a sector that some chunk of `w` touches.
pub open spec fn in_spans(w: Seq<(u32, Vec<u8>)>, x: int) -> bool {
    exists|k: int| 0 <= k < w.len() && span_start(#[trigger] w[k]) <= x < span_end(w[k])
}

/// Address `x` lies in one of the `(start, end)` ranges of `r`.
pub open spec fn in_ranges(r: Seq<(u32, u32)>, x: int) -> bool {
    exists|k: int| 0 <= k < r.len() && (#[trigger] r[k]).0 <= x < r[k].1
}

/// Address `x` lies in one of the `(address, length)` erase entries of `e`.
pub open spec fn in_erase(e: Seq<(u32, u32)>, x: int) -> bool {
    exists|k: int| 0 <= k < e.len() && (#[trigger] e[k]).0 <= x < e[k].0 + e[k].1
}

/// Erase entries as PICOBOOT takes them: sector-aligned addresses and
/// lengths, non-empty, sorted by address, and coalesced, so no two entries
/// overlap or touch.
pub open spec fn erase_shaped(e: Seq<(u32, u32)>) -> bool {
    &&& forall|k: int|
        0 <= k < e.len() ==> {
            &&& (#[trigger] e[k]).0 % 4096 == 0
            &&& e[k].1 % 4096 == 0
            &&& e[k].1 > 0
        }
    &&& forall|a: int, b: int| 0 <= a < b < e.len() ==> (#[trigger] e[a]).0 + e[a].1 < (#[trigger] e[b]).0
}

/// `e` erases exactly the sectors that the chunks of `w` touch, in the
/// fewest entries.
pub open spec fn erase_holds(w: Seq<(u32, Vec<u8>)>, e: Seq<(u32, u32)>) -> bool {
    &&& erase_shaped(e)
    &&& forall|x: int| in_erase(e, x) <==> in_spans(w, x)
}

/// Aligned, non-empty `(start, end)` sector ranges.
pub open spec fn ranges_aligned(r: Seq<(u32, u32)>) -> bool {
    forall|j: int| 0 <= j < r.len() ==> (#[trigger] r[j]).0 % 4096 == 0 && r[j].1 % 4096 == 0 && r[j].0 < r[j].1
}

/// Sorts ranges by their start, keeping the addresses they cover.
#[verifier::rlimit(40)]
fn sort_ranges(sectors: &Vec<(u32, u32)>) -> (sorted: Vec<(u32, u32)>)
    requires
        ranges_aligned(sectors@),
    ensures
        ranges_aligned(sorted@),
        forall|a: int, b: int| 0 <= a < b < sorted@.len() ==> (#[trigger] sorted@[a]).0 <= (#[trigger] sorted@[b]).0,
        forall|x: int| in_ranges(sorted@, x) <==> in_ranges(sectors@, x),
{
    let n = sectors.len();
    let mut sorted: Vec<(u32, u32)> = Vec::new();
    let mut i: usize = 0;
    while i < n
        invariant
            n == sectors@.len(),
            0 <= i <= n,
            forall|j: int| 0 <= j < n ==> (#[trigger] sectors@[j]).0 % 4096 == 0 && sectors@[j].1 % 4096 == 0
                && sectors@[j].0 < sectors@[j].1,
            forall|j: int| 0 <= j < sorted@.len() ==> (#[trigger] sorted@[j]).0 % 4096 == 0 && sorted@[j].1 % 4096 == 0
                && sorted@[j].0 < sorted@[j].1,
            forall|a: int, b: int| 0 <= a < b < sorted@.len() ==> (#[trigger] sorted@[a]).0 <= (#[trigger] sorted@[b]).0,
            forall|x: int| in_ranges(sorted@, x) <==> in_ranges(sectors@.take(i as int), x),
        decreases n - i,
    {
        let s = sectors[i];
        let mut p = sorted.len();
        while p > 0 && sorted[p - 1].0 > s.0
            invariant
                0 <= p <= sorted@.len(),
                forall|k: int| p <= k < sorted@.len() ==> (#[trigger] sorted@[k]).0 > s.0,
            decreases p,
        {
            p = p - 1;
        }
        let ghost before = sorted@;
        sorted.insert(p, s);
        proof {
            assert(sectors@.take(i + 1) == sectors@.take(i as int).push(s));
            assert forall|x: int| in_ranges(sorted@, x) <==> in_ranges(sectors@.take(i + 1), x) by {
                if in_ranges(sorted@, x) {
                    let k = choose|k: int| 0 <= k < sorted@.len() && (#[trigger] sorted@[k]).0 <= x < sorted@[k].1;
                    if k < p {
                        assert(sorted@[k] == before[k]);
                        assert(in_ranges(before, x));
                        let q = choose|q: int| 0 <= q < i && (#[trigger] sectors@.take(i as int)[q]).0 <= x < sectors@.take(i as int)[q].1;
                        assert(sectors@.take(i + 1)[q] == sectors@.take(i as int)[q]);
                    } else if k == p {
                        assert(sectors@.take(i + 1)[i as int] == s);
                    } else {
                        assert(sorted@[k] == before[k - 1]);
                        assert(in_ranges(before, x));
                        let q = choose|q: int| 0 <= q < i && (#[trigger] sectors@.take(i as int)[q]).0 <= x < sectors@.take(i as int)[q].1;
                        assert(sectors@.take(i + 1)[q] == sectors@.take(i as int)[q]);
                    }
                }
                if in_ranges(sectors@.take(i + 1), x) {
                    let q = choose|q: int| 0 <= q < i + 1 && (#[trigger] sectors@.take(i + 1)[q]).0 <= x < sectors@.take(i + 1)[q].1;
                    if q == i {
                        assert(sorted@[p as int] == s);
                    } else {
                        assert(sectors@.take(i as int)[q] == sectors@.take(i + 1)[q]);
                        assert(in_ranges(sectors@.take(i as int), x));
                        assert(in_ranges(before, x));
                        let k = choose|k: int| 0 <= k < before.len() && (#[trigger] before[k]).0 <= x < before[k].1;
                        if k < p {
                            assert(sorted@[k] == before[k]);
                        } else {
                            assert(sorted@[k + 1] == before[k]);
                        }
                    }
                }
            }
        }
        i = i + 1;
    }
    proof {
        assert(sectors@.take(n as int) == sectors@);
    }
    sorted
}

/// Merges overlapping and touching ranges of a start-sorted list.
#[verifier::rlimit(40)]
fn coalesce_ranges(sorted: &Vec<(u32, u32)>) -> (merged: Vec<(u32, u32)>)
    requires
        ranges_aligned(sorted@),
        forall|a: int, b: int| 0 <= a < b < sorted@.len() ==> (#[trigger] sorted@[a]).0 <= (#[trigger] sorted@[b]).0,
    ensures
        ranges_aligned(merged@),
        forall|a: int, b: int| 0 <= a < b < merged@.len() ==> (#[trigger] merged@[a]).1 < (#[trigger] merged@[b]).0,
        forall|x: int| in_ranges(merged@, x) <==> in_ranges(sorted@, x),
{
    let n = sorted.len();
    let mut merged: Vec<(u32, u32)> = Vec::new();
    let mut i: usize = 0;
    while i < n
        invariant
            n == sorted@.len(),
            0 <= i <= n,
            forall|j: int| 0 <= j < n ==> (#[trigger] sorted@[j]).0 % 4096 == 0 && sorted@[j].1 % 4096 == 0
                && sorted@[j].0 < sorted@[j].1,
            forall|a: int, b: int| 0 <= a < b < sorted@.len() ==> (#[trigger] sorted@[a]).0 <= (#[trigger] sorted@[b]).0,
            forall|j: int| 0 <= j < merged@.len() ==> (#[trigger] merged@[j]).0 % 4096 == 0 && merged@[j].1 % 4096 == 0
                && merged@[j].0 < merged@[j].1,
            forall|a: int, b: int| 0 <= a < b < merged@.len() ==> (#[trigger] merged@[a]).1 < (#[trigger] merged@[b]).0,
            merged@.len() > 0 ==> forall|j: int| i <= j < n ==> merged@.last().0 <= (#[trigger] sorted@[j]).0,
            merged@.len() == 0 ==> i == 0,
            forall|x: int| in_ranges(merged@, x) <==> in_ranges(sorted@.take(i as int), x),
        decreases n - i,
    {
        let s = sorted[i];
        let ghost before = merged@;
        proof {
            assert(sorted@.take(i + 1) == sorted@.take(i as int).push(s));
        }
        if merged.len() > 0 && merged[merged.len() - 1].1 >= s.0 {
            let last = merged.pop().unwrap();
            let stop = if last.1 >= s.1 {
                last.1
            } else {
                s.1
            };
            proof {
                assert(last == before[before.len() - 1]);
                assert(merged@ == before.drop_last());
            }
            merged.push((last.0, stop));
            proof {
                assert(merged@ == before.drop_last().push((last.0, stop)));
                assert(merged@.len() == before.len());
                assert forall|j: int| 0 <= j < merged@.len() - 1 implies merged@[j] == before[j] by {}
                assert forall|x: int| in_ranges(merged@, x) <==> in_ranges(sorted@.take(i + 1), x) by {
                    if in_ranges(merged@, x) {
                        let k = choose|k: int| 0 <= k < merged@.len() && (#[trigger] merged@[k]).0 <= x < merged@[k].1;
                        if k < merged@.len() - 1 {
                            assert(in_ranges(before, x));
                        } else if x < last.1 {
                            assert(before[k] == last);
                            assert(in_ranges(before, x));
                        } else {
                            assert(sorted@.take(i + 1)[i as int] == s);
                        }
                        if in_ranges(before, x) {
                            let q = choose|q: int| 0 <= q < i && (#[trigger] sorted@.take(i as int)[q]).0 <= x < sorted@.take(i as int)[q].1;
                            assert(sorted@.take(i + 1)[q] == sorted@.take(i as int)[q]);
                        }
                    }
                    if in_ranges(sorted@.take(i + 1), x) {
                        let q = choose|q: int| 0 <= q < i + 1 && (#[trigger] sorted@.take(i + 1)[q]).0 <= x < sorted@.take(i + 1)[q].1;
                        if q == i {
                            assert(merged@[merged@.len() - 1].0 <= x < merged@[merged@.len() - 1].1);
                        } else {
                            assert(sorted@.take(i as int)[q] == sorted@.take(i + 1)[q]);
                            assert(in_ranges(sorted@.take(i as int), x));
                            assert(in_ranges(before, x));
                            let k = choose|k: int| 0 <= k < before.len() && (#[trigger] before[k]).0 <= x < before[k].1;
                            if k < before.len() - 1 {
                                assert(merged@[k] == before[k]);
                            } else {
                                assert(merged@[k].0 <= x < merged@[k].1);
                            }
                        }
                    }
                }
            }
        } else {
            merged.push(s);
            proof {
                assert forall|j: int| 0 <= j < before.len() implies merged@[j] == before[j] by {}
                assert forall|a: int, b: int| 0 <= a < b < merged@.len() implies (#[trigger] merged@[a]).1 < (#[trigger] merged@[b]).0 by {
                    if b == merged@.len() - 1 && a < before.len() - 1 {
                        assert(before[a].1 < before[before.len() - 1].0);
                    }
                }
                assert forall|x: int| in_ranges(merged@, x) <==> in_ranges(sorted@.take(i + 1), x) by {
                    if in_ranges(merged@, x) {
                        let k = choose|k: int| 0 <= k < merged@.len() && (#[trigger] merged@[k]).0 <= x < merged@[k].1;
                        if k < before.len() {
                            assert(in_ranges(before, x));
                            let q = choose|q: int| 0 <= q < i && (#[trigger] sorted@.take(i as int)[q]).0 <= x < sorted@.take(i as int)[q].1;
                            assert(sorted@.take(i + 1)[q] == sorted@.take(i as int)[q]);
                        } else {
                            assert(sorted@.take(i + 1)[i as int] == s);
                        }
                    }
                    if in_ranges(sorted@.take(i + 1), x) {
                        let q = choose|q: int| 0 <= q < i + 1 && (#[trigger] sorted@.take(i + 1)[q]).0 <= x < sorted@.take(i + 1)[q].1;
                        if q == i {
                            assert(merged@[before.len() as int] == s);
                        } else {
                            assert(sorted@.take(i as int)[q] == sorted@.take(i + 1)[q]);
                            assert(in_ranges(sorted@.take(i as int), x));
                            assert(in_ranges(before, x));
                            let k = choose|k: int| 0 <= k < before.len() && (#[trigger] before[k]).0 <= x < before[k].1;
                            assert(merged@[k] == before[k]);
                        }
                    }
                }
            }
        }
        i = i + 1;
    }
    proof {
        assert(sorted@.take(n as int) == sorted@);
    }
    merged
}

/// The minimal set of sectors covering `write`, coalesced and sorted.
pub fn erase_ranges(write: &Vec<(u32, Vec<u8>)>) -> (r: Result<Vec<(u32, u32)>, PlanError>)
    requires
        forall|i: int|
            0 <= i < write@.len() && (forall|j: int| 0 <= j <= i ==> #[trigger] chunk_error(write@[j]) is None)
                ==> chunk_erasable(#[trigger] write@[i]),
    ensures
        r is Err <==> exists|i: int| 0 <= i < write@.len() && chunk_error(#[trigger] write@[i]) is Some,
        r matches Err(e) ==> exists|i: int|
            0 <= i < write@.len() && chunk_error(#[trigger] write@[i]) == Some(e)
                && forall|j: int| 0 <= j < i ==> chunk_error(#[trigger] write@[j]) is None,
        r matches Ok(e) ==> erase_holds(write@, e@),
{
    let n = write.len();
    // the sectors each chunk touches, as (start, end)
    let mut sectors: Vec<(u32, u32)> = Vec::new();
    let mut i: usize = 0;
    while i < n
        invariant
            n == write@.len(),
            0 <= i <= n,
            sectors@.len() == i,
            forall|j: int| 0 <= j < i ==> #[trigger] chunk_error(write@[j]) is None,
            forall|j: int|
                0 <= j < i ==> (#[trigger] sectors@[j]).0 == span_start(write@[j]) && sectors@[j].1
                    == span_end(write@[j]),
            forall|j: int| 0 <= j < i ==> (#[trigger] sectors@[j]).0 % 4096 == 0 && sectors@[j].1 % 4096 == 0
                && sectors@[j].0 < sectors@[j].1,
            forall|i: int|
                0 <= i < write@.len() && (forall|j: int| 0 <= j <= i ==> #[trigger] chunk_error(write@[j]) is None)
                    ==> chunk_erasable(#[trigger] write@[i]),
        decreases n - i,
    {
        let addr = write[i].0;
        let dlen = write[i].1.len();
        if dlen as u64 > u32::MAX as u64 {
            return Err(PlanError::ChunkTooLarge { addr });
        }
        let len = dlen as u32;
        if addr as u64 + len as u64 > u32::MAX as u64 {
            return Err(PlanError::ChunkWraps { addr });
        }
        proof {
            assert(chunk_error(write@[i as int]) is None);
            assert(chunk_erasable(write@[i as int]));
            lemma_sector_of_bounds(addr as int);
            lemma_sector_of_bounds(addr as int + len as int);
        }
        let end = addr + len;
        let start = addr - addr % SECTOR_SIZE;
        let up = if end % SECTOR_SIZE == 0 {
            end
        } else {
            end - end % SECTOR_SIZE + SECTOR_SIZE
        };
        let stop = if up > start + SECTOR_SIZE {
            up
        } else {
            start + SECTOR_SIZE
        };
        sectors.push((start, stop));
        i = i + 1;
    }
    proof {
        assert(ranges_aligned(sectors@));
    }
    let sorted = sort_ranges(&sectors);
    let merged = coalesce_ranges(&sorted);
    proof {
        assert(sectors@.take(n as int) == sectors@);
    }
    // as (address, length)
    let mut erase: Vec<(u32, u32)> = Vec::new();
    let mut i: usize = 0;
    while i < merged.len()
        invariant
            0 <= i <= merged@.len(),
            erase@.len() == i,
            forall|j: int| 0 <= j < i ==> (#[trigger] erase@[j]).0 == merged@[j].0 && erase@[j].1 == merged@[j].1 - merged@[j].0,
            forall|j: int| 0 <= j < merged@.len() ==> (#[trigger] merged@[j]).0 % 4096 == 0 && merged@[j].1 % 4096 == 0
                && merged@[j].0 < merged@[j].1,
        decreases merged@.len() - i,
    {
        let (a, b) = merged[i];
        erase.push((a, b - a));
        i = i + 1;
    }
    proof {
        assert forall|k: int| 0 <= k < erase@.len() implies {
            &&& (#[trigger] erase@[k]).0 % 4096 == 0
            &&& erase@[k].1 % 4096 == 0
            &&& erase@[k].1 > 0
        } by {
            let (a, b) = merged@[k];
            assert((b - a) % 4096 == 0) by (nonlinear_arith)
                requires a % 4096 == 0, b % 4096 == 0, a < b;
        }
        assert forall|x: int| in_erase(erase@, x) <==> in_spans(write@, x) by {
            if in_erase(erase@, x) {
                let k = choose|k: int| 0 <= k < erase@.len() && (#[trigger] erase@[k]).0 <= x < erase@[k].0 + erase@[k].1;
                assert(merged@[k].0 <= x < merged@[k].1);
                assert(in_ranges(merged@, x));
                assert(in_ranges(sectors@, x));
                let q = choose|q: int| 0 <= q < sectors@.len() && (#[trigger] sectors@[q]).0 <= x < sectors@[q].1;
                assert(span_start(write@[q]) <= x < span_end(write@[q]));
            }
            if in_spans(write@, x) {
                let q = choose|q: int| 0 <= q < write@.len() && span_start(#[trigger] write@[q]) <= x < span_end(write@[q]);
                assert(sectors@[q].0 <= x < sectors@[q].1);
                assert(in_ranges(sectors@, x));
                assert(in_ranges(merged@, x));
                let k = choose|k: int| 0 <= k < merged@.len() && (#[trigger] merged@[k]).0 <= x < merged@[k].1;
                assert(erase@[k].0 <= x < erase@[k].0 + erase@[k].1);
            }
        }
    }
    Ok(erase)
}

/// Two erase lists in the shape PICOBOOT takes that erase the same addresses
/// are the same list: the coalesced, sorted cover of a set of addresses is
/// unique.
pub proof fn lemma_erase_unique(e1: Seq<(u32, u32)>, e2: Seq<(u32, u32)>)
    requires
        erase_shaped(e1),
        erase_shaped(e2),
        forall|x: int| in_erase(e1, x) <==> in_erase(e2, x),
    ensures
        e1 == e2,
    decreases e1.len(),
{
    if e1.len() == 0 || e2.len() == 0 {
        if e1.len() > 0 {
            assert(in_erase(e1, e1[0].0 as int));
        }
        if e2.len() > 0 {
            assert(in_erase(e2, e2[0].0 as int));
        }
        assert(e1 =~= e2);
    } else {
        let (s1, l1) = e1[0];
        let (s2, l2) = e2[0];
        // both start at the lowest erased address
        if s1 < s2 {
            assert(in_erase(e1, s1 as int));
            let k = choose|k: int| 0 <= k < e2.len() && (#[trigger] e2[k]).0 <= s1 < e2[k].0 + e2[k].1;
            if k > 0 {
                assert(e2[0].0 + e2[0].1 < e2[k].0);
            }
        }
        if s2 < s1 {
            assert(in_erase(e2, s2 as int));
            let k = choose|k: int| 0 <= k < e1.len() && (#[trigger] e1[k]).0 <= s2 < e1[k].0 + e1[k].1;
            if k > 0 {
                assert(e1[0].0 + e1[0].1 < e1[k].0);
            }
        }
        // and end at the first address past it that is not erased
        if l1 < l2 {
            let x = s1 + l1;
            assert(e2[0].0 <= x < e2[0].0 + e2[0].1);
            assert(in_erase(e2, x));
            let k = choose|k: int| 0 <= k < e1.len() && (#[trigger] e1[k]).0 <= x < e1[k].0 + e1[k].1;
            if k > 0 {
                assert(e1[0].0 + e1[0].1 < e1[k].0);
            }
        }
        if l2 < l1 {
            let x = s2 + l2;
            assert(e1[0].0 <= x < e1[0].0 + e1[0].1);
            assert(in_erase(e1, x));
            let k = choose|k: int| 0 <= k < e2.len() && (#[trigger] e2[k]).0 <= x < e2[k].0 + e2[k].1;
            if k > 0 {
                assert(e2[0].0 + e2[0].1 < e2[k].0);
            }
        }
        let end = s1 + l1;
        let r1 = e1.drop_first();
        let r2 = e2.drop_first();
        assert forall|x: int| in_erase(r1, x) <==> (in_erase(e1, x) && x >= end) by {
            if in_erase(r1, x) {
                let k = choose|k: int| 0 <= k < r1.len() && (#[trigger] r1[k]).0 <= x < r1[k].0 + r1[k].1;
                assert(r1[k] == e1[k + 1]);
                assert(e1[0].0 + e1[0].1 < e1[k + 1].0);
                assert(in_erase(e1, x));
            }
            if in_erase(e1, x) && x >= end {
                let k = choose|k: int| 0 <= k < e1.len() && (#[trigger] e1[k]).0 <= x < e1[k].0 + e1[k].1;
                assert(k > 0);
                assert(r1[k - 1] == e1[k]);
            }
        }
        assert forall|x: int| in_erase(r2, x) <==> (in_erase(e2, x) && x >= end) by {
            if in_erase(r2, x) {
                let k = choose|k: int| 0 <= k < r2.len() && (#[trigger] r2[k]).0 <= x < r2[k].0 + r2[k].1;
                assert(r2[k] == e2[k + 1]);
                assert(e2[0].0 + e2[0].1 < e2[k + 1].0);
                assert(in_erase(e2, x));
            }
            if in_erase(e2, x) && x >= end {
                let k = choose|k: int| 0 <= k < e2.len() && (#[trigger] e2[k]).0 <= x < e2[k].0 + e2[k].1;
                assert(k > 0);
                assert(r2[k - 1] == e2[k]);
            }
        }
        assert forall|a: int, b: int| 0 <= a < b < r1.len() implies (#[trigger] r1[a]).0 + r1[a].1 < (#[trigger] r1[b]).0 by {
            assert(r1[a] == e1[a + 1] && r1[b] == e1[b + 1]);
        }
        assert forall|a: int, b: int| 0 <= a < b < r2.len() implies (#[trigger] r2[a]).0 + r2[a].1 < (#[trigger] r2[b]).0 by {
            assert(r2[a] == e2[a + 1] && r2[b] == e2[b + 1]);
        }
        assert forall|k: int| 0 <= k < r1.len() implies (#[trigger] r1[k]).0 % 4096 == 0 && r1[k].1 % 4096 == 0 && r1[k].1 > 0 by {
            assert(r1[k] == e1[k + 1]);
        }
        assert forall|k: int| 0 <= k < r2.len() implies (#[trigger] r2[k]).0 % 4096 == 0 && r2[k].1 % 4096 == 0 && r2[k].1 > 0 by {
            assert(r2[k] == e2[k + 1]);
        }
        lemma_erase_unique(r1, r2);
        assert(e1 =~= e2) by {
            assert forall|k: int| 0 <= k < e1.len() implies e1[k] == e2[k] by {
                if k > 0 {
                    assert(e1[k] == r1[k - 1]);
                    assert(e2[k] == r2[k - 1]);
                }
            }
        }
    }
}

/// The erase ranges do not depend on the order of the write chunks: two
/// chunk lists holding the same chunks get the same erase list.
pub proof fn lemma_erase_ignores_chunk_order(
    w1: Seq<(u32, Vec<u8>)>,
    w2: Seq<(u32, Vec<u8>)>,
    e1: Seq<(u32, u32)>,
    e2: Seq<(u32, u32)>,
)
    requires
        forall|c: (u32, Vec<u8>)| w1.contains(c) <==> w2.contains(c),
        erase_holds(w1, e1),
        erase_holds(w2, e2),
    ensures
        e1 == e2,
{
    assert forall|x: int| in_erase(e1, x) <==> in_erase(e2, x) by {
        if in_spans(w1, x) {
            let k = choose|k: int| 0 <= k < w1.len() && span_start(#[trigger] w1[k]) <= x < span_end(w1[k]);
            assert(w1.contains(w1[k]));
            let j = choose|j: int| 0 <= j < w2.len() && w2[j] == w1[k];
            assert(span_start(w2[j]) <= x < span_end(w2[j]));
        }
        if in_spans(w2, x) {
            let k = choose|k: int| 0 <= k < w2.len() && span_start(#[trigger] w2[k]) <= x < span_end(w2[k]);
            assert(w2.contains(w2[k]));
            let j = choose|j: int| 0 <= j < w1.len() && w1[j] == w2[k];
            assert(span_start(w1[j]) <= x < span_end(w1[j]));
        }
    }
    lemma_erase_unique(e1, e2);
}

} // verus!
