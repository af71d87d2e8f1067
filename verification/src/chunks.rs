//! Grouping the mapped flash bytes into page-aligned write chunks.
use vstd::prelude::*;

use crate::ordered_bytes::entries;

use std::collections::BTreeMap;

use crate::geometry::{lemma_page_of_bounds, lemma_page_of_offset, page_of, ERASED_BYTE, LAST_PAGE, PAGE_SIZE};

verus! {

/// The addresses of `s` strictly increase: a sorted byte map with no address
/// claimed twice.
pub open spec fn pairs_sorted(s: Seq<(u32, u8)>) -> bool {
    forall|i: int, j: int| 0 <= i < j < s.len() ==> #[trigger] s[i].0 < #[trigger] s[j].0
}

/// Whether some entry of `s` holds address `a`.
pub open spec fn pairs_hold(s: Seq<(u32, u8)>, a: int) -> bool {
    exists|i: int| 0 <= i < s.len() && s[i].0 == a
}

/// The byte map that an address-sorted list of `(address, byte)` entries stands for.
pub open spec fn pairs_map(s: Seq<(u32, u8)>) -> Map<int, u8> {
    Map::new(
        |a: int| pairs_hold(s, a),
        |a: int| s[choose|i: int| 0 <= i < s.len() && s[i].0 == a].1,
    )
}

/// A map keyed by 32-bit addresses, seen as a map over all integer addresses.
pub open spec fn addr_map(b: Map<u32, u8>) -> Map<int, u8> {
    Map::new(|a: int| 0 <= a <= u32::MAX && b.dom().contains(a as u32), |a: int| b[a as u32])
}

/// What flash holds at `a` after the plan ran: the mapped byte, or the erased value.
pub open spec fn byte_or_erased(m: Map<int, u8>, a: int) -> u8 {
    if m.dom().contains(a) {
        m[a]
    } else {
        ERASED_BYTE
    }
}

/// One past the last address of a write chunk.
pub open spec fn chunk_end(c: (u32, Vec<u8>)) -> int {
    c.0 + c.1@.len()
}

/// Some mapped byte lies in the page starting at `p`.
pub open spec fn page_touched(m: Map<int, u8>, p: int) -> bool {
    exists|a: int| m.dom().contains(a) && page_of(a) == p
}

/// Some chunk of `w` writes address `a`.
pub open spec fn in_chunks(w: Seq<(u32, Vec<u8>)>, a: int) -> bool {
    exists|i: int| 0 <= i < w.len() && w[i].0 <= a < chunk_end(#[trigger] w[i])
}

/// A page-aligned chunk of whole pages that ends within the address space.
pub open spec fn chunk_shaped(c: (u32, Vec<u8>)) -> bool {
    &&& c.0 % 256 == 0
    &&& c.1@.len() > 0
    &&& c.1@.len() % 256 == 0
    &&& chunk_end(c) <= 0x1_0000_0000
}

/// The shape PICOBOOT needs: page-aligned starts, whole pages, no chunk past
/// the address space, sorted by address, and no two chunks touching (runs of
/// consecutive pages form one chunk).
pub open spec fn writes_shaped(w: Seq<(u32, Vec<u8>)>) -> bool {
    &&& forall|i: int| 0 <= i < w.len() ==> chunk_shaped(#[trigger] w[i])
    &&& forall|i: int, j: int| 0 <= i < j < w.len() ==> chunk_end(#[trigger] w[i]) < #[trigger] w[j].0
}

/// Each byte of chunk `c` is what `m` maps its address to, or the erased
/// value, and lies in a page that holds a byte of `m`.
pub open spec fn chunk_holds(m: Map<int, u8>, c: (u32, Vec<u8>)) -> bool {
    forall|k: int|
        0 <= k < c.1@.len() ==> {
            &&& #[trigger] c.1@[k] == byte_or_erased(m, c.0 + k)
            &&& page_touched(m, page_of(c.0 + k))
        }
}

/// `w` writes exactly the pages that hold a byte of `m`, with `m`'s bytes and
/// the erased value everywhere else in those pages.
pub open spec fn writes_hold(m: Map<int, u8>, w: Seq<(u32, Vec<u8>)>) -> bool {
    &&& writes_shaped(w)
    &&& forall|i: int| 0 <= i < w.len() ==> chunk_holds(m, #[trigger] w[i])
    &&& forall|a: int| #[trigger] m.dom().contains(a) ==> in_chunks(w, a)
}

/// In a sorted byte map, the entry at index `i` is the one the map reads at its address.
pub proof fn lemma_pairs_map_at(s: Seq<(u32, u8)>, i: int)
    requires
        pairs_sorted(s),
        0 <= i < s.len(),
    ensures
        pairs_map(s).dom().contains(s[i].0 as int),
        pairs_map(s)[s[i].0 as int] == s[i].1,
{
    let a = s[i].0 as int;
    assert(pairs_hold(s, a));
    let j = choose|j: int| 0 <= j < s.len() && s[j].0 == a;
    if j < i {
        assert(s[j].0 < s[i].0);
    } else if j > i {
        assert(s[i].0 < s[j].0);
    }
}

/// The address-sorted entries of a byte map stand for that map.
pub proof fn lemma_entries_map(b: Map<u32, u8>, s: Seq<(u32, u8)>)
    requires
        pairs_sorted(s),
        forall|i: int| 0 <= i < s.len() ==> b.contains_key(#[trigger] s[i].0) && b[s[i].0] == s[i].1,
        forall|k: u32| #[trigger] b.contains_key(k) ==> exists|i: int| 0 <= i < s.len() && s[i].0 == k,
    ensures
        pairs_map(s) == addr_map(b),
{
    assert forall|a: int| #[trigger] pairs_map(s).dom().contains(a) <==> addr_map(b).dom().contains(a) by {
        if pairs_map(s).dom().contains(a) {
            let i = choose|i: int| 0 <= i < s.len() && s[i].0 == a;
            assert(b.contains_key(s[i].0));
        }
        if addr_map(b).dom().contains(a) {
            assert(b.contains_key(a as u32));
            let i = choose|i: int| 0 <= i < s.len() && s[i].0 == a as u32;
            assert(pairs_hold(s, a));
        }
    }
    assert forall|a: int| #[trigger] pairs_map(s).dom().contains(a) implies pairs_map(s)[a] == addr_map(b)[a] by {
        let i = choose|i: int| 0 <= i < s.len() && s[i].0 == a;
        assert(b.contains_key(s[i].0));
    }
    assert(pairs_map(s) =~= addr_map(b));
}

/// Groups the mapped bytes into page-aligned, page-sized write chunks.
///
/// Every page holding at least one mapped byte is emitted in full; runs of
/// consecutive pages become a single chunk.
pub fn write_chunks(bytes: &BTreeMap<u32, u8>) -> (chunks: Vec<(u32, Vec<u8>)>)
    requires
        forall|a: u32| #[trigger] bytes@.contains_key(a) ==> a < LAST_PAGE,
    ensures
        writes_hold(addr_map(bytes@), chunks@),
{
    let pairs = entries(bytes);
    proof {
        lemma_entries_map(bytes@, pairs@);
        assert forall|i: int| 0 <= i < pairs@.len() implies #[trigger] pairs@[i].0 < LAST_PAGE by {
            assert(bytes@.contains_key(pairs@[i].0));
        }
    }
    chunk_pairs(&pairs)
}

/// `write_chunks` on the byte map's entries in address order.
fn chunk_pairs(bytes: &Vec<(u32, u8)>) -> (chunks: Vec<(u32, Vec<u8>)>)
    requires
        pairs_sorted(bytes@),
        forall|i: int| 0 <= i < bytes@.len() ==> #[trigger] bytes@[i].0 < LAST_PAGE,
    ensures
        writes_hold(pairs_map(bytes@), chunks@),
{
    let n = bytes.len();
    let ghost m = pairs_map(bytes@);
    let mut chunks: Vec<(u32, Vec<u8>)> = Vec::new();
    let mut cur_start: u32 = 0;
    let mut cur: Vec<u8> = Vec::new();
    let mut i: usize = 0;
    let ghost mut w: Seq<(u32, Vec<u8>)> = Seq::empty();
    while i < n
        invariant
            n == bytes@.len(),
            m == pairs_map(bytes@),
            pairs_sorted(bytes@),
            forall|j: int| 0 <= j < bytes@.len() ==> #[trigger] bytes@[j].0 < LAST_PAGE,
            0 <= i <= n,
            chunks@.len() > 0 ==> cur@.len() > 0,
            w == (if cur@.len() > 0 { chunks@.push((cur_start, cur)) } else { chunks@ }),
            ({
                &&& writes_shaped(w)
                &&& forall|c: int| 0 <= c < w.len() ==> chunk_holds(m, #[trigger] w[c])
                &&& forall|j: int| 0 <= j < i ==> in_chunks(w, #[trigger] bytes@[j].0 as int)
                &&& cur@.len() > 0 ==> forall|j: int| 0 <= j < i ==> #[trigger] bytes@[j].0 < cur_start + cur@.len()
                &&& cur@.len() > 0 && i < n ==> bytes@[i as int].0 >= cur_start + cur@.len()
                &&& cur@.len() > 0 ==> cur_start + cur@.len() <= LAST_PAGE
                &&& cur@.len() == 0 ==> i == 0
            }),
        decreases n - i,
    {
        let ghost w0 = w;
        let ghost i0 = i as int;
        let addr = bytes[i].0;
        let page = addr - addr % PAGE_SIZE;
        proof {
            lemma_page_of_bounds(addr as int);
            lemma_pairs_map_at(bytes@, i0);
            if cur@.len() > 0 {
                // the current chunk ends on a page boundary at or below `addr`
                assert(cur_start + cur@.len() <= page) by {
                    let e = cur_start + cur@.len();
                    assert(e % 256 == 0) by {
                        assert(chunk_shaped(w0[w0.len() - 1]));
                        assert(w0[w0.len() - 1] == (cur_start, cur));
                        vstd::arithmetic::div_mod::lemma_mod_adds(cur_start as int, cur@.len() as int, 256);
                    }
                    if e > page {
                        assert(page < e <= addr);
                        assert(e - page < 256);
                        assert(page % 256 == 0);
                        vstd::arithmetic::div_mod::lemma_mod_sub_multiples_vanish(
                            (e - page) as int, 256);
                        assert(false) by (nonlinear_arith)
                            requires e % 256 == 0, page % 256 == 0, 0 < e - page < 256;
                    }
                }
            }
        }
        let mut buf: Vec<u8> = Vec::new();
        let mut off: u32 = 0;
        while off < PAGE_SIZE
            invariant
                n == bytes@.len(),
                m == pairs_map(bytes@),
                pairs_sorted(bytes@),
                page % 256 == 0,
                page <= addr < page + 256,
                addr == bytes@[i0].0,
                addr < LAST_PAGE,
                0 <= i0 < n,
                i0 <= i <= n,
                off <= 256,
                buf@.len() == off,
                forall|j: int| 0 <= j < i0 ==> #[trigger] bytes@[j].0 < page,
                forall|j: int| i0 <= j < i ==> page <= #[trigger] bytes@[j].0 < page + off,
                i < n ==> bytes@[i as int].0 >= page + off,
                forall|k: int| 0 <= k < off ==> #[trigger] buf@[k] == byte_or_erased(m, page + k),
            decreases 256 - off,
        {
            let a = page + off;
            if i < n && bytes[i].0 == a {
                proof {
                    lemma_pairs_map_at(bytes@, i as int);
                }
                buf.push(bytes[i].1);
                i = i + 1;
            } else {
                proof {
                    if m.dom().contains(a as int) {
                        let j = choose|j: int| 0 <= j < bytes@.len() && bytes@[j].0 == a;
                        if j < i0 {
                        } else if j < i {
                        } else if j == i {
                        } else {
                            assert(bytes@[i as int].0 < bytes@[j].0);
                        }
                        assert(false);
                    }
                }
                buf.push(ERASED_BYTE);
            }
            off = off + 1;
        }
        let ghost new_bytes = buf@;
        proof {
            if i == i0 {
                assert(bytes@[i0].0 >= page + 256);
            }
            assert(page_touched(m, page as int)) by {
                assert(m.dom().contains(addr as int));
            }
            assert forall|k: int| 0 <= k < 256 implies #[trigger] page_of(page + k) == page by {
                lemma_page_of_offset(page as int, k);
            }
        }
        if cur.len() > 0 && cur_start as u64 + cur.len() as u64 == page as u64 {
            let ghost old_cur = cur@;
            let ghost old_buf = buf@;
            proof {
                assert(w0[w0.len() - 1] == (cur_start, cur));
                assert(chunk_shaped(w0[w0.len() - 1]));
                assert(w0[w0.len() - 1].1@ == old_cur);
                assert(old_cur.len() % 256 == 0);
            }
            cur.append(&mut buf);
            proof {
                w = chunks@.push((cur_start, cur));
                assert(w.len() == w0.len());
                assert forall|c: int| 0 <= c < w.len() - 1 implies w[c] == w0[c] by {}
                assert(cur@.len() % 256 == 0) by {
                    vstd::arithmetic::div_mod::lemma_mod_adds(old_cur.len() as int, 256, 256);
                }
                assert forall|c: int| 0 <= c < w.len() implies chunk_holds(m, #[trigger] w[c]) by {
                    if c == w.len() - 1 {
                        assert(chunk_holds(m, w0[c]));
                        assert(w0[c].1@ == old_cur);
                        assert forall|k: int| 0 <= k < w[c].1@.len() implies {
                            &&& #[trigger] w[c].1@[k] == byte_or_erased(m, w[c].0 + k)
                            &&& page_touched(m, page_of(w[c].0 + k))
                        } by {
                            if k >= old_cur.len() {
                                assert(w[c].1@[k] == old_buf[k - old_cur.len()]);
                                assert(w[c].0 + k == page + (k - old_cur.len()));
                            } else {
                                assert(w[c].1@[k] == old_cur[k]);
                                assert(w0[c].1@[k] == old_cur[k]);
                                assert(w[c].0 == w0[c].0);
                            }
                        }
                    } else {
                        assert(w[c] == w0[c]);
                    }
                }
                assert forall|j: int| 0 <= j < i implies in_chunks(w, #[trigger] bytes@[j].0 as int) by {
                    if j < i0 {
                        let c = choose|c: int| 0 <= c < w0.len() && w0[c].0 <= bytes@[j].0 < chunk_end(#[trigger] w0[c]);
                        assert(w[c].0 <= bytes@[j].0 < chunk_end(w[c]));
                    } else {
                        assert(w[w.len() - 1].0 <= bytes@[j].0 < chunk_end(w[w.len() - 1]));
                    }
                }
                assert forall|a: int, b: int| 0 <= a < b < w.len() implies chunk_end(#[trigger] w[a]) < #[trigger] w[b].0 by {
                    assert(w0[a] == w[a]);
                    assert(w0[b].0 == w[b].0);
                }
            }
        } else {
            if cur.len() > 0 {
                let done = cur;
                chunks.push((cur_start, done));
            }
            cur_start = page;
            cur = buf;
            proof {
                w = chunks@.push((cur_start, cur));
                assert(w.len() == w0.len() + 1);
                assert forall|c: int| 0 <= c < w0.len() implies w[c] == w0[c] by {}
                assert forall|c: int| 0 <= c < w.len() implies chunk_holds(m, #[trigger] w[c]) by {
                    if c == w.len() - 1 {
                        assert(w[c].1@ == new_bytes);
                        assert forall|k: int| 0 <= k < w[c].1@.len() implies {
                            &&& #[trigger] w[c].1@[k] == byte_or_erased(m, w[c].0 + k)
                            &&& page_touched(m, page_of(w[c].0 + k))
                        } by {
                            assert(w[c].1@[k] == new_bytes[k]);
                            assert(page_of(page + k) == page);
                        }
                    } else {
                        assert(w[c] == w0[c]);
                    }
                }
                assert forall|j: int| 0 <= j < i implies in_chunks(w, #[trigger] bytes@[j].0 as int) by {
                    if j < i0 {
                        let c = choose|c: int| 0 <= c < w0.len() && w0[c].0 <= bytes@[j].0 < chunk_end(#[trigger] w0[c]);
                        assert(w[c].0 <= bytes@[j].0 < chunk_end(w[c]));
                    } else {
                        assert(w[w.len() - 1].0 <= bytes@[j].0 < chunk_end(w[w.len() - 1]));
                    }
                }
                if w0.len() > 0 {
                    assert(chunk_end(w0[w0.len() - 1]) < page);
                }
                assert forall|a: int, b: int| 0 <= a < b < w.len() implies chunk_end(#[trigger] w[a]) < #[trigger] w[b].0 by {
                    if b == w.len() - 1 {
                        if a < w0.len() - 1 {
                            assert(chunk_end(w0[a]) < w0[w0.len() - 1].0);
                        }
                    }
                }
            }
        }
    }
    if cur.len() > 0 {
        chunks.push((cur_start, cur));
    }
    proof {
        assert(chunks@ == w);
        assert(writes_shaped(w));

        assert forall|a: int| #[trigger] m.dom().contains(a) implies in_chunks(w, a) by {
            let j = choose|j: int| 0 <= j < bytes@.len() && bytes@[j].0 == a;
            assert(in_chunks(w, bytes@[j].0 as int));
        }
    }
    chunks
}

} // verus!
