//! Which bytes the flash-resident segments of an ELF file place where.
use vstd::prelude::*;

use std::collections::BTreeMap;

use crate::chunks::addr_map;
use crate::error::PlanError;
use crate::geometry::{FLASH_END, FLASH_START};

verus! {

/// The ELF program header type of a loadable segment.
pub const PT_LOAD: u32 = 1;

/// A program header of a 32-bit ELF file, as the planner reads it.
pub struct ProgramHeader {
    /// The segment type (`p_type`).
    pub p_type: u32,
    /// The physical load address (`p_paddr`).
    pub p_paddr: u32,
    /// The segment's bytes in the file, or `None` when its file range lies
    /// outside the file.
    pub data: Option<Vec<u8>>,
}

impl View for ProgramHeader {
    /// `(p_type, p_paddr, segment bytes)`.
    type V = (u32, u32, Option<Seq<u8>>);

    open spec fn view(&self) -> (u32, u32, Option<Seq<u8>>) {
        (
            self.p_type,
            self.p_paddr,
            match self.data {
                Some(d) => Some(d@),
                None => None,
            },
        )
    }
}

/// The views of a list of program headers.
pub open spec fn headers_view(hs: Seq<ProgramHeader>) -> Seq<(u32, u32, Option<Seq<u8>>)> {
    hs.map_values(|h: ProgramHeader| h@)
}

/// The segment bytes of a header, empty when it has none.
pub open spec fn header_bytes(h: ProgramHeader) -> Seq<u8> {
    match h.data {
        Some(d) => d@,
        None => Seq::empty(),
    }
}

/// One past the last address of a placed segment `(base, bytes)`.
pub open spec fn seg_end(s: (u32, Seq<u8>)) -> int {
    s.0 + s.1.len()
}

/// Address `a` lies in segment `s`.
pub open spec fn in_segment(s: (u32, Seq<u8>), a: int) -> bool {
    s.0 <= a < seg_end(s)
}

/// Some segment of `kept` places a byte at `a`.
pub open spec fn covered(kept: Seq<(u32, Seq<u8>)>, a: int) -> bool {
    exists|k: int| 0 <= k < kept.len() && in_segment(#[trigger] kept[k], a)
}

/// How many bytes of a segment of `len` bytes at `base` have an address
/// below 2^32.
pub open spec fn fitting_len(base: u32, len: int) -> int {
    if len <= 0x1_0000_0000 - base {
        len
    } else {
        0x1_0000_0000 - base
    }
}

/// `a` is the lowest address of `[base, base + fit)` that `kept` already covers.
pub open spec fn is_first_covered(kept: Seq<(u32, Seq<u8>)>, base: int, fit: int, a: int) -> bool {
    &&& base <= a < base + fit
    &&& covered(kept, a)
    &&& forall|b: int| base <= b < a ==> !#[trigger] covered(kept, b)
}

/// Places a flash-resident segment after the segments `kept`: rejected at the
/// first byte address already claimed, or when it runs past 2^32.
pub open spec fn add_segment(kept: Seq<(u32, Seq<u8>)>, base: u32, data: Seq<u8>) -> Result<
    Seq<(u32, Seq<u8>)>,
    PlanError,
> {
    let fit = fitting_len(base, data.len() as int);
    if exists|a: int| base <= a < base + fit && #[trigger] covered(kept, a) {
        let a = choose|a: int| is_first_covered(kept, base as int, fit, a);
        Err(PlanError::Overlap { addr: a as u32 })
    } else if data.len() > fit {
        Err(PlanError::SegmentWraps { base })
    } else {
        Ok(kept.push((base, data)))
    }
}

/// Takes one program header into account: non-`PT_LOAD` headers, empty
/// segments and segments whose load address lies outside the flash window
/// are skipped; a `PT_LOAD` header whose data lies outside the file is an error.
pub open spec fn next_segments(kept: Seq<(u32, Seq<u8>)>, h: (u32, u32, Option<Seq<u8>>)) -> Result<
    Seq<(u32, Seq<u8>)>,
    PlanError,
> {
    if h.0 != PT_LOAD {
        Ok(kept)
    } else {
        match h.2 {
            None => Err(PlanError::SegmentOutsideFile),
            Some(d) => if d.len() == 0 || !(FLASH_START <= h.1 < FLASH_END) {
                Ok(kept)
            } else {
                add_segment(kept, h.1, d)
            },
        }
    }
}

/// The flash-resident segments of the program headers `hs`, taken in order,
/// or the first reason they cannot be placed.
pub open spec fn flash_segments(hs: Seq<(u32, u32, Option<Seq<u8>>)>) -> Result<Seq<(u32, Seq<u8>)>, PlanError>
    decreases hs.len(),
{
    if hs.len() == 0 {
        Ok(Seq::empty())
    } else {
        match flash_segments(hs.drop_last()) {
            Err(e) => Err(e),
            Ok(kept) => next_segments(kept, hs.last()),
        }
    }
}

/// The bytes a placed segment `(base, bytes)` puts at their addresses.
pub open spec fn segment_map(s: (u32, Seq<u8>)) -> Map<int, u8> {
    Map::new(|a: int| in_segment(s, a), |a: int| s.1[a - s.0])
}

/// The bytes that the segments of `kept` place, later segments over earlier
/// ones (placed segments never share an address).
pub open spec fn segments_map(kept: Seq<(u32, Seq<u8>)>) -> Map<int, u8>
    decreases kept.len(),
{
    if kept.len() == 0 {
        Map::empty()
    } else {
        segments_map(kept.drop_last()).union_prefer_right(segment_map(kept.last()))
    }
}

/// Every flash byte address that the flash-resident `PT_LOAD` segments of
/// `hs` claim, with its byte, or why there is none to flash.
pub open spec fn flash_map(hs: Seq<(u32, u32, Option<Seq<u8>>)>) -> Result<Map<int, u8>, PlanError> {
    match flash_segments(hs) {
        Err(e) => Err(e),
        Ok(kept) => if kept.len() == 0 {
            Err(PlanError::NothingToFlash)
        } else {
            Ok(segments_map(kept))
        },
    }
}

/// Once the headers seen so far are rejected, the whole list is rejected the same way.
pub proof fn lemma_error_persists(hs: Seq<(u32, u32, Option<Seq<u8>>)>, i: int, e: PlanError)
    requires
        0 <= i <= hs.len(),
        flash_segments(hs.take(i)) == Err::<Seq<(u32, Seq<u8>)>, PlanError>(e),
    ensures
        flash_segments(hs) == Err::<Seq<(u32, Seq<u8>)>, PlanError>(e),
    decreases hs.len() - i,
{
    if i < hs.len() {
        assert(hs.take(i + 1).drop_last() == hs.take(i));
        lemma_error_persists(hs, i + 1, e);
    } else {
        assert(hs.take(i) == hs);
    }
}

/// An address is mapped exactly when some placed segment covers it.
pub proof fn lemma_covered_is_mapped(kept: Seq<(u32, Seq<u8>)>, a: int)
    ensures
        covered(kept, a) <==> segments_map(kept).dom().contains(a),
    decreases kept.len(),
{
    if kept.len() > 0 {
        let init = kept.drop_last();
        lemma_covered_is_mapped(init, a);
        if covered(kept, a) {
            let k = choose|k: int| 0 <= k < kept.len() && in_segment(#[trigger] kept[k], a);
            if k < kept.len() - 1 {
                assert(init[k] == kept[k]);
                assert(covered(init, a));
            }
        }
        if covered(init, a) {
            let k = choose|k: int| 0 <= k < init.len() && in_segment(#[trigger] init[k], a);
            assert(kept[k] == init[k]);
        }
        if in_segment(kept.last(), a) {
            assert(in_segment(kept[kept.len() - 1], a));
        }
    }
}

/// The bytes of `data` at offsets below `o`, placed from `base`.
pub open spec fn partial_segment(base: u32, data: Seq<u8>, o: int) -> Map<int, u8> {
    Map::new(|a: int| base <= a < base + o, |a: int| data[a - base])
}

/// The whole of a segment is its partial placement up to its length.
proof fn lemma_partial_is_segment(base: u32, data: Seq<u8>)
    ensures
        partial_segment(base, data, data.len() as int) == segment_map((base, data)),
{
    assert(partial_segment(base, data, data.len() as int) =~= segment_map((base, data)));
}

/// Places every flash-resident segment byte at its absolute address.
///
/// A `BTreeMap` keeps the bytes ordered by address, which is what lets the
/// chunking walk them in one pass, and makes a double-claimed address (two
/// segments overlapping) directly detectable.
pub fn byte_map(headers: &Vec<ProgramHeader>) -> (r: Result<BTreeMap<u32, u8>, PlanError>)
    ensures
        match flash_map(headers_view(headers@)) {
            Err(e) => r == Err::<BTreeMap<u32, u8>, PlanError>(e),
            Ok(m) => r matches Ok(bytes) && addr_map(bytes@) == m,
        },
{
    broadcast use vstd::std_specs::btree::group_btree_axioms;

    let n = headers.len();
    let ghost hv = headers_view(headers@);
    let mut bytes: BTreeMap<u32, u8> = BTreeMap::new();
    let ghost mut model: Seq<(u32, Seq<u8>)> = Seq::empty();
    let mut i: usize = 0;
    proof {
        assert(hv.take(0) =~= Seq::<(u32, u32, Option<Seq<u8>>)>::empty());
        assert(addr_map(bytes@) =~= segments_map(model));
    }
    while i < n
        invariant
            n == headers@.len(),
            hv == headers_view(headers@),
            0 <= i <= n,
            flash_segments(hv.take(i as int)) == Ok::<Seq<(u32, Seq<u8>)>, PlanError>(model),
            addr_map(bytes@) == segments_map(model),
            forall|k: int| 0 <= k < model.len() ==> (#[trigger] model[k]).1.len() > 0,
        decreases n - i,
    {
        proof {
            assert(hv.take(i + 1).drop_last() == hv.take(i as int));
            assert(hv.take(i + 1).last() == headers@[i as int]@);
        }
        let h = &headers[i];
        if h.p_type == PT_LOAD {
            match &h.data {
                None => {
                    proof {
                        lemma_error_persists(hv, i + 1, PlanError::SegmentOutsideFile);
                    }
                    return Err(PlanError::SegmentOutsideFile);
                },
                Some(d) => {
                    let base = h.p_paddr;
                    if d.len() > 0 && FLASH_START <= base && base < FLASH_END {
                        let ghost fit = fitting_len(base, d@.len() as int);
                        proof {
                            assert(headers@[i as int]@ == (PT_LOAD, base, Some(d@)));
                        }
                        let mut o: usize = 0;
                        proof {
                            assert(segments_map(model).union_prefer_right(partial_segment(base, d@, 0))
                                =~= segments_map(model));
                        }
                        while o < d.len()
                            invariant
                                n == headers@.len(),
                                hv == headers_view(headers@),
                                0 <= i < n,
                                flash_segments(hv.take(i as int)) == Ok::<Seq<(u32, Seq<u8>)>, PlanError>(model),
                                hv.take(i + 1).drop_last() == hv.take(i as int),
                                hv.take(i + 1).last() == (PT_LOAD, base, Some(d@)),
                                forall|k: int| 0 <= k < model.len() ==> (#[trigger] model[k]).1.len() > 0,
                                0 < d@.len(),
                                FLASH_START <= base < FLASH_END,
                                fit == fitting_len(base, d@.len() as int),
                                0 <= o <= d@.len(),
                                o <= fit,
                                addr_map(bytes@) == segments_map(model).union_prefer_right(partial_segment(base, d@, o as int)),
                                forall|a: int| base <= a < base + o ==> !#[trigger] covered(model, a),
                            decreases d@.len() - o,
                        {
                            if base as u64 + o as u64 > u32::MAX as u64 {
                                proof {
                                    assert(o == fit);
                                    assert(!exists|a: int| base <= a < base + fit && #[trigger] covered(model, a));
                                    lemma_error_persists(hv, i + 1, PlanError::SegmentWraps { base });
                                }
                                return Err(PlanError::SegmentWraps { base });
                            }
                            let addr: u32 = base + o as u32;
                            let ghost before = bytes@;
                            let old = bytes.insert(addr, d[o]);
                            if old.is_some() {
                                proof {
                                    // the address was already mapped, and not by this segment
                                    assert(before.contains_key(addr));
                                    assert(addr_map(before).dom().contains(addr as int));
                                    assert(!partial_segment(base, d@, o as int).dom().contains(addr as int));
                                    assert(segments_map(model).dom().contains(addr as int));
                                    lemma_covered_is_mapped(model, addr as int);
                                    assert(is_first_covered(model, base as int, fit, addr as int));
                                    lemma_first_covered_unique(model, base as int, fit, addr as int);
                                    lemma_error_persists(hv, i + 1, PlanError::Overlap { addr });
                                }
                                return Err(PlanError::Overlap { addr });
                            }
                            proof {
                                assert(!before.contains_key(addr));
                                assert(addr as int == base + o);
                                assert(!addr_map(before).dom().contains(addr as int));
                                assert(!segments_map(model).dom().contains(addr as int));
                                assert(bytes@ == before.insert(addr, d@[o as int]));
                                lemma_covered_is_mapped(model, addr as int);
                                let old_m = segments_map(model).union_prefer_right(partial_segment(base, d@, o as int));
                                let new_m = segments_map(model).union_prefer_right(partial_segment(base, d@, o + 1));
                                assert(addr_map(before) == old_m);
                                assert forall|a: int| #[trigger] addr_map(bytes@).dom().contains(a) <==> new_m.dom().contains(a) by {
                                    if a != addr as int {
                                        if 0 <= a <= u32::MAX {
                                            assert(bytes@.contains_key(a as u32) == before.contains_key(a as u32));
                                        }
                                        assert(addr_map(bytes@).dom().contains(a) == addr_map(before).dom().contains(a));
                                        assert(old_m.dom().contains(a) == new_m.dom().contains(a));
                                    }
                                }
                                assert forall|a: int| #[trigger] addr_map(bytes@).dom().contains(a) implies addr_map(bytes@)[a] == new_m[a] by {
                                    if a != addr as int {
                                        assert(bytes@[a as u32] == before[a as u32]);
                                        assert(addr_map(before).dom().contains(a));
                                        assert(old_m[a] == new_m[a]);
                                    } else {
                                        assert(partial_segment(base, d@, o + 1).dom().contains(a));
                                    }
                                }
                                assert(addr_map(bytes@) =~= new_m);
                            }
                            o = o + 1;
                        }
                        proof {
                            assert(d@.len() <= fit);
                            assert(!exists|a: int| base <= a < base + fit && #[trigger] covered(model, a));
                            lemma_partial_is_segment(base, d@);
                            let x = (base, d@);
                            let new_model = model.push(x);
                            assert(new_model.drop_last() == model);
                            assert(new_model.last() == x);
                            model = new_model;
                        }
                    }
                },
            }
        }
        i = i + 1;
    }
    proof {
        assert(hv.take(n as int) == hv);
    }
    if bytes.len() == 0 {
        proof {
            if model.len() > 0 {
                let x = model.last();
                assert(model[model.len() - 1].1.len() > 0);
                assert(segments_map(model).dom().contains(x.0 as int));
                assert(bytes@.contains_key(x.0));
            }
        }
        return Err(PlanError::NothingToFlash);
    }
    proof {
        if model.len() == 0 {
            let k = bytes@.dom().choose();
            assert(bytes@.dom().contains(k));
            assert(addr_map(bytes@).dom().contains(k as int));
        }
    }
    Ok(bytes)
}

/// The headers of `hs` whose type is `PT_LOAD`, in their order.
pub open spec fn load_headers(hs: Seq<(u32, u32, Option<Seq<u8>>)>) -> Seq<(u32, u32, Option<Seq<u8>>)> {
    hs.filter(|h: (u32, u32, Option<Seq<u8>>)| h.0 == PT_LOAD)
}

/// Only `PT_LOAD` headers count: for every header list, the placed segments
/// and the byte map (or the error) are those of the same list with every
/// header of another type removed. A header of another type is never placed,
/// never overlaps anything and never causes an error.
pub proof fn lemma_only_load_headers_count(hs: Seq<(u32, u32, Option<Seq<u8>>)>)
    ensures
        flash_segments(hs) == flash_segments(load_headers(hs)),
        flash_map(hs) == flash_map(load_headers(hs)),
    decreases hs.len(),
{
    if hs.len() > 0 {
        let init = hs.drop_last();
        lemma_only_load_headers_count(init);
        let f = load_headers(hs);
        let f0 = load_headers(init);
        reveal(Seq::filter);
        assert(f == (if hs.last().0 == PT_LOAD { f0.push(hs.last()) } else { f0 }));
        if hs.last().0 == PT_LOAD {
            assert(f.drop_last() =~= f0);
            assert(f.last() == hs.last());
        }
    }
}

/// If `v` is the first covered address, the spec's choice of the first covered address is `v`.
proof fn lemma_first_covered_unique(kept: Seq<(u32, Seq<u8>)>, base: int, fit: int, v: int)
    requires
        is_first_covered(kept, base, fit, v),
    ensures
        (choose|a: int| is_first_covered(kept, base, fit, a)) == v,
{
    let c = choose|a: int| is_first_covered(kept, base, fit, a);
    assert(is_first_covered(kept, base, fit, c));
    if c < v {
        assert(!covered(kept, c));
    } else if v < c {
        assert(!covered(kept, v));
    }
}

} // verus!
