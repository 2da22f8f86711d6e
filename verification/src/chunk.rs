use vstd::prelude::*;

use crate::paging::{lemma_page_base_offset, spec_page_base, Gva};
use vstd::arithmetic::div_mod::{lemma_fundamental_div_mod, lemma_fundamental_div_mod_converse};

verus! {

/// Length of the first sub-range of a span at `start` with `len` bytes left:
/// the distance to the next 4KB boundary, capped at `len`.
pub open spec fn spec_chunk_len(start: int, len: int) -> int {
    let to_boundary = 4096 - (start % 4096);
    if len <= to_boundary {
        len
    } else {
        to_boundary
    }
}

/// The decomposition of the span `[start, start + len)` into sub-ranges
/// `(sub_start, sub_len)` that each lie within a single 4KB page.
pub open spec fn spec_chunks(start: int, len: int) -> Seq<(int, int)>
    decreases len,
{
    if len <= 0 {
        Seq::empty()
    } else {
        let c = spec_chunk_len(start, len);
        seq![(start, c)] + spec_chunks(start + c, len - c)
    }
}

/// The mathematical reading of an emitted sequence of sub-ranges.
pub open spec fn chunk_view(s: Seq<(u64, usize)>) -> Seq<(int, int)> {
    s.map_values(|p: (u64, usize)| (p.0 as int, p.1 as int))
}

/// Sum of the lengths of a sequence of sub-ranges.
pub open spec fn sum_chunk_lens(s: Seq<(int, int)>) -> int
    decreases s.len(),
{
    if s.len() == 0 {
        0
    } else {
        s[0].1 + sum_chunk_lens(s.drop_first())
    }
}

/// Chunk splitter total coverage: the sub-ranges' lengths sum to `len`, the
/// first sub-range starts at `start`, the sub-ranges are contiguous, and each
/// stays inside `[start, start + len)`.
pub proof fn lemma_chunks_cover(start: int, len: int)
    requires
        0 <= len,
    ensures
        sum_chunk_lens(spec_chunks(start, len)) == len,
        len > 0 ==> spec_chunks(start, len).len() > 0 && spec_chunks(start, len)[0].0 == start,
        forall|i: int|
            1 <= i < spec_chunks(start, len).len() ==> (#[trigger] spec_chunks(start, len)[i]).0
                == spec_chunks(start, len)[i - 1].0 + spec_chunks(start, len)[i - 1].1,
        forall|i: int|
            0 <= i < spec_chunks(start, len).len() ==> start <= (#[trigger] spec_chunks(
                start,
                len,
            )[i]).0 && spec_chunks(start, len)[i].0 + spec_chunks(start, len)[i].1 <= start + len,
    decreases len,
{
    if len > 0 {
        let c = spec_chunk_len(start, len);
        lemma_fundamental_div_mod(start, 4096);
        assert(1 <= c <= len);
        lemma_chunks_cover(start + c, len - c);
        let s = spec_chunks(start, len);
        let rest = spec_chunks(start + c, len - c);
        assert(s == seq![(start, c)] + rest);
        assert(s.drop_first() =~= rest);
        assert(sum_chunk_lens(s) == c + sum_chunk_lens(rest));
    }
}

/// Chunk splitter boundary respect: every sub-range is non-empty, at most a
/// page long, and lies within a single 4KB page (its first and last byte have
/// the same page number).
pub proof fn lemma_chunks_in_page(start: int, len: int)
    requires
        0 <= len,
    ensures
        forall|i: int|
            0 <= i < spec_chunks(start, len).len() ==> {
                let p = #[trigger] spec_chunks(start, len)[i];
                1 <= p.1 <= 4096 && p.0 / 4096 == (p.0 + p.1 - 1) / 4096
            },
    decreases len,
{
    if len > 0 {
        let c = spec_chunk_len(start, len);
        lemma_fundamental_div_mod(start, 4096);
        assert(1 <= c <= 4096 - (start % 4096));
        lemma_fundamental_div_mod_converse(start + c - 1, 4096, start / 4096, start % 4096 + c - 1);
        lemma_chunks_in_page(start + c, len - c);
        let s = spec_chunks(start, len);
        let rest = spec_chunks(start + c, len - c);
        assert(s == seq![(start, c)] + rest);
        assert(s[0].0 / 4096 == (s[0].0 + s[0].1 - 1) / 4096);
    }
}

/// Two addresses with the same page number have the same page-aligned base.
pub proof fn lemma_same_page_mask(a: u64, b: u64)
    requires
        a / 4096 == b / 4096,
    ensures
        spec_page_base(a) == spec_page_base(b),
{
    assert(a / 4096 == b / 4096 ==> (a & !0xfff) == (b & !0xfff)) by (bit_vector);
}

/// Splits the virtual span `[start, start + sz)` into sub-ranges
/// `(sub_start, sub_len)` that are contiguous, cover the span exactly in
/// order, and never cross a 4KB alignment boundary. A zero-length span yields
/// no sub-ranges.
pub fn chunked(start: Gva, sz: usize) -> (r: Vec<(Gva, usize)>)
    requires
        start + sz <= u64::MAX,
    ensures
        chunk_view(r@) == spec_chunks(start as int, sz as int),
        sum_chunk_lens(chunk_view(r@)) == sz,
        sz == 0 ==> r@.len() == 0,
        r@.len() > 0 ==> r@[0].0 == start,
        forall|i: int|
            1 <= i < r@.len() ==> (#[trigger] r@[i]).0 == r@[i - 1].0 + r@[i - 1].1,
        forall|i: int|
            0 <= i < r@.len() ==> {
                let p = #[trigger] r@[i];
                &&& 1 <= p.1 <= 4096
                &&& p.0 + p.1 <= start + sz
                &&& spec_page_base(p.0) == spec_page_base((p.0 + p.1 - 1) as u64)
            },
{
    let mut out: Vec<(Gva, usize)> = Vec::new();
    let mut base: Gva = start;
    let mut remaining: usize = sz;

    while remaining > 0
        invariant
            start + sz <= u64::MAX,
            base == start + sz - remaining,
            remaining <= sz,
            chunk_view(out@) + spec_chunks(base as int, remaining as int) == spec_chunks(
                start as int,
                sz as int,
            ),
        decreases remaining,
    {
        let off: u64 = base & 0xfff;
        proof {
            lemma_page_base_offset(base);
        }
        let to_boundary: u64 = 4096 - off;
        let chunk_sz: usize = if (remaining as u64) < to_boundary {
            remaining
        } else {
            to_boundary as usize
        };
        proof {
            assert(chunk_sz as int == spec_chunk_len(base as int, remaining as int));
            assert(spec_chunks(base as int, remaining as int) == seq![
                (base as int, chunk_sz as int),
            ] + spec_chunks(base as int + chunk_sz, remaining - chunk_sz));
            assert(chunk_view(out@.push((base, chunk_sz))) =~= chunk_view(out@).push(
                (base as int, chunk_sz as int),
            ));
            assert(chunk_view(out@).push((base as int, chunk_sz as int)) + spec_chunks(
                base as int + chunk_sz,
                remaining - chunk_sz,
            ) =~= chunk_view(out@) + spec_chunks(base as int, remaining as int));
        }
        out.push((base, chunk_sz));
        base = base + chunk_sz as u64;
        remaining = remaining - chunk_sz;
    }
    proof {
        assert(chunk_view(out@) + spec_chunks(base as int, 0) =~= chunk_view(out@));
        lemma_chunks_cover(start as int, sz as int);
        lemma_chunks_in_page(start as int, sz as int);
        let s = spec_chunks(start as int, sz as int);
        assert forall|i: int| 0 <= i < out@.len() implies {
            let p = #[trigger] out@[i];
            &&& 1 <= p.1 <= 4096
            &&& p.0 + p.1 <= start + sz
            &&& spec_page_base(p.0) == spec_page_base((p.0 + p.1 - 1) as u64)
        } by {
            assert(chunk_view(out@)[i] == s[i]);
            assert(out@[i].0 == s[i].0 && out@[i].1 == s[i].1);
            lemma_same_page_mask(out@[i].0, (out@[i].0 + out@[i].1 - 1) as u64);
        }
        assert forall|i: int| 1 <= i < out@.len() implies (#[trigger] out@[i]).0 == out@[i - 1].0
            + out@[i - 1].1 by {
            assert(chunk_view(out@)[i] == s[i] && chunk_view(out@)[i - 1] == s[i - 1]);
        }
        if out@.len() > 0 {
            assert(chunk_view(out@)[0] == s[0]);
        }
    }
    out
}

} // verus!
