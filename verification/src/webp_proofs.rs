//! What the WebP container rewrite guarantees: its output is a well-formed
//! WebP file whose chunks are the kept chunks of the input, and rewriting
//! that output again changes nothing.

use vstd::prelude::*;
use crate::kinds::StripPolicy;
use crate::webp::{
    assembled_webp, chunk_bytes, cleared_flags, chunk_spans_from, flatten_chunks, fourcc_exif, fourcc_iccp, fourcc_riff,
    fourcc_vp8x, fourcc_webp, fourcc_xmp, has_fourcc, is_riff_webp, is_stripped_chunk, kept_chunks, le32,
    le32_bytes, optimized_webp, riff_webp_file, updated_chunks, updated_vp8x,
};

verus! {

/// Reading back the four little-endian bytes of a 32-bit value gives it.
proof fn lemma_le32_roundtrip(n: int)
    requires
        0 <= n <= u32::MAX,
    ensures
        le32(le32_bytes(n), 0) == n,
{
    let x = n as u32;
    assert(((x % 256) as u8) as int == x % 256);
    assert((((x / 256) % 256) as u8) as int == (x / 256) % 256);
    assert((((x / 65536) % 256) as u8) as int == (x / 65536) % 256);
    assert((((x / 16777216) % 256) as u8) as int == (x / 16777216) % 256);
    assert((x % 256) + ((x / 256) % 256) * 256 + ((x / 65536) % 256) * 65536 + ((x / 16777216) % 256)
        * 16777216 == x) by (bit_vector);
}

/// A chunk whose length is its header, its declared payload and the
/// padding byte of an odd payload.
pub open spec fn chunk_well_formed(c: Seq<u8>) -> bool {
    c.len() >= 8 && c.len() == 8 + le32(c, 4) + le32(c, 4) % 2
}

proof fn lemma_flatten_cons(x: Seq<u8>, rest: Seq<Seq<u8>>)
    ensures
        flatten_chunks(seq![x] + rest) == x + flatten_chunks(rest),
    decreases rest.len(),
{
    if rest.len() == 0 {
        assert(seq![x] + rest =~= seq![x]);
        assert(seq![x].drop_last() =~= Seq::<Seq<u8>>::empty());
        assert(flatten_chunks(seq![x]) == flatten_chunks(Seq::<Seq<u8>>::empty()) + x);
        assert(x + flatten_chunks(rest) =~= x);
        assert(flatten_chunks(Seq::<Seq<u8>>::empty()) + x =~= x);
    } else {
        lemma_flatten_cons(x, rest.drop_last());
        assert((seq![x] + rest).drop_last() =~= seq![x] + rest.drop_last());
        assert((seq![x] + rest).last() == rest.last());
        assert(x + flatten_chunks(rest.drop_last()) + rest.last() =~= x + (flatten_chunks(rest.drop_last())
            + rest.last()));
    }
}

proof fn lemma_chunk_bytes_cons(b: Seq<u8>, span: (int, int), rest: Seq<(int, int)>)
    ensures
        chunk_bytes(b, seq![span] + rest) == seq![b.subrange(span.0, span.1)] + chunk_bytes(b, rest),
{
    assert(chunk_bytes(b, seq![span] + rest) =~= seq![b.subrange(span.0, span.1)] + chunk_bytes(b, rest));
}

/// The chunks found between `cursor` and `end` are well formed and, laid
/// end to end, are exactly the bytes between `cursor` and `end`.
#[verifier::spinoff_prover]
proof fn lemma_spans_cover(b: Seq<u8>, cursor: int, end: int)
    requires
        0 <= cursor <= end <= b.len(),
        chunk_spans_from(b, cursor, end) is Ok,
    ensures
        forall|i: int|
            0 <= i < chunk_bytes(b, chunk_spans_from(b, cursor, end)->Ok_0).len() ==> chunk_well_formed(
                #[trigger] chunk_bytes(b, chunk_spans_from(b, cursor, end)->Ok_0)[i],
            ),
        flatten_chunks(chunk_bytes(b, chunk_spans_from(b, cursor, end)->Ok_0)) == b.subrange(cursor, end),
    decreases end - cursor,
{
    if cursor >= end {
        assert(chunk_bytes(b, Seq::<(int, int)>::empty()) =~= Seq::<Seq<u8>>::empty());
        assert(b.subrange(cursor, end) =~= Seq::<u8>::empty());
    } else {
        let size = le32(b, cursor + 4);
        let padded_end = cursor + 8 + size + size % 2;
        let rest = chunk_spans_from(b, padded_end, end)->Ok_0;
        lemma_spans_cover(b, padded_end, end);
        let c = b.subrange(cursor, padded_end);
        lemma_chunk_bytes_cons(b, (cursor, padded_end), rest);
        let cs = chunk_bytes(b, chunk_spans_from(b, cursor, end)->Ok_0);
        let rs = chunk_bytes(b, rest);
        assert(cs == seq![c] + rs);
        lemma_flatten_cons(c, rs);
        assert(le32(c, 4) == size);
        assert(chunk_well_formed(c));
        assert forall|i: int| 0 <= i < cs.len() implies chunk_well_formed(#[trigger] cs[i]) by {
            if i > 0 {
                assert(cs[i] == rs[i - 1]);
            }
        }
        assert(c + b.subrange(padded_end, end) =~= b.subrange(cursor, end));
    }
}

/// Well-formed chunks laid end to end at `off` in `b` are found again by
/// the chunk walk.
#[verifier::spinoff_prover]
proof fn lemma_parse_flatten(b: Seq<u8>, off: int, us: Seq<Seq<u8>>)
    requires
        forall|i: int| 0 <= i < us.len() ==> chunk_well_formed(#[trigger] us[i]),
        0 <= off,
        off + flatten_chunks(us).len() <= b.len(),
        off + flatten_chunks(us).len() <= usize::MAX,
        b.subrange(off, off + flatten_chunks(us).len()) == flatten_chunks(us),
    ensures
        chunk_spans_from(b, off, off + flatten_chunks(us).len()) matches Ok(spans) && chunk_bytes(b, spans)
            == us,
    decreases us.len(),
{
    let end = off + flatten_chunks(us).len();
    if us.len() == 0 {
        assert(chunk_bytes(b, Seq::<(int, int)>::empty()) =~= us);
    } else {
        let u0 = us[0];
        let tail = us.skip(1);
        assert(us =~= seq![u0] + tail);
        lemma_flatten_cons(u0, tail);
        assert(chunk_well_formed(u0));
        let mid = off + u0.len();
        assert(b.subrange(off, mid) =~= u0) by {
            assert(b.subrange(off, end).subrange(0, u0.len() as int) =~= b.subrange(off, mid));
            assert((u0 + flatten_chunks(tail)).subrange(0, u0.len() as int) =~= u0);
        }
        assert(b.subrange(mid, end) =~= flatten_chunks(tail)) by {
            assert(b.subrange(off, end).subrange(u0.len() as int, end - off) =~= b.subrange(mid, end));
            assert((u0 + flatten_chunks(tail)).subrange(u0.len() as int, end - off) =~= flatten_chunks(tail));
        }
        assert(le32(b, off + 4) == le32(u0, 4)) by {
            assert(b[off + 4] == u0[4]);
            assert(b[off + 5] == u0[5]);
            assert(b[off + 6] == u0[6]);
            assert(b[off + 7] == u0[7]);
        }
        assert forall|i: int| 0 <= i < tail.len() implies chunk_well_formed(#[trigger] tail[i]) by {
            assert(tail[i] == us[i + 1]);
        }
        lemma_parse_flatten(b, mid, tail);
        let rest = chunk_spans_from(b, mid, end)->Ok_0;
        lemma_chunk_bytes_cons(b, (off, mid), rest);
    }
}

proof fn lemma_flatten_len_push(cs: Seq<Seq<u8>>, c: Seq<u8>)
    ensures
        flatten_chunks(cs.push(c)).len() == flatten_chunks(cs).len() + c.len(),
{
    assert(cs.push(c).drop_last() =~= cs);
}

/// The kept chunks are chunks of the input, in order, with nothing that
/// the policy strips; every chunk that is not stripped is kept.
#[verifier::spinoff_prover]
proof fn lemma_kept_chunks(cs: Seq<Seq<u8>>, strip: StripPolicy)
    ensures
        forall|i: int|
            0 <= i < kept_chunks(cs, strip).len() ==> exists|j: int|
                0 <= j < cs.len() && cs[j] == #[trigger] kept_chunks(cs, strip)[i],
        forall|j: int|
            0 <= j < cs.len() && !is_stripped_chunk(#[trigger] cs[j], strip) ==> exists|i: int|
                0 <= i < kept_chunks(cs, strip).len() && kept_chunks(cs, strip)[i] == cs[j],
        forall|i: int| 0 <= i < kept_chunks(cs, strip).len() ==> !is_stripped_chunk(#[trigger] kept_chunks(cs, strip)[i], strip),
        flatten_chunks(kept_chunks(cs, strip)).len() <= flatten_chunks(cs).len(),
    decreases cs.len(),
{
    if cs.len() > 0 {
        let init = cs.drop_last();
        lemma_kept_chunks(init, strip);
        let k0 = kept_chunks(init, strip);
        let k = kept_chunks(cs, strip);
        lemma_flatten_len_push(init, cs.last());
        assert(cs =~= init.push(cs.last()));
        if !is_stripped_chunk(cs.last(), strip) {
            assert(k == k0.push(cs.last()));
            lemma_flatten_len_push(k0, cs.last());
            assert forall|i: int| 0 <= i < k.len() implies exists|j: int| 0 <= j < cs.len() && cs[j] == #[trigger] k[i] by {
                if i < k0.len() {
                    assert(k[i] == k0[i]);
                    let j = choose|j: int| 0 <= j < init.len() && init[j] == k0[i];
                    assert(cs[j] == init[j]);
                } else {
                    assert(cs[cs.len() - 1] == k[i]);
                }
            }
            assert forall|j: int| 0 <= j < cs.len() && !is_stripped_chunk(#[trigger] cs[j], strip) implies exists|i: int|
                0 <= i < k.len() && k[i] == cs[j] by {
                if j < init.len() {
                    assert(init[j] == cs[j]);
                    let i = choose|i: int| 0 <= i < k0.len() && k0[i] == init[j];
                    assert(k[i] == k0[i]);
                } else {
                    assert(k[k.len() - 1] == cs[j]);
                }
            }
            assert forall|i: int| 0 <= i < k.len() implies !is_stripped_chunk(#[trigger] k[i], strip) by {
                if i < k0.len() {
                    assert(k[i] == k0[i]);
                }
            }
        } else {
            assert(k == k0);
            assert forall|i: int| 0 <= i < k.len() implies exists|j: int| 0 <= j < cs.len() && cs[j] == #[trigger] k[i] by {
                let j = choose|j: int| 0 <= j < init.len() && init[j] == k0[i];
                assert(cs[j] == init[j]);
            }
            assert forall|j: int| 0 <= j < cs.len() && !is_stripped_chunk(#[trigger] cs[j], strip) implies exists|i: int|
                0 <= i < k.len() && k[i] == cs[j] by {
                assert(j < init.len());
                assert(init[j] == cs[j]);
            }
        }
    }
}

/// Updating the `VP8X` chunks changes no chunk's FourCC, size field or
/// length, and leaves every other chunk as it was.
proof fn lemma_updated_chunks(ks: Seq<Seq<u8>>, removed_exif: bool, removed_xmp: bool, removed_iccp: bool)
    requires
        updated_chunks(ks, removed_exif, removed_xmp, removed_iccp) is Ok,
    ensures
        ({
            let us = updated_chunks(ks, removed_exif, removed_xmp, removed_iccp)->Ok_0;
            &&& us.len() == ks.len()
            &&& flatten_chunks(us).len() == flatten_chunks(ks).len()
            &&& forall|i: int|
                #![trigger us[i]]
                0 <= i < us.len() ==> {
                    &&& us[i].len() == ks[i].len()
                    &&& us[i].take(4) == ks[i].take(4)
                    &&& (us[i].len() >= 8 ==> le32(us[i], 4) == le32(ks[i], 4))
                    &&& (ks[i].take(4) != fourcc_vp8x() ==> us[i] == ks[i])
                }
        }),
    decreases ks.len(),
{
    if ks.len() > 0 {
        let init = ks.drop_last();
        lemma_updated_chunks(init, removed_exif, removed_xmp, removed_iccp);
        let prev = updated_chunks(init, removed_exif, removed_xmp, removed_iccp)->Ok_0;
        let us = updated_chunks(ks, removed_exif, removed_xmp, removed_iccp)->Ok_0;
        let c = ks.last();
        let u = us.last();
        assert(us.drop_last() =~= prev);
        lemma_flatten_len_push(prev, u);
        lemma_flatten_len_push(init, c);
        assert(ks =~= init.push(c));
        assert(us =~= prev.push(u));
        if c.take(4) == fourcc_vp8x() {
            assert(u == updated_vp8x(c, removed_exif, removed_xmp, removed_iccp)->Ok_0);
            assert(u.take(4) =~= c.take(4));
        }
        assert forall|i: int| #![trigger us[i]] 0 <= i < us.len() implies {
            &&& us[i].len() == ks[i].len()
            &&& us[i].take(4) == ks[i].take(4)
            &&& (us[i].len() >= 8 ==> le32(us[i], 4) == le32(ks[i], 4))
            &&& (ks[i].take(4) != fourcc_vp8x() ==> us[i] == ks[i])
        } by {
            if i < prev.len() {
                assert(us[i] == prev[i]);
                assert(ks[i] == init[i]);
            }
        }
    }
}

/// Each updated `VP8X` chunk is the chunk with its feature flags cleared.
proof fn lemma_updated_vp8x(ks: Seq<Seq<u8>>, removed_exif: bool, removed_xmp: bool, removed_iccp: bool)
    requires
        updated_chunks(ks, removed_exif, removed_xmp, removed_iccp) is Ok,
    ensures
        forall|i: int|
            0 <= i < ks.len() && (#[trigger] ks[i]).take(4) == fourcc_vp8x() ==> ks[i].len() > 8
                && updated_chunks(ks, removed_exif, removed_xmp, removed_iccp)->Ok_0[i] == ks[i].update(
                8,
                cleared_flags(ks[i][8], removed_exif, removed_xmp, removed_iccp),
            ),
    decreases ks.len(),
{
    if ks.len() > 0 {
        let init = ks.drop_last();
        lemma_updated_vp8x(init, removed_exif, removed_xmp, removed_iccp);
        lemma_updated_chunks(ks, removed_exif, removed_xmp, removed_iccp);
        lemma_updated_chunks(init, removed_exif, removed_xmp, removed_iccp);
        let prev = updated_chunks(init, removed_exif, removed_xmp, removed_iccp)->Ok_0;
        let us = updated_chunks(ks, removed_exif, removed_xmp, removed_iccp)->Ok_0;
        assert(us.drop_last() =~= prev);
        assert forall|i: int| 0 <= i < ks.len() && (#[trigger] ks[i]).take(4) == fourcc_vp8x() implies ks[i].len() > 8
            && us[i] == ks[i].update(8, cleared_flags(ks[i][8], removed_exif, removed_xmp, removed_iccp)) by {
            if i < init.len() {
                assert(ks[i] == init[i]);
                assert(us[i] == prev[i]);
            } else {
                assert(ks[i] == ks.last());
            }
        }
    }
}

/// The chunks of a WebP file, when its RIFF header and chunk layout are
/// sound.
pub open spec fn webp_chunk_list(b: Seq<u8>) -> Option<Seq<Seq<u8>>> {
    if is_riff_webp(b) && le32(b, 4) + 8 <= b.len() {
        match chunk_spans_from(b, 12, le32(b, 4) + 8) {
            Ok(spans) => Some(chunk_bytes(b, spans)),
            Err(_) => None,
        }
    } else {
        None
    }
}

proof fn lemma_has_fourcc_same_codes(xs: Seq<Seq<u8>>, ys: Seq<Seq<u8>>, f: Seq<u8>)
    requires
        xs.len() == ys.len(),
        forall|i: int| 0 <= i < xs.len() ==> (#[trigger] xs[i]).take(4) == ys[i].take(4),
    ensures
        has_fourcc(xs, f) == has_fourcc(ys, f),
{
    if has_fourcc(xs, f) {
        let i = choose|i: int| 0 <= i < xs.len() && (#[trigger] xs[i]).take(4) == f;
        assert(ys[i].take(4) == f);
    }
    if has_fourcc(ys, f) {
        let i = choose|i: int| 0 <= i < ys.len() && (#[trigger] ys[i]).take(4) == f;
        assert(xs[i].take(4) == f);
    }
}

/// The kept chunks, flags updated, are well formed and no longer, laid end
/// to end, than the input chunks.
proof fn lemma_updated_kept_well_formed(cs: Seq<Seq<u8>>, strip: StripPolicy, removed_exif: bool, removed_xmp: bool, removed_iccp: bool)
    requires
        forall|i: int| 0 <= i < cs.len() ==> chunk_well_formed(#[trigger] cs[i]),
        updated_chunks(kept_chunks(cs, strip), removed_exif, removed_xmp, removed_iccp) is Ok,
    ensures
        ({
            let us = updated_chunks(kept_chunks(cs, strip), removed_exif, removed_xmp, removed_iccp)->Ok_0;
            &&& forall|i: int| 0 <= i < us.len() ==> chunk_well_formed(#[trigger] us[i])
            &&& flatten_chunks(us).len() <= flatten_chunks(cs).len()
        }),
{
    let ks = kept_chunks(cs, strip);
    let us = updated_chunks(ks, removed_exif, removed_xmp, removed_iccp)->Ok_0;
    lemma_kept_chunks(cs, strip);
    lemma_updated_chunks(ks, removed_exif, removed_xmp, removed_iccp);
    assert forall|i: int| 0 <= i < us.len() implies chunk_well_formed(#[trigger] us[i]) by {
        let j = choose|j: int| 0 <= j < cs.len() && cs[j] == #[trigger] ks[i];
        assert(chunk_well_formed(cs[j]));
        assert(us[i].len() == ks[i].len());
    }
}

/// A RIFF WebP file made of `body` has the right header, declares its own
/// length, and holds `body` after the header.
proof fn lemma_riff_file(body: Seq<u8>)
    requires
        body.len() + 4 <= u32::MAX,
    ensures
        is_riff_webp(riff_webp_file(body)),
        le32(riff_webp_file(body), 4) + 8 == riff_webp_file(body).len(),
        riff_webp_file(body).len() == body.len() + 12,
        riff_webp_file(body).subrange(12, 12 + body.len() as int) == body,
{
    let out = riff_webp_file(body);
    let n: int = body.len() + 4int;
    lemma_le32_roundtrip(n);
    let header = le32_bytes(n);
    assert(out.take(4) =~= fourcc_riff());
    assert(out.subrange(8, 12) =~= fourcc_webp());
    assert(le32(out, 4) == le32(header, 0)) by {
        assert(out[4] == header[0]);
        assert(out[5] == header[1]);
        assert(out[6] == header[2]);
        assert(out[7] == header[3]);
    }
    assert(out.subrange(12, 12 + body.len() as int) =~= body);
}

/// The facts about a rewritten file: it is a RIFF WebP file whose declared
/// size is its length, no longer than the input, whose chunks are the kept
/// chunks with their `VP8X` flags updated.
#[verifier::spinoff_prover]
proof fn lemma_rewritten(b: Seq<u8>, strip: StripPolicy, removed_exif: bool, removed_xmp: bool, removed_iccp: bool)
    requires
        b.len() <= usize::MAX,
        is_riff_webp(b),
        le32(b, 4) + 8 <= b.len(),
        chunk_spans_from(b, 12, le32(b, 4) + 8) is Ok,
        assembled_webp(
            kept_chunks(chunk_bytes(b, chunk_spans_from(b, 12, le32(b, 4) + 8)->Ok_0), strip),
            removed_exif,
            removed_xmp,
            removed_iccp,
        ) is Ok,
    ensures
        ({
            let cs = chunk_bytes(b, chunk_spans_from(b, 12, le32(b, 4) + 8)->Ok_0);
            let ks = kept_chunks(cs, strip);
            let out = assembled_webp(ks, removed_exif, removed_xmp, removed_iccp)->Ok_0;
            let us = updated_chunks(ks, removed_exif, removed_xmp, removed_iccp)->Ok_0;
            &&& is_riff_webp(out)
            &&& le32(out, 4) + 8 == out.len()
            &&& out.len() <= b.len()
            &&& webp_chunk_list(out) == Some(us)
        }),
{
    let end = le32(b, 4) + 8;
    let cs = chunk_bytes(b, chunk_spans_from(b, 12, end)->Ok_0);
    let ks = kept_chunks(cs, strip);
    let us = updated_chunks(ks, removed_exif, removed_xmp, removed_iccp)->Ok_0;
    let body = flatten_chunks(us);
    let out = riff_webp_file(body);
    assert(assembled_webp(ks, removed_exif, removed_xmp, removed_iccp)->Ok_0 == out);
    assert(flatten_chunks(cs).len() + 12 <= b.len() && forall|i: int| 0 <= i < cs.len() ==> chunk_well_formed(#[trigger] cs[i])) by {
        if end >= 12 {
            lemma_spans_cover(b, 12, end);
        } else {
            assert(cs =~= Seq::<Seq<u8>>::empty());
        }
    }
    lemma_updated_kept_well_formed(cs, strip, removed_exif, removed_xmp, removed_iccp);
    lemma_riff_file(body);
    lemma_parse_flatten(out, 12, us);
}

/// Rewriting a WebP file a second time, under the same policy, changes
/// nothing: what one optimization leaves, another does not shrink.
#[verifier::spinoff_prover]
pub proof fn lemma_webp_rewrite_idempotent(b: Seq<u8>, strip: StripPolicy)
    requires
        b.len() <= usize::MAX,
        optimized_webp(b, strip) is Ok,
    ensures
        optimized_webp(optimized_webp(b, strip)->Ok_0, strip) == optimized_webp(b, strip),
{
    if strip != StripPolicy::Keep {
        let end = le32(b, 4) + 8;
        let cs = chunk_bytes(b, chunk_spans_from(b, 12, end)->Ok_0);
        let removed_exif = has_fourcc(cs, fourcc_exif());
        let removed_xmp = has_fourcc(cs, fourcc_xmp());
        let removed_iccp = strip == StripPolicy::All && has_fourcc(cs, fourcc_iccp());
        if removed_exif || removed_xmp || removed_iccp || end < b.len() {
            let ks = kept_chunks(cs, strip);
            let us = updated_chunks(ks, removed_exif, removed_xmp, removed_iccp)->Ok_0;
            let out = optimized_webp(b, strip)->Ok_0;
            lemma_rewritten(b, strip, removed_exif, removed_xmp, removed_iccp);
            lemma_kept_chunks(cs, strip);
            lemma_updated_chunks(ks, removed_exif, removed_xmp, removed_iccp);
            lemma_has_fourcc_same_codes(us, ks, fourcc_exif());
            lemma_has_fourcc_same_codes(us, ks, fourcc_xmp());
            lemma_has_fourcc_same_codes(us, ks, fourcc_iccp());
            assert(!has_fourcc(ks, fourcc_exif()));
            assert(!has_fourcc(ks, fourcc_xmp()));
            assert(strip == StripPolicy::All ==> !has_fourcc(ks, fourcc_iccp()));
            let end2 = le32(out, 4) + 8;
            assert(chunk_bytes(out, chunk_spans_from(out, 12, end2)->Ok_0) == us);
        }
    }
}

/// The `VP8X` chunk `cout` is `cin` with the feature flags of the removed
/// metadata cleared, and nothing else changed.
pub open spec fn vp8x_flags_cleared(cin: Seq<u8>, cout: Seq<u8>, removed_exif: bool, removed_xmp: bool, removed_iccp: bool) -> bool {
    cout == if cin.len() > 8 {
        cin.update(8, cleared_flags(cin[8], removed_exif, removed_xmp, removed_iccp))
    } else {
        cin
    }
}

/// The output chunks `os` of a rewrite of the input chunks `cs` under
/// `strip`: no EXIF or XMP chunk, no ICC profile when everything is
/// stripped, every chunk other than `VP8X` a chunk of the input, and every
/// input chunk that is not stripped, `VP8X` aside, still present.
pub open spec fn clean_rewrite(cs: Seq<Seq<u8>>, os: Seq<Seq<u8>>, strip: StripPolicy) -> bool {
    &&& !has_fourcc(os, fourcc_exif())
    &&& !has_fourcc(os, fourcc_xmp())
    &&& strip == StripPolicy::All ==> !has_fourcc(os, fourcc_iccp())
    &&& forall|i: int|
        0 <= i < os.len() && (#[trigger] os[i]).take(4) != fourcc_vp8x() ==> exists|j: int|
            0 <= j < cs.len() && cs[j] == os[i]
    &&& forall|j: int|
        0 <= j < cs.len() && !is_stripped_chunk(#[trigger] cs[j], strip) && cs[j].take(4) != fourcc_vp8x()
            ==> exists|i: int| 0 <= i < os.len() && os[i] == cs[j]
}

#[verifier::spinoff_prover]
proof fn lemma_kept_updated_clean(cs: Seq<Seq<u8>>, strip: StripPolicy, removed_exif: bool, removed_xmp: bool, removed_iccp: bool)
    requires
        updated_chunks(kept_chunks(cs, strip), removed_exif, removed_xmp, removed_iccp) is Ok,
        removed_exif == has_fourcc(cs, fourcc_exif()),
        removed_xmp == has_fourcc(cs, fourcc_xmp()),
        removed_iccp == (strip == StripPolicy::All && has_fourcc(cs, fourcc_iccp())),
    ensures
        clean_rewrite(cs, updated_chunks(kept_chunks(cs, strip), removed_exif, removed_xmp, removed_iccp)->Ok_0, strip),
{
    let ks = kept_chunks(cs, strip);
    let us = updated_chunks(ks, removed_exif, removed_xmp, removed_iccp)->Ok_0;
    lemma_kept_chunks(cs, strip);
    lemma_updated_chunks(ks, removed_exif, removed_xmp, removed_iccp);
    lemma_has_fourcc_same_codes(us, ks, fourcc_exif());
    lemma_has_fourcc_same_codes(us, ks, fourcc_xmp());
    lemma_has_fourcc_same_codes(us, ks, fourcc_iccp());
    assert(!has_fourcc(ks, fourcc_exif())) by {
        if has_fourcc(ks, fourcc_exif()) {
            let i = choose|i: int| 0 <= i < ks.len() && (#[trigger] ks[i]).take(4) == fourcc_exif();
            assert(!is_stripped_chunk(ks[i], strip));
        }
    }
    assert(!has_fourcc(ks, fourcc_xmp())) by {
        if has_fourcc(ks, fourcc_xmp()) {
            let i = choose|i: int| 0 <= i < ks.len() && (#[trigger] ks[i]).take(4) == fourcc_xmp();
            assert(!is_stripped_chunk(ks[i], strip));
        }
    }
    assert(strip == StripPolicy::All ==> !has_fourcc(ks, fourcc_iccp())) by {
        if strip == StripPolicy::All && has_fourcc(ks, fourcc_iccp()) {
            let i = choose|i: int| 0 <= i < ks.len() && (#[trigger] ks[i]).take(4) == fourcc_iccp();
            assert(!is_stripped_chunk(ks[i], strip));
        }
    }
    assert forall|i: int| 0 <= i < us.len() && (#[trigger] us[i]).take(4) != fourcc_vp8x() implies exists|j: int|
        0 <= j < cs.len() && cs[j] == us[i] by {
        assert(us[i] == ks[i]);
        let j = choose|j: int| 0 <= j < cs.len() && cs[j] == #[trigger] ks[i];
    }
    assert forall|j: int| 0 <= j < cs.len() && !is_stripped_chunk(#[trigger] cs[j], strip) && cs[j].take(4)
        != fourcc_vp8x() implies exists|i: int| 0 <= i < us.len() && us[i] == cs[j] by {
        let i = choose|i: int| 0 <= i < ks.len() && ks[i] == cs[j];
        assert(us[i] == ks[i]);
    }
}

/// Every `VP8X` chunk of `os` is a `VP8X` chunk of `cs` with the feature
/// flags of the removed metadata cleared.
pub open spec fn vp8x_rewritten_from(cs: Seq<Seq<u8>>, os: Seq<Seq<u8>>, removed_exif: bool, removed_xmp: bool, removed_iccp: bool) -> bool {
    forall|i: int|
        0 <= i < os.len() && (#[trigger] os[i]).take(4) == fourcc_vp8x() ==> exists|j: int|
            0 <= j < cs.len() && cs[j].take(4) == fourcc_vp8x() && vp8x_flags_cleared(
                cs[j],
                os[i],
                removed_exif,
                removed_xmp,
                removed_iccp,
            )
}

proof fn lemma_kept_updated_vp8x(cs: Seq<Seq<u8>>, strip: StripPolicy, removed_exif: bool, removed_xmp: bool, removed_iccp: bool)
    requires
        updated_chunks(kept_chunks(cs, strip), removed_exif, removed_xmp, removed_iccp) is Ok,
    ensures
        vp8x_rewritten_from(
            cs,
            updated_chunks(kept_chunks(cs, strip), removed_exif, removed_xmp, removed_iccp)->Ok_0,
            removed_exif,
            removed_xmp,
            removed_iccp,
        ),
{
    let ks = kept_chunks(cs, strip);
    let us = updated_chunks(ks, removed_exif, removed_xmp, removed_iccp)->Ok_0;
    lemma_kept_chunks(cs, strip);
    lemma_updated_chunks(ks, removed_exif, removed_xmp, removed_iccp);
    lemma_updated_vp8x(ks, removed_exif, removed_xmp, removed_iccp);
    assert forall|i: int| 0 <= i < us.len() && (#[trigger] us[i]).take(4) == fourcc_vp8x() implies exists|j: int|
        0 <= j < cs.len() && cs[j].take(4) == fourcc_vp8x() && vp8x_flags_cleared(
            cs[j],
            us[i],
            removed_exif,
            removed_xmp,
            removed_iccp,
        ) by {
        let j = choose|j: int| 0 <= j < cs.len() && cs[j] == #[trigger] ks[i];
        assert(ks[i].take(4) == fourcc_vp8x());
        assert(vp8x_flags_cleared(cs[j], us[i], removed_exif, removed_xmp, removed_iccp));
    }
}

proof fn lemma_vp8x_unchanged(cs: Seq<Seq<u8>>)
    ensures
        vp8x_rewritten_from(cs, cs, false, false, false),
{
    assert forall|i: int| 0 <= i < cs.len() && (#[trigger] cs[i]).take(4) == fourcc_vp8x() implies exists|j: int|
        0 <= j < cs.len() && cs[j].take(4) == fourcc_vp8x() && vp8x_flags_cleared(cs[j], cs[i], false, false, false) by {
        if cs[i].len() > 8 {
            assert(cs[i].update(8, cleared_flags(cs[i][8], false, false, false)) =~= cs[i]);
        }
        assert(vp8x_flags_cleared(cs[i], cs[i], false, false, false));
    }
}

/// A WebP file rewritten under a stripping policy is a well-formed RIFF
/// WebP file (its declared size is its length) whose chunks hold no EXIF or
/// XMP metadata, and no ICC profile when everything is stripped. Every
/// chunk other than `VP8X` is, byte for byte, a chunk of the input; every
/// input chunk that the policy does not strip, `VP8X` aside, is in the
/// output; and each `VP8X` chunk is an input one with only the feature
/// flags of the metadata that was found, and so removed, cleared.
#[verifier::spinoff_prover]
pub proof fn lemma_webp_rewrite_chunks(b: Seq<u8>, strip: StripPolicy)
    requires
        strip != StripPolicy::Keep,
        b.len() <= usize::MAX,
        optimized_webp(b, strip) is Ok,
    ensures
        is_riff_webp(optimized_webp(b, strip)->Ok_0),
        le32(optimized_webp(b, strip)->Ok_0, 4) + 8 == optimized_webp(b, strip)->Ok_0.len(),
        webp_chunk_list(b) matches Some(cs) && webp_chunk_list(optimized_webp(b, strip)->Ok_0) matches Some(os)
            && clean_rewrite(cs, os, strip) && vp8x_rewritten_from(
            cs,
            os,
            has_fourcc(cs, fourcc_exif()),
            has_fourcc(cs, fourcc_xmp()),
            strip == StripPolicy::All && has_fourcc(cs, fourcc_iccp()),
        ),
{
    let end = le32(b, 4) + 8;
    let cs = chunk_bytes(b, chunk_spans_from(b, 12, end)->Ok_0);
    let removed_exif = has_fourcc(cs, fourcc_exif());
    let removed_xmp = has_fourcc(cs, fourcc_xmp());
    let removed_iccp = strip == StripPolicy::All && has_fourcc(cs, fourcc_iccp());
    let out = optimized_webp(b, strip)->Ok_0;
    assert(webp_chunk_list(b) == Some(cs));
    if removed_exif || removed_xmp || removed_iccp || end < b.len() {
        lemma_rewritten(b, strip, removed_exif, removed_xmp, removed_iccp);
        lemma_kept_updated_clean(cs, strip, removed_exif, removed_xmp, removed_iccp);
        lemma_kept_updated_vp8x(cs, strip, removed_exif, removed_xmp, removed_iccp);
    } else {
        assert(out == b);
        lemma_vp8x_unchanged(cs);
        assert(clean_rewrite(cs, cs, strip));
    }
}

/// Dropping a stripped chunk shortens the chunks laid end to end.
proof fn lemma_kept_strictly_shorter(cs: Seq<Seq<u8>>, strip: StripPolicy, j: int)
    requires
        forall|i: int| 0 <= i < cs.len() ==> chunk_well_formed(#[trigger] cs[i]),
        0 <= j < cs.len(),
        is_stripped_chunk(cs[j], strip),
    ensures
        flatten_chunks(kept_chunks(cs, strip)).len() < flatten_chunks(cs).len(),
    decreases cs.len(),
{
    let init = cs.drop_last();
    lemma_kept_chunks(init, strip);
    lemma_flatten_len_push(init, cs.last());
    assert(cs =~= init.push(cs.last()));
    assert(chunk_well_formed(cs[cs.len() - 1]));
    if j < cs.len() - 1 {
        assert forall|i: int| 0 <= i < init.len() implies chunk_well_formed(#[trigger] init[i]) by {
            assert(init[i] == cs[i]);
        }
        assert(init[j] == cs[j]);
        lemma_kept_strictly_shorter(init, strip, j);
        if !is_stripped_chunk(cs.last(), strip) {
            lemma_flatten_len_push(kept_chunks(init, strip), cs.last());
        }
    } else {
        assert(is_stripped_chunk(cs.last(), strip));
    }
}

/// The length of a rewritten file: its header and the kept chunks.
#[verifier::spinoff_prover]
proof fn lemma_rewritten_len(b: Seq<u8>, strip: StripPolicy, removed_exif: bool, removed_xmp: bool, removed_iccp: bool)
    requires
        b.len() <= usize::MAX,
        is_riff_webp(b),
        le32(b, 4) + 8 <= b.len(),
        chunk_spans_from(b, 12, le32(b, 4) + 8) is Ok,
        assembled_webp(
            kept_chunks(chunk_bytes(b, chunk_spans_from(b, 12, le32(b, 4) + 8)->Ok_0), strip),
            removed_exif,
            removed_xmp,
            removed_iccp,
        ) is Ok,
    ensures
        ({
            let cs = chunk_bytes(b, chunk_spans_from(b, 12, le32(b, 4) + 8)->Ok_0);
            let out = assembled_webp(kept_chunks(cs, strip), removed_exif, removed_xmp, removed_iccp)->Ok_0;
            &&& out.len() == flatten_chunks(kept_chunks(cs, strip)).len() + 12
            &&& 12 <= le32(b, 4) + 8 ==> flatten_chunks(cs).len() == le32(b, 4) + 8 - 12
            &&& le32(b, 4) + 8 < 12 ==> cs.len() == 0
            &&& forall|i: int| 0 <= i < cs.len() ==> chunk_well_formed(#[trigger] cs[i])
        }),
{
    let end = le32(b, 4) + 8;
    let cs = chunk_bytes(b, chunk_spans_from(b, 12, end)->Ok_0);
    let ks = kept_chunks(cs, strip);
    lemma_updated_chunks(ks, removed_exif, removed_xmp, removed_iccp);
    if end >= 12 {
        lemma_spans_cover(b, 12, end);
    } else {
        assert(cs =~= Seq::<Seq<u8>>::empty());
    }
}

/// A chunk that the policy strips carries one of the codes the rewrite
/// looks for.
proof fn lemma_stripped_is_found(cs: Seq<Seq<u8>>, strip: StripPolicy, j: int)
    requires
        0 <= j < cs.len(),
        is_stripped_chunk(cs[j], strip),
    ensures
        has_fourcc(cs, fourcc_exif()) || has_fourcc(cs, fourcc_xmp()) || (strip == StripPolicy::All
            && has_fourcc(cs, fourcc_iccp())),
{
    assert(cs[j].take(4) == cs[j].take(4));
}

/// A rewrite that drops a stripped chunk, or bytes past the declared end of
/// the RIFF payload, is strictly shorter than its input.
#[verifier::spinoff_prover]
proof fn lemma_rewrite_shorter(b: Seq<u8>, strip: StripPolicy)
    requires
        b.len() <= usize::MAX,
        strip != StripPolicy::Keep,
        optimized_webp(b, strip) is Ok,
        webp_chunk_list(b) is Some,
        (exists|j: int|
            0 <= j < webp_chunk_list(b)->0.len() && is_stripped_chunk(#[trigger] webp_chunk_list(b)->0[j], strip))
            || 12 <= le32(b, 4) + 8 < b.len(),
    ensures
        optimized_webp(b, strip)->Ok_0.len() < b.len(),
{
    let end = le32(b, 4) + 8;
    let cs = chunk_bytes(b, chunk_spans_from(b, 12, end)->Ok_0);
    assert(webp_chunk_list(b) == Some(cs));
    let removed_exif = has_fourcc(cs, fourcc_exif());
    let removed_xmp = has_fourcc(cs, fourcc_xmp());
    let removed_iccp = strip == StripPolicy::All && has_fourcc(cs, fourcc_iccp());
    let stripped_present = exists|j: int| 0 <= j < cs.len() && is_stripped_chunk(#[trigger] cs[j], strip);
    if stripped_present {
        let j = choose|j: int| 0 <= j < cs.len() && is_stripped_chunk(#[trigger] cs[j], strip);
        lemma_stripped_is_found(cs, strip, j);
        lemma_rewritten_len(b, strip, removed_exif, removed_xmp, removed_iccp);
        lemma_kept_strictly_shorter(cs, strip, j);
    } else {
        lemma_rewritten_len(b, strip, removed_exif, removed_xmp, removed_iccp);
        lemma_kept_chunks(cs, strip);
    }
}

/// Rewriting a WebP file never makes it longer, and makes it strictly
/// shorter when a chunk the policy strips is present, or when bytes follow
/// the declared end of the RIFF payload.
pub proof fn lemma_webp_rewrite_not_longer(b: Seq<u8>, strip: StripPolicy)
    requires
        b.len() <= usize::MAX,
        optimized_webp(b, strip) is Ok,
    ensures
        optimized_webp(b, strip)->Ok_0.len() <= b.len(),
        strip != StripPolicy::Keep ==> webp_chunk_list(b) is Some,
        strip != StripPolicy::Keep && ((exists|j: int|
            0 <= j < webp_chunk_list(b)->0.len() && is_stripped_chunk(#[trigger] webp_chunk_list(b)->0[j], strip))
            || 12 <= le32(b, 4) + 8 < b.len()) ==> optimized_webp(b, strip)->Ok_0.len() < b.len(),
{
    if strip != StripPolicy::Keep {
        let end = le32(b, 4) + 8;
        let cs = chunk_bytes(b, chunk_spans_from(b, 12, end)->Ok_0);
        assert(webp_chunk_list(b) == Some(cs));
        let removed_exif = has_fourcc(cs, fourcc_exif());
        let removed_xmp = has_fourcc(cs, fourcc_xmp());
        let removed_iccp = strip == StripPolicy::All && has_fourcc(cs, fourcc_iccp());
        if removed_exif || removed_xmp || removed_iccp || end < b.len() {
            lemma_rewritten(b, strip, removed_exif, removed_xmp, removed_iccp);
        }
        if (exists|j: int| 0 <= j < cs.len() && is_stripped_chunk(#[trigger] cs[j], strip)) || 12 <= end < b.len() {
            lemma_rewrite_shorter(b, strip);
        }
    }
}

} // verus!
