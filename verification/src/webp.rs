//! WebP RIFF container handling: animation detection and metadata stripping
//! that leaves image and animation payload chunks byte-for-byte untouched.

use vstd::prelude::*;
use crate::kinds::StripPolicy;

verus! {

/// Why a WebP container could not be rewritten.
#[derive(Clone, Copy, Debug, PartialEq, Eq, Structural)]
pub enum WebpError {
    /// The file does not start with `RIFF`, a size and `WEBP`.
    InvalidHeader,
    /// The declared RIFF size plus its 8-byte header does not fit in `usize`.
    RiffSizeOverflow,
    /// The declared RIFF size runs past the end of the file.
    RiffSizeExceedsFile,
    /// Fewer than 8 bytes remain for a chunk header.
    TruncatedChunkHeader,
    /// A chunk's end does not fit in `usize`.
    ChunkSizeOverflow,
    /// A chunk's padded end does not fit in `usize`.
    PaddedChunkSizeOverflow,
    /// A chunk's payload runs past the declared RIFF size.
    TruncatedChunkPayload,
    /// A `VP8X` chunk is shorter than 18 bytes.
    Vp8xTooShort,
    /// A `VP8X` chunk declares a payload shorter than 10 bytes.
    Vp8xPayloadTooShort,
    /// The rewritten file does not fit a 32-bit RIFF size.
    OutputTooLarge,
}

/// The text reported for each WebP error.
pub open spec fn webp_error_text(e: WebpError) -> Seq<char> {
    match e {
        WebpError::InvalidHeader => "invalid WebP RIFF header"@,
        WebpError::RiffSizeOverflow => "WebP RIFF size overflow"@,
        WebpError::RiffSizeExceedsFile => "WebP RIFF size exceeds file length"@,
        WebpError::TruncatedChunkHeader => "WebP contains a truncated chunk header"@,
        WebpError::ChunkSizeOverflow => "WebP chunk size overflow"@,
        WebpError::PaddedChunkSizeOverflow => "WebP padded chunk size overflow"@,
        WebpError::TruncatedChunkPayload => "WebP contains a truncated chunk payload"@,
        WebpError::Vp8xTooShort => "WebP VP8X chunk is too short"@,
        WebpError::Vp8xPayloadTooShort => "WebP VP8X payload is too short"@,
        WebpError::OutputTooLarge => "WebP output is too large"@,
    }
}

impl WebpError {
    /// Human-readable description of the error.
    pub fn message(&self) -> (s: String)
        ensures
            s@ == webp_error_text(*self),
    {
        match self {
            WebpError::InvalidHeader => String::from_str("invalid WebP RIFF header"),
            WebpError::RiffSizeOverflow => String::from_str("WebP RIFF size overflow"),
            WebpError::RiffSizeExceedsFile => String::from_str("WebP RIFF size exceeds file length"),
            WebpError::TruncatedChunkHeader => String::from_str("WebP contains a truncated chunk header"),
            WebpError::ChunkSizeOverflow => String::from_str("WebP chunk size overflow"),
            WebpError::PaddedChunkSizeOverflow => String::from_str("WebP padded chunk size overflow"),
            WebpError::TruncatedChunkPayload => String::from_str("WebP contains a truncated chunk payload"),
            WebpError::Vp8xTooShort => String::from_str("WebP VP8X chunk is too short"),
            WebpError::Vp8xPayloadTooShort => String::from_str("WebP VP8X payload is too short"),
            WebpError::OutputTooLarge => String::from_str("WebP output is too large"),
        }
    }
}

/// Little-endian 32-bit value of `b[i..i + 4]`.
pub open spec fn le32(b: Seq<u8>, i: int) -> int {
    b[i] as int + b[i + 1] as int * 256 + b[i + 2] as int * 65536 + b[i + 3] as int * 16777216
}

/// The four little-endian bytes of `n`.
pub open spec fn le32_bytes(n: int) -> Seq<u8> {
    seq![(n % 256) as u8, ((n / 256) % 256) as u8, ((n / 65536) % 256) as u8, ((n / 16777216) % 256) as u8]
}

/// The FourCC codes the container logic looks at.
pub open spec fn fourcc_riff() -> Seq<u8> { seq![0x52u8, 0x49, 0x46, 0x46] }  // "RIFF"
pub open spec fn fourcc_webp() -> Seq<u8> { seq![0x57u8, 0x45, 0x42, 0x50] }  // "WEBP"
pub open spec fn fourcc_anim() -> Seq<u8> { seq![0x41u8, 0x4e, 0x49, 0x4d] }  // "ANIM"
pub open spec fn fourcc_anmf() -> Seq<u8> { seq![0x41u8, 0x4e, 0x4d, 0x46] }  // "ANMF"
pub open spec fn fourcc_exif() -> Seq<u8> { seq![0x45u8, 0x58, 0x49, 0x46] }  // "EXIF"
pub open spec fn fourcc_xmp() -> Seq<u8> { seq![0x58u8, 0x4d, 0x50, 0x20] }  // "XMP "
pub open spec fn fourcc_iccp() -> Seq<u8> { seq![0x49u8, 0x43, 0x43, 0x50] }  // "ICCP"
pub open spec fn fourcc_vp8x() -> Seq<u8> { seq![0x56u8, 0x50, 0x38, 0x58] }  // "VP8X"

/// `b` starts with a RIFF header of form type `WEBP`.
pub open spec fn is_riff_webp(b: Seq<u8>) -> bool {
    b.len() >= 12 && b.take(4) == fourcc_riff() && b.subrange(8, 12) == fourcc_webp()
}

/// Reads a little-endian `u32` from the first four bytes of `bytes`.
pub fn read_u32_le(bytes: &[u8]) -> (n: u32)
    requires
        bytes@.len() >= 4,
    ensures
        n as int == le32(bytes@, 0),
{
    bytes[0] as u32 + bytes[1] as u32 * 256 + bytes[2] as u32 * 65536 + bytes[3] as u32 * 16777216
}

/// Little-endian `u32` at `b[i..i + 4]`.
fn u32_le_at(b: &[u8], i: usize) -> (n: u32)
    requires
        i + 4 <= b@.len(),
    ensures
        n as int == le32(b@, i as int),
{
    b[i] as u32 + b[i + 1] as u32 * 256 + b[i + 2] as u32 * 65536 + b[i + 3] as u32 * 16777216
}

/// Does `b[i..i + 4]` hold the four bytes `f`?
fn fourcc_at(b: &[u8], i: usize, f0: u8, f1: u8, f2: u8, f3: u8) -> (r: bool)
    requires
        i + 4 <= b@.len(),
    ensures
        r == (b@.subrange(i as int, i + 4) == seq![f0, f1, f2, f3]),
{
    let r = b[i] == f0 && b[i + 1] == f1 && b[i + 2] == f2 && b[i + 3] == f3;
    proof {
        if r {
            assert(b@.subrange(i as int, i + 4) =~= seq![f0, f1, f2, f3]);
        } else {
            if b@.subrange(i as int, i + 4) == seq![f0, f1, f2, f3] {
                assert(b@.subrange(i as int, i + 4)[0] == f0);
                assert(b@.subrange(i as int, i + 4)[1] == f1);
                assert(b@.subrange(i as int, i + 4)[2] == f2);
                assert(b@.subrange(i as int, i + 4)[3] == f3);
            }
        }
    }
    r
}

/// Is `b` a RIFF WebP file header?
fn has_riff_webp_header(b: &[u8]) -> (r: bool)
    ensures
        r == is_riff_webp(b@),
{
    if b.len() < 12 {
        return false;
    }
    let r1 = fourcc_at(b, 0, 0x52, 0x49, 0x46, 0x46);
    let r2 = fourcc_at(b, 8, 0x57, 0x45, 0x42, 0x50);
    assert(b@.subrange(0, 4) == b@.take(4));
    r1 && r2
}

/// Whether the chunks of `b` from `cursor` on contain an `ANIM` or `ANMF`
/// chunk before the chunk walk leaves the file.
pub open spec fn anim_scan(b: Seq<u8>, cursor: int) -> bool
    decreases b.len() - cursor,
{
    if cursor < 0 || cursor + 8 > b.len() {
        false
    } else if b.subrange(cursor, cursor + 4) == fourcc_anim() || b.subrange(cursor, cursor + 4)
        == fourcc_anmf() {
        true
    } else {
        let size = le32(b, cursor + 4);
        let next = cursor + 8 + size + size % 2;
        if next > b.len() {
            false
        } else {
            anim_scan(b, next)
        }
    }
}

/// A WebP file is animated when it holds an `ANIM` or `ANMF` chunk.
pub open spec fn webp_is_animated(b: Seq<u8>) -> bool {
    is_riff_webp(b) && anim_scan(b, 12)
}

/// Does the WebP file `input` hold animation chunks?
pub fn webp_has_animation(input: &[u8]) -> (r: bool)
    ensures
        r == webp_is_animated(input@),
{
    if !has_riff_webp_header(input) {
        return false;
    }
    let mut cursor: usize = 12;
    while cursor <= input.len() && input.len() - cursor >= 8
        invariant
            is_riff_webp(input@),
            12 <= cursor,
            anim_scan(input@, 12) == anim_scan(input@, cursor as int),
        decreases input@.len() - cursor,
    {
        if fourcc_at(input, cursor, 0x41, 0x4e, 0x49, 0x4d) || fourcc_at(input, cursor, 0x41, 0x4e, 0x4d, 0x46) {
            return true;
        }
        let size = u32_le_at(input, cursor + 4) as u64;
        let step: u64 = 8 + size + size % 2;
        if step > (input.len() - cursor) as u64 {
            return false;
        }
        cursor = cursor + step as usize;
    }
    false
}

/// The spans `(start, padded_end)` of the chunks of `b` between `cursor`
/// and the end `end` of the RIFF payload.
pub open spec fn chunk_spans_from(b: Seq<u8>, cursor: int, end: int) -> Result<Seq<(int, int)>, WebpError>
    decreases end - cursor,
{
    if cursor >= end {
        Ok(Seq::empty())
    } else if cursor + 8 > end {
        Err(WebpError::TruncatedChunkHeader)
    } else {
        let size = le32(b, cursor + 4);
        let payload_end = cursor + 8 + size;
        let padded_end = payload_end + size % 2;
        if payload_end > usize::MAX {
            Err(WebpError::ChunkSizeOverflow)
        } else if padded_end > usize::MAX {
            Err(WebpError::PaddedChunkSizeOverflow)
        } else if padded_end > end {
            Err(WebpError::TruncatedChunkPayload)
        } else {
            match chunk_spans_from(b, padded_end, end) {
                Ok(rest) => Ok(seq![(cursor, padded_end)] + rest),
                Err(e) => Err(e),
            }
        }
    }
}

/// The bytes of the chunks at `spans` in `b`, header and padding included.
pub open spec fn chunk_bytes(b: Seq<u8>, spans: Seq<(int, int)>) -> Seq<Seq<u8>> {
    spans.map_values(|s: (int, int)| b.subrange(s.0, s.1))
}

/// Some chunk of `cs` has FourCC `f`.
pub open spec fn has_fourcc(cs: Seq<Seq<u8>>, f: Seq<u8>) -> bool {
    exists|i: int| 0 <= i < cs.len() && (#[trigger] cs[i]).take(4) == f
}

/// The chunk `c` is removed under `strip`: EXIF and XMP always, ICCP color
/// profiles only when stripping everything.
pub open spec fn is_stripped_chunk(c: Seq<u8>, strip: StripPolicy) -> bool {
    c.take(4) == fourcc_exif() || c.take(4) == fourcc_xmp() || (c.take(4) == fourcc_iccp() && strip
        == StripPolicy::All)
}

/// The chunks of `cs` that are kept under `strip`, in order.
pub open spec fn kept_chunks(cs: Seq<Seq<u8>>, strip: StripPolicy) -> Seq<Seq<u8>>
    decreases cs.len(),
{
    if cs.len() == 0 {
        Seq::empty()
    } else if is_stripped_chunk(cs.last(), strip) {
        kept_chunks(cs.drop_last(), strip)
    } else {
        kept_chunks(cs.drop_last(), strip).push(cs.last())
    }
}

/// The `VP8X` feature byte with the flags of removed metadata cleared.
pub open spec fn cleared_flags(flags: u8, removed_exif: bool, removed_xmp: bool, removed_iccp: bool) -> u8 {
    let a = if removed_iccp { flags & !0x20u8 } else { flags };
    let b = if removed_exif { a & !0x08u8 } else { a };
    if removed_xmp { b & !0x04u8 } else { b }
}

/// A `VP8X` chunk with the feature flags of removed metadata cleared.
pub open spec fn updated_vp8x(c: Seq<u8>, removed_exif: bool, removed_xmp: bool, removed_iccp: bool) -> Result<
    Seq<u8>,
    WebpError,
> {
    if c.len() < 18 {
        Err(WebpError::Vp8xTooShort)
    } else if le32(c, 4) < 10 {
        Err(WebpError::Vp8xPayloadTooShort)
    } else {
        Ok(c.update(8, cleared_flags(c[8], removed_exif, removed_xmp, removed_iccp)))
    }
}

/// The chunks `cs` with every `VP8X` chunk updated, or the first failure.
pub open spec fn updated_chunks(cs: Seq<Seq<u8>>, removed_exif: bool, removed_xmp: bool, removed_iccp: bool) -> Result<
    Seq<Seq<u8>>,
    WebpError,
>
    decreases cs.len(),
{
    if cs.len() == 0 {
        Ok(Seq::empty())
    } else {
        match updated_chunks(cs.drop_last(), removed_exif, removed_xmp, removed_iccp) {
            Err(e) => Err(e),
            Ok(prev) => if cs.last().take(4) == fourcc_vp8x() {
                match updated_vp8x(cs.last(), removed_exif, removed_xmp, removed_iccp) {
                    Ok(u) => Ok(prev.push(u)),
                    Err(e) => Err(e),
                }
            } else {
                Ok(prev.push(cs.last()))
            },
        }
    }
}

proof fn lemma_updated_prefix_err(cs: Seq<Seq<u8>>, n: int, removed_exif: bool, removed_xmp: bool, removed_iccp: bool)
    requires
        0 <= n <= cs.len(),
        updated_chunks(cs.take(n), removed_exif, removed_xmp, removed_iccp) is Err,
    ensures
        updated_chunks(cs, removed_exif, removed_xmp, removed_iccp) == updated_chunks(cs.take(n), removed_exif, removed_xmp, removed_iccp),
    decreases cs.len(),
{
    if n == cs.len() {
        assert(cs.take(n) =~= cs);
    } else {
        assert(cs.drop_last().take(n) =~= cs.take(n));
        lemma_updated_prefix_err(cs.drop_last(), n, removed_exif, removed_xmp, removed_iccp);
    }
}

/// The chunks `cs` laid end to end.
pub open spec fn flatten_chunks(cs: Seq<Seq<u8>>) -> Seq<u8>
    decreases cs.len(),
{
    if cs.len() == 0 {
        Seq::empty()
    } else {
        flatten_chunks(cs.drop_last()) + cs.last()
    }
}

/// A RIFF WebP file made of the chunks laid out in `body`.
pub open spec fn riff_webp_file(body: Seq<u8>) -> Seq<u8> {
    fourcc_riff() + le32_bytes(body.len() + 4int) + fourcc_webp() + body
}

/// A RIFF WebP file made of the chunks `ks`, `VP8X` flags updated.
pub open spec fn assembled_webp(ks: Seq<Seq<u8>>, removed_exif: bool, removed_xmp: bool, removed_iccp: bool) -> Result<
    Seq<u8>,
    WebpError,
> {
    match updated_chunks(ks, removed_exif, removed_xmp, removed_iccp) {
        Err(e) => Err(e),
        Ok(us) => {
            let body = flatten_chunks(us);
            if body.len() + 4 > u32::MAX {
                Err(WebpError::OutputTooLarge)
            } else {
                Ok(riff_webp_file(body))
            }
        },
    }
}

/// The WebP file `b` with metadata stripped according to `strip`.
///
/// With nothing to strip and no bytes after the declared RIFF size, the file
/// is returned unchanged; otherwise the kept chunks are written out again,
/// each byte-for-byte, except for the feature flags of `VP8X` chunks.
pub open spec fn optimized_webp(b: Seq<u8>, strip: StripPolicy) -> Result<Seq<u8>, WebpError> {
    if strip == StripPolicy::Keep {
        Ok(b)
    } else if !is_riff_webp(b) {
        Err(WebpError::InvalidHeader)
    } else {
        let end = le32(b, 4) + 8;
        if end > usize::MAX {
            Err(WebpError::RiffSizeOverflow)
        } else if end > b.len() {
            Err(WebpError::RiffSizeExceedsFile)
        } else {
            match chunk_spans_from(b, 12, end) {
                Err(e) => Err(e),
                Ok(spans) => {
                    let cs = chunk_bytes(b, spans);
                    let removed_exif = has_fourcc(cs, fourcc_exif());
                    let removed_xmp = has_fourcc(cs, fourcc_xmp());
                    let removed_iccp = strip == StripPolicy::All && has_fourcc(cs, fourcc_iccp());
                    if !(removed_exif || removed_xmp || removed_iccp || end < b.len()) {
                        Ok(b)
                    } else {
                        assembled_webp(kept_chunks(cs, strip), removed_exif, removed_xmp, removed_iccp)
                    }
                },
            }
        }
    }
}

/// One chunk of a WebP RIFF container, header and padding included.
pub struct WebpChunk {
    /// The chunk's FourCC code: the first four bytes of `bytes`.
    pub fourcc: [u8; 4],
    /// The whole chunk: FourCC, little-endian size, payload and padding.
    pub bytes: Vec<u8>,
}

/// Clears the `VP8X` feature flags of the metadata that was removed.
/// Fails, leaving the chunk as it was, when the chunk is too short to hold
/// the feature flags.
pub fn update_vp8x_flags(
    chunk: &mut WebpChunk,
    removed_exif: bool,
    removed_xmp: bool,
    removed_iccp: bool,
) -> (r: Result<(), WebpError>)
    ensures
        final(chunk).fourcc == old(chunk).fourcc,
        match updated_vp8x(old(chunk).bytes@, removed_exif, removed_xmp, removed_iccp) {
            Ok(u) => r is Ok && final(chunk).bytes@ == u,
            Err(e) => r == Err::<(), WebpError>(e) && final(chunk).bytes@ == old(chunk).bytes@,
        },
{
    if chunk.bytes.len() < 18 {
        return Err(WebpError::Vp8xTooShort);
    }
    let declared_size = u32_le_at(chunk.bytes.as_slice(), 4);
    if declared_size < 10 {
        return Err(WebpError::Vp8xPayloadTooShort);
    }
    let flags = chunk.bytes[8];
    let a: u8 = if removed_iccp { flags & !0x20u8 } else { flags };
    let b: u8 = if removed_exif { a & !0x08u8 } else { a };
    let c: u8 = if removed_xmp { b & !0x04u8 } else { b };
    chunk.bytes.set(8, c);
    Ok(())
}

/// Copies `b[from..to]` into a new vector.
fn copy_range(b: &[u8], from: usize, to: usize) -> (v: Vec<u8>)
    requires
        from <= to <= b@.len(),
    ensures
        v@ == b@.subrange(from as int, to as int),
{
    vstd::slice::slice_to_vec(vstd::slice::slice_subrange(b, from, to))
}

/// Appends `src` to `out`.
fn push_all(out: &mut Vec<u8>, src: &[u8])
    ensures
        final(out)@ == old(out)@ + src@,
{
    let mut i: usize = 0;
    while i < src.len()
        invariant
            i <= src@.len(),
            out@ == old(out)@ + src@.take(i as int),
        decreases src@.len() - i,
    {
        out.push(src[i]);
        i = i + 1;
        assert(out@ =~= old(out)@ + src@.take(i as int));
    }
    assert(src@.take(src@.len() as int) =~= src@);
}

/// The views of the chunks' bytes.
pub open spec fn chunk_views(v: Seq<WebpChunk>) -> Seq<Seq<u8>> {
    v.map_values(|c: WebpChunk| c.bytes@)
}

proof fn lemma_has_fourcc_push(cs: Seq<Seq<u8>>, c: Seq<u8>, f: Seq<u8>)
    ensures
        has_fourcc(cs.push(c), f) == (has_fourcc(cs, f) || c.take(4) == f),
{
    let p = cs.push(c);
    if has_fourcc(cs, f) {
        let i = choose|i: int| 0 <= i < cs.len() && (#[trigger] cs[i]).take(4) == f;
        assert(p[i] == cs[i]);
    }
    if c.take(4) == f {
        assert(p[cs.len() as int] == c);
    }
    if has_fourcc(p, f) {
        let i = choose|i: int| 0 <= i < p.len() && (#[trigger] p[i]).take(4) == f;
        if i < cs.len() {
            assert(p[i] == cs[i]);
        }
    }
}

/// The chunks of a WebP file that survive stripping, and which kinds of
/// metadata were removed.
struct ChunkScan {
    kept: Vec<WebpChunk>,
    removed_exif: bool,
    removed_xmp: bool,
    removed_iccp: bool,
}

/// Walks the chunks of `input` up to `declared_end`, keeping those that are
/// not stripped under `strip`.
fn scan_chunks(input: &[u8], declared_end: usize, strip: StripPolicy) -> (r: Result<ChunkScan, WebpError>)
    requires
        is_riff_webp(input@),
        declared_end <= input@.len(),
    ensures
        match (r, chunk_spans_from(input@, 12, declared_end as int)) {
            (Ok(scan), Ok(spans)) => {
                let cs = chunk_bytes(input@, spans);
                &&& chunk_views(scan.kept@) == kept_chunks(cs, strip)
                &&& forall|i: int| 0 <= i < scan.kept@.len() ==> (#[trigger] scan.kept@[i]).fourcc@ == scan.kept@[i].bytes@.take(4)
                &&& scan.removed_exif == has_fourcc(cs, fourcc_exif())
                &&& scan.removed_xmp == has_fourcc(cs, fourcc_xmp())
                &&& scan.removed_iccp == (strip == StripPolicy::All && has_fourcc(cs, fourcc_iccp()))
            },
            (Err(e), Err(f)) => e == f,
            _ => false,
        },
{
    let ghost b = input@;
    let strip_icc = strip == StripPolicy::All;
    let mut kept: Vec<WebpChunk> = Vec::new();
    let mut removed_exif = false;
    let mut removed_xmp = false;
    let mut removed_iccp = false;
    let ghost mut spans: Seq<(int, int)> = Seq::empty();
    let mut cursor: usize = 12;
    while cursor < declared_end
        invariant
            b == input@,
            strip_icc == (strip == StripPolicy::All),
            12 <= cursor,
            cursor <= declared_end || (cursor == 12 && spans.len() == 0),
            declared_end <= b.len(),
            chunk_spans_from(b, 12, declared_end as int) == (match chunk_spans_from(b, cursor as int, declared_end as int) {
                Ok(rest) => Ok(spans + rest),
                Err(e) => Err(e),
            }),
            chunk_views(kept@) == kept_chunks(chunk_bytes(b, spans), strip),
            forall|i: int| 0 <= i < kept@.len() ==> (#[trigger] kept@[i]).fourcc@ == kept@[i].bytes@.take(4),
            removed_exif == has_fourcc(chunk_bytes(b, spans), fourcc_exif()),
            removed_xmp == has_fourcc(chunk_bytes(b, spans), fourcc_xmp()),
            removed_iccp == (strip_icc && has_fourcc(chunk_bytes(b, spans), fourcc_iccp())),
        decreases declared_end - cursor,
    {
        if declared_end - cursor < 8 {
            return Err(WebpError::TruncatedChunkHeader);
        }
        let chunk_size = u32_le_at(input, cursor + 4) as usize;
        let payload_start = cursor + 8;
        let payload_end = match payload_start.checked_add(chunk_size) {
            Some(end) => end,
            None => return Err(WebpError::ChunkSizeOverflow),
        };
        let padded_end = match payload_end.checked_add(chunk_size % 2) {
            Some(end) => end,
            None => return Err(WebpError::PaddedChunkSizeOverflow),
        };
        if padded_end > declared_end {
            return Err(WebpError::TruncatedChunkPayload);
        }
        let bytes = copy_range(input, cursor, padded_end);
        let fourcc: [u8; 4] = [input[cursor], input[cursor + 1], input[cursor + 2], input[cursor + 3]];
        let ghost c = b.subrange(cursor as int, padded_end as int);
        let ghost old_spans = spans;
        let ghost old_kept = kept@;
        proof {
            spans = spans.push((cursor as int, padded_end as int));
            assert(chunk_bytes(b, spans) =~= chunk_bytes(b, old_spans).push(c));
            assert(fourcc@ =~= c.take(4));
            lemma_has_fourcc_push(chunk_bytes(b, old_spans), c, fourcc_exif());
            lemma_has_fourcc_push(chunk_bytes(b, old_spans), c, fourcc_xmp());
            lemma_has_fourcc_push(chunk_bytes(b, old_spans), c, fourcc_iccp());
            assert(chunk_bytes(b, spans).drop_last() =~= chunk_bytes(b, old_spans));
            assert forall|r: Seq<(int, int)>| old_spans + (seq![(cursor as int, padded_end as int)] + r)
                =~= spans + r by {}
        }
        let is_exif = fourcc[0] == 0x45 && fourcc[1] == 0x58 && fourcc[2] == 0x49 && fourcc[3] == 0x46;
        let is_xmp = fourcc[0] == 0x58 && fourcc[1] == 0x4d && fourcc[2] == 0x50 && fourcc[3] == 0x20;
        let is_iccp = fourcc[0] == 0x49 && fourcc[1] == 0x43 && fourcc[2] == 0x43 && fourcc[3] == 0x50;
        proof {
            assert(is_exif == (fourcc@ == fourcc_exif())) by {
                if fourcc@ == fourcc_exif() {
                    assert(fourcc@[0] == 0x45 && fourcc@[1] == 0x58 && fourcc@[2] == 0x49 && fourcc@[3] == 0x46);
                }
                if is_exif {
                    assert(fourcc@ =~= fourcc_exif());
                }
            }
            assert(is_xmp == (fourcc@ == fourcc_xmp())) by {
                if fourcc@ == fourcc_xmp() {
                    assert(fourcc@[0] == 0x58 && fourcc@[1] == 0x4d && fourcc@[2] == 0x50 && fourcc@[3] == 0x20);
                }
                if is_xmp {
                    assert(fourcc@ =~= fourcc_xmp());
                }
            }
            assert(is_iccp == (fourcc@ == fourcc_iccp())) by {
                if fourcc@ == fourcc_iccp() {
                    assert(fourcc@[0] == 0x49 && fourcc@[1] == 0x43 && fourcc@[2] == 0x43 && fourcc@[3] == 0x50);
                }
                if is_iccp {
                    assert(fourcc@ =~= fourcc_iccp());
                }
            }
        }
        if is_exif {
            removed_exif = true;
        } else if is_xmp {
            removed_xmp = true;
        } else if is_iccp && strip_icc {
            removed_iccp = true;
        } else {
            kept.push(WebpChunk { fourcc, bytes });
            proof {
                assert(chunk_views(kept@) =~= chunk_views(old_kept).push(c));
                assert forall|i: int| 0 <= i < kept@.len() implies (#[trigger] kept@[i]).fourcc@
                    == kept@[i].bytes@.take(4) by {
                    if i < old_kept.len() {
                        assert(kept@[i] == old_kept[i]);
                    }
                }
            }
        }
        cursor = padded_end;
    }
    proof {
        assert(spans + Seq::<(int, int)>::empty() =~= spans);
    }
    Ok(ChunkScan { kept, removed_exif, removed_xmp, removed_iccp })
}

/// Writes the chunks `kept` out as a RIFF WebP file, clearing the `VP8X`
/// flags of the removed metadata.
fn assemble_chunks(kept: &Vec<WebpChunk>, removed_exif: bool, removed_xmp: bool, removed_iccp: bool) -> (r: Result<
    Vec<u8>,
    WebpError,
>)
    requires
        forall|i: int| 0 <= i < kept@.len() ==> (#[trigger] kept@[i]).fourcc@ == kept@[i].bytes@.take(4),
    ensures
        match (r, assembled_webp(chunk_views(kept@), removed_exif, removed_xmp, removed_iccp)) {
            (Ok(out), Ok(expected)) => out@ == expected,
            (Err(e), Err(f)) => e == f,
            _ => false,
        },
{
    let ghost ks = chunk_views(kept@);
    let mut output: Vec<u8> = Vec::new();
    output.push(0x52);
    output.push(0x49);
    output.push(0x46);
    output.push(0x46);
    output.push(0);
    output.push(0);
    output.push(0);
    output.push(0);
    output.push(0x57);
    output.push(0x45);
    output.push(0x42);
    output.push(0x50);
    let ghost header = output@;
    let mut k: usize = 0;
    while k < kept.len()
        invariant
            ks == chunk_views(kept@),
            forall|i: int| 0 <= i < kept@.len() ==> (#[trigger] kept@[i]).fourcc@ == kept@[i].bytes@.take(4),
            k <= kept@.len(),
            header.len() == 12,
            header == output@.take(12),
            updated_chunks(ks.take(k as int), removed_exif, removed_xmp, removed_iccp) matches Ok(us)
                && output@ == header + flatten_chunks(us),
        decreases kept@.len() - k,
    {
        let ghost us = updated_chunks(ks.take(k as int), removed_exif, removed_xmp, removed_iccp)->Ok_0;
        let is_vp8x = kept[k].fourcc[0] == 0x56 && kept[k].fourcc[1] == 0x50 && kept[k].fourcc[2] == 0x38
            && kept[k].fourcc[3] == 0x58;
        let ghost c = ks[k as int];
        assert(kept@[k as int].bytes@ == c);
        assert(ks.take(k + 1).drop_last() =~= ks.take(k as int));
        assert(ks.take(k + 1).last() == c);
        proof {
            let f = kept@[k as int].fourcc@;
            assert(is_vp8x == (c.take(4) == fourcc_vp8x())) by {
                if c.take(4) == fourcc_vp8x() {
                    assert(f[0] == 0x56 && f[1] == 0x50 && f[2] == 0x38 && f[3] == 0x58);
                }
                if is_vp8x {
                    assert(f =~= fourcc_vp8x());
                }
            }
        }
        if is_vp8x {
            let mut chunk = WebpChunk { fourcc: kept[k].fourcc, bytes: vstd::slice::slice_to_vec(kept[k].bytes.as_slice()) };
            match update_vp8x_flags(&mut chunk, removed_exif, removed_xmp, removed_iccp) {
                Ok(()) => {},
                Err(e) => {
                    assert(chunk.bytes@ == c);
                    assert(updated_chunks(ks.take(k + 1), removed_exif, removed_xmp, removed_iccp) == Err::<Seq<Seq<u8>>, WebpError>(e));
                    proof {
                        lemma_updated_prefix_err(ks, k + 1, removed_exif, removed_xmp, removed_iccp);
                    }
                    return Err(e);
                },
            }
            push_all(&mut output, chunk.bytes.as_slice());
        } else {
            push_all(&mut output, kept[k].bytes.as_slice());
        }
        k = k + 1;
        proof {
            let us2 = updated_chunks(ks.take(k as int), removed_exif, removed_xmp, removed_iccp)->Ok_0;
            assert(flatten_chunks(us2) == flatten_chunks(us2.drop_last()) + us2.last());
            assert(us2.drop_last() =~= us);
        }
    }
    assert(ks.take(k as int) =~= ks);
    let riff_size = output.len() - 8;
    if riff_size > 0xffff_ffff {
        return Err(WebpError::OutputTooLarge);
    }
    output.set(4, (riff_size % 256) as u8);
    output.set(5, ((riff_size / 256) % 256) as u8);
    output.set(6, ((riff_size / 65536) % 256) as u8);
    output.set(7, ((riff_size / 16777216) % 256) as u8);
    proof {
        let us = updated_chunks(ks, removed_exif, removed_xmp, removed_iccp)->Ok_0;
        assert(output@ =~= riff_webp_file(flatten_chunks(us)));
    }
    Ok(output)
}

/// Removes EXIF and XMP metadata chunks (and, under [`StripPolicy::All`],
/// ICCP color profiles) from a WebP file, updating the `VP8X` feature flags
/// and the RIFF size. Image and animation payload chunks are copied
/// byte-for-byte.
pub fn optimize_webp_container(input: &[u8], strip: &StripPolicy) -> (r: Result<Vec<u8>, WebpError>)
    ensures
        match (r, optimized_webp(input@, *strip)) {
            (Ok(out), Ok(expected)) => out@ == expected,
            (Err(e), Err(f)) => e == f,
            _ => false,
        },
{
    if *strip == StripPolicy::Keep {
        return Ok(vstd::slice::slice_to_vec(input));
    }
    if !has_riff_webp_header(input) {
        return Err(WebpError::InvalidHeader);
    }
    let declared_size = u32_le_at(input, 4) as usize;
    let declared_end = match declared_size.checked_add(8) {
        Some(end) => end,
        None => return Err(WebpError::RiffSizeOverflow),
    };
    if declared_end > input.len() {
        return Err(WebpError::RiffSizeExceedsFile);
    }
    let scan = match scan_chunks(input, declared_end, *strip) {
        Ok(scan) => scan,
        Err(e) => return Err(e),
    };
    if !(scan.removed_exif || scan.removed_xmp || scan.removed_iccp || declared_end < input.len()) {
        return Ok(vstd::slice::slice_to_vec(input));
    }
    assemble_chunks(&scan.kept, scan.removed_exif, scan.removed_xmp, scan.removed_iccp)
}

/// The chunk codes are the ASCII texts `RIFF`, `WEBP`, `ANIM`, `ANMF`,
/// `EXIF`, `XMP ` (with a trailing space), `ICCP` and `VP8X`; a chunk is
/// stripped exactly when it is an `EXIF` or `XMP ` chunk, or an `ICCP`
/// chunk when everything is stripped.
pub proof fn lemma_webp_codes(c: Seq<u8>, strip: StripPolicy)
    ensures
        fourcc_riff() == seq![0x52u8, 0x49, 0x46, 0x46],
        fourcc_webp() == seq![0x57u8, 0x45, 0x42, 0x50],
        fourcc_anim() == seq![0x41u8, 0x4e, 0x49, 0x4d],
        fourcc_anmf() == seq![0x41u8, 0x4e, 0x4d, 0x46],
        fourcc_vp8x() == seq![0x56u8, 0x50, 0x38, 0x58],
        is_stripped_chunk(c, strip) <==> (c.take(4) == seq![0x45u8, 0x58, 0x49, 0x46] || c.take(4) == seq![
            0x58u8,
            0x4d,
            0x50,
            0x20,
        ] || (strip == StripPolicy::All && c.take(4) == seq![0x49u8, 0x43, 0x43, 0x50])),
{
}

/// Clearing the `VP8X` flags of removed metadata clears the ICC profile
/// bit (`0x20`) when the profile was removed, the EXIF bit (`0x08`) when
/// EXIF was, and the XMP bit (`0x04`) when XMP was, and keeps every other
/// bit.
pub proof fn lemma_cleared_flags(f: u8, removed_exif: bool, removed_xmp: bool, removed_iccp: bool)
    ensures
        cleared_flags(f, removed_exif, removed_xmp, removed_iccp) & 0xd3u8 == f & 0xd3u8,
        cleared_flags(f, removed_exif, removed_xmp, removed_iccp) & 0x20u8 == (if removed_iccp {
            0u8
        } else {
            f & 0x20u8
        }),
        cleared_flags(f, removed_exif, removed_xmp, removed_iccp) & 0x08u8 == (if removed_exif {
            0u8
        } else {
            f & 0x08u8
        }),
        cleared_flags(f, removed_exif, removed_xmp, removed_iccp) & 0x04u8 == (if removed_xmp {
            0u8
        } else {
            f & 0x04u8
        }),
{
    let a = if removed_iccp { f & !0x20u8 } else { f };
    let b = if removed_exif { a & !0x08u8 } else { a };
    let r = if removed_xmp { b & !0x04u8 } else { b };
    assert(a & 0xd3u8 == f & 0xd3u8 && a & 0x08u8 == f & 0x08u8 && a & 0x04u8 == f & 0x04u8 && a & 0x20u8 == (if removed_iccp { 0u8 } else { f & 0x20u8 })) by (bit_vector)
        requires a == (if removed_iccp { f & !0x20u8 } else { f });
    assert(b & 0xd3u8 == a & 0xd3u8 && b & 0x20u8 == a & 0x20u8 && b & 0x04u8 == a & 0x04u8 && b & 0x08u8 == (if removed_exif { 0u8 } else { a & 0x08u8 })) by (bit_vector)
        requires b == (if removed_exif { a & !0x08u8 } else { a });
    assert(r & 0xd3u8 == b & 0xd3u8 && r & 0x20u8 == b & 0x20u8 && r & 0x08u8 == b & 0x08u8 && r & 0x04u8 == (if removed_xmp { 0u8 } else { b & 0x04u8 })) by (bit_vector)
        requires r == (if removed_xmp { b & !0x04u8 } else { b });
}

} // verus!
