//! JPEG marker-segment scanning, used to carry metadata (EXIF, XMP, comments)
//! from an original JPEG onto a freshly encoded one.

use vstd::prelude::*;
use vstd::slice::slice_subrange;

verus! {

/// Why a JPEG stream could not be scanned or rewritten.
#[derive(Clone, Copy, Debug, PartialEq, Eq, Structural)]
pub enum JpegError {
    /// The original does not start with the SOI marker `FF D8`.
    InvalidHeader,
    /// A segment does not start with `FF`.
    InvalidMarker,
    /// The stream ends inside a run of `FF` fill bytes.
    TruncatedMarker,
    /// The stream ends before a segment's two length bytes.
    TruncatedSegmentLength,
    /// A segment length is below 2 or runs past the end of the stream.
    InvalidSegmentLength,
    /// The re-encoded stream does not start with the SOI marker.
    InvalidEncoded,
    /// The re-encoded stream's APP0 segment length is below 2 or too long.
    InvalidApp0Length,
}

/// The text reported for each JPEG error.
pub open spec fn jpeg_error_text(e: JpegError) -> Seq<char> {
    match e {
        JpegError::InvalidHeader => "invalid JPEG header"@,
        JpegError::InvalidMarker => "invalid JPEG marker"@,
        JpegError::TruncatedMarker => "truncated JPEG marker"@,
        JpegError::TruncatedSegmentLength => "truncated JPEG segment length"@,
        JpegError::InvalidSegmentLength => "invalid JPEG segment length"@,
        JpegError::InvalidEncoded => "cjpeg produced an invalid JPEG"@,
        JpegError::InvalidApp0Length => "invalid JPEG APP0 segment length"@,
    }
}

impl JpegError {
    /// Human-readable description of the error.
    pub fn message(&self) -> (s: String)
        ensures
            s@ == jpeg_error_text(*self),
    {
        match self {
            JpegError::InvalidHeader => String::from_str("invalid JPEG header"),
            JpegError::InvalidMarker => String::from_str("invalid JPEG marker"),
            JpegError::TruncatedMarker => String::from_str("truncated JPEG marker"),
            JpegError::TruncatedSegmentLength => String::from_str("truncated JPEG segment length"),
            JpegError::InvalidSegmentLength => String::from_str("invalid JPEG segment length"),
            JpegError::InvalidEncoded => String::from_str("cjpeg produced an invalid JPEG"),
            JpegError::InvalidApp0Length => String::from_str("invalid JPEG APP0 segment length"),
        }
    }
}

/// Big-endian 16-bit value of `b[i]`, `b[i + 1]`.
pub open spec fn be16(b: Seq<u8>, i: int) -> int {
    b[i] as int * 256 + b[i + 1] as int
}

/// `b` starts with the JPEG start-of-image marker `FF D8`.
pub open spec fn starts_with_soi(b: Seq<u8>) -> bool {
    b.len() >= 2 && b[0] == 0xff && b[1] == 0xd8
}

/// First position at or after `i` that does not hold an `FF` fill byte.
pub open spec fn skip_fill(b: Seq<u8>, i: int) -> int
    decreases b.len() - i,
{
    if 0 <= i < b.len() && b[i] == 0xff {
        skip_fill(b, i + 1)
    } else {
        i
    }
}

/// Markers that stand alone, without a length field (TEM, RST0-RST7, SOI).
pub open spec fn is_standalone_marker(m: u8) -> bool {
    m == 0x01 || (0xd0 <= m && m <= 0xd8)
}

/// Markers whose segments are carried over: COM, APP1-APP13 and APP15.
/// APP0 is regenerated by the encoder and APP14 carries color-transform
/// instructions that do not apply to re-encoded pixels.
pub open spec fn is_copied_marker(m: u8) -> bool {
    m == 0xfe || (0xe1 <= m && m <= 0xed) || m == 0xef
}

pub proof fn lemma_skip_fill_ge(b: Seq<u8>, i: int)
    ensures
        skip_fill(b, i) >= i,
        0 <= i ==> (skip_fill(b, i) >= b.len() || b[skip_fill(b, i)] != 0xff),
        0 <= i <= b.len() ==> skip_fill(b, i) <= b.len(),
    decreases b.len() - i,
{
    if 0 <= i < b.len() && b[i] == 0xff {
        lemma_skip_fill_ge(b, i + 1);
    }
}

/// The spans `(start, end)` of the copied metadata segments found when
/// scanning `b` from `cursor`, stopping at SOS (`DA`), EOI (`D9`) or the end
/// of the stream.
pub open spec fn metadata_spans_from(b: Seq<u8>, cursor: int) -> Result<Seq<(int, int)>, JpegError>
    decreases b.len() - cursor,
{
    if cursor < 0 || cursor >= b.len() {
        Ok(Seq::empty())
    } else if b[cursor] != 0xff {
        Err(JpegError::InvalidMarker)
    } else {
        let m = skip_fill(b, cursor);
        proof {
            lemma_skip_fill_ge(b, cursor);
        }
        if m >= b.len() {
            Err(JpegError::TruncatedMarker)
        } else {
            let marker = b[m];
            let c = m + 1;
            if marker == 0xda || marker == 0xd9 {
                Ok(Seq::empty())
            } else if is_standalone_marker(marker) {
                metadata_spans_from(b, c)
            } else if c + 2 > b.len() {
                Err(JpegError::TruncatedSegmentLength)
            } else {
                let length = be16(b, c);
                if length < 2 || c + length > b.len() {
                    Err(JpegError::InvalidSegmentLength)
                } else {
                    match metadata_spans_from(b, c + length) {
                        Ok(rest) => Ok(
                            if is_copied_marker(marker) {
                                seq![(cursor, c + length)] + rest
                            } else {
                                rest
                            },
                        ),
                        Err(e) => Err(e),
                    }
                }
            }
        }
    }
}

/// The spans of the metadata segments of a whole JPEG stream.
pub open spec fn jpeg_metadata_spans(b: Seq<u8>) -> Result<Seq<(int, int)>, JpegError> {
    if !starts_with_soi(b) {
        Err(JpegError::InvalidHeader)
    } else {
        metadata_spans_from(b, 2)
    }
}

/// `prefix` followed by the spans of `r`, or the error of `r`.
pub open spec fn prepend_spans(prefix: Seq<(int, int)>, r: Result<Seq<(int, int)>, JpegError>) -> Result<
    Seq<(int, int)>,
    JpegError,
> {
    match r {
        Ok(rest) => Ok(prefix + rest),
        Err(e) => Err(e),
    }
}

/// The bytes of the spans `spans` of `b`, one after the other.
pub open spec fn concat_spans(b: Seq<u8>, spans: Seq<(int, int)>) -> Seq<u8>
    decreases spans.len(),
{
    if spans.len() == 0 {
        Seq::empty()
    } else {
        concat_spans(b, spans.drop_last()) + b.subrange(spans.last().0, spans.last().1)
    }
}

/// The spans found are in order, inside the stream, and each starts a
/// segment of a copied marker.
pub open spec fn spans_well_placed(b: Seq<u8>, spans: Seq<(int, int)>, from: int) -> bool {
    &&& forall|i: int| 0 <= i < spans.len() ==> from <= #[trigger] spans[i].0 < spans[i].1 <= b.len()
    &&& forall|i: int, j: int| 0 <= i < j < spans.len() ==> #[trigger] spans[i].1 <= #[trigger] spans[j].0
}

/// The metadata segments found from `cursor` on lie inside the stream, at
/// or after `cursor`, in order and without overlapping.
pub proof fn lemma_spans_well_placed(b: Seq<u8>, cursor: int)
    requires
        cursor >= 0,
    ensures
        metadata_spans_from(b, cursor) matches Ok(sp) ==> spans_well_placed(b, sp, cursor),
    decreases b.len() - cursor,
{
    if cursor >= b.len() || b[cursor] != 0xff {
    } else {
        let m = skip_fill(b, cursor);
        lemma_skip_fill_ge(b, cursor);
        if m < b.len() {
            let marker = b[m];
            let c = m + 1;
            if marker == 0xda || marker == 0xd9 {
            } else if is_standalone_marker(marker) {
                lemma_spans_well_placed(b, c);
            } else if c + 2 <= b.len() {
                let length = be16(b, c);
                if !(length < 2 || c + length > b.len()) {
                    lemma_spans_well_placed(b, c + length);
                    if let Ok(rest) = metadata_spans_from(b, c + length) {
                        if is_copied_marker(marker) {
                            let sp = seq![(cursor, c + length)] + rest;
                            assert forall|i: int, j: int| 0 <= i < j < sp.len() implies #[trigger] sp[i].1
                                <= #[trigger] sp[j].0 by {
                                if i > 0 {
                                    assert(sp[i] == rest[i - 1]);
                                }
                                assert(sp[j] == rest[j - 1]);
                            }
                            assert forall|i: int| 0 <= i < sp.len() implies cursor <= #[trigger] sp[i].0
                                < sp[i].1 <= b.len() by {
                                if i > 0 {
                                    assert(sp[i] == rest[i - 1]);
                                }
                            }
                        }
                    }
                }
            }
        }
    }
}

/// Scans a JPEG stream for the metadata segments worth carrying over:
/// comments (COM) and APP1-APP13/APP15 segments, each with its marker and
/// length bytes, up to the start of scan.
pub fn jpeg_metadata_segments(input: &[u8]) -> (r: Result<Vec<&[u8]>, JpegError>)
    ensures
        match (r, jpeg_metadata_spans(input@)) {
            (Ok(v), Ok(sp)) => v@.len() == sp.len() && forall|i: int|
                0 <= i < sp.len() ==> (#[trigger] v@[i])@ == input@.subrange(sp[i].0, sp[i].1),
            (Err(e), Err(f)) => e == f,
            _ => false,
        },
{
    if input.len() < 2 || input[0] != 0xff || input[1] != 0xd8 {
        return Err(JpegError::InvalidHeader);
    }
    let ghost b = input@;
    let mut segments: Vec<&[u8]> = Vec::new();
    let ghost mut spans: Seq<(int, int)> = Seq::empty();
    let mut cursor: usize = 2;
    proof {
        lemma_spans_well_placed(b, 2);
    }
    while cursor < input.len()
        invariant
            b == input@,
            starts_with_soi(b),
            2 <= cursor <= b.len(),
            jpeg_metadata_spans(b) == prepend_spans(spans, metadata_spans_from(b, cursor as int)),
            segments@.len() == spans.len(),
            forall|i: int|
                #![trigger spans[i]]
                0 <= i < spans.len() ==> 0 <= spans[i].0 <= spans[i].1 <= b.len() && segments@[i]@ == b.subrange(spans[i].0, spans[i].1),
        decreases b.len() - cursor,
    {
        let start = cursor;
        if input[cursor] != 0xff {
            return Err(JpegError::InvalidMarker);
        }
        proof {
            lemma_skip_fill_ge(b, start as int);
        }
        while cursor < input.len() && input[cursor] == 0xff
            invariant
                b == input@,
                segments@.len() == spans.len(),
                forall|i: int|
                    #![trigger spans[i]]
                    0 <= i < spans.len() ==> 0 <= spans[i].0 <= spans[i].1 <= b.len() && segments@[i]@ == b.subrange(spans[i].0, spans[i].1),
                start <= cursor <= b.len(),
                skip_fill(b, cursor as int) == skip_fill(b, start as int),
            decreases b.len() - cursor,
        {
            cursor = cursor + 1;
        }
        if cursor >= input.len() {
            return Err(JpegError::TruncatedMarker);
        }
        assert(skip_fill(b, cursor as int) == cursor as int);
        let marker = input[cursor];
        cursor = cursor + 1;
        if marker == 0xda || marker == 0xd9 {
            assert(spans + Seq::<(int, int)>::empty() =~= spans);
            return Ok(segments);
        }
        if marker == 0x01 || (0xd0 <= marker && marker <= 0xd8) {
            continue;
        }
        if input.len() - cursor < 2 {
            return Err(JpegError::TruncatedSegmentLength);
        }
        let length: usize = input[cursor] as usize * 256 + input[cursor + 1] as usize;
        if length < 2 || length > input.len() - cursor {
            return Err(JpegError::InvalidSegmentLength);
        }
        cursor = cursor + length;
        if marker == 0xfe || (0xe1 <= marker && marker <= 0xed) || marker == 0xef {
            let seg = slice_subrange(input, start, cursor);
            let ghost old_segments = segments@;
            segments.push(seg);
            assert(segments@[segments@.len() - 1]@ == b.subrange(start as int, cursor as int));
            assert forall|i: int| 0 <= i < old_segments.len() implies segments@[i] == old_segments[i] by {}
            proof {
                let ghost old_spans = spans;
                spans = spans.push((start as int, cursor as int));
                assert forall|r: Seq<(int, int)>| old_spans + (seq![(start as int, cursor as int)] + r)
                    =~= spans + r by {}
                assert forall|i: int| 0 <= i < spans.len() implies 0 <= #[trigger] spans[i].0 <= spans[i].1 <= b.len()
                    && segments@[i]@ == b.subrange(spans[i].0, spans[i].1) by {
                    if i < old_spans.len() {
                        assert(spans[i] == old_spans[i]);
                        assert(segments@[i] == old_segments[i]);
                    } else {
                        assert(spans[i] == (start as int, cursor as int));
                    }
                }
            }
        }
    }
    assert(metadata_spans_from(b, cursor as int) == Ok::<Seq<(int, int)>, JpegError>(Seq::empty()));
    assert(spans + Seq::<(int, int)>::empty() =~= spans);
    Ok(segments)
}

/// Where metadata segments go in a freshly encoded JPEG: right after its
/// APP0 segment when it has one, else right after the SOI marker.
pub open spec fn app0_insert_offset(e: Seq<u8>) -> Result<int, JpegError> {
    if e.len() < 6 || !(e[2] == 0xff && e[3] == 0xe0) {
        Ok(2)
    } else {
        let length = be16(e, 4);
        if length < 2 || 4 + length > e.len() {
            Err(JpegError::InvalidApp0Length)
        } else {
            Ok(4 + length)
        }
    }
}

/// The re-encoded JPEG with the metadata segments of the original inserted.
pub open spec fn with_copied_metadata(original: Seq<u8>, encoded: Seq<u8>) -> Result<Seq<u8>, JpegError> {
    if !starts_with_soi(encoded) {
        Err(JpegError::InvalidEncoded)
    } else {
        match jpeg_metadata_spans(original) {
            Err(e) => Err(e),
            Ok(spans) => if spans.len() == 0 {
                Ok(encoded)
            } else {
                match app0_insert_offset(encoded) {
                    Err(e) => Err(e),
                    Ok(at) => Ok(encoded.take(at) + concat_spans(original, spans) + encoded.skip(at)),
                }
            },
        }
    }
}

/// The offset in `encoded` where copied metadata segments are inserted.
pub fn jpeg_metadata_insert_offset(encoded: &[u8]) -> (r: Result<usize, JpegError>)
    ensures
        match (r, app0_insert_offset(encoded@)) {
            (Ok(n), Ok(m)) => n == m,
            (Err(e), Err(f)) => e == f,
            _ => false,
        },
{
    if encoded.len() < 6 || !(encoded[2] == 0xff && encoded[3] == 0xe0) {
        return Ok(2);
    }
    let length: usize = encoded[4] as usize * 256 + encoded[5] as usize;
    let end: usize = 4 + length;
    if length < 2 || end > encoded.len() {
        return Err(JpegError::InvalidApp0Length);
    }
    Ok(end)
}

/// Appends `src` to `out`.
fn push_all(out: &mut Vec<u8>, src: &[u8])
    ensures
        final(out)@ == old(out)@ + src@,
{
    let mut i: usize = 0;
    while i < src.len()
        invariant
            i <= src@.len(),
            out@ == old(out)@ + src@.take(i as int),
        decreases src@.len() - i,
    {
        out.push(src[i]);
        i = i + 1;
        assert(out@ =~= old(out)@ + src@.take(i as int));
    }
    assert(src@.take(src@.len() as int) =~= src@);
}

/// Copies the metadata segments (EXIF, XMP, comments, ...) of `original`
/// into the freshly encoded JPEG `encoded`, after its APP0 segment.
pub fn copy_jpeg_metadata(original: &[u8], encoded: &[u8]) -> (r: Result<Vec<u8>, JpegError>)
    ensures
        match (r, with_copied_metadata(original@, encoded@)) {
            (Ok(out), Ok(expected)) => out@ == expected,
            (Err(e), Err(f)) => e == f,
            _ => false,
        },
{
    if encoded.len() < 2 || encoded[0] != 0xff || encoded[1] != 0xd8 {
        return Err(JpegError::InvalidEncoded);
    }
    let segments = match jpeg_metadata_segments(original) {
        Ok(segments) => segments,
        Err(e) => return Err(e),
    };
    let ghost spans = jpeg_metadata_spans(original@)->Ok_0;
    if segments.len() == 0 {
        return Ok(vstd::slice::slice_to_vec(encoded));
    }
    let insert_at = match jpeg_metadata_insert_offset(encoded) {
        Ok(at) => at,
        Err(e) => return Err(e),
    };
    let mut output: Vec<u8> = Vec::new();
    push_all(&mut output, slice_subrange(encoded, 0, insert_at));
    let mut k: usize = 0;
    while k < segments.len()
        invariant
            segments@.len() == spans.len(),
            forall|i: int|
                0 <= i < spans.len() ==> (#[trigger] segments@[i])@ == original@.subrange(
                    spans[i].0,
                    spans[i].1,
                ),
            k <= segments@.len(),
            output@ == encoded@.take(insert_at as int) + concat_spans(original@, spans.take(k as int)),
        decreases segments@.len() - k,
    {
        push_all(&mut output, segments[k]);
        k = k + 1;
        assert(spans.take(k as int).drop_last() =~= spans.take(k - 1));
    }
    assert(spans.take(k as int) =~= spans);
    push_all(&mut output, slice_subrange(encoded, insert_at, encoded.len()));
    assert(encoded@.subrange(0, insert_at as int) =~= encoded@.take(insert_at as int));
    assert(encoded@.subrange(insert_at as int, encoded@.len() as int) =~= encoded@.skip(insert_at as int));
    Ok(output)
}

/// The segment starting at `start` is a copied metadata segment: it starts
/// with fill bytes `FF`, and its marker is COM, APP1-APP13 or APP15.
pub open spec fn is_copied_segment(b: Seq<u8>, start: int, end: int) -> bool {
    &&& 0 <= start
    &&& b[start] == 0xff
    &&& start < skip_fill(b, start) < end <= b.len()
    &&& is_copied_marker(b[skip_fill(b, start)])
}

proof fn lemma_spans_are_copied_segments(b: Seq<u8>, cursor: int)
    requires
        cursor >= 0,
    ensures
        metadata_spans_from(b, cursor) matches Ok(sp) ==> forall|i: int|
            0 <= i < sp.len() ==> is_copied_segment(b, #[trigger] sp[i].0, sp[i].1),
    decreases b.len() - cursor,
{
    if 0 <= cursor < b.len() && b[cursor] == 0xff {
        let m = skip_fill(b, cursor);
        lemma_skip_fill_ge(b, cursor);
        if m < b.len() {
            let marker = b[m];
            let c = m + 1;
            if !(marker == 0xda || marker == 0xd9) {
                if is_standalone_marker(marker) {
                    lemma_spans_are_copied_segments(b, c);
                } else if c + 2 <= b.len() {
                    let length = be16(b, c);
                    if length >= 2 && c + length <= b.len() {
                        lemma_spans_are_copied_segments(b, c + length);
                        if let Ok(rest) = metadata_spans_from(b, c + length) {
                            if is_copied_marker(marker) {
                                let sp = seq![(cursor, c + length)] + rest;
                                assert(m > cursor) by {
                                    assert(skip_fill(b, cursor) == skip_fill(b, cursor + 1));
                                    lemma_skip_fill_ge(b, cursor + 1);
                                }
                                assert forall|i: int| 0 <= i < sp.len() implies is_copied_segment(
                                    b,
                                    #[trigger] sp[i].0,
                                    sp[i].1,
                                ) by {
                                    if i > 0 {
                                        assert(sp[i] == rest[i - 1]);
                                    }
                                }
                            }
                        }
                    }
                }
            }
        }
    }
}

/// Only metadata is ever copied: every segment taken from the original is
/// a COM, APP1-APP13 or APP15 segment; APP0, the APP14 color-transform
/// segment and all image data are left behind.
pub proof fn lemma_copied_segments_are_metadata(b: Seq<u8>)
    ensures
        jpeg_metadata_spans(b) matches Ok(sp) ==> forall|i: int|
            0 <= i < sp.len() ==> is_copied_segment(b, #[trigger] sp[i].0, sp[i].1),
{
    lemma_spans_are_copied_segments(b, 2);
}

/// Copying metadata keeps the output a JPEG stream: it starts with the SOI
/// marker and ends with the encoded stream from the insertion point on.
pub proof fn lemma_copied_output_is_jpeg(original: Seq<u8>, encoded: Seq<u8>)
    ensures
        with_copied_metadata(original, encoded) matches Ok(out) ==> starts_with_soi(out) && (app0_insert_offset(
            encoded,
        ) matches Ok(at) ==> out.skip(out.len() - (encoded.len() - at)) == encoded.skip(at)),
{
    if let Ok(out) = with_copied_metadata(original, encoded) {
        if let Ok(at) = app0_insert_offset(encoded) {
            let spans = jpeg_metadata_spans(original)->Ok_0;
            if spans.len() == 0 {
                assert(out == encoded);
                assert(out.skip(out.len() - (encoded.len() - at)) =~= encoded.skip(at));
            } else {
                let meta = concat_spans(original, spans);
                assert(out == encoded.take(at) + meta + encoded.skip(at));
                assert(out[0] == encoded[0] && out[1] == encoded[1]);
                assert(out.skip(out.len() - (encoded.len() - at)) =~= encoded.skip(at));
            }
        }
    }
}

/// The bytes of the spans `spans` of `b`, each on its own.
pub open spec fn span_bytes(b: Seq<u8>, spans: Seq<(int, int)>) -> Seq<Seq<u8>> {
    spans.map_values(|sp: (int, int)| b.subrange(sp.0, sp.1))
}

/// A segment whose marker, after its `FF` fill bytes, is APP1: the home of
/// EXIF and XMP metadata.
pub open spec fn is_app1_segment(seg: Seq<u8>) -> bool {
    skip_fill(seg, 0) < seg.len() && seg[skip_fill(seg, 0)] == 0xe1
}

/// The segments other than APP1 segments, in order.
pub open spec fn without_app1(segs: Seq<Seq<u8>>) -> Seq<Seq<u8>>
    decreases segs.len(),
{
    if segs.len() == 0 {
        Seq::empty()
    } else if is_app1_segment(segs.last()) {
        without_app1(segs.drop_last())
    } else {
        without_app1(segs.drop_last()).push(segs.last())
    }
}

/// Segments laid end to end.
pub open spec fn concat_segments(segs: Seq<Seq<u8>>) -> Seq<u8>
    decreases segs.len(),
{
    if segs.len() == 0 {
        Seq::empty()
    } else {
        concat_segments(segs.drop_last()) + segs.last()
    }
}

/// The re-encoded JPEG with the metadata segments of the original inserted,
/// EXIF and XMP (APP1) left out.
pub open spec fn with_copied_metadata_except_exif(original: Seq<u8>, encoded: Seq<u8>) -> Result<Seq<u8>, JpegError> {
    if !starts_with_soi(encoded) {
        Err(JpegError::InvalidEncoded)
    } else {
        match jpeg_metadata_spans(original) {
            Err(e) => Err(e),
            Ok(spans) => {
                let segs = without_app1(span_bytes(original, spans));
                if segs.len() == 0 {
                    Ok(encoded)
                } else {
                    match app0_insert_offset(encoded) {
                        Err(e) => Err(e),
                        Ok(at) => Ok(encoded.take(at) + concat_segments(segs) + encoded.skip(at)),
                    }
                }
            },
        }
    }
}

/// Is `seg` an APP1 segment?
fn is_app1_segment_exec(seg: &[u8]) -> (b: bool)
    ensures
        b == is_app1_segment(seg@),
{
    let mut i: usize = 0;
    while i < seg.len() && seg[i] == 0xff
        invariant
            i <= seg@.len(),
            skip_fill(seg@, 0) == skip_fill(seg@, i as int),
        decreases seg@.len() - i,
    {
        i = i + 1;
    }
    i < seg.len() && seg[i] == 0xe1
}

/// Copies the metadata segments of `original` other than EXIF and XMP
/// (APP1) into the freshly encoded JPEG `encoded`, after its APP0 segment.
pub fn copy_jpeg_metadata_except_exif(original: &[u8], encoded: &[u8]) -> (r: Result<Vec<u8>, JpegError>)
    ensures
        match (r, with_copied_metadata_except_exif(original@, encoded@)) {
            (Ok(out), Ok(expected)) => out@ == expected,
            (Err(e), Err(f)) => e == f,
            _ => false,
        },
{
    if encoded.len() < 2 || encoded[0] != 0xff || encoded[1] != 0xd8 {
        return Err(JpegError::InvalidEncoded);
    }
    let segments = match jpeg_metadata_segments(original) {
        Ok(segments) => segments,
        Err(e) => return Err(e),
    };
    let ghost spans = jpeg_metadata_spans(original@)->Ok_0;
    let ghost all = span_bytes(original@, spans);
    let mut kept: Vec<&[u8]> = Vec::new();
    let mut k: usize = 0;
    while k < segments.len()
        invariant
            segments@.len() == spans.len(),
            all == span_bytes(original@, spans),
            forall|i: int|
                0 <= i < spans.len() ==> (#[trigger] segments@[i])@ == original@.subrange(
                    spans[i].0,
                    spans[i].1,
                ),
            k <= segments@.len(),
            kept@.map_values(|x: &[u8]| x@) == without_app1(all.take(k as int)),
        decreases segments@.len() - k,
    {
        assert(all.take(k + 1).drop_last() =~= all.take(k as int));
        assert(all.take(k + 1).last() == segments@[k as int]@);
        if !is_app1_segment_exec(segments[k]) {
            let ghost before = kept@;
            kept.push(segments[k]);
            assert(kept@.map_values(|x: &[u8]| x@) =~= before.map_values(|x: &[u8]| x@).push(segments@[k as int]@));
        }
        k = k + 1;
    }
    assert(all.take(k as int) =~= all);
    if kept.len() == 0 {
        return Ok(vstd::slice::slice_to_vec(encoded));
    }
    let insert_at = match jpeg_metadata_insert_offset(encoded) {
        Ok(at) => at,
        Err(e) => return Err(e),
    };
    let ghost segs = kept@.map_values(|x: &[u8]| x@);
    let mut output: Vec<u8> = Vec::new();
    push_all(&mut output, slice_subrange(encoded, 0, insert_at));
    let mut j: usize = 0;
    while j < kept.len()
        invariant
            segs == kept@.map_values(|x: &[u8]| x@),
            j <= kept@.len(),
            output@ == encoded@.take(insert_at as int) + concat_segments(segs.take(j as int)),
        decreases kept@.len() - j,
    {
        assert(segs.take(j + 1).drop_last() =~= segs.take(j as int));
        assert(segs.take(j + 1).last() == kept@[j as int]@);
        push_all(&mut output, kept[j]);
        j = j + 1;
    }
    assert(segs.take(j as int) =~= segs);
    push_all(&mut output, slice_subrange(encoded, insert_at, encoded.len()));
    assert(encoded@.subrange(0, insert_at as int) =~= encoded@.take(insert_at as int));
    assert(encoded@.subrange(insert_at as int, encoded@.len() as int) =~= encoded@.skip(insert_at as int));
    Ok(output)
}

/// No EXIF or XMP segment is copied when they are stripped: no segment
/// kept from the original is an APP1 segment.
pub proof fn lemma_no_app1_kept(segs: Seq<Seq<u8>>)
    ensures
        forall|i: int| 0 <= i < without_app1(segs).len() ==> !is_app1_segment(#[trigger] without_app1(segs)[i]),
    decreases segs.len(),
{
    if segs.len() > 0 {
        lemma_no_app1_kept(segs.drop_last());
        let prev = without_app1(segs.drop_last());
        let cur = without_app1(segs);
        assert forall|i: int| 0 <= i < cur.len() implies !is_app1_segment(#[trigger] cur[i]) by {
            if i < prev.len() {
                assert(cur[i] == prev[i]);
            }
        }
    }
}

/// The metadata segments of a JPEG stream lie after its SOI marker, inside
/// the stream, in order and without overlapping.
pub proof fn lemma_metadata_spans_well_placed(b: Seq<u8>)
    ensures
        jpeg_metadata_spans(b) matches Ok(sp) ==> spans_well_placed(b, sp, 2),
{
    lemma_spans_well_placed(b, 2);
}

/// The markers whose segments are carried over are exactly COM (`FE`),
/// APP1 to APP13 (`E1`..`ED`) and APP15 (`EF`).
pub proof fn lemma_copied_markers(m: u8)
    ensures
        is_copied_marker(m) <==> (m == 0xfe || (0xe1 <= m && m <= 0xed) || m == 0xef),
        !is_copied_marker(0xe0),
        !is_copied_marker(0xee),
        is_standalone_marker(m) <==> (m == 0x01 || (0xd0 <= m && m <= 0xd8)),
{
}

/// A segment that follows the SOI marker of a JPEG stream, with a marker
/// from `E0` to `FE` and a valid length, is the first segment carried over
/// exactly when its marker is COM, APP1 to APP13 or APP15; otherwise no
/// segment carried over starts before its end.
#[verifier::spinoff_prover]
pub proof fn lemma_first_segment_copied(b: Seq<u8>)
    requires
        b.len() >= 6,
        b[0] == 0xff,
        b[1] == 0xd8,
        b[2] == 0xff,
        0xe0 <= b[3] && b[3] <= 0xfe,
        b[4] as int * 256 + b[5] as int >= 2,
        4 + b[4] as int * 256 + b[5] as int <= b.len(),
        jpeg_metadata_spans(b) is Ok,
    ensures
        ({
            let m = b[3];
            let end = 4 + b[4] as int * 256 + b[5] as int;
            let sp = jpeg_metadata_spans(b)->Ok_0;
            &&& (m == 0xfe || (0xe1 <= m && m <= 0xed) || m == 0xef) ==> sp.len() > 0 && sp[0] == (2int, end)
            &&& !(m == 0xfe || (0xe1 <= m && m <= 0xed) || m == 0xef) ==> forall|i: int|
                0 <= i < sp.len() ==> #[trigger] sp[i].0 >= end
        }),
{
    let end = 4 + b[4] as int * 256 + b[5] as int;
    assert(skip_fill(b, 3) == 3);
    assert(skip_fill(b, 2) == 3);
    assert(be16(b, 4) == b[4] as int * 256 + b[5] as int);
    lemma_spans_well_placed(b, end);
}

} // verus!
