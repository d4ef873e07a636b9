use asset_squeeze::kinds::StripPolicy;
use asset_squeeze::png::{optimize_png, optimize_png_bytes};
use asset_squeeze::outcome::OptimizeOutcome;

const SIGNATURE: [u8; 8] = [0x89, b'P', b'N', b'G', 0x0d, 0x0a, 0x1a, 0x0a];

/// A 1x1 RGBA image with a deliberately poor (stored, uncompressed) IDAT.
fn tiny_png() -> Vec<u8> {
    vec![
        0x89, 0x50, 0x4e, 0x47, 0x0d, 0x0a, 0x1a, 0x0a, 0x00, 0x00, 0x00, 0x0d, 0x49, 0x48, 0x44, 0x52,
        0x00, 0x00, 0x00, 0x01, 0x00, 0x00, 0x00, 0x01, 0x08, 0x06, 0x00, 0x00, 0x00, 0x1f, 0x15, 0xc4,
        0x89, 0x00, 0x00, 0x00, 0x0a, 0x49, 0x44, 0x41, 0x54, 0x78, 0x9c, 0x63, 0x00, 0x01, 0x00, 0x00,
        0x05, 0x00, 0x01, 0x0d, 0x0a, 0x2d, 0xb4, 0x00, 0x00, 0x00, 0x00, 0x49, 0x45, 0x4e, 0x44, 0xae,
        0x42, 0x60, 0x82,
    ]
}

#[test]
fn recompresses_a_png() {
    let input = tiny_png();
    let output = optimize_png_bytes(&input, 2, StripPolicy::Safe).unwrap();
    assert_eq!(&output[0..8], &SIGNATURE);
    assert!(output.len() <= input.len());
}

#[test]
fn refuses_data_that_is_not_png() {
    let result = optimize_png_bytes(b"definitely not a png", 2, StripPolicy::Safe);
    assert!(result.is_err());
    assert!(!result.unwrap_err().is_empty());
    let (outcome, write) = optimize_png(b"definitely not a png", 2, StripPolicy::All, false);
    assert!(matches!(outcome, OptimizeOutcome::Failed { .. }));
    assert!(write.is_none());
}

#[test]
fn levels_above_six_act_as_six() {
    let input = tiny_png();
    assert_eq!(
        optimize_png_bytes(&input, 9, StripPolicy::All),
        optimize_png_bytes(&input, 6, StripPolicy::All)
    );
}

#[test]
fn small_results_are_kept_only_when_smaller() {
    let input = tiny_png();
    let (outcome, write) = optimize_png(&input, 2, StripPolicy::Safe, true);
    assert!(write.is_none());
    match outcome {
        OptimizeOutcome::Unchanged { size } => assert_eq!(size, input.len() as u64),
        OptimizeOutcome::Optimized { before, after } => {
            assert_eq!(before, input.len() as u64);
            assert!(after < before);
        }
        other => panic!("unexpected outcome {other:?}"),
    }
}

/// CRC-32 (ISO-HDLC) of `bytes`, as PNG chunks carry it.
fn crc32(bytes: &[u8]) -> u32 {
    let mut crc: u32 = 0xffff_ffff;
    for &b in bytes {
        crc ^= b as u32;
        for _ in 0..8 {
            crc = if crc & 1 != 0 { (crc >> 1) ^ 0xedb8_8320 } else { crc >> 1 };
        }
    }
    !crc
}

/// `tiny_png` with a chunk of the given type and payload after `IHDR`.
fn with_chunk_after_header(kind: &[u8; 4], payload: &[u8]) -> Vec<u8> {
    let base = tiny_png();
    let mut chunk = Vec::new();
    chunk.extend_from_slice(&(payload.len() as u32).to_be_bytes());
    chunk.extend_from_slice(kind);
    chunk.extend_from_slice(payload);
    let mut covered = kind.to_vec();
    covered.extend_from_slice(payload);
    chunk.extend_from_slice(&crc32(&covered).to_be_bytes());
    let mut out = base[..33].to_vec();
    out.extend_from_slice(&chunk);
    out.extend_from_slice(&base[33..]);
    out
}

#[test]
fn the_sample_image_has_a_valid_header_crc() {
    let base = tiny_png();
    assert_eq!(crc32(&base[12..29]).to_be_bytes(), [base[29], base[30], base[31], base[32]]);
}

#[test]
fn empty_animation_chunks_are_refused_when_kept() {
    let message = "PNG animation chunk is too short to hold a sequence number";
    for kind in [b"fcTL", b"fdAT"] {
        let input = with_chunk_after_header(kind, &[]);
        for strip in [StripPolicy::Keep, StripPolicy::Safe] {
            assert_eq!(optimize_png_bytes(&input, 2, strip), Err(message.to_string()));
            let (outcome, write) = optimize_png(&input, 2, strip, false);
            match outcome {
                OptimizeOutcome::Failed { error } => assert_eq!(error, message),
                other => panic!("unexpected outcome {other:?}"),
            }
            assert!(write.is_none());
        }
    }
}

#[test]
fn empty_animation_chunks_are_handed_on_when_stripping_everything() {
    let input = with_chunk_after_header(b"fcTL", &[]);
    let result = optimize_png_bytes(&input, 2, StripPolicy::All);
    assert_ne!(result, Err("PNG animation chunk is too short to hold a sequence number".to_string()));
}

#[test]
fn sequence_numbers_in_animation_chunks_are_accepted() {
    let input = with_chunk_after_header(b"fdAT", &[0, 0, 0, 1]);
    let result = optimize_png_bytes(&input, 2, StripPolicy::Keep);
    assert_ne!(result, Err("PNG animation chunk is too short to hold a sequence number".to_string()));
}

/// A chunk of the given type and payload, with its CRC.
fn chunk(kind: &[u8; 4], payload: &[u8]) -> Vec<u8> {
    let mut out = Vec::new();
    out.extend_from_slice(&(payload.len() as u32).to_be_bytes());
    out.extend_from_slice(kind);
    out.extend_from_slice(payload);
    let mut covered = kind.to_vec();
    covered.extend_from_slice(payload);
    out.extend_from_slice(&crc32(&covered).to_be_bytes());
    out
}

/// `tiny_png` with the given chunks after `IHDR`.
fn with_chunks_after_header(chunks: &[Vec<u8>]) -> Vec<u8> {
    let base = tiny_png();
    let mut out = base[..33].to_vec();
    for c in chunks {
        out.extend_from_slice(c);
    }
    out.extend_from_slice(&base[33..]);
    out
}

#[test]
fn broken_files_get_the_png_readers_own_error() {
    let message = Err("PNG animation chunk is too short to hold a sequence number".to_string());
    // A short fcTL chunk with a wrong CRC: the reader stops at the CRC.
    let mut bad_crc = with_chunk_after_header(b"fcTL", &[]);
    bad_crc[33 + 8] ^= 0xff;
    assert_ne!(optimize_png_bytes(&bad_crc, 2, StripPolicy::Keep), message);
    // A header chunk with a wrong CRC before a short fcTL chunk.
    let mut bad_header = with_chunk_after_header(b"fcTL", &[]);
    bad_header[29] ^= 0xff;
    assert_ne!(optimize_png_bytes(&bad_header, 2, StripPolicy::Safe), message);
    // A wrong signature.
    let mut bad_signature = with_chunk_after_header(b"fdAT", &[]);
    bad_signature[1] = b'X';
    assert_ne!(optimize_png_bytes(&bad_signature, 2, StripPolicy::Keep), message);
    // A sequence number out of order before a short chunk.
    let out_of_order = with_chunks_after_header(&[chunk(b"fcTL", &[0, 0, 0, 5]), chunk(b"fdAT", &[])]);
    assert_ne!(optimize_png_bytes(&out_of_order, 2, StripPolicy::Keep), message);
    // A truncated chunk before a short one.
    let mut truncated = with_chunk_after_header(b"fcTL", &[]);
    truncated.truncate(33 + 10);
    let mut truncated_first = tiny_png()[..33].to_vec();
    truncated_first.extend_from_slice(&[0, 0, 0, 200]);
    truncated_first.extend_from_slice(b"tEXt");
    assert_ne!(optimize_png_bytes(&truncated, 2, StripPolicy::Keep), message);
    assert_ne!(optimize_png_bytes(&truncated_first, 2, StripPolicy::Keep), message);
}

#[test]
fn a_short_chunk_after_an_in_order_one_is_refused() {
    let input = with_chunks_after_header(&[chunk(b"fcTL", &[0, 0, 0, 0]), chunk(b"fdAT", &[])]);
    assert_eq!(
        optimize_png_bytes(&input, 2, StripPolicy::Keep),
        Err("PNG animation chunk is too short to hold a sequence number".to_string())
    );
}
