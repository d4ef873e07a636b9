use asset_squeeze::kinds::StripPolicy;
use asset_squeeze::outcome::{optimize_webp_lossless, webp_lossy_skip_reason, OptimizeOutcome};
use asset_squeeze::webp::{
    optimize_webp_container, read_u32_le, update_vp8x_flags, webp_has_animation, WebpChunk, WebpError,
};

fn fake_webp(chunks: &[(&[u8; 4], Vec<u8>)]) -> Vec<u8> {
    let mut bytes = Vec::new();
    bytes.extend_from_slice(b"RIFF");
    bytes.extend_from_slice(&[0, 0, 0, 0]);
    bytes.extend_from_slice(b"WEBP");

    for (fourcc, payload) in chunks {
        bytes.extend_from_slice(*fourcc);
        bytes.extend_from_slice(&(payload.len() as u32).to_le_bytes());
        bytes.extend_from_slice(payload);
        if payload.len() % 2 == 1 {
            bytes.push(0);
        }
    }

    let riff_size = (bytes.len() - 8) as u32;
    bytes[4..8].copy_from_slice(&riff_size.to_le_bytes());
    bytes
}

fn contains_chunk(webp: &[u8], fourcc: &[u8; 4]) -> bool {
    chunk_payload(webp, fourcc).is_some()
}

fn chunk_payload(webp: &[u8], fourcc: &[u8; 4]) -> Option<Vec<u8>> {
    let declared_end = read_u32_le(&webp[4..8]) as usize + 8;
    let mut cursor = 12;
    while cursor + 8 <= declared_end {
        let candidate = &webp[cursor..cursor + 4];
        let size = read_u32_le(&webp[cursor + 4..cursor + 8]) as usize;
        let payload_start = cursor + 8;
        let payload_end = payload_start + size;
        if candidate == fourcc {
            return Some(webp[payload_start..payload_end].to_vec());
        }
        cursor = payload_end + size % 2;
    }
    None
}

#[test]
fn strips_safe_webp_metadata_without_touching_image_payload() {
    let input = fake_webp(&[
        (b"VP8X", vec![0b0000_1100, 0, 0, 0, 9, 0, 0, 9, 0, 0]),
        (b"VP8L", vec![1, 2, 3, 4, 5]),
        (b"EXIF", b"camera".to_vec()),
        (b"XMP ", b"xmp".to_vec()),
    ]);

    let output = optimize_webp_container(&input, &StripPolicy::Safe).unwrap();

    assert!(output.len() < input.len());
    assert_eq!(&output[0..4], b"RIFF");
    assert_eq!(&output[8..12], b"WEBP");
    assert!(contains_chunk(&output, b"VP8L"));
    assert!(!contains_chunk(&output, b"EXIF"));
    assert!(!contains_chunk(&output, b"XMP "));
    assert_eq!(chunk_payload(&output, b"VP8L").unwrap(), vec![1, 2, 3, 4, 5]);
    assert_eq!(chunk_payload(&output, b"VP8X").unwrap()[0] & 0b0000_1100, 0);
}

#[test]
fn strip_all_webp_removes_icc_profile() {
    let input = fake_webp(&[
        (b"VP8X", vec![0b0010_0000, 0, 0, 0, 9, 0, 0, 9, 0, 0]),
        (b"ICCP", b"profile".to_vec()),
        (b"VP8 ", vec![9, 8, 7, 6]),
    ]);

    let safe_output = optimize_webp_container(&input, &StripPolicy::Safe).unwrap();
    let all_output = optimize_webp_container(&input, &StripPolicy::All).unwrap();

    assert!(contains_chunk(&safe_output, b"ICCP"));
    assert!(!contains_chunk(&all_output, b"ICCP"));
    assert_eq!(chunk_payload(&all_output, b"VP8X").unwrap()[0] & 0b0010_0000, 0);
    assert_eq!(chunk_payload(&all_output, b"VP8 ").unwrap(), vec![9, 8, 7, 6]);
}

#[test]
fn detects_animated_webp_chunks() {
    let still = fake_webp(&[(b"VP8 ", vec![1, 2, 3, 4])]);
    let animated = fake_webp(&[(b"VP8X", vec![0, 0, 0, 0]), (b"ANIM", vec![0, 0, 0, 0, 0, 0])]);

    assert!(!webp_has_animation(&still));
    assert!(webp_has_animation(&animated));
}

#[test]
fn animation_frames_alone_mark_an_animation() {
    let frames = fake_webp(&[(b"VP8X", vec![0, 0, 0, 0]), (b"ANMF", vec![1, 2, 3])]);
    assert!(webp_has_animation(&frames));
    assert!(!webp_has_animation(b"not a webp file at all"));
}

#[test]
fn keep_policy_returns_the_file_unchanged() {
    let input = fake_webp(&[(b"VP8 ", vec![1, 2]), (b"EXIF", b"camera".to_vec())]);
    let output = optimize_webp_container(&input, &StripPolicy::Keep).unwrap();
    assert_eq!(output, input);
    let garbage = b"garbage".to_vec();
    assert_eq!(optimize_webp_container(&garbage, &StripPolicy::Keep).unwrap(), garbage);
}

#[test]
fn nothing_to_strip_returns_the_same_bytes() {
    let input = fake_webp(&[(b"VP8L", vec![1, 2, 3])]);
    let output = optimize_webp_container(&input, &StripPolicy::All).unwrap();
    assert_eq!(output, input);
}

#[test]
fn trailing_bytes_after_the_riff_payload_are_dropped() {
    let mut input = fake_webp(&[(b"VP8L", vec![1, 2, 3, 4])]);
    let clean = input.clone();
    input.extend_from_slice(&[7, 7, 7]);
    let output = optimize_webp_container(&input, &StripPolicy::Safe).unwrap();
    assert_eq!(output, clean);
}

#[test]
fn rewriting_twice_changes_nothing_more() {
    let input = fake_webp(&[
        (b"VP8X", vec![0b0010_1100, 0, 0, 0, 9, 0, 0, 9, 0, 0]),
        (b"ICCP", b"profile".to_vec()),
        (b"VP8L", vec![1, 2, 3, 4, 5]),
        (b"EXIF", b"camera".to_vec()),
    ]);
    for strip in [StripPolicy::Safe, StripPolicy::All] {
        let once = optimize_webp_container(&input, &strip).unwrap();
        let twice = optimize_webp_container(&once, &strip).unwrap();
        assert_eq!(once, twice);
    }
}

#[test]
fn reports_each_container_error() {
    assert_eq!(optimize_webp_container(b"RIFX\0\0\0\0WEBP", &StripPolicy::Safe), Err(WebpError::InvalidHeader));

    let mut too_long = fake_webp(&[(b"VP8 ", vec![1, 2])]);
    too_long[4] = 0xff;
    assert_eq!(optimize_webp_container(&too_long, &StripPolicy::Safe), Err(WebpError::RiffSizeExceedsFile));

    let mut truncated_header = b"RIFF".to_vec();
    truncated_header.extend_from_slice(&8u32.to_le_bytes());
    truncated_header.extend_from_slice(b"WEBPVP8 ");
    assert_eq!(
        optimize_webp_container(&truncated_header, &StripPolicy::Safe),
        Err(WebpError::TruncatedChunkHeader)
    );

    let mut truncated_payload = fake_webp(&[(b"VP8 ", vec![1, 2])]);
    truncated_payload[16] = 9;
    assert_eq!(
        optimize_webp_container(&truncated_payload, &StripPolicy::Safe),
        Err(WebpError::TruncatedChunkPayload)
    );

    let short_vp8x = fake_webp(&[(b"VP8X", vec![0, 0]), (b"EXIF", vec![1, 2])]);
    assert_eq!(optimize_webp_container(&short_vp8x, &StripPolicy::Safe), Err(WebpError::Vp8xTooShort));

    let mut small_payload = fake_webp(&[(b"VP8X", vec![0; 10]), (b"EXIF", vec![1, 2])]);
    small_payload[16] = 9;
    assert_eq!(
        optimize_webp_container(&small_payload, &StripPolicy::Safe),
        Err(WebpError::Vp8xPayloadTooShort)
    );

    assert_eq!(WebpError::InvalidHeader.message(), "invalid WebP RIFF header");
    assert_eq!(WebpError::Vp8xTooShort.message(), "WebP VP8X chunk is too short");
}

#[test]
fn vp8x_flags_are_cleared_for_removed_metadata_only() {
    let mut bytes = b"VP8X".to_vec();
    bytes.extend_from_slice(&10u32.to_le_bytes());
    bytes.extend_from_slice(&[0b0010_1100, 0, 0, 0, 9, 0, 0, 9, 0, 0]);
    let mut chunk = WebpChunk { fourcc: *b"VP8X", bytes };
    update_vp8x_flags(&mut chunk, true, false, false).unwrap();
    assert_eq!(chunk.bytes[8], 0b0010_0100);
    update_vp8x_flags(&mut chunk, false, true, true).unwrap();
    assert_eq!(chunk.bytes[8], 0);

    let mut short = WebpChunk { fourcc: *b"VP8X", bytes: b"VP8X\x02\0\0\0ab".to_vec() };
    assert_eq!(update_vp8x_flags(&mut short, true, true, true), Err(WebpError::Vp8xTooShort));
    assert_eq!(short.bytes, b"VP8X\x02\0\0\0ab".to_vec());
}

#[test]
fn reads_little_endian_sizes() {
    assert_eq!(read_u32_le(&[0x78, 0x56, 0x34, 0x12]), 0x1234_5678);
    assert_eq!(read_u32_le(&[1, 0, 0, 0, 9]), 1);
}

#[test]
fn lossless_webp_outcomes() {
    let input = fake_webp(&[(b"VP8L", vec![1, 2, 3, 4]), (b"EXIF", b"camera".to_vec())]);
    let (outcome, write) = optimize_webp_lossless(&input, StripPolicy::Safe, false);
    match outcome {
        OptimizeOutcome::Optimized { before, after } => {
            assert_eq!(before, input.len() as u64);
            assert!(after < before);
        }
        other => panic!("unexpected outcome {other:?}"),
    }
    let written = write.unwrap();
    assert!(!contains_chunk(&written, b"EXIF"));

    let (dry, dry_write) = optimize_webp_lossless(&input, StripPolicy::Safe, true);
    assert!(matches!(dry, OptimizeOutcome::Optimized { .. }));
    assert!(dry_write.is_none());

    let (skipped, none) = optimize_webp_lossless(b"not webp", StripPolicy::Safe, false);
    match skipped {
        OptimizeOutcome::Skipped { reason, size } => {
            assert_eq!(reason, "invalid WebP RIFF header");
            assert_eq!(size, 8);
        }
        other => panic!("unexpected outcome {other:?}"),
    }
    assert!(none.is_none());
}

#[test]
fn lossy_webp_skips_animations_and_missing_tools() {
    let still = fake_webp(&[(b"VP8 ", vec![1, 2, 3, 4])]);
    let animated = fake_webp(&[(b"VP8X", vec![0, 0, 0, 0]), (b"ANIM", vec![0, 0, 0, 0, 0, 0])]);
    assert_eq!(
        webp_lossy_skip_reason(&animated, true),
        Some("animated WebP lossy re-encoding is not supported")
    );
    assert_eq!(webp_lossy_skip_reason(&still, false), Some("lossy WebP requires bundled cwebp and dwebp"));
    assert_eq!(webp_lossy_skip_reason(&still, true), None);
}

#[test]
fn rewrites_are_never_longer() {
    let plain = fake_webp(&[(b"VP8L", vec![1, 2, 3])]);
    let with_exif = fake_webp(&[(b"VP8L", vec![1, 2, 3]), (b"EXIF", vec![9; 6])]);
    let with_icc = fake_webp(&[(b"VP8L", vec![1, 2, 3]), (b"ICCP", vec![8; 4])]);
    for input in [&plain, &with_exif, &with_icc] {
        for strip in [StripPolicy::Keep, StripPolicy::Safe, StripPolicy::All] {
            let output = optimize_webp_container(input, &strip).unwrap();
            assert!(output.len() <= input.len());
        }
    }
    assert!(optimize_webp_container(&with_exif, &StripPolicy::Safe).unwrap().len() < with_exif.len());
    assert_eq!(optimize_webp_container(&with_icc, &StripPolicy::Safe).unwrap(), with_icc);
    assert!(optimize_webp_container(&with_icc, &StripPolicy::All).unwrap().len() < with_icc.len());
}
