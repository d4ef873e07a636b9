use asset_squeeze::jpeg::{
    copy_jpeg_metadata, copy_jpeg_metadata_except_exif, jpeg_metadata_insert_offset, jpeg_metadata_segments, JpegError,
};
use asset_squeeze::kinds::StripPolicy;
use asset_squeeze::outcome::{finish_jpeg_lossy, OptimizeOutcome};

#[test]
fn copies_jpeg_metadata_but_not_color_transform_markers() {
    let original = [
        0xff, 0xd8, // SOI
        0xff, 0xe1, 0x00, 0x05, b'E', b'X', b'I', // APP1
        0xff, 0xee, 0x00, 0x05, b'A', b'D', b'B', // APP14
        0xff, 0xdb, 0x00, 0x04, 0x01, 0x02, // DQT
        0xff, 0xda, 0x00, 0x02, // SOS
    ];
    let encoded = [0xff, 0xd8, 0xff, 0xdb, 0x00, 0x04, 0x03, 0x04, 0xff, 0xd9];

    let output = copy_jpeg_metadata(&original, &encoded).unwrap();

    assert!(output.windows(3).any(|window| window == b"EXI"));
    assert!(!output.windows(3).any(|window| window == b"ADB"));
    assert!(output.ends_with(&encoded[2..]));
}

#[test]
fn metadata_goes_after_the_encoders_app0_segment() {
    let original = [0xff, 0xd8, 0xff, 0xfe, 0x00, 0x04, b'h', b'i', 0xff, 0xd9];
    let encoded = [0xff, 0xd8, 0xff, 0xe0, 0x00, 0x04, 0x4a, 0x46, 0xff, 0xd9];

    assert_eq!(jpeg_metadata_insert_offset(&encoded), Ok(8));
    let output = copy_jpeg_metadata(&original, &encoded).unwrap();
    assert_eq!(
        output,
        vec![0xff, 0xd8, 0xff, 0xe0, 0x00, 0x04, 0x4a, 0x46, 0xff, 0xfe, 0x00, 0x04, b'h', b'i', 0xff, 0xd9]
    );
}

#[test]
fn finds_metadata_segments_in_order() {
    let input = [
        0xff, 0xd8, // SOI
        0xff, 0xe0, 0x00, 0x03, 0x00, // APP0, not copied
        0xff, 0xff, 0xe2, 0x00, 0x03, 0x07, // APP2 after a fill byte
        0xff, 0xd0, // RST0, stand-alone
        0xff, 0xef, 0x00, 0x02, // APP15
        0xff, 0xd9, // EOI
        0xff, 0xe1, 0x00, 0x02, // after EOI: ignored
    ];
    let segments = jpeg_metadata_segments(&input).unwrap();
    assert_eq!(segments, vec![&input[7..13], &input[15..19]]);
}

#[test]
fn reports_each_jpeg_error() {
    assert_eq!(jpeg_metadata_segments(&[0x00, 0xd8]), Err(JpegError::InvalidHeader));
    assert_eq!(jpeg_metadata_segments(&[0xff, 0xd8, 0x00]), Err(JpegError::InvalidMarker));
    assert_eq!(jpeg_metadata_segments(&[0xff, 0xd8, 0xff, 0xff]), Err(JpegError::TruncatedMarker));
    assert_eq!(jpeg_metadata_segments(&[0xff, 0xd8, 0xff, 0xe1, 0x00]), Err(JpegError::TruncatedSegmentLength));
    assert_eq!(
        jpeg_metadata_segments(&[0xff, 0xd8, 0xff, 0xe1, 0x00, 0x09, 0x01]),
        Err(JpegError::InvalidSegmentLength)
    );
    assert_eq!(
        jpeg_metadata_segments(&[0xff, 0xd8, 0xff, 0xe1, 0x00, 0x01]),
        Err(JpegError::InvalidSegmentLength)
    );
    assert_eq!(copy_jpeg_metadata(&[0xff, 0xd8], &[0x00, 0x00]), Err(JpegError::InvalidEncoded));
    assert_eq!(
        jpeg_metadata_insert_offset(&[0xff, 0xd8, 0xff, 0xe0, 0x00, 0x09]),
        Err(JpegError::InvalidApp0Length)
    );
    assert_eq!(jpeg_metadata_insert_offset(&[0xff, 0xd8, 0xff, 0xdb]), Ok(2));
    assert_eq!(JpegError::InvalidEncoded.message(), "cjpeg produced an invalid JPEG");
    assert_eq!(JpegError::InvalidHeader.message(), "invalid JPEG header");
}

#[test]
fn without_metadata_the_encoded_stream_is_kept() {
    let original = [0xff, 0xd8, 0xff, 0xda, 0x00, 0x02];
    let encoded = [0xff, 0xd8, 0xff, 0xd9];
    assert_eq!(copy_jpeg_metadata(&original, &encoded).unwrap(), encoded.to_vec());
}

#[test]
fn lossy_jpeg_results() {
    let original = [
        0xff, 0xd8, 0xff, 0xe1, 0x00, 0x05, b'E', b'X', b'I', 0xff, 0xda, 0x00, 0x02, 0x01, 0x02, 0x03, 0x04,
        0x05,
    ];
    let encoded = [0xff, 0xd8, 0xff, 0xd9];

    let (outcome, write) = finish_jpeg_lossy(&original, &encoded, StripPolicy::Keep, false);
    match outcome {
        OptimizeOutcome::Optimized { before, after } => {
            assert_eq!(before, 18);
            assert_eq!(after, 11);
        }
        other => panic!("unexpected outcome {other:?}"),
    }
    assert_eq!(write.unwrap(), vec![0xff, 0xd8, 0xff, 0xe1, 0x00, 0x05, b'E', b'X', b'I', 0xff, 0xd9]);

    let (stripped, bytes) = finish_jpeg_lossy(&original, &encoded, StripPolicy::All, false);
    assert!(matches!(stripped, OptimizeOutcome::Optimized { before: 18, after: 4 }));
    assert_eq!(bytes.unwrap(), encoded.to_vec());

    let (safe, safe_bytes) = finish_jpeg_lossy(&original, &encoded, StripPolicy::Safe, false);
    assert!(matches!(safe, OptimizeOutcome::Optimized { before: 18, after: 4 }));
    assert_eq!(safe_bytes.unwrap(), encoded.to_vec());

    let (failed, none) = finish_jpeg_lossy(&original, &[0x00, 0x01], StripPolicy::Keep, false);
    match failed {
        OptimizeOutcome::Failed { error } => assert_eq!(error, "cjpeg produced an invalid JPEG"),
        other => panic!("unexpected outcome {other:?}"),
    }
    assert!(none.is_none());
}

#[test]
fn safe_copy_leaves_exif_and_xmp_out() {
    let original = [
        0xff, 0xd8, // SOI
        0xff, 0xe1, 0x00, 0x05, b'E', b'X', b'I', // APP1 (EXIF)
        0xff, 0xe2, 0x00, 0x05, b'I', b'C', b'C', // APP2 (ICC)
        0xff, 0xfe, 0x00, 0x04, b'h', b'i', // COM
        0xff, 0xda, 0x00, 0x02, // SOS
    ];
    let encoded = [0xff, 0xd8, 0xff, 0xd9];
    let output = copy_jpeg_metadata_except_exif(&original, &encoded).unwrap();
    assert_eq!(
        output,
        vec![0xff, 0xd8, 0xff, 0xe2, 0x00, 0x05, b'I', b'C', b'C', 0xff, 0xfe, 0x00, 0x04, b'h', b'i', 0xff, 0xd9]
    );

    let only_exif = [0xff, 0xd8, 0xff, 0xe1, 0x00, 0x03, 0x01, 0xff, 0xd9];
    assert_eq!(copy_jpeg_metadata_except_exif(&only_exif, &encoded).unwrap(), encoded.to_vec());
    assert_eq!(copy_jpeg_metadata_except_exif(&only_exif, &[0x00]), Err(JpegError::InvalidEncoded));
}
