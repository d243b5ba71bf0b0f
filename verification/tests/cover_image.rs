use jdvrif::jpeg_preprocess::{
    exif_orientation_from_tiff, get_transform_op, inspect_transformed_jpeg, jpeg_prescan,
    plan_cover_transform, prepare_cover_image_for_conceal, quality_from_luminance_sum,
    DQT_8BIT_TABLE_SIZE, EXIF_SIG, TJXOPT_COPYNONE, TJXOPT_PROGRESSIVE, TJXOPT_TRIM,
    TJXOP_HFLIP, TJXOP_NONE, TJXOP_ROT180, TJXOP_ROT270, TJXOP_ROT90, TJXOP_TRANSPOSE,
    TJXOP_TRANSVERSE, TJXOP_VFLIP,
};
use jdvrif::runtime::JdvrifError;

fn append_segment(jpg: &mut Vec<u8>, marker: u8, payload: &[u8]) {
    let length = u16::try_from(payload.len() + 2).expect("test segment fits");
    jpg.extend_from_slice(&[0xFF, marker]);
    jpg.extend_from_slice(&length.to_be_bytes());
    jpg.extend_from_slice(payload);
}

fn sof_payload(width: u16, height: u16, first_table_id: u8) -> Vec<u8> {
    let mut payload = vec![
        8,
        (height >> 8) as u8,
        height as u8,
        (width >> 8) as u8,
        width as u8,
        3,
    ];
    payload.extend_from_slice(&[1, 0x22, first_table_id]);
    payload.extend_from_slice(&[2, 0x11, 1]);
    payload.extend_from_slice(&[3, 0x11, 1]);
    payload
}

/// A JPEG with one quantization table of equal entries and a frame header.
fn small_jpeg(width: u16, height: u16, entry: u8) -> Vec<u8> {
    let mut jpg = vec![0xFF, 0xD8];
    append_segment(&mut jpg, 0xE0, b"JFIF");
    let mut dqt_payload = vec![0];
    dqt_payload.extend_from_slice(&[entry; DQT_8BIT_TABLE_SIZE]);
    append_segment(&mut jpg, 0xDB, &dqt_payload);
    append_segment(&mut jpg, 0xC0, &sof_payload(width, height, 0));
    jpg
}

fn exif_with_orientation(orientation: u8) -> Vec<u8> {
    let mut exif = EXIF_SIG.to_vec();
    exif.extend_from_slice(&[
        b'I', b'I', 0x2A, 0x00, 0x08, 0x00, 0x00, 0x00, // TIFF header
        0x01, 0x00, // one IFD entry
        0x12, 0x01, // orientation tag
        0x03, 0x00, // SHORT
        0x01, 0x00, 0x00, 0x00, // count = 1
        orientation, 0x00, 0x00, 0x00,
    ]);
    exif
}

#[test]
fn prescan_walks_markers_and_finds_later_exif_segment() {
    let mut jpg = vec![0xFF, 0xD8];
    append_segment(&mut jpg, 0xE1, b"not Exif metadata");
    append_segment(&mut jpg, 0xE1, &exif_with_orientation(6));
    append_segment(&mut jpg, 0xC0, &sof_payload(600, 500, 0));

    let scan = jpeg_prescan(&jpg).expect("valid header walk");
    assert_eq!(scan.width, 600);
    assert_eq!(scan.height, 500);
    assert_eq!(scan.components, 3);
    assert_eq!(scan.orientation, Some(6));
}

#[test]
fn transformed_inspection_uses_sof_selected_quantization_table() {
    let mut jpg = vec![0xFF, 0xD8];
    let mut app_payload = vec![0u8; 200];
    // A raw signature search would mistake this decoy for the DQT marker.
    app_payload[40..44].copy_from_slice(&[0xFF, 0xDB, 0x00, 0x43]);
    append_segment(&mut jpg, 0xE0, &app_payload);

    let expected_dqt_offset = jpg.len();
    let mut dqt_payload = vec![0];
    dqt_payload.extend_from_slice(&[1; DQT_8BIT_TABLE_SIZE]);
    dqt_payload.push(1);
    dqt_payload.extend_from_slice(&[255; DQT_8BIT_TABLE_SIZE]);
    append_segment(&mut jpg, 0xDB, &dqt_payload);
    append_segment(&mut jpg, 0xC0, &sof_payload(800, 600, 1));

    let info = inspect_transformed_jpeg(&jpg);
    assert_eq!(info.offset, expected_dqt_offset);
    assert_eq!(info.width, 800);
    assert_eq!(info.height, 600);
    assert_eq!(info.quality, Some(1));
}

#[test]
fn transformed_inspection_rejects_missing_selected_table() {
    let mut jpg = vec![0xFF, 0xD8];
    let mut dqt_payload = vec![0];
    dqt_payload.extend_from_slice(&[32; DQT_8BIT_TABLE_SIZE]);
    append_segment(&mut jpg, 0xDB, &dqt_payload);
    append_segment(&mut jpg, 0xC0, &sof_payload(800, 600, 1));

    let info = inspect_transformed_jpeg(&jpg);
    assert!(info.quality.is_none());
}

#[test]
fn cover_read_rejects_growth_beyond_validated_size() {
    let err = plan_cover_transform(b"validated-plus-growth", 9, 1, true)
        .expect_err("growth must be rejected before JPEG parsing");
    assert!(err.message().contains("changed while reading"));
}

#[test]
fn covers_are_refused_for_what_is_wrong_with_them() {
    let plan = |jpg: &[u8]| plan_cover_transform(jpg, jpg.len(), 1, true);
    assert_eq!(plan(b""), Err(JdvrifError::CoverEmpty));
    assert_eq!(plan(b"no jpeg"), Err(JdvrifError::CoverHeader));
    assert_eq!(
        plan(&small_jpeg(399, 500, 16)),
        Err(JdvrifError::CoverTooSmall { width: 399, height: 500 })
    );
    assert_eq!(
        plan(&small_jpeg(400, 4097, 16)),
        Err(JdvrifError::CoverDimensions { width: 400, height: 4097 })
    );
    let mut cmyk = small_jpeg(400, 400, 16);
    let components = cmyk.len() - 10;
    assert_eq!(cmyk[components], 3);
    cmyk[components] = 4;
    cmyk.extend_from_slice(&[4, 0x11, 1]);
    let length = components - 7;
    cmyk[length..length + 2].copy_from_slice(&20u16.to_be_bytes());
    assert_eq!(plan(&cmyk), Err(JdvrifError::CoverColorSpace { components: 4 }));
}

#[test]
fn the_transform_follows_orientation_and_mode() {
    let mut jpg = vec![0xFF, 0xD8];
    append_segment(&mut jpg, 0xE1, &exif_with_orientation(6));
    append_segment(&mut jpg, 0xC0, &sof_payload(600, 500, 0));
    let plain = TJXOPT_COPYNONE | TJXOPT_TRIM;

    let default = plan_cover_transform(&jpg, jpg.len(), 1, true).unwrap();
    assert_eq!(default.op, TJXOP_ROT90);
    assert_eq!(default.options, plain | TJXOPT_PROGRESSIVE);

    let other = plan_cover_transform(&jpg, jpg.len(), 1, false).unwrap();
    assert_eq!(other.options, plain);
    let large = plan_cover_transform(&jpg, jpg.len(), usize::MAX, true).unwrap();
    assert_eq!(large.options, plain);

    let upright = small_jpeg(600, 500, 16);
    assert_eq!(plan_cover_transform(&upright, upright.len(), 1, true).unwrap().op, TJXOP_NONE);
}

#[test]
fn each_orientation_has_its_transform() {
    let ops = [
        TJXOP_NONE,
        TJXOP_HFLIP,
        TJXOP_ROT180,
        TJXOP_VFLIP,
        TJXOP_TRANSPOSE,
        TJXOP_ROT90,
        TJXOP_TRANSVERSE,
        TJXOP_ROT270,
    ];
    for (i, op) in ops.iter().enumerate() {
        assert_eq!(get_transform_op(i as u16 + 1), *op);
    }
    assert_eq!(get_transform_op(0), TJXOP_NONE);
    assert_eq!(get_transform_op(9), TJXOP_NONE);
}

#[test]
fn the_prepared_cover_begins_at_its_quantization_table() {
    let jpg = small_jpeg(800, 600, 32);
    let prepared = prepare_cover_image_for_conceal(&jpg, false).unwrap();
    assert_eq!(prepared, &jpg[10..]);
    assert_eq!(&prepared[..2], &[0xFF, 0xDB]);
}

#[test]
fn prepared_covers_are_refused_for_what_is_wrong_with_them() {
    let prepare = |jpg: &[u8]| prepare_cover_image_for_conceal(jpg, false);
    assert_eq!(prepare(b"\xFF\xD8"), Err(JdvrifError::TransformedHeader));
    assert_eq!(
        prepare(&small_jpeg(399, 600, 32)),
        Err(JdvrifError::TransformedTooSmall { width: 399, height: 600 })
    );
    assert_eq!(
        prepare(&small_jpeg(800, 600, 1)),
        Err(JdvrifError::CoverQuality { quality: 100 })
    );
    let mut missing = vec![0xFF, 0xD8];
    append_segment(&mut missing, 0xC0, &sof_payload(800, 600, 1));
    assert_eq!(prepare(&missing), Err(JdvrifError::QuantizationTableMissing));
    let mut large = small_jpeg(800, 600, 32);
    large.resize(10 + 4 * 1024 * 1024 + 1, 0);
    assert_eq!(prepare(&large), Err(JdvrifError::CoverTooLarge));
    large.truncate(10 + 2_000_001);
    assert!(prepare(&large).is_ok());
    assert_eq!(
        prepare_cover_image_for_conceal(&large, true),
        Err(JdvrifError::CoverTooLargeBluesky)
    );
    large.truncate(10 + 2_000_000);
    assert!(prepare_cover_image_for_conceal(&large, true).is_ok());
}

#[test]
fn quality_of_a_luminance_sum() {
    assert_eq!(quality_from_luminance_sum(64), 100);
    assert_eq!(quality_from_luminance_sum(16320), 1);
    // The standard table sums to 3686 at quality 50.
    assert_eq!(quality_from_luminance_sum(3686), 50);
    assert_eq!(quality_from_luminance_sum(-5), 100);
}

#[test]
fn tiff_orientation_in_both_byte_orders() {
    let big = [
        b'M', b'M', 0x00, 0x2A, 0x00, 0x00, 0x00, 0x08, 0x00, 0x01, 0x01, 0x12, 0x00, 0x03, 0x00,
        0x00, 0x00, 0x01, 0x00, 0x08, 0x00, 0x00,
    ];
    assert_eq!(exif_orientation_from_tiff(&big), Some(8));
    assert_eq!(exif_orientation_from_tiff(&big[..21]), None);
    assert_eq!(exif_orientation_from_tiff(b"XX"), None);
    let mut unknown = big;
    unknown[11] = 0x13;
    assert_eq!(exif_orientation_from_tiff(&unknown), None);
}
