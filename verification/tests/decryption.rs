use alkali::symmetric::cipher_stream::{EncryptionStream, Key};
use dryoc::classic::crypto_secretstream_xchacha20poly1305::{
    crypto_secretstream_xchacha20poly1305_init_push, crypto_secretstream_xchacha20poly1305_push,
    State,
};
use flate2::write::ZlibEncoder;
use flate2::Compression;
use jdvrif::constants::{
    KDF_METADATA_REGION_BYTES, KDF_OPSLIMIT_OFFSET, STREAM_CHUNK_SIZE,
};
use jdvrif::decrypt::inflate::{inflate_verdict, InflateVerdict, StreamingInflater};
use jdvrif::decrypt::kdf::{
    current_kdf_params, decrypt_offsets, derive_key_from_pin, fill_kdf_metadata,
    get_kdf_metadata_version, read_kdf_params, write_kdf_metadata,
};
use jdvrif::decrypt::pin::{
    after_read, after_wait, PinEcho, PinEntry, ReadStep, WaitStep, WipeByteGuard, WipeVecGuard,
};
use jdvrif::decrypt::prefix::FilenamePrefixExtractor;
use jdvrif::decrypt::stream::{decrypt_ciphertext, DecryptStatus};
use jdvrif::encrypt::{encrypt_with_opened_stream, encrypt_with_secretstream};
use jdvrif::runtime::{JdvrifError, KdfMetadataVersion};
use jdvrif::zlib::InflateStatus;
use std::io::Write;

fn deflated(data: &[u8]) -> Vec<u8> {
    let mut encoder = ZlibEncoder::new(Vec::new(), Compression::default());
    encoder.write_all(data).unwrap();
    encoder.finish().unwrap()
}

fn error_of<T>(r: Result<T, JdvrifError>) -> JdvrifError {
    match r {
        Ok(_) => panic!("an error was expected"),
        Err(e) => e,
    }
}

fn fail_with_guards(input: &mut Vec<u8>, ch: &mut u8) -> Result<(), &'static str> {
    let _wipe_input = WipeVecGuard::new(input);
    let _wipe_ch = WipeByteGuard::new(ch);
    Err("cancel")
}

#[test]
fn pin_buffers_wipe_on_unwind() {
    let mut input = Vec::with_capacity(20);
    input.extend_from_slice(b"12345");
    input.push(b'6');
    input.pop();
    let mut ch = b'7';

    assert!(fail_with_guards(&mut input, &mut ch).is_err());
    assert!(
        input.is_empty(),
        "WipeVecGuard left PIN digits in the buffer after unwind"
    );
    assert_eq!(ch, 0, "WipeByteGuard left the last PIN byte after unwind");
}

#[test]
fn bounded_inflate_writer_rejects_oversize() {
    let compressed = deflated(b"123456789");
    let mut inflater = StreamingInflater::new(8);
    let err = inflater.consume(&compressed).expect_err("over limit");
    assert!(err.message().contains("exceeds safe size limit"));
}

#[test]
fn streaming_inflater_rejects_missing_checksum_and_trailing_data() {
    let compressed = deflated(b"authenticated compressed payload");

    let mut truncated = StreamingInflater::new(1024);
    truncated.consume(&compressed[..compressed.len() - 1]).unwrap();
    assert!(truncated.finish().unwrap_err().message().contains("truncated"));

    let mut with_trailing = StreamingInflater::new(1024);
    let mut bytes = compressed;
    bytes.push(0);
    assert!(with_trailing.consume(&bytes).unwrap_err().message().contains("trailing"));
}

#[test]
fn filename_prefix_extractor_splits_name_and_payload() {
    let mut ext = FilenamePrefixExtractor::new();
    let chunk = b"\x04namePAYLOAD";
    let start = ext.consume(chunk).expect("consume");
    let payload = &chunk[start..];
    assert!(ext.is_complete());
    assert_eq!(ext.into_filename().unwrap(), b"name");
    assert_eq!(payload, b"PAYLOAD");
}

#[test]
fn the_name_may_come_in_pieces() {
    let mut ext = FilenamePrefixExtractor::new();
    assert_eq!(ext.consume(b""), Ok(0));
    assert_eq!(ext.consume(b"\x04"), Ok(1));
    assert_eq!(ext.consume(b"na"), Ok(2));
    assert!(!ext.is_complete());
    assert_eq!(ext.consume(b"mePAY"), Ok(2));
    assert_eq!(ext.consume(b"LOAD"), Ok(0));
    assert!(ext.is_complete());

    let mut empty = FilenamePrefixExtractor::new();
    assert_eq!(empty.consume(b"\x00x"), Err(JdvrifError::CorruptFile));
}

#[test]
fn inflating_in_pieces_gives_the_same_bytes() {
    let data: Vec<u8> = (0..100_000u32).map(|i| (i * i >> 7) as u8).collect();
    let compressed = deflated(&data);
    let mut inflater = StreamingInflater::new(data.len());
    for piece in compressed.chunks(777) {
        inflater.consume(piece).unwrap();
    }
    assert_eq!(inflater.finish().unwrap(), data);

    let mut garbage = StreamingInflater::new(100);
    assert_eq!(garbage.consume(b"no zlib stream"), Err(JdvrifError::InflateFailed));
    assert_eq!(
        StreamingInflater::new(100).finish(),
        Err(JdvrifError::InflateTruncated)
    );
}

#[test]
fn each_inflate_step_has_its_verdict() {
    let go = InflateStatus::Running;
    let end = InflateStatus::StreamEnd;
    assert_eq!(inflate_verdict(end, 9, 5, 0, 0, 100), InflateVerdict::Ended);
    assert_eq!(inflate_verdict(go, 9, 5, 0, 0, 100), InflateVerdict::NeedInput);
    assert_eq!(inflate_verdict(go, 0, 0, 0, 0, 100), InflateVerdict::NeedInput);
    assert_eq!(inflate_verdict(go, 9, 5, 3, 95, 100), InflateVerdict::Again);
    assert_eq!(
        inflate_verdict(go, 9, 6, 3, 95, 100),
        InflateVerdict::Failed(JdvrifError::InflateOutputLimit)
    );
    assert_eq!(
        inflate_verdict(go, 0, 1, 0, usize::MAX, usize::MAX),
        InflateVerdict::Failed(JdvrifError::InflateOutputLimit)
    );
    assert_eq!(
        inflate_verdict(end, 9, 5, 1, 0, 100),
        InflateVerdict::Failed(JdvrifError::InflateTrailingData)
    );
    assert_eq!(
        inflate_verdict(go, 0, 0, 3, 0, 100),
        InflateVerdict::Failed(JdvrifError::InflateNoProgress)
    );
}

fn type_pin(keys: &[u8]) -> Result<u64, JdvrifError> {
    let mut entry = PinEntry::new();
    for key in keys {
        entry.key(*key);
    }
    entry.finish()
}

#[test]
fn a_pin_is_accepted_as_it_was_printed() {
    assert_eq!(type_pin(b"5608171548286279209"), Ok(5608171548286279209));
    assert_eq!(type_pin(b"18446744073709551615"), Ok(u64::MAX));
    assert_eq!(type_pin(b"1"), Ok(1));
    for refused in [
        b"".as_slice(),
        b"0",
        b"012",
        b"18446744073709551616",
        b"184467440737095516150",
    ] {
        assert_eq!(type_pin(refused), Err(JdvrifError::PinFormat));
    }
}

#[test]
fn backspace_undoes_a_digit() {
    assert_eq!(type_pin(b"129\x083"), Ok(123));
    assert_eq!(type_pin(b"129\x7F3"), Ok(123));
    // A digit too many counts until it is taken back.
    assert_eq!(type_pin(b"1844674407370955161500\x08\x08"), Ok(u64::MAX));
    assert_eq!(type_pin(b"\x0842"), Ok(42));
    assert_eq!(type_pin(b"4x2"), Ok(42));
}

#[test]
fn each_digit_is_echoed_as_a_star() {
    let mut entry = PinEntry::new();
    assert_eq!(entry.key(b'1'), PinEcho::Star);
    assert_eq!(entry.key(b'x'), PinEcho::Nothing);
    assert_eq!(entry.count(), 1);
    assert_eq!(entry.key(8), PinEcho::Erase);
    assert_eq!(entry.key(8), PinEcho::Nothing);
    assert_eq!(entry.key(b'\n'), PinEcho::Done);
    assert_eq!(entry.key(b'\r'), PinEcho::Done);
}

#[test]
fn waits_and_reads_are_retried_or_reported() {
    assert_eq!(after_wait(1, false), WaitStep::Read);
    assert_eq!(after_wait(0, false), WaitStep::Retry);
    assert_eq!(after_wait(-1, true), WaitStep::Retry);
    assert_eq!(after_wait(-1, false), WaitStep::Failed(JdvrifError::PinWait));
    assert_eq!(after_read(1, false), ReadStep::Key);
    assert_eq!(after_read(0, true), ReadStep::EndOfInput);
    assert_eq!(after_read(-1, true), ReadStep::Retry);
    assert_eq!(after_read(-1, false), ReadStep::Failed(JdvrifError::PinRead));
}

#[test]
fn metadata_is_read_back_as_written() {
    let mut segment = vec![0u8; 10 + KDF_METADATA_REGION_BYTES + 5];
    let salt = [7u8; 16];
    let header = [9u8; 24];
    write_kdf_metadata(&mut segment, 10, &salt, &header, current_kdf_params()).unwrap();
    assert_eq!(
        get_kdf_metadata_version(&segment, 10),
        KdfMetadataVersion::V4RecordedKdfParameters
    );
    let params =
        read_kdf_params(&segment, 10, KdfMetadataVersion::V4RecordedKdfParameters).unwrap();
    assert_eq!(params.opslimit, 2);
    assert_eq!(params.memlimit, 64 * 1024 * 1024);
    assert_eq!(&segment[10..14], b"KDF4");
    assert_eq!(&segment[10 + 8..10 + 24], &salt);
    assert_eq!(&segment[10 + 24..10 + 48], &header);
    assert_eq!(&segment[..10], &[0u8; 10]);
    assert_eq!(&segment[10 + KDF_METADATA_REGION_BYTES..], &[0u8; 5]);
}

#[test]
fn older_metadata_formats_are_recognised() {
    let mut segment = vec![0u8; KDF_METADATA_REGION_BYTES];
    write_kdf_metadata(&mut segment, 0, &[1; 16], &[2; 24], current_kdf_params()).unwrap();
    for (digit, version) in [
        (b'2', KdfMetadataVersion::V2Secretstream),
        (b'3', KdfMetadataVersion::V3SecretstreamAuthenticatedMode),
        (b'4', KdfMetadataVersion::V4RecordedKdfParameters),
        (b'5', KdfMetadataVersion::Unrecognized),
    ] {
        segment[3] = digit;
        assert_eq!(get_kdf_metadata_version(&segment, 0), version);
    }
    assert_eq!(
        read_kdf_params(&segment, 0, KdfMetadataVersion::V2Secretstream),
        Ok(current_kdf_params())
    );
    assert_eq!(
        get_kdf_metadata_version(&segment[..20], 0),
        KdfMetadataVersion::Unrecognized
    );
}

#[test]
fn recorded_costs_out_of_range_are_refused() {
    let mut segment = vec![0u8; KDF_METADATA_REGION_BYTES];
    write_kdf_metadata(&mut segment, 0, &[1; 16], &[2; 24], current_kdf_params()).unwrap();
    let version = KdfMetadataVersion::V4RecordedKdfParameters;
    segment[KDF_OPSLIMIT_OFFSET..KDF_OPSLIMIT_OFFSET + 4].copy_from_slice(&16u32.to_be_bytes());
    assert!(read_kdf_params(&segment, 0, version).is_ok());
    for ops in [0u32, 17, u32::MAX] {
        segment[KDF_OPSLIMIT_OFFSET..KDF_OPSLIMIT_OFFSET + 4].copy_from_slice(&ops.to_be_bytes());
        assert_eq!(
            read_kdf_params(&segment, 0, version),
            Err(JdvrifError::UnsupportedKdfParameters)
        );
    }
}

#[test]
fn the_key_depends_on_pin_and_salt() {
    let params = current_kdf_params();
    let key = derive_key_from_pin(12345, &[1; 16], params).unwrap();
    assert_eq!(key.len(), 32);
    assert_eq!(derive_key_from_pin(12345, &[1; 16], params).unwrap(), key);
    assert_ne!(derive_key_from_pin(12346, &[1; 16], params).unwrap(), key);
    assert_ne!(derive_key_from_pin(12345, &[2; 16], params).unwrap(), key);
    assert_eq!(
        derive_key_from_pin(12345, &[1; 15], params),
        Err(JdvrifError::KeyDerivation)
    );
    // The password is the decimal text of the PIN.
    let mut by_hand = [0u8; 32];
    alkali::hash::pbkdf::argon2id::derive_key(
        b"12345",
        &[1; 16],
        params.opslimit,
        params.memlimit,
        &mut by_hand,
    )
    .unwrap();
    assert_eq!(key, by_hand);
}

#[test]
fn offsets_of_the_two_segment_formats() {
    assert_eq!(decrypt_offsets(false).sodium_key_index, 0x2FB);
    assert_eq!(decrypt_offsets(true).sodium_key_index, 0x18D);
}

#[test]
fn frames_are_opened_in_order_and_to_the_end() {
    let key = [0x42u8; 32];
    let data: Vec<u8> = (0..STREAM_CHUNK_SIZE + 5000).map(|i| (i % 249) as u8).collect();
    let sealed = match encrypt_with_secretstream(&data, data.len(), b"\x01n", 2, &key) {
        Ok(sealed) => sealed,
        Err(e) => panic!("{}", e.message()),
    };
    let v4 = KdfMetadataVersion::V4RecordedKdfParameters;
    match decrypt_ciphertext(&sealed.frames, &key, &sealed.header, v4, false) {
        Ok(DecryptStatus::Success { decrypted_filename, output }) => {
            assert_eq!(decrypted_filename, b"n");
            assert_eq!(output, data);
        }
        _ => panic!("the file is there"),
    }
    let failed = |frames: &[u8], key: &[u8], compressed: bool| {
        matches!(
            decrypt_ciphertext(frames, key, &sealed.header, v4, compressed),
            Ok(DecryptStatus::FailedPin)
        )
    };
    // Another key, a changed byte, a missing last frame, the other mode.
    assert!(failed(&sealed.frames, &[0x43; 32], false));
    let mut changed = sealed.frames.clone();
    let last = changed.len() - 1;
    changed[last] ^= 1;
    assert!(failed(&changed, &key, false));
    assert!(failed(&sealed.frames[..4 + STREAM_CHUNK_SIZE + 17], &key, false));
    assert!(failed(&sealed.frames, &key, true));
}

#[test]
fn a_file_without_a_name_is_corrupt() {
    let key = [0x42u8; 32];
    let sealed = match encrypt_with_secretstream(b"data", 4, b"\x00", 2, &key) {
        Ok(sealed) => sealed,
        Err(e) => panic!("{}", e.message()),
    };
    let v3 = KdfMetadataVersion::V3SecretstreamAuthenticatedMode;
    assert_eq!(
        error_of(decrypt_ciphertext(&sealed.frames, &key, &sealed.header, v3, false)),
        JdvrifError::CorruptFile
    );
}

#[test]
fn authentic_payloads_are_refused_for_what_is_wrong_with_them() {
    let key = [0x42u8; 32];
    let v4 = KdfMetadataVersion::V4RecordedKdfParameters;
    let opened = |payload: &[u8], mode: u8, compressed: bool| {
        let mut text = b"\x01n".to_vec();
        text.extend_from_slice(payload);
        match encrypt_with_secretstream(&text, text.len(), b"", mode, &key) {
            Ok(sealed) => decrypt_ciphertext(&sealed.frames, &key, &sealed.header, v4, compressed),
            Err(e) => panic!("{}", e.message()),
        }
    };
    assert_eq!(error_of(opened(b"", 2, false)), JdvrifError::OutputEmpty);
    assert_eq!(error_of(opened(&deflated(b""), 1, true)), JdvrifError::InflateOutputEmpty);
    assert_eq!(error_of(opened(b"", 1, true)), JdvrifError::InflateTruncated);
    assert_eq!(error_of(opened(b"no zlib stream", 1, true)), JdvrifError::InflateFailed);
    let mut trailing = deflated(b"file");
    trailing.push(0);
    assert_eq!(error_of(opened(&trailing, 1, true)), JdvrifError::InflateTrailingData);
    assert!(opened(&deflated(b"file"), 1, true).is_ok());
}

#[test]
fn an_opened_stream_encrypts_frame_by_frame() {
    let key = [0x42u8; 32];
    let stream = EncryptionStream::new(&Key::try_from(&key[..]).unwrap()).unwrap();
    let header = stream.get_header();
    let data = vec![5u8; STREAM_CHUNK_SIZE];
    let frames = encrypt_with_opened_stream(stream, &data, b"\x01n", 2).unwrap();
    assert_eq!(frames.len(), STREAM_CHUNK_SIZE + 2 + 2 * 21);
    assert_eq!(&frames[..4], &(STREAM_CHUNK_SIZE as u32 + 17).to_be_bytes());
    assert_eq!(&frames[STREAM_CHUNK_SIZE + 21..STREAM_CHUNK_SIZE + 25], &19u32.to_be_bytes());
    let v4 = KdfMetadataVersion::V4RecordedKdfParameters;
    match decrypt_ciphertext(&frames, &key, &header, v4, false) {
        Ok(DecryptStatus::Success { output, .. }) => assert_eq!(output, data),
        _ => panic!("the file is there"),
    }
}

#[test]
fn filler_stays_where_the_format_is_open() {
    let mut segment = vec![0u8; KDF_METADATA_REGION_BYTES + 1];
    let filler = vec![0xEE; KDF_METADATA_REGION_BYTES];
    fill_kdf_metadata(&mut segment, 1, &[1; 16], &[2; 24], current_kdf_params(), filler);
    assert_eq!(&segment[1..9], b"KDF4\x01\xA5\xEE\xEE");
    assert_eq!(&segment[9..25], &[1; 16]);
    assert_eq!(&segment[25..49], &[2; 24]);
    assert_eq!(&segment[49..53], &2u32.to_be_bytes());
    assert_eq!(&segment[53..57], &(64u32 * 1024 * 1024).to_be_bytes());
}

#[test]
fn a_frame_with_an_undefined_tag_is_not_authentic() {
    let key = [0x42u8; 32];
    let v4 = KdfMetadataVersion::V4RecordedKdfParameters;
    let ciphertext = |tag: u8| {
        let mut state = State::new();
        let mut header = [0u8; 24];
        crypto_secretstream_xchacha20poly1305_init_push(&mut state, &mut header, &key);
        let mut frame = vec![0u8; 6 + 17];
        crypto_secretstream_xchacha20poly1305_push(
            &mut state,
            &mut frame,
            b"\x01ndata",
            Some(&[2]),
            tag,
        )
        .unwrap();
        let mut cipher = (frame.len() as u32).to_be_bytes().to_vec();
        cipher.extend_from_slice(&frame);
        (cipher, header)
    };
    let (cipher, header) = ciphertext(3);
    match decrypt_ciphertext(&cipher, &key, &header, v4, false) {
        Ok(DecryptStatus::Success { decrypted_filename, output }) => {
            assert_eq!(decrypted_filename, b"n");
            assert_eq!(output, b"data");
        }
        _ => panic!("the file is there"),
    }
    // The other defined tags do not end the stream; undefined ones are refused.
    for tag in [0u8, 1, 2, 4, 7, 0x83, 255] {
        let (cipher, header) = ciphertext(tag);
        assert!(matches!(
            decrypt_ciphertext(&cipher, &key, &header, v4, false),
            Ok(DecryptStatus::FailedPin)
        ));
    }
}

#[test]
fn an_undefined_tag_ends_the_stream_early() {
    let key = [0x42u8; 32];
    let v4 = KdfMetadataVersion::V4RecordedKdfParameters;
    let mut state = State::new();
    let mut header = [0u8; 24];
    crypto_secretstream_xchacha20poly1305_init_push(&mut state, &mut header, &key);
    let mut two_frames = |tag: u8| {
        let mut state = state.clone();
        let mut cipher = Vec::new();
        for (message, tag) in [(b"\x01nda".as_slice(), tag), (b"ta".as_slice(), 3)] {
            let mut frame = vec![0u8; message.len() + 17];
            crypto_secretstream_xchacha20poly1305_push(
                &mut state,
                &mut frame,
                message,
                Some(&[2]),
                tag,
            )
            .unwrap();
            cipher.extend_from_slice(&(frame.len() as u32).to_be_bytes());
            cipher.extend_from_slice(&frame);
        }
        decrypt_ciphertext(&cipher, &key, &header, v4, false)
    };
    for tag in [0u8, 1, 2] {
        match two_frames(tag) {
            Ok(DecryptStatus::Success { output, .. }) => assert_eq!(output, b"data"),
            _ => panic!("the file is there"),
        }
    }
    assert!(matches!(two_frames(4), Ok(DecryptStatus::FailedPin)));
}

#[test]
fn bytes_behind_a_stream_are_trailing_data() {
    let data = vec![7u8; 5_000_000];
    let mut bytes = deflated(&data);
    let complete = bytes.len();
    bytes.extend_from_slice(b"more");
    // In one piece, split at the end of the stream, and split behind it.
    assert_eq!(
        StreamingInflater::new(data.len()).consume(&bytes),
        Err(JdvrifError::InflateTrailingData)
    );
    for at in [complete, complete + 1] {
        let mut inflater = StreamingInflater::new(data.len());
        let first = inflater.consume(&bytes[..at]);
        if at == complete {
            assert_eq!(first, Ok(()));
            assert_eq!(inflater.consume(&bytes[at..]), Err(JdvrifError::InflateTrailingData));
        } else {
            assert_eq!(first, Err(JdvrifError::InflateTrailingData));
        }
    }
    assert_eq!(
        StreamingInflater::new(data.len() - 1).consume(&bytes),
        Err(JdvrifError::InflateOutputLimit)
    );
}

#[test]
fn trailing_data_is_found_before_a_missing_end() {
    let key = [0x42u8; 32];
    let v4 = KdfMetadataVersion::V4RecordedKdfParameters;
    // One ordinary frame, and no final one.
    let opened = |payload: &[u8]| {
        let mut state = State::new();
        let mut header = [0u8; 24];
        crypto_secretstream_xchacha20poly1305_init_push(&mut state, &mut header, &key);
        let mut message = b"\x01n".to_vec();
        message.extend_from_slice(payload);
        let mut frame = vec![0u8; message.len() + 17];
        crypto_secretstream_xchacha20poly1305_push(&mut state, &mut frame, &message, Some(&[1]), 0)
            .unwrap();
        let mut cipher = (frame.len() as u32).to_be_bytes().to_vec();
        cipher.extend_from_slice(&frame);
        decrypt_ciphertext(&cipher, &key, &header, v4, true)
    };
    assert!(matches!(opened(&deflated(b"file")), Ok(DecryptStatus::FailedPin)));
    let mut trailing = deflated(b"file");
    trailing.push(0);
    assert_eq!(error_of(opened(&trailing)), JdvrifError::InflateTrailingData);
}
