use jdvrif::output_file::{
    after_link, after_pin_delivery, CommitOutcome, DeliveryStep, FileRegion, FileSend, LinkResult,
    LinkStep, OutputFile, PayloadSource, PinDelivery, SendResult, SendStep, StagedOutput,
    SENDFILE_MAX,
};
use jdvrif::paths::{join_path, random_path_token, staged_name_prefix, token_from_bytes, UniquePathSearch};
use jdvrif::recover::output::{
    recovery_candidate, recovery_success_text, safe_recovery_path, RecoveryNames,
};
use jdvrif::runtime::JdvrifError;

#[test]
fn buffered_writes_and_sendfrom_preserve_byte_order() {
    let src = b"PAYLOAD-BYTES-1234567890";
    let mut file = Vec::new();
    let mut out = OutputFile::create(8); // tiny buffer forces drains
    file.extend(out.write(b"HEADER:"));
    // bytes [8, 8+8) of the source come between the buffered writes
    file.extend(out.drain());
    let mut send = FileSend::new(8, 8);
    while !send.is_done() {
        let (offset, length) = send.next_piece(3);
        file.extend_from_slice(&src[offset..offset + length]);
        let step = send.settle(SendResult::Sent(length));
        assert!(matches!(step, SendStep::Again | SendStep::Done));
    }
    file.extend(out.write(b":TAIL"));
    file.extend(out.drain());
    assert_eq!(file, b"HEADER:BYTES-12:TAIL");
}

#[test]
fn payload_source_emits_template_prefix_then_streams_encrypted() {
    let encrypted = b"ENCRYPTED-TAIL-BYTES";
    let template = b"TPL".to_vec();
    let mut out = OutputFile::create(4); // tiny buffer
    let mut file = Vec::new();
    let mut ps = PayloadSource::new(&template, 7, encrypted.len());
    assert_eq!(ps.encrypted_fd(), 7);
    for size in [3, 6] {
        let copy = ps.copy_to(&mut out, size);
        let region = copy.send.unwrap();
        file.extend(copy.flush);
        file.extend_from_slice(&encrypted[region.offset..region.offset + region.length]);
    }
    file.extend(out.drain());
    assert_eq!(file, b"TPLENCRYP");
    assert!(!ps.exhausted()); // 14 encrypted bytes still unsent
    assert_eq!(ps.copy_to(&mut out, 15).send, Err(JdvrifError::PayloadShort));
    assert_eq!(ps.copy_to(&mut out, 14).send, Ok(FileRegion { offset: 6, length: 14 }));
    assert!(ps.exhausted());
}

#[test]
fn the_template_is_written_though_the_file_is_too_short() {
    let template = b"TEMPLATE".to_vec();
    let mut out = OutputFile::create(4); // what does not fit drives out the rest
    assert_eq!(out.write(b"abc"), b"");
    let mut ps = PayloadSource::new(&template, 0, 2);
    let copy = ps.copy_to(&mut out, 11);
    assert_eq!(copy.send, Err(JdvrifError::PayloadShort));
    let mut file = copy.flush;
    file.extend(out.drain());
    assert_eq!(file, b"abcTEMPLATE");
    // What there is of the file can still be had.
    assert_eq!(ps.copy_to(&mut out, 2).send, Ok(FileRegion { offset: 0, length: 2 }));
    assert!(ps.exhausted());
}

#[test]
fn an_image_gets_its_name_only_after_its_pin_was_shown() {
    assert_eq!(after_pin_delivery(PinDelivery::Flushed), DeliveryStep::Commit);
    for failed in [PinDelivery::NotFlushed, PinDelivery::NotWritten] {
        assert_eq!(
            after_pin_delivery(failed),
            DeliveryStep::Discard(JdvrifError::PinNotDelivered)
        );
    }
    assert_eq!(
        after_pin_delivery(PinDelivery::Interrupted),
        DeliveryStep::Discard(JdvrifError::Interrupted)
    );
    assert_eq!(
        JdvrifError::PinNotDelivered.message(),
        "Output Error: Failed to deliver recovery PIN."
    );
}

#[test]
fn a_piece_may_cross_from_the_template_into_the_file() {
    let template = b"TPL".to_vec();
    let mut out = OutputFile::create(64);
    let mut ps = PayloadSource::new(&template, 0, 5);
    let copy = ps.copy_to(&mut out, 4);
    assert_eq!(copy.flush, b"TPL");
    assert_eq!(copy.send, Ok(FileRegion { offset: 0, length: 1 }));
}

#[test]
fn large_writes_go_straight_to_the_file() {
    let mut out = OutputFile::create(4);
    assert_eq!(out.write(b"ab"), b"");
    assert_eq!(out.write(b"cde"), b"ab");
    assert_eq!(out.write(b"fghi"), b"cdefghi");
    assert_eq!(out.drain(), b"");
}

#[test]
fn a_send_settles_each_result() {
    let mut send = FileSend::new(100, 10);
    assert_eq!(send.next_piece(SENDFILE_MAX), (100, 10));
    assert_eq!(send.settle(SendResult::Interrupted), SendStep::Again);
    assert_eq!(send.settle(SendResult::Unsupported), SendStep::Fallback);
    assert_eq!(send.settle(SendResult::Sent(4)), SendStep::Again);
    assert_eq!(send.next_piece(SENDFILE_MAX), (104, 6));
    assert_eq!(send.settle(SendResult::Unsupported), SendStep::Failed(JdvrifError::OutputWrite));
    assert_eq!(send.settle(SendResult::Failed), SendStep::Failed(JdvrifError::OutputWrite));
    assert_eq!(send.settle(SendResult::Sent(0)), SendStep::Failed(JdvrifError::OutputWrite));
    assert_eq!(send.settle(SendResult::Sent(6)), SendStep::Done);
    assert!(send.is_done());
}

#[test]
fn links_never_replace_an_existing_file() {
    assert_eq!(after_link(LinkResult::Linked, true), LinkStep::RemoveStaged);
    assert_eq!(after_link(LinkResult::AlreadyExists, true), LinkStep::Refuse);
    assert_eq!(after_link(LinkResult::AlreadyExists, false), LinkStep::Copy);
    assert_eq!(after_link(LinkResult::Failed, true), LinkStep::Copy);
}

#[test]
fn a_staged_output_is_kept_only_when_committed() {
    let mut staged = StagedOutput::new(b"jrif_1.jpg".to_vec(), b".tmp".to_vec());
    assert_eq!(staged.output_path(), b"jrif_1.jpg");
    assert_eq!(staged.staged_path(), b".tmp");
    assert_eq!(
        staged.commit(CommitOutcome::DestinationExists),
        Err(JdvrifError::CommitExists)
    );
    assert!(staged.is_active());
    assert_eq!(staged.commit(CommitOutcome::Failed), Err(JdvrifError::CommitFailed));
    assert!(staged.is_active());
    assert_eq!(staged.commit(CommitOutcome::Committed).unwrap(), b"jrif_1.jpg");
    assert!(!staged.is_active());
}

#[test]
fn safe_recovery_path_rejects_reserved_and_separators() {
    assert!(safe_recovery_path(b".".to_vec()).is_err());
    assert!(safe_recovery_path(b"..".to_vec()).is_err());
    assert!(safe_recovery_path(b"-evil".to_vec()).is_err());
    assert!(safe_recovery_path(b".hidden".to_vec()).is_err());
    assert!(safe_recovery_path(b"a/b".to_vec()).is_err());
    assert!(safe_recovery_path(b"a\\b".to_vec()).is_err());
    assert!(safe_recovery_path(Vec::new()).is_err());
}

#[test]
fn safe_recovery_path_keeps_a_good_name() {
    assert_eq!(safe_recovery_path(b"payload.bin".to_vec()).unwrap(), b"payload.bin");
    assert_eq!(
        safe_recovery_path(b"a\0b".to_vec()),
        Err(JdvrifError::RecoveredFilenameUnsafe)
    );
}

#[test]
fn taken_names_are_numbered_before_the_extension() {
    let mut names = RecoveryNames::new(b"out.bin".to_vec());
    assert_eq!(names.next_name().unwrap(), b"out.bin");
    assert_eq!(names.next_name().unwrap(), b"out_1.bin");
    assert_eq!(names.next_name().unwrap(), b"out_2.bin");
    assert_eq!(recovery_candidate(b"archive.tar.gz", 3), b"archive.tar_3.gz");
    assert_eq!(recovery_candidate(b"plain", 10), b"plain_10");
    assert_eq!(recovery_candidate(b"", 1), b"recovered_1");
    assert_eq!(recovery_candidate(b".profile", 2), b".profile_2");
    assert_eq!(recovery_candidate(b"dir/a.txt", 1), b"a_1.txt");
    names.attempt = 10000;
    assert_eq!(names.next_name().unwrap(), b"out_10000.bin");
    assert_eq!(names.next_name(), Err(JdvrifError::OutputNameExhausted));
}

#[test]
fn random_tokens_are_hexadecimal() {
    assert_eq!(token_from_bytes(&[0x3E, 0x19, 0xAF], 5), b"3e19a");
    let token = random_path_token(9).unwrap();
    assert_eq!(token.len(), 9);
    assert!(token.iter().all(|c| c.is_ascii_digit() || (b'a'..=b'f').contains(c)));
    assert_ne!(random_path_token(32).unwrap(), random_path_token(32).unwrap());
    assert_eq!(random_path_token(0).unwrap(), b"");
}

#[test]
fn unique_paths_have_prefix_token_and_suffix() {
    let mut search = UniquePathSearch {
        parent_dir: b"/tmp".to_vec(),
        prefix: b"jrif_".to_vec(),
        suffix: b".jpg".to_vec(),
        token_hex_chars: 9,
        attempts_left: 1,
    };
    let path = search.next_candidate().unwrap().unwrap();
    assert!(path.starts_with(b"/tmp/jrif_"));
    assert!(path.ends_with(b".jpg"));
    assert_eq!(path.len(), b"/tmp/jrif_123456789.jpg".len());
    assert_eq!(search.next_candidate(), Ok(None));
    assert_eq!(join_path(b"", b"x"), b"x");
    assert_eq!(join_path(b"a/", b"x"), b"a/x");
    assert_eq!(staged_name_prefix(b"jrif_1.jpg"), b".jrif_1.jpg.jdvrif_tmp_");
}

#[test]
fn the_notice_of_a_recovered_file() {
    assert_eq!(
        recovery_success_text("your_secret_file.doc", 6165),
        "\nExtracted hidden file: your_secret_file.doc (6165 bytes).\n\nComplete! Please check your file.\n\n"
    );
}
