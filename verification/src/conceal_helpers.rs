//! Limits, reports and choices of the conceal path.

use crate::cli::ConcealOption;
use crate::constants::{
    BLUESKY_PLATFORM_INDEX, COMPRESS_BYPASS_SIZE, FAST_COMPRESSION_SIZE, LARGE_FILE_SIZE,
    MAX_IMAGE_SIZE_BLUESKY, MAX_SIZE_CONCEAL, TWITTER_UPLOAD_SIZE_LIMIT,
};
use crate::crypto::{randombytes_into, wipe_vec_capacity};
use crate::decimal::{decimal_text, push_decimal_text};
use crate::extract::{bluesky_payload_limit, max_bluesky_payload};
use crate::filename::{has_compressed_extension, names_compressed_file};
use crate::runtime::JdvrifError;
use crate::zlib::{deflate, zlib_decode, zlib_encode};
use vstd::prelude::*;
use vstd::string::*;

verus! {

pub const TWITTER_FIRST_SEGMENT_LIMIT: usize = 10 * 1024;

pub const TUMBLR_FIRST_SEGMENT_LIMIT: usize = 65534;

pub const MASTODON_IMAGE_LIMIT: usize = 16 * 1024 * 1024;

pub const MASTODON_SEGMENT_LIMIT: u16 = 100;

pub const PIXELFED_IMAGE_LIMIT: usize = 15 * 1024 * 1024;

pub const POSTIMAGE_IMAGE_LIMIT: usize = 32 * 1024 * 1024;

pub const IMGBB_IMAGE_LIMIT: usize = 32 * 1024 * 1024;

pub const IMGPILE_IMAGE_LIMIT: usize = 100 * 1024 * 1024;

pub const FLICKR_IMAGE_LIMIT: usize = 200 * 1024 * 1024;

/// What a platform accepts.
#[derive(Clone, Copy, PartialEq, Eq, Structural, Debug)]
pub struct PlatformLimit {
    pub max_image_size: usize,
    pub max_first_segment: usize,
    pub max_segments: u16,
}

/// What the platform of a name accepts; nothing is known of the others.
pub open spec fn platform_limit(name: Seq<char>) -> Option<PlatformLimit> {
    if name == "X-Twitter"@ {
        Some(
            PlatformLimit {
                max_image_size: TWITTER_UPLOAD_SIZE_LIMIT,
                max_first_segment: TWITTER_FIRST_SEGMENT_LIMIT,
                max_segments: u16::MAX,
            },
        )
    } else if name == "Tumblr"@ {
        Some(
            PlatformLimit {
                max_image_size: usize::MAX,
                max_first_segment: TUMBLR_FIRST_SEGMENT_LIMIT,
                max_segments: u16::MAX,
            },
        )
    } else if name == "Mastodon"@ {
        Some(
            PlatformLimit {
                max_image_size: MASTODON_IMAGE_LIMIT,
                max_first_segment: usize::MAX,
                max_segments: MASTODON_SEGMENT_LIMIT,
            },
        )
    } else if name == "Pixelfed"@ {
        Some(image_limit(PIXELFED_IMAGE_LIMIT))
    } else if name == "PostImage"@ {
        Some(image_limit(POSTIMAGE_IMAGE_LIMIT))
    } else if name == "ImgBB"@ {
        Some(image_limit(IMGBB_IMAGE_LIMIT))
    } else if name == "ImgPile"@ {
        Some(image_limit(IMGPILE_IMAGE_LIMIT))
    } else if name == "Flickr"@ {
        Some(image_limit(FLICKR_IMAGE_LIMIT))
    } else {
        None
    }
}

/// A platform that limits nothing but the size of the image.
pub open spec fn image_limit(max_image_size: usize) -> PlatformLimit {
    PlatformLimit { max_image_size, max_first_segment: usize::MAX, max_segments: u16::MAX }
}

fn image_size_limit(max_image_size: usize) -> (r: PlatformLimit)
    ensures
        r == image_limit(max_image_size),
{
    PlatformLimit { max_image_size, max_first_segment: usize::MAX, max_segments: u16::MAX }
}

fn find_platform_limit(name: &String) -> (r: Option<PlatformLimit>)
    ensures
        r == platform_limit(name@),
{
    if *name == "X-Twitter".to_owned() {
        Some(
            PlatformLimit {
                max_image_size: TWITTER_UPLOAD_SIZE_LIMIT,
                max_first_segment: TWITTER_FIRST_SEGMENT_LIMIT,
                max_segments: u16::MAX,
            },
        )
    } else if *name == "Tumblr".to_owned() {
        Some(
            PlatformLimit {
                max_image_size: usize::MAX,
                max_first_segment: TUMBLR_FIRST_SEGMENT_LIMIT,
                max_segments: u16::MAX,
            },
        )
    } else if *name == "Mastodon".to_owned() {
        Some(
            PlatformLimit {
                max_image_size: MASTODON_IMAGE_LIMIT,
                max_first_segment: usize::MAX,
                max_segments: MASTODON_SEGMENT_LIMIT,
            },
        )
    } else if *name == "Pixelfed".to_owned() {
        Some(image_size_limit(PIXELFED_IMAGE_LIMIT))
    } else if *name == "PostImage".to_owned() {
        Some(image_size_limit(POSTIMAGE_IMAGE_LIMIT))
    } else if *name == "ImgBB".to_owned() {
        Some(image_size_limit(IMGBB_IMAGE_LIMIT))
    } else if *name == "ImgPile".to_owned() {
        Some(image_size_limit(IMGPILE_IMAGE_LIMIT))
    } else if *name == "Flickr".to_owned() {
        Some(image_size_limit(FLICKR_IMAGE_LIMIT))
    } else {
        None
    }
}

/// Whether an image of these measures can be posted on a platform.
pub open spec fn platform_accepts(
    name: Seq<char>,
    embedded_size: int,
    first_segment_size: int,
    total_segments: int,
) -> bool {
    match platform_limit(name) {
        Some(limit) => embedded_size <= limit.max_image_size && first_segment_size
            <= limit.max_first_segment && total_segments <= limit.max_segments,
        None => true,
    }
}

/// The texts of a list.
pub open spec fn texts(list: Seq<String>) -> Seq<Seq<char>> {
    list.map_values(|s: String| s@)
}

/// The platforms of the conceal-mode report, in their order.
pub open spec fn all_platforms() -> Seq<Seq<char>> {
    seq![
        "X-Twitter"@,
        "Tumblr"@,
        "Bluesky. (Only share this \"file-embedded\" JPG image on Bluesky).\n\n You must use the Python script \"create_bsky_post.py\" (found in the repo src/bsky folder)\n to post the image to Bluesky."@,
        "Mastodon"@,
        "Pixelfed"@,
        "PostImage"@,
        "ImgBB"@,
        "ImgPile"@,
        "Flickr"@,
    ]
}

pub fn platform_report_template() -> (r: Vec<String>)
    ensures
        texts(r@) == all_platforms(),
{
    let mut v: Vec<String> = Vec::new();
    v.push("X-Twitter".to_owned());
    v.push("Tumblr".to_owned());
    v.push(
        "Bluesky. (Only share this \"file-embedded\" JPG image on Bluesky).\n\n You must use the Python script \"create_bsky_post.py\" (found in the repo src/bsky folder)\n to post the image to Bluesky.".to_owned(),
    );
    v.push("Mastodon".to_owned());
    v.push("Pixelfed".to_owned());
    v.push("PostImage".to_owned());
    v.push("ImgBB".to_owned());
    v.push("ImgPile".to_owned());
    v.push("Flickr".to_owned());
    assert(texts(v@) =~= all_platforms());
    v
}

/// The platforms of a list on which an image of these measures can be posted.
pub open spec fn accepting_platforms(
    list: Seq<Seq<char>>,
    embedded_size: int,
    first_segment_size: int,
    total_segments: int,
) -> Seq<Seq<char>> {
    list.filter(
        |name: Seq<char>|
            platform_accepts(name, embedded_size, first_segment_size, total_segments),
    )
}

/// Leaves those platforms in the list that accept the image, in their order.
pub fn filter_platforms(
    platforms: &mut Vec<String>,
    embedded_size: usize,
    first_segment_size: usize,
    total_segments: u16,
)
    ensures
        texts(final(platforms)@) == accepting_platforms(
            texts(old(platforms)@),
            embedded_size as int,
            first_segment_size as int,
            total_segments as int,
        ),
{
    let ghost all: Seq<String> = platforms@;
    let ghost keep = |name: Seq<char>|
        platform_accepts(
            name,
            embedded_size as int,
            first_segment_size as int,
            total_segments as int,
        );
    let ghost mut done: int = 0;
    let mut i: usize = 0;
    assert(texts(all).take(0).filter(keep) =~= Seq::<Seq<char>>::empty()) by {
        reveal(Seq::filter);
    }
    assert(platforms@ =~= platforms@.take(0) + all.skip(0));
    while i < platforms.len()
        invariant
            0 <= done <= all.len(),
            i <= platforms@.len(),
            platforms@.skip(i as int) == all.skip(done),
            texts(platforms@.take(i as int)) == texts(all).take(done).filter(keep),
            keep == (|name: Seq<char>|
                platform_accepts(
                    name,
                    embedded_size as int,
                    first_segment_size as int,
                    total_segments as int,
                )),
        decreases platforms@.len() - i,
    {
        let ghost here: Seq<String> = platforms@;
        assert(platforms@.skip(i as int).len() == all.skip(done).len());
        assert(platforms@.skip(i as int)[0] == all.skip(done)[0]);
        assert(here[i as int] == all[done]);
        let fits: bool = match find_platform_limit(&platforms[i]) {
            Some(limit) => embedded_size <= limit.max_image_size && first_segment_size
                <= limit.max_first_segment && total_segments <= limit.max_segments,
            None => true,
        };
        proof {
            let t = texts(all);
            assert(t.take(done + 1).drop_last() =~= t.take(done));
            assert(t.take(done + 1).last() == all[done]@);
            reveal(Seq::filter);
            assert(t.take(done + 1).filter(keep) == if fits {
                t.take(done).filter(keep).push(all[done]@)
            } else {
                t.take(done).filter(keep)
            });
            assert(here.skip(i as int).skip(1) =~= here.skip(i + 1));
            assert(all.skip(done).skip(1) =~= all.skip(done + 1));
        }
        if fits {
            assert(texts(here.take(i + 1)) =~= texts(here.take(i as int)).push(all[done]@));
            i += 1;
        } else {
            platforms.remove(i);
            assert(platforms@.take(i as int) =~= here.take(i as int));
            assert(platforms@.skip(i as int) =~= here.skip(i + 1));
        }
        proof {
            done = done + 1;
        }
    }
    assert(platforms@.take(i as int) =~= platforms@);
    assert(platforms@.skip(i as int).len() == 0);
    assert(texts(all).take(done) =~= texts(all));
}

/// Measures of a finished default image.
#[derive(Clone, Copy, PartialEq, Eq, Structural, Debug)]
pub struct SegmentedEmbedSummary {
    pub embedded_image_size: usize,
    pub first_segment_size: u16,
    pub total_segments: u16,
}

/// Takes Bluesky, and every platform that does not accept the image, off the
/// report of a default image.
pub fn finalize_default_platform_report(
    platforms_vec: &mut Vec<String>,
    summary: SegmentedEmbedSummary,
) -> (r: Result<(), JdvrifError>)
    ensures
        if old(platforms_vec)@.len() <= BLUESKY_PLATFORM_INDEX {
            r == Err::<(), JdvrifError>(JdvrifError::PlatformList) && final(platforms_vec)@ == old(
                platforms_vec,
            )@
        } else {
            r is Ok && texts(final(platforms_vec)@) == accepting_platforms(
                texts(old(platforms_vec)@).remove(BLUESKY_PLATFORM_INDEX as int),
                summary.embedded_image_size as int,
                summary.first_segment_size as int,
                summary.total_segments as int,
            )
        },
        r is Ok <==> old(platforms_vec)@.len() > 2,
{
    if platforms_vec.len() <= BLUESKY_PLATFORM_INDEX {
        return Err(JdvrifError::PlatformList);
    }
    platforms_vec.remove(BLUESKY_PLATFORM_INDEX);
    assert(texts(platforms_vec@) =~= texts(old(platforms_vec)@).remove(
        BLUESKY_PLATFORM_INDEX as int,
    ));
    filter_platforms(
        platforms_vec,
        summary.embedded_image_size,
        summary.first_segment_size as usize,
        summary.total_segments,
    );
    Ok(())
}

/// Leaves nothing but Bluesky on the report.
pub fn finalize_bluesky_platform_report(platforms_vec: &mut Vec<String>) -> (r: Result<
    (),
    JdvrifError,
>)
    ensures
        if old(platforms_vec)@.len() <= BLUESKY_PLATFORM_INDEX {
            r == Err::<(), JdvrifError>(JdvrifError::PlatformList) && final(platforms_vec)@ == old(
                platforms_vec,
            )@
        } else {
            r is Ok && final(platforms_vec)@ == seq![
                old(platforms_vec)@[BLUESKY_PLATFORM_INDEX as int],
            ]
        },
        r is Ok <==> old(platforms_vec)@.len() > 2,
        r is Ok ==> final(platforms_vec)@ == seq![old(platforms_vec)@[2]],
{
    if platforms_vec.len() <= BLUESKY_PLATFORM_INDEX {
        return Err(JdvrifError::PlatformList);
    }
    let entry: String = platforms_vec.remove(BLUESKY_PLATFORM_INDEX);
    platforms_vec.clear();
    platforms_vec.push(entry);
    assert(platforms_vec@ =~= seq![old(platforms_vec)@[BLUESKY_PLATFORM_INDEX as int]]);
    Ok(())
}

/// Why a payload and a cover of these sizes cannot be combined, whatever the
/// segments add to them.
pub open spec fn combined_size_error(
    encrypted_payload_size: int,
    jpg_size: int,
    for_bluesky: bool,
    xmp_template_len: int,
) -> Option<JdvrifError> {
    let combined = encrypted_payload_size + jpg_size;
    if combined > usize::MAX {
        Some(JdvrifError::CombinedSizeOverflow)
    } else if for_bluesky {
        match bluesky_payload_limit(xmp_template_len) {
            None => Some(JdvrifError::CorruptFile),
            Some(limit) => if encrypted_payload_size > limit {
                Some(
                    JdvrifError::BlueskyPayloadTooLarge {
                        payload: encrypted_payload_size as usize,
                        limit: limit as usize,
                    },
                )
            } else if combined > MAX_IMAGE_SIZE_BLUESKY {
                Some(JdvrifError::CombinedSizeBluesky)
            } else {
                None
            },
        }
    } else if combined > MAX_SIZE_CONCEAL {
        Some(JdvrifError::CombinedSizeDefault)
    } else {
        None
    }
}

/// Checks the encrypted size, which is that of the compressed payload, so that a
/// large but well-compressing file is accepted on its merits.
pub fn validate_combined_size_limits(
    encrypted_payload_size: usize,
    jpg_size: usize,
    has_bluesky_option: bool,
    xmp_template_len: usize,
) -> (r: Result<(), JdvrifError>)
    ensures
        r == (match combined_size_error(
            encrypted_payload_size as int,
            jpg_size as int,
            has_bluesky_option,
            xmp_template_len as int,
        ) {
            Some(e) => Err(e),
            None => Ok(()),
        }),
        !has_bluesky_option ==> (r is Ok <==> encrypted_payload_size + jpg_size <= 2147483648),
        !has_bluesky_option ==> (r == Err::<(), JdvrifError>(JdvrifError::CombinedSizeDefault)
            <==> 2147483648 < encrypted_payload_size + jpg_size <= usize::MAX),
        has_bluesky_option ==> (r is Ok <==> encrypted_payload_size + jpg_size <= 2000000
            && xmp_template_len < 59941 && encrypted_payload_size <= 130524 + (59941
            - xmp_template_len) / 4 * 3),
{
    if encrypted_payload_size > usize::MAX - jpg_size {
        return Err(JdvrifError::CombinedSizeOverflow);
    }
    let combined: usize = encrypted_payload_size + jpg_size;
    if has_bluesky_option {
        let limit: usize = match max_bluesky_payload(xmp_template_len) {
            Ok(limit) => limit,
            Err(e) => {
                return Err(e);
            },
        };
        if encrypted_payload_size > limit {
            return Err(
                JdvrifError::BlueskyPayloadTooLarge { payload: encrypted_payload_size, limit },
            );
        }
        if combined > MAX_IMAGE_SIZE_BLUESKY {
            return Err(JdvrifError::CombinedSizeBluesky);
        }
        return Ok(());
    }
    if combined > MAX_SIZE_CONCEAL {
        return Err(JdvrifError::CombinedSizeDefault);
    }
    Ok(())
}

/// Checks the finished image against the limit of Bluesky, before it is committed:
/// the segments around the payload, and the Base64 part of it, count too.
pub fn validate_bluesky_image_size(embedded_image_size: usize) -> (r: Result<(), JdvrifError>)
    ensures
        r == (if embedded_image_size <= MAX_IMAGE_SIZE_BLUESKY {
            Ok(())
        } else {
            Err(JdvrifError::CombinedSizeBluesky)
        }),
        r is Ok <==> embedded_image_size <= 2000000,
{
    if embedded_image_size > MAX_IMAGE_SIZE_BLUESKY {
        return Err(JdvrifError::CombinedSizeBluesky);
    }
    Ok(())
}

/// Large files of compressed types are not compressed again.
pub fn should_bypass_compression(data_file_path: &[u8], source_data_size: usize) -> (r: bool)
    ensures
        r == (source_data_size > COMPRESS_BYPASS_SIZE && names_compressed_file(data_file_path@)),
        r <==> source_data_size > 10485760 && names_compressed_file(data_file_path@),
{
    if source_data_size <= COMPRESS_BYPASS_SIZE {
        return false;
    }
    has_compressed_extension(data_file_path)
}

/// Whether a payload is stored as it is: coefficient carriers leave files of
/// compressed types alone whatever their size, the other modes large ones only.
pub open spec fn stores_raw(option: ConcealOption, path: Seq<u8>, source_data_size: int) -> bool {
    names_compressed_file(path) && (option.is_carrier() || source_data_size > COMPRESS_BYPASS_SIZE)
}

pub fn bypasses_compression(
    option: ConcealOption,
    data_file_path: &[u8],
    source_data_size: usize,
) -> (r: bool)
    ensures
        r == stores_raw(option, data_file_path@, source_data_size as int),
{
    match option {
        ConcealOption::Reddit => has_compressed_extension(data_file_path),
        ConcealOption::Twitter => has_compressed_extension(data_file_path),
        _ => should_bypass_compression(data_file_path, source_data_size),
    }
}

/// The compression level for an input of this size.
pub open spec fn compression_level(input_size: int) -> int {
    if input_size > FAST_COMPRESSION_SIZE {
        1
    } else {
        6
    }
}

pub fn select_compression_level(input_size: usize) -> (r: u32)
    ensures
        r == compression_level(input_size as int),
{
    if input_size > FAST_COMPRESSION_SIZE {
        1
    } else {
        6
    }
}

/// Compresses an input, which has to be of the size that it was announced with.
pub fn zlib_compress(input: &[u8], expected_input_size: usize) -> (r: Result<Vec<u8>, JdvrifError>)
    ensures
        if input@.len() != expected_input_size {
            r == Err::<Vec<u8>, JdvrifError>(JdvrifError::CompressionInputChanged)
        } else {
            r is Ok && r->Ok_0@ == zlib_encode(input@, compression_level(input@.len() as int))
                && zlib_decode(r->Ok_0@) == Some(input@)
        },
{
    if input.len() != expected_input_size {
        return Err(JdvrifError::CompressionInputChanged);
    }
    match deflate(input, select_compression_level(expected_input_size)) {
        Ok(z) => Ok(z),
        Err(_) => Err(JdvrifError::CompressionFailed),
    }
}

/// The number that eight bytes stand for, least significant first.
pub open spec fn pin_of_bytes(b: Seq<u8>) -> int
    decreases b.len(),
{
    if b.len() == 0 {
        0
    } else {
        b[0] + 256 * pin_of_bytes(b.skip(1))
    }
}

/// Makes a PIN of eight random bytes; zero is no PIN.
pub fn pin_from_bytes(bytes: &[u8]) -> (r: Option<u64>)
    requires
        bytes@.len() == 8,
    ensures
        match r {
            Some(pin) => pin == pin_of_bytes(bytes@) && pin > 0,
            None => pin_of_bytes(bytes@) == 0,
        },
{
    let mut value: u64 = 0;
    let mut i: usize = 8;
    assert(bytes@.skip(8) =~= Seq::<u8>::empty());
    while i > 0
        invariant
            i <= 8,
            bytes@.len() == 8,
            value == pin_of_bytes(bytes@.skip(i as int)),
            i == 8 ==> value == 0,
            i == 7 ==> value <= 0xFF,
            i == 6 ==> value <= 0xFFFF,
            i == 5 ==> value <= 0xFF_FFFF,
            i == 4 ==> value <= 0xFFFF_FFFF,
            i == 3 ==> value <= 0xFF_FFFF_FFFF,
            i == 2 ==> value <= 0xFFFF_FFFF_FFFF,
            i == 1 ==> value <= 0xFF_FFFF_FFFF_FFFF,
        decreases i,
    {
        let ghost rest: Seq<u8> = bytes@.skip(i - 1);
        assert(rest.skip(1) =~= bytes@.skip(i as int));
        value = bytes[i - 1] as u64 + 256 * value;
        i -= 1;
    }
    assert(bytes@.skip(0) =~= bytes@);
    if value == 0 {
        return None;
    }
    Some(value)
}

/// A random PIN, never zero.
pub fn generate_recovery_pin() -> (r: Result<u64, JdvrifError>)
    ensures
        match r {
            Ok(pin) => pin > 0,
            Err(e) => e is RandomPin,
        },
{
    let mut attempts_left: u64 = u64::MAX;
    while attempts_left > 0
        decreases attempts_left,
    {
        let mut bytes: Vec<u8> = vec![0u8; 8];
        match randombytes_into(&mut bytes) {
            Ok(_) => {},
            Err(_) => {
                return Err(JdvrifError::RandomPin);
            },
        }
        let pin: Option<u64> = pin_from_bytes(&bytes);
        wipe_vec_capacity(&mut bytes);
        if let Some(value) = pin {
            return Ok(value);
        }
        attempts_left -= 1;
    }
    Err(JdvrifError::RandomPin)
}

/// Whether the user is told that this will take a while.
pub fn is_large_file(source_data_size: usize) -> (r: bool)
    ensures
        r == (source_data_size > LARGE_FILE_SIZE),
        r <==> source_data_size > 314572800,
{
    source_data_size > LARGE_FILE_SIZE
}

/// One line for each platform.
pub open spec fn platform_lines(platforms: Seq<Seq<char>>) -> Seq<char>
    decreases platforms.len(),
{
    if platforms.len() == 0 {
        Seq::empty()
    } else {
        platform_lines(platforms.drop_last()) + " ✓ "@ + platforms.last() + "\n"@
    }
}

/// The report on where the finished image can be posted.
pub open spec fn platform_report(platforms: Seq<Seq<char>>) -> Seq<char> {
    "\nPlatform compatibility for output image:-\n\n"@ + if platforms.len() == 0 {
        "Unknown!\n\n Due to the large file size of the output JPG image, I'm unaware of any\n compatible platforms that this image can be posted on. Local use only?\n"@
    } else {
        platform_lines(platforms)
    }
}

pub fn platform_report_text(platforms_vec: &Vec<String>) -> (r: String)
    ensures
        r@ == platform_report(texts(platforms_vec@)),
{
    let mut out: String = "\nPlatform compatibility for output image:-\n\n".to_owned();
    if platforms_vec.len() == 0 {
        out.append(
            "Unknown!\n\n Due to the large file size of the output JPG image, I'm unaware of any\n compatible platforms that this image can be posted on. Local use only?\n",
        );
        return out;
    }
    let ghost head: Seq<char> = out@;
    let ghost all: Seq<Seq<char>> = texts(platforms_vec@);
    let mut i: usize = 0;
    assert(all.take(0) =~= Seq::<Seq<char>>::empty());
    assert(head + platform_lines(all.take(0)) =~= head);
    while i < platforms_vec.len()
        invariant
            i <= platforms_vec@.len(),
            all == texts(platforms_vec@),
            out@ == head + platform_lines(all.take(i as int)),
        decreases platforms_vec@.len() - i,
    {
        let ghost before: Seq<char> = out@;
        out.append(" ✓ ");
        out.append(platforms_vec[i].as_str());
        out.append("\n");
        i += 1;
        proof {
            assert(all.take(i as int).drop_last() =~= all.take(i - 1));
            assert(all.take(i as int).last() == platforms_vec@[i - 1]@);
            assert(out@ =~= head + platform_lines(all.take(i as int)));
        }
    }
    assert(all.take(i as int) =~= all);
    out
}

/// The notice that hands out the recovery PIN.
pub open spec fn pin_notice(pin: u64) -> Seq<char> {
    "\nRecovery PIN: [***"@ + decimal_text(pin as nat)
        + "***]\n\nImportant: Keep your PIN safe, so that you can extract the hidden file.\n\n"@
}

pub fn recovery_pin_text(recovery_pin: u64) -> (r: String)
    ensures
        r@ == pin_notice(recovery_pin),
{
    let mut out: String = "\nRecovery PIN: [***".to_owned();
    push_decimal_text(&mut out, recovery_pin);
    out.append(
        "***]\n\nImportant: Keep your PIN safe, so that you can extract the hidden file.\n\n",
    );
    out
}

/// The notice that the finished image was saved.
pub open spec fn saved_notice(output_path: Seq<char>, size: usize) -> Seq<char> {
    "\nSaved \"file-embedded\" JPG image: "@ + output_path + " ("@ + decimal_text(size as nat)
        + " bytes).\n\nComplete!\n\n"@
}

pub fn conceal_complete_text(output_path: &str, embedded_jpg_size: usize) -> (r: String)
    ensures
        r@ == saved_notice(output_path@, embedded_jpg_size),
{
    let mut out: String = "\nSaved \"file-embedded\" JPG image: ".to_owned();
    out.append(output_path);
    out.append(" (");
    push_decimal_text(&mut out, embedded_jpg_size as u64);
    out.append(" bytes).\n\nComplete!\n\n");
    out
}

} // verus!
