//! Sizes in numbers: what is accepted, where, and what is refused.

use crate::cli::ConcealOption;
use crate::conceal::{carrier_size_error, conceal_refusal, is_resource_error, stored_payload};
use crate::conceal_helpers::{
    accepting_platforms, all_platforms, combined_size_error, compression_level, platform_accepts,
    stores_raw,
};
use crate::constants::{MAX_FILE_SIZE, MAX_IMAGE_SIZE, MINIMUM_IMAGE_SIZE};
use crate::encrypt::encrypted_size;
use crate::extract::bluesky_payload_limit;
use crate::filename::{is_safe_filename, names_compressed_file, path_file_name};
use crate::output_file::SENDFILE_MAX;
use crate::recover::modes::{declared_size_error, RecoveryFormat};
use crate::runtime::JdvrifError;
use crate::scan::SCAN_CHUNK_SIZE;
use crate::zlib::zlib_encode;
use vstd::prelude::*;

verus! {

/// Outside of Bluesky mode, a payload and a cover of 2 GiB together are accepted,
/// and anything more is refused; nothing else decides.
pub proof fn law_default_combined_size(payload: int, cover: int, xmp_template_len: int)
    requires
        0 <= payload,
        0 <= cover,
    ensures
        combined_size_error(payload, cover, false, xmp_template_len) is None <==> payload + cover
            <= 2147483648,
        combined_size_error(payload, cover, false, xmp_template_len) == Some(
            JdvrifError::CombinedSizeDefault,
        ) <==> 2147483648 < payload + cover <= usize::MAX,
{
}

/// In Bluesky mode, payload and cover share 2,000,000 bytes, and the payload has to
/// fit into the segments: 65,027 bytes of EXIF, two datasets of 32,767 and 32,730,
/// and three quarters of what the XMP template leaves of 60,033.
pub proof fn law_bluesky_combined_size(payload: int, cover: int, xmp_template_len: int)
    requires
        0 <= payload,
        0 <= cover,
        0 <= xmp_template_len,
    ensures
        combined_size_error(payload, cover, true, xmp_template_len) is None <==> payload + cover
            <= 2000000 && xmp_template_len + 92 < 60033 && payload <= 65027 + 32767 + 32730 + (60033
            - 92 - xmp_template_len) / 4 * 3,
        xmp_template_len + 92 < 60033 ==> bluesky_payload_limit(xmp_template_len) == Some(
            65027 + 32767 + 32730 + (60033 - 92 - xmp_template_len) / 4 * 3,
        ),
        ({
            let limit = 65027 + 32767 + 32730 + (60033 - 92 - xmp_template_len) / 4 * 3;
            let error = combined_size_error(payload, cover, true, xmp_template_len);
            &&& payload + cover > usize::MAX ==> error == Some(JdvrifError::CombinedSizeOverflow)
            &&& payload + cover <= usize::MAX && xmp_template_len + 92 >= 60033 ==> error == Some(
                JdvrifError::CorruptFile,
            )
            &&& payload + cover <= usize::MAX && xmp_template_len + 92 < 60033 && payload > limit
                ==> (error matches Some(JdvrifError::BlueskyPayloadTooLarge { payload: p, limit: l })
                && p == payload && l == limit)
            &&& 2000000 < payload + cover <= usize::MAX && xmp_template_len + 92 < 60033 && payload
                <= limit ==> error == Some(JdvrifError::CombinedSizeBluesky)
        }),
{
}

/// The carriers take covers and files up to 20 MiB for Reddit and 5 MiB for
/// X-Twitter; the other modes have no such limit.
pub proof fn law_carrier_sizes(option: ConcealOption, cover: int, data: int)
    ensures
        option is Reddit ==> (carrier_size_error(option, cover, data) is None <==> cover <= 20971520
            && data <= 20971520),
        option is Twitter ==> (carrier_size_error(option, cover, data) is None <==> cover <= 5242880
            && data <= 5242880),
        option is NoOption || option is Bluesky ==> carrier_size_error(option, cover, data) is None,
        (option is Reddit && cover > 20971520) || (option is Twitter && cover > 5242880)
            ==> carrier_size_error(option, cover, data) == Some(JdvrifError::CarrierCoverTooLarge),
{
}

/// The size of an encrypted text: every mebibyte of it, and what is left over, adds
/// 21 bytes.
pub proof fn law_encrypted_size(text: int)
    requires
        0 <= text,
    ensures
        encrypted_size(text) == text + (text + 1048575) / 1048576 * 21,
        encrypted_size(0) == 0,
        0 < text <= 1048576 ==> encrypted_size(text) == text + 21,
        encrypted_size(text + 1048576) == encrypted_size(text) + 1048597,
{
    let a = text + 1048575;
    assert((a + 1048576) / 1048576 == a / 1048576 + 1);
}

/// What is compressed: files of compressed types are stored as they are in the
/// carriers, and above 10 MiB elsewhere; nothing else is.
pub proof fn law_stored_raw(option: ConcealOption, path: Seq<u8>, size: int)
    ensures
        !names_compressed_file(path) ==> !stores_raw(option, path, size),
        names_compressed_file(path) && (option is Reddit || option is Twitter) ==> stores_raw(
            option,
            path,
            size,
        ),
        names_compressed_file(path) && (option is NoOption || option is Bluesky) ==> (stores_raw(
            option,
            path,
            size,
        ) <==> size > 10485760),
{
}

/// Files are compressed at level 6, and above 500 MiB at level 1.
pub proof fn law_compression_level(size: int)
    ensures
        size <= 524288000 ==> compression_level(size) == 6,
        size > 524288000 ==> compression_level(size) == 1,
{
}

/// A file with a usable name, of the size that it was announced with, is refused in
/// default mode exactly where its encrypted form and the cover are more than 2 GiB
/// together, the template is too short, or there is nothing to encrypt.
pub proof fn law_default_mode_refusals(
    cover: int,
    path: Seq<u8>,
    data: Seq<u8>,
    template_len: int,
    xmp_template_len: int,
)
    requires
        0 <= cover,
        path_file_name(path) matches Some(name) && is_safe_filename(name) && name.len() <= 20,
    ensures
        ({
            let text = 1 + path_file_name(path)->0.len() + stored_payload(
                ConcealOption::NoOption,
                path,
                data,
            ).len();
            let size = text + (text + 1048575) / 1048576 * 21;
            let refusal = conceal_refusal(
                ConcealOption::NoOption,
                cover,
                path,
                data,
                data.len() as int,
                template_len,
                xmp_template_len,
            );
            &&& refusal is None <==> size + cover <= 2147483648 && 787 + 56 <= template_len
                && stored_payload(ConcealOption::NoOption, path, data).len() > 0
            &&& 2147483648 < size + cover <= usize::MAX ==> refusal == Some(
                JdvrifError::CombinedSizeDefault,
            )
        }),
{
}

/// A file is refused, in any mode, exactly when a carrier has no room for it or its
/// cover, its name is unsafe or longer than twenty bytes, it has changed since its size
/// was announced, it is too large together with the cover, the template is too short, or
/// there is nothing to encrypt.
pub proof fn law_refusals(
    option: ConcealOption,
    cover: int,
    path: Seq<u8>,
    data: Seq<u8>,
    announced: int,
    template_len: int,
    xmp_template_len: int,
)
    requires
        0 <= cover,
        0 <= announced,
        0 <= xmp_template_len,
    ensures
        ({
            let name = path_file_name(path);
            let payload = stored_payload(option, path, data).len();
            let text = 1 + name->0.len() + payload;
            let size = text + (text + 1048575) / 1048576 * 21;
            let room = match option {
                ConcealOption::NoOption => 843int,
                ConcealOption::Bluesky => 453,
                _ => 56,
            };
            conceal_refusal(
                option,
                cover,
                path,
                data,
                announced,
                template_len,
                xmp_template_len,
            ) is None <==> {
                &&& option is Reddit ==> cover <= 20971520 && announced <= 20971520
                &&& option is Twitter ==> cover <= 5242880 && announced <= 5242880
                &&& name is Some
                &&& is_safe_filename(name->0)
                &&& name->0.len() <= 20
                &&& data.len() == announced
                &&& if option is Bluesky {
                    &&& size + cover <= 2000000
                    &&& xmp_template_len < 59941
                    &&& size <= 130524 + (59941 - xmp_template_len) / 4 * 3
                } else {
                    size + cover <= 2147483648
                }
                &&& template_len >= room
                &&& payload > 0
            }
        }),
{
}

/// A file that has changed since its size was announced is refused: at once where it is
/// compressed, and otherwise after the sizes have been judged.
pub proof fn law_changed_files(
    path: Seq<u8>,
    data: Seq<u8>,
    announced: int,
    xmp_template_len: int,
)
    requires
        0 <= announced,
        data.len() != announced,
        path_file_name(path) matches Some(name) && is_safe_filename(name) && name.len() <= 20,
    ensures
        ({
            let refusal = conceal_refusal(
                ConcealOption::NoOption,
                0,
                path,
                data,
                announced,
                843,
                xmp_template_len,
            );
            &&& !stores_raw(ConcealOption::NoOption, path, announced) ==> refusal == Some(
                JdvrifError::CompressionInputChanged,
            )
            &&& stores_raw(ConcealOption::NoOption, path, announced) && announced <= 1073741824 ==> (
            if data.len() < announced {
                refusal == Some(JdvrifError::EncryptionInputShort)
            } else {
                refusal == Some(JdvrifError::EncryptionInputChanged)
            })
        }),
{
}

/// What a file is stored as: itself, or its zlib stream at level 6, and above 500 MiB at
/// level 1.
pub proof fn law_stored_payload(option: ConcealOption, path: Seq<u8>, data: Seq<u8>)
    ensures
        stored_payload(option, path, data) == (if stores_raw(option, path, data.len() as int) {
            data
        } else if data.len() > 524288000 {
            zlib_encode(data, 1)
        } else {
            zlib_encode(data, 6)
        }),
{
}

/// Only what chance and the memory at hand decide can still go wrong: the random
/// numbers, the derivation of the key, the setting up of the stream.
pub proof fn law_resource_errors(e: JdvrifError)
    ensures
        is_resource_error(e) <==> e == JdvrifError::RandomPin || e == JdvrifError::RandomSalt || e
            == JdvrifError::KeyDerivation || e == JdvrifError::StreamInit || e
            == JdvrifError::RandomKdfRegion,
{
}

/// A file is stored under the last component of its path, of up to twenty bytes; a
/// path without one, and an unsafe name, are refused whatever the sizes.
pub proof fn law_data_filenames(
    option: ConcealOption,
    cover: int,
    path: Seq<u8>,
    data: Seq<u8>,
    template_len: int,
    xmp_template_len: int,
)
    requires
        option is NoOption || option is Bluesky,
    ensures
        ({
            let refusal = conceal_refusal(
                option,
                cover,
                path,
                data,
                data.len() as int,
                template_len,
                xmp_template_len,
            );
            &&& path_file_name(path) is None ==> refusal == Some(JdvrifError::DataFilenameUnsafe)
            &&& path_file_name(path) matches Some(name) ==> {
                &&& !is_safe_filename(name) ==> refusal == Some(JdvrifError::DataFilenameUnsafe)
                &&& is_safe_filename(name) && name.len() > 20 ==> refusal == Some(
                    JdvrifError::DataFilenameTooLong,
                )
                &&& is_safe_filename(name) && name.len() <= 20 ==> refusal != Some(
                    JdvrifError::DataFilenameTooLong,
                ) && refusal != Some(JdvrifError::DataFilenameUnsafe)
            }
        }),
{
}

/// A declared ciphertext is at least one frame of 21 bytes, and at most 2 GiB and
/// 50 MiB in a default image, 2 MiB for Bluesky, 20 MiB for Reddit and 5 MiB for
/// X-Twitter.
pub proof fn law_declared_sizes(size: int, format: RecoveryFormat)
    requires
        0 <= size,
    ensures
        ({
            let most: int = match format {
                RecoveryFormat::Icc => 2199912448,
                RecoveryFormat::Bluesky => 2097152,
                RecoveryFormat::Reddit => 20971520,
                RecoveryFormat::Twitter => 5242880,
            };
            &&& declared_size_error(size, format) is None <==> 21 <= size <= most
            &&& declared_size_error(size, format) == Some(JdvrifError::EmbeddedFileEmpty)
                <==> size == 0
            &&& declared_size_error(size, format) == Some(JdvrifError::CorruptFile) <==> 1 <= size
                <= 20
            &&& declared_size_error(size, format) == Some(JdvrifError::DeclaredSizeTooLarge)
                <==> size > most
        }),
{
}

/// Where a finished image can be posted, in numbers: each platform stays on the
/// report exactly when the image, its first segment and the number of its segments
/// are within what the platform keeps. A name that nothing is known of stays.
pub proof fn law_platforms(
    list: Seq<Seq<char>>,
    image_size: int,
    first_segment: int,
    segments: int,
)
    requires
        0 <= image_size <= usize::MAX,
        0 <= first_segment <= usize::MAX,
        0 <= segments <= 65535,
    ensures
        ({
            let kept = accepting_platforms(list, image_size, first_segment, segments);
            &&& kept.contains("X-Twitter"@) <==> list.contains("X-Twitter"@) && image_size
                <= 5242880 && first_segment <= 10240
            &&& kept.contains("Tumblr"@) <==> list.contains("Tumblr"@) && first_segment <= 65534
            &&& kept.contains("Mastodon"@) <==> list.contains("Mastodon"@) && image_size <= 16777216
                && segments <= 100
            &&& kept.contains("Pixelfed"@) <==> list.contains("Pixelfed"@) && image_size <= 15728640
            &&& kept.contains("PostImage"@) <==> list.contains("PostImage"@) && image_size
                <= 33554432
            &&& kept.contains("ImgBB"@) <==> list.contains("ImgBB"@) && image_size <= 33554432
            &&& kept.contains("ImgPile"@) <==> list.contains("ImgPile"@) && image_size <= 104857600
            &&& kept.contains("Flickr"@) <==> list.contains("Flickr"@) && image_size <= 209715200
            &&& forall|name: Seq<char>|
                name != "X-Twitter"@ && name != "Tumblr"@ && name != "Mastodon"@ && name
                    != "Pixelfed"@ && name != "PostImage"@ && name != "ImgBB"@ && name != "ImgPile"@
                    && name != "Flickr"@ ==> (#[trigger] kept.contains(name) <==> list.contains(
                    name,
                ))
        }),
{
    reveal_strlit("X-Twitter");
    reveal_strlit("Tumblr");
    reveal_strlit("Mastodon");
    reveal_strlit("Pixelfed");
    reveal_strlit("PostImage");
    reveal_strlit("ImgBB");
    reveal_strlit("ImgPile");
    reveal_strlit("Flickr");
    assert("X-Twitter"@.len() == 9 && "Tumblr"@.len() == 6 && "Mastodon"@.len() == 8
        && "Pixelfed"@.len() == 8 && "PostImage"@.len() == 9 && "ImgBB"@.len() == 5
        && "ImgPile"@.len() == 7 && "Flickr"@.len() == 6);
    assert("X-Twitter"@[0] == 'X' && "PostImage"@[0] == 'P' && "Mastodon"@[0] == 'M'
        && "Pixelfed"@[0] == 'P' && "Tumblr"@[0] == 'T' && "Flickr"@[0] == 'F');
    let keep = |name: Seq<char>| platform_accepts(name, image_size, first_segment, segments);
    let kept = accepting_platforms(list, image_size, first_segment, segments);
    assert(kept == list.filter(keep));
    assert forall|name: Seq<char>| #[trigger] kept.contains(name) <==> list.contains(name)
        && platform_accepts(name, image_size, first_segment, segments) by {
        lemma_kept(list, keep, name);
    }
}

proof fn lemma_kept(
    list: Seq<Seq<char>>,
    keep: spec_fn(Seq<char>) -> bool,
    name: Seq<char>,
)
    ensures
        list.filter(keep).contains(name) <==> list.contains(name) && keep(name),
    decreases list.len(),
{
    reveal(Seq::filter);
    if list.len() > 0 {
        let front = list.drop_last();
        let last = list.last();
        lemma_kept(front, keep, name);
        assert(list =~= front.push(last));
        let kept = front.filter(keep);
        if keep(last) {
            assert(list.filter(keep) == kept.push(last));
            if kept.contains(name) {
                let i = choose|i: int| 0 <= i < kept.len() && kept[i] == name;
                assert(kept.push(last)[i] == name);
            }
            assert(kept.push(last)[kept.len() as int] == last);
        }
        if front.contains(name) {
            let i = choose|i: int| 0 <= i < front.len() && front[i] == name;
            assert(list[i] == name);
        }
        if list.contains(name) && name != last {
            let i = choose|i: int| 0 <= i < list.len() && list[i] == name;
            assert(front[i] == name);
        }
        assert(list[list.len() - 1] == last);
    }
}

/// The platforms keep their order, and each is judged by itself: one more at the end of
/// the list comes at the end of those that stay, or does not stay.
pub proof fn law_platforms_keep_their_order(
    list: Seq<Seq<char>>,
    name: Seq<char>,
    image_size: int,
    first_segment: int,
    segments: int,
)
    ensures
        ({
            let kept = accepting_platforms(list, image_size, first_segment, segments);
            let alone = accepting_platforms(seq![name], image_size, first_segment, segments);
            &&& accepting_platforms(list.push(name), image_size, first_segment, segments) == kept
                + alone
            &&& alone == seq![name] || alone == Seq::<Seq<char>>::empty()
            &&& accepting_platforms(Seq::empty(), image_size, first_segment, segments) == Seq::<
                Seq<char>,
            >::empty()
        }),
{
    reveal(Seq::filter);
    let one = seq![name];
    assert(list.push(name).drop_last() =~= list);
    assert(one.drop_last() =~= Seq::<Seq<char>>::empty());
    let keep = |n: Seq<char>| platform_accepts(n, image_size, first_segment, segments);
    assert(Seq::<Seq<char>>::empty().filter(keep) =~= Seq::<Seq<char>>::empty());
    if keep(name) {
        assert(one.filter(keep) == one.drop_last().filter(keep).push(name));
        assert(one.filter(keep) =~= seq![name]);
        assert(list.push(name).filter(keep) =~= list.filter(keep) + one);
    } else {
        assert(one.filter(keep) =~= Seq::<Seq<char>>::empty());
        assert(list.push(name).filter(keep) =~= list.filter(keep) + Seq::<Seq<char>>::empty());
    }
}

/// The report of a default image begins with all platforms but Bluesky, in this
/// order; Bluesky is the third.
pub proof fn law_platform_order()
    ensures
        all_platforms().len() == 9,
        all_platforms()[2]
            == "Bluesky. (Only share this \"file-embedded\" JPG image on Bluesky).\n\n You must use the Python script \"create_bsky_post.py\" (found in the repo src/bsky folder)\n to post the image to Bluesky."@,
        all_platforms().remove(2) == seq![
            "X-Twitter"@,
            "Tumblr"@,
            "Mastodon"@,
            "Pixelfed"@,
            "PostImage"@,
            "ImgBB"@,
            "ImgPile"@,
            "Flickr"@,
        ],
{
    assert(all_platforms().remove(2) =~= seq![
        "X-Twitter"@,
        "Tumblr"@,
        "Mastodon"@,
        "Pixelfed"@,
        "PostImage"@,
        "ImgBB"@,
        "ImgPile"@,
        "Flickr"@,
    ]);
}

/// The files that are read at all: up to 3 GiB, and as a cover from 134 bytes to
/// 8 MiB; one call moves no more than 2 GiB less a page.
pub proof fn law_file_sizes()
    ensures
        MAX_FILE_SIZE == 3221225472,
        MINIMUM_IMAGE_SIZE == 134,
        MAX_IMAGE_SIZE == 8388608,
        SENDFILE_MAX == 2147479552,
        SCAN_CHUNK_SIZE == 1048576,
{
}

} // verus!
