//! Recovering a concealed file from an image.

pub mod modes;
pub mod output;

use crate::common::{matches_at, occurs_at};
use crate::constants::{
    DEFAULT_ICC_SIG_INDEX_ABS, DEFAULT_JDVRIF_SIG_INDEX_ABS, ICC_PROFILE_SIG, JDVRIF_SIG,
    REDDIT_UPLOAD_SIZE_LIMIT, TWITTER_UPLOAD_SIZE_LIMIT,
};
use crate::extract::{lemma_match_in_file, match_in_file};
use crate::runtime::JdvrifError;
use crate::scan::find_signature_in_file;
use modes::RecoveryFormat;
use vstd::prelude::*;

verus! {

/// The jdvrif signature of a Bluesky image lies within these first bytes.
pub const BLUESKY_HEADER_SEARCH_LIMIT: usize = 0x1D1;

/// Both signatures of a default image stand at their fixed places.
pub open spec fn has_icc_signatures(image: Seq<u8>) -> bool {
    occurs_at(image, ICC_PROFILE_SIG@, DEFAULT_ICC_SIG_INDEX_ABS as int) && occurs_at(
        image,
        JDVRIF_SIG@,
        DEFAULT_JDVRIF_SIG_INDEX_ABS as int,
    )
}

/// The profile template is always written at the beginning of the file, so the
/// two signatures can only ever sit at two fixed offsets.
pub fn has_embedded_icc_profile(image: &[u8]) -> (r: bool)
    ensures
        r == has_icc_signatures(image@),
{
    matches_at(image, &ICC_PROFILE_SIG, DEFAULT_ICC_SIG_INDEX_ABS) && matches_at(
        image,
        &JDVRIF_SIG,
        DEFAULT_JDVRIF_SIG_INDEX_ABS,
    )
}

/// The way an image is to be recovered.
#[derive(Clone, Copy, PartialEq, Eq, Structural, Debug)]
pub enum RecoveryRoute {
    /// By its profile segments; the place of the ICC signature.
    Icc { icc_profile_sig_index: usize },
    /// By its Bluesky segments; the place of the jdvrif signature.
    Bluesky { jdvrif_sig_index: usize },
    /// By its coefficients, where there may be a payload for the right PIN.
    Carrier,
}

/// How far the search for the signature of a Bluesky image goes.
pub open spec fn bluesky_search_limit(image_len: int) -> int {
    if image_len < BLUESKY_HEADER_SEARCH_LIMIT {
        image_len
    } else {
        BLUESKY_HEADER_SEARCH_LIMIT as int
    }
}

/// Chooses the way to recover an image. The signatures of the segment formats
/// come first; what has none may still be a coefficient carrier, if it is small
/// enough to have been uploaded as one.
pub fn run_native_recover(image: &[u8]) -> (r: Result<RecoveryRoute, JdvrifError>)
    ensures
        if has_icc_signatures(image@) {
            r == Ok::<RecoveryRoute, JdvrifError>(
                RecoveryRoute::Icc { icc_profile_sig_index: DEFAULT_ICC_SIG_INDEX_ABS },
            )
        } else {
            match match_in_file(
                image@,
                JDVRIF_SIG@,
                bluesky_search_limit(image@.len() as int),
                0,
            ) {
                Some(i) => r == Ok::<RecoveryRoute, JdvrifError>(
                    RecoveryRoute::Bluesky { jdvrif_sig_index: i as usize },
                ),
                None => if image@.len() <= REDDIT_UPLOAD_SIZE_LIMIT {
                    r == Ok::<RecoveryRoute, JdvrifError>(RecoveryRoute::Carrier)
                } else {
                    r == Err::<RecoveryRoute, JdvrifError>(JdvrifError::NotFileEmbedded)
                },
            }
        },
        r == Ok::<RecoveryRoute, JdvrifError>(RecoveryRoute::Carrier) ==> image@.len() <= 20971520,
        r is Err ==> image@.len() > 20971520,
        r matches Ok(RecoveryRoute::Icc { icc_profile_sig_index }) ==> icc_profile_sig_index == 32,
        r matches Ok(RecoveryRoute::Bluesky { jdvrif_sig_index }) ==> jdvrif_sig_index + 7 <= 465,
{
    if has_embedded_icc_profile(image) {
        return Ok(RecoveryRoute::Icc { icc_profile_sig_index: DEFAULT_ICC_SIG_INDEX_ABS });
    }
    let header_search_limit: usize = if image.len() < BLUESKY_HEADER_SEARCH_LIMIT {
        image.len()
    } else {
        BLUESKY_HEADER_SEARCH_LIMIT
    };
    let found: Option<usize> = find_signature_in_file(image, &JDVRIF_SIG, header_search_limit, 0);
    proof {
        lemma_match_in_file(image@, JDVRIF_SIG@, header_search_limit as int, 0, found);
    }
    if let Some(jdvrif_sig_index) = found {
        return Ok(RecoveryRoute::Bluesky { jdvrif_sig_index });
    }
    if image.len() <= REDDIT_UPLOAD_SIZE_LIMIT {
        return Ok(RecoveryRoute::Carrier);
    }
    Err(JdvrifError::NotFileEmbedded)
}

/// What to do next about an image that may be a coefficient carrier.
#[derive(Clone, Copy, PartialEq, Eq, Structural, Debug)]
pub enum CarrierStep {
    /// Look for a payload of this format.
    Try(RecoveryFormat),
    /// Recover from the payload that was found in this format.
    Recover(RecoveryFormat),
    /// There is no payload for this PIN.
    NotFound,
}

/// Goes from one carrier to the next: Reddit comes first, and X-Twitter only where
/// nothing was found and the image is small enough to have been uploaded there.
pub fn next_carrier(tried: Option<RecoveryFormat>, found: bool, image_size: usize) -> (r:
    CarrierStep)
    ensures
        r == (match tried {
            None => CarrierStep::Try(RecoveryFormat::Reddit),
            Some(format) => if found {
                CarrierStep::Recover(format)
            } else if format is Reddit && image_size <= TWITTER_UPLOAD_SIZE_LIMIT {
                CarrierStep::Try(RecoveryFormat::Twitter)
            } else {
                CarrierStep::NotFound
            },
        }),
        r == CarrierStep::Try(RecoveryFormat::Twitter) <==> tried == Some(RecoveryFormat::Reddit)
            && !found && image_size <= 5242880,
{
    match tried {
        None => CarrierStep::Try(RecoveryFormat::Reddit),
        Some(format) => {
            if found {
                return CarrierStep::Recover(format);
            }
            if format == RecoveryFormat::Reddit && image_size <= TWITTER_UPLOAD_SIZE_LIMIT {
                return CarrierStep::Try(RecoveryFormat::Twitter);
            }
            CarrierStep::NotFound
        },
    }
}

} // verus!
