//! The cryptographic primitives and the wiping of buffers. Key derivation, random
//! bytes and the sending end of a secretstream come from libsodium through
//! `alkali`, the wiping from `zeroize`. The receiving end comes from `dryoc`, which
//! hands out the tag of a frame whatever it is; that of `alkali` panics on a tag
//! that libsodium does not define.

use crate::constants::SECRETSTREAM_MESSAGE_BYTES_MAX;
use alkali::hash::pbkdf::argon2id;
use alkali::symmetric::cipher_stream::{EncryptionStream, Key};
use alkali::AlkaliError;
use dryoc::classic::crypto_secretstream_xchacha20poly1305::{
    crypto_secretstream_xchacha20poly1305_init_pull, crypto_secretstream_xchacha20poly1305_pull,
    State,
};
use vstd::prelude::*;
use zeroize::Zeroize;

verus! {

/// The error of every `alkali` call.
#[verifier::external_type_specification]
#[verifier::external_body]
pub struct ExAlkaliError(AlkaliError);

/// The sending end of a secretstream.
#[verifier::external_type_specification]
#[verifier::external_body]
pub struct ExEncryptionStream(EncryptionStream);

/// The receiving end of a secretstream.
#[verifier::external_type_specification]
#[verifier::external_body]
pub struct ExState(State);

/// The error of a `dryoc` call.
#[verifier::external_type_specification]
#[verifier::external_body]
pub struct ExDryocError(dryoc::Error);

/// What an encryption stream was made from and has produced: its key, its
/// header, then every frame encrypted so far.
pub uninterp spec fn encryption_history(stream: EncryptionStream) -> Seq<Seq<u8>>;

/// What a decryption stream was made from and has accepted: its key, its
/// header, then every frame decrypted so far.
pub uninterp spec fn decryption_history(stream: State) -> Seq<Seq<u8>>;

/// The frame that a secretstream with the given history makes of a message.
pub uninterp spec fn secretstream_seal(
    history: Seq<Seq<u8>>,
    message: Seq<u8>,
    ad: Option<Seq<u8>>,
    tag: u8,
) -> Seq<u8>;

/// The message and tag that a secretstream with the given history finds in a
/// frame, or nothing where the frame does not authenticate.
pub uninterp spec fn secretstream_open(
    history: Seq<Seq<u8>>,
    frame: Seq<u8>,
    ad: Option<Seq<u8>>,
) -> Option<(Seq<u8>, u8)>;

/// The key of the given length that Argon2id derives.
pub uninterp spec fn argon2id_key(
    password: Seq<u8>,
    salt: Seq<u8>,
    opslimit: int,
    memlimit: int,
    length: int,
) -> Seq<u8>;

/// The tags that say which part a frame plays in its stream; there are no others.
pub const TAG_MESSAGE: u8 = 0;

pub const TAG_PUSH: u8 = 1;

pub const TAG_REKEY: u8 = 2;

pub const TAG_FINAL: u8 = 3;

/// Whether a tag byte is one of these.
pub open spec fn is_defined_tag(tag: u8) -> bool {
    tag == TAG_MESSAGE || tag == TAG_PUSH || tag == TAG_REKEY || tag == TAG_FINAL
}

/// The bytes of the associated data, where there is any.
pub open spec fn ad_view(ad: Option<&[u8]>) -> Option<Seq<u8>> {
    match ad {
        Some(bytes) => Some(bytes@),
        None => None,
    }
}

/// `EncryptionStream::new`: a stream under `key` with a fresh random header of
/// 24 bytes, in which nothing has been encrypted. It can fail for want of
/// protected memory.
#[verifier::external_body]
pub(crate) fn open_encryption(key: &[u8]) -> (r: Result<EncryptionStream, AlkaliError>)
    requires
        key@.len() == 32,
    ensures
        r matches Ok(stream) ==> encryption_history(stream).len() == 2 && encryption_history(
            stream,
        )[0] == key@ && encryption_history(stream)[1].len() == 24,
{
    let key = Key::try_from(key)?;
    EncryptionStream::new(&key)
}

/// `EncryptionStream::get_header`: the header that the stream was made with.
#[verifier::external_body]
pub(crate) fn encryption_header(stream: &EncryptionStream) -> (r: [u8; 24])
    ensures
        r@ == encryption_history(*stream)[1],
{
    stream.get_header()
}

/// `EncryptionStream::encrypt`: writes the frame of an ordinary message to
/// `output`, 17 bytes longer than the message, and moves the stream on by that
/// frame. A receiving stream of the same history, of libsodium or of `dryoc`,
/// which is compatible with it, gives the message back. The call fails on a
/// message longer than libsodium's limit for one frame, and on no other.
#[verifier::external_body]
pub(crate) fn seal_frame(
    stream: &mut EncryptionStream,
    message: &[u8],
    ad: Option<&[u8]>,
    output: &mut Vec<u8>,
) -> (r: Result<usize, AlkaliError>)
    requires
        old(output)@.len() == message@.len() + 17,
    ensures
        final(output)@.len() == old(output)@.len(),
        r is Ok <==> message@.len() <= SECRETSTREAM_MESSAGE_BYTES_MAX,
        r is Ok ==> final(output)@ == secretstream_seal(
            encryption_history(*old(stream)),
            message@,
            ad_view(ad),
            TAG_MESSAGE,
        ),
        r is Ok ==> encryption_history(*final(stream)) == encryption_history(*old(stream)).push(
            final(output)@,
        ),
        r is Ok ==> secretstream_open(
            encryption_history(*old(stream)),
            final(output)@,
            ad_view(ad),
        ) == Some((message@, TAG_MESSAGE)),
{
    stream.encrypt(message, ad, output)
}

/// `EncryptionStream::finalise`: writes the frame of the last message to
/// `output`, 17 bytes longer than the message, and ends the stream. A receiving
/// stream of the same history, of libsodium or of `dryoc`, gives the message
/// back. The call fails on a message longer than libsodium's limit for one frame,
/// and on no other.
#[verifier::external_body]
pub(crate) fn seal_final_frame(
    stream: EncryptionStream,
    message: &[u8],
    ad: Option<&[u8]>,
    output: &mut Vec<u8>,
) -> (r: Result<usize, AlkaliError>)
    requires
        old(output)@.len() == message@.len() + 17,
    ensures
        final(output)@.len() == old(output)@.len(),
        r is Ok <==> message@.len() <= SECRETSTREAM_MESSAGE_BYTES_MAX,
        r is Ok ==> final(output)@ == secretstream_seal(
            encryption_history(stream),
            message@,
            ad_view(ad),
            TAG_FINAL,
        ),
        r is Ok ==> secretstream_open(
            encryption_history(stream),
            final(output)@,
            ad_view(ad),
        ) == Some((message@, TAG_FINAL)),
{
    stream.finalise(message, ad, output)
}

/// `crypto_secretstream_xchacha20poly1305_init_pull` of `dryoc`: a stream under
/// `key` and `header` in which nothing has been decrypted.
#[verifier::external_body]
pub(crate) fn open_decryption(key: &[u8], header: &[u8; 24]) -> (stream: State)
    requires
        key@.len() == 32,
    ensures
        decryption_history(stream) == seq![key@, header@],
{
    let mut stream = State::new();
    let key = key.try_into().unwrap();
    crypto_secretstream_xchacha20poly1305_init_pull(&mut stream, header, key);
    stream
}

/// `crypto_secretstream_xchacha20poly1305_pull` of `dryoc`: writes the message of
/// an authentic frame to `output`, 17 bytes shorter than the frame, returns its
/// tag byte, whatever it is, and moves the stream on by that frame; it fails where
/// the frame does not authenticate, and leaves the stream as it was.
#[verifier::external_body]
pub(crate) fn open_frame(
    stream: &mut State,
    frame: &[u8],
    ad: Option<&[u8]>,
    output: &mut Vec<u8>,
) -> (r: Result<u8, dryoc::Error>)
    requires
        old(output)@.len() + 17 == frame@.len(),
    ensures
        final(output)@.len() == old(output)@.len(),
        match r {
            Ok(tag) => {
                &&& secretstream_open(decryption_history(*old(stream)), frame@, ad_view(ad))
                    == Some((final(output)@, tag))
                &&& decryption_history(*final(stream)) == decryption_history(*old(stream)).push(
                    frame@,
                )
            },
            Err(_) => {
                &&& secretstream_open(decryption_history(*old(stream)), frame@, ad_view(ad)) is None
                &&& decryption_history(*final(stream)) == decryption_history(*old(stream))
            },
        },
{
    let mut tag: u8 = 0;
    crypto_secretstream_xchacha20poly1305_pull(stream, output, &mut tag, frame, ad)?;
    Ok(tag)
}

/// `alkali::hash::pbkdf::argon2id::derive_key`: fills `key` from a password, a
/// salt and two costs. It can fail for want of memory, and fails on costs or
/// lengths that libsodium does not take.
#[verifier::external_body]
pub(crate) fn argon2id_derive(
    password: &[u8],
    salt: &[u8; 16],
    opslimit: usize,
    memlimit: usize,
    key: &mut Vec<u8>,
) -> (r: Result<(), AlkaliError>)
    ensures
        final(key)@.len() == old(key)@.len(),
        r is Ok ==> final(key)@ == argon2id_key(
            password@,
            salt@,
            opslimit as int,
            memlimit as int,
            old(key)@.len() as int,
        ),
{
    argon2id::derive_key(password, salt, opslimit, memlimit, key)
}

/// `alkali::random::fill_random`: overwrites `buf` with unpredictable bytes.
#[verifier::external_body]
pub(crate) fn randombytes_into(buf: &mut Vec<u8>) -> (r: Result<(), AlkaliError>)
    ensures
        final(buf)@.len() == old(buf)@.len(),
{
    alkali::random::fill_random(buf)
}

/// `Zeroize::zeroize` of a vector: clears the whole allocation, spare capacity
/// as well as live bytes, and leaves the vector empty.
#[verifier::external_body]
pub(crate) fn wipe_vec_capacity(buf: &mut Vec<u8>)
    ensures
        final(buf)@.len() == 0,
    opens_invariants none
    no_unwind
{
    buf.zeroize();
}

/// `Zeroize::zeroize` of a byte: leaves zero.
#[verifier::external_body]
pub(crate) fn wipe_byte(byte: &mut u8)
    ensures
        *final(byte) == 0,
    opens_invariants none
    no_unwind
{
    byte.zeroize();
}

} // verus!
