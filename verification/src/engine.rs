//! The decryption tail of the streaming fetch: once a track's encrypted
//! bytes are fully buffered, decrypt them and strip the transport
//! container's fixed-size header.
//!
//! Requesting the key, opening the stream and draining it are the
//! caller's transport work; this module owns what is decided after —
//! how the buffered bytes become the playable payload.

use vstd::prelude::*;

use std::io::Read;

verus! {

/// Why fetching one item failed.
#[derive(Clone, Copy, PartialEq, Eq, Structural, Debug)]
pub enum FetchError {
    /// The decryption key was refused.
    KeyRequest,
    /// The byte stream could not be opened.
    StreamOpen,
    /// Draining the byte stream failed.
    StreamRead,
    /// The decrypted bytes are shorter than the container header.
    ShortContainer,
}

/// Size of the fixed container header that precedes the audio data in a
/// decrypted stream; a property of the transport's container format.
pub const AUDIO_CONTAINER_HEADER_LEN: usize = 167;

/// What decrypting bytes under a 16-byte key yields. Relied on below in
/// `decrypt_bytes`.
pub uninterp spec fn decrypt_of(key: Seq<u8>, data: Seq<u8>) -> Seq<u8>;

/// Relies on `librespot_audio::AudioDecrypt`: AES-128-CTR with the
/// crate's fixed audio nonce, so the result is a function of the key
/// and the bytes alone, and a stream cipher keeps the length.
#[verifier::external_body]
fn decrypt_bytes(key: &[u8; 16], data: &Vec<u8>) -> (r: Vec<u8>)
    ensures
        r@ == decrypt_of(key@, data@),
        r@.len() == data@.len(),
{
    let mut out: Vec<u8> = Vec::new();
    let key = librespot_core::audio_key::AudioKey(*key);
    let mut reader = librespot_audio::AudioDecrypt::new(Some(key), data.as_slice());
    reader.read_to_end(&mut out).expect("reading from a memory buffer cannot fail");
    out
}

/// Drop the container header from a decrypted buffer, keeping the
/// audio payload that follows it.
pub fn strip_container_header(payload: Vec<u8>) -> (r: Vec<u8>)
    requires
        payload@.len() >= AUDIO_CONTAINER_HEADER_LEN,
    ensures
        r@ == payload@.skip(AUDIO_CONTAINER_HEADER_LEN as int),
{
    let ghost before = payload@;
    let mut head = payload;
    let tail = head.split_off(AUDIO_CONTAINER_HEADER_LEN);
    proof {
        assert(tail@ =~= before.skip(AUDIO_CONTAINER_HEADER_LEN as int));
    }
    tail
}

/// Turn a track's fully buffered encrypted bytes into its payload:
/// decrypt under the key, then strip the container header. Fails
/// exactly when the stream is too short to hold the header.
pub fn fetch_payload(key: &[u8; 16], encrypted: &Vec<u8>) -> (r: Result<Vec<u8>, FetchError>)
    ensures
        match r {
            Ok(p) => encrypted@.len() >= AUDIO_CONTAINER_HEADER_LEN && p@ == decrypt_of(
                key@,
                encrypted@,
            ).skip(AUDIO_CONTAINER_HEADER_LEN as int),
            Err(e) => encrypted@.len() < AUDIO_CONTAINER_HEADER_LEN && e
                == FetchError::ShortContainer,
        },
{
    let decrypted = decrypt_bytes(key, encrypted);
    if decrypted.len() < AUDIO_CONTAINER_HEADER_LEN {
        return Err(FetchError::ShortContainer);
    }
    Ok(strip_container_header(decrypted))
}

} // verus!
