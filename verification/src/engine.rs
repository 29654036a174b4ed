//! The cipher engine: the OpenSSL crypter and what is taken on trust about it.

use crate::stream::stream_bytes;
use openssl::error::ErrorStack;
use openssl::symm::{Cipher, Crypter, Mode};
use vstd::prelude::*;

verus! {

/// Length in bytes of an AES-128 key, and of the initialisation vector.
pub const KEY_LEN: usize = 16;

/// Longest span that one step of the engine accepts.
pub const MAX_SPAN: usize = 0x7fff_ffff;

/// Which way a context transforms its stream.
#[derive(Clone, Copy, PartialEq, Eq, Debug, Structural)]
pub enum Direction {
    /// Plain bytes in, cipher bytes out.
    Encrypt,
    /// Cipher bytes in, plain bytes out.
    Decrypt,
}

/// `openssl::symm::Cipher`, a cipher algorithm; nothing inside it is read here.
#[verifier::external_type_specification]
#[verifier::external_body]
pub struct ExCipher(Cipher);

/// `openssl::symm::Crypter`, the running state of one stream; it is known
/// only through `crypter_setup` and `crypter_consumed`.
#[verifier::external_type_specification]
#[verifier::external_body]
pub struct ExCrypter(Crypter);

/// `openssl::error::ErrorStack`, the engine's own failure; it is carried, never read.
#[verifier::external_type_specification]
#[verifier::external_body]
pub struct ExErrorStack(ErrorStack);

/// Whether a cipher is AES with a 128-bit key in 8-bit cipher-feedback mode.
pub uninterp spec fn is_aes_128_cfb8(cipher: Cipher) -> bool;

/// How a crypter was opened: `Some((encrypting, key, iv))` for one that runs
/// AES-128-CFB8, `None` for any other. It never changes while the crypter lives.
pub uninterp spec fn crypter_setup(crypter: Crypter) -> Option<(bool, Seq<u8>, Seq<u8>)>;

/// The bytes that a crypter has taken in since it was opened, as long as every
/// step on it has succeeded and it was not finalized; `None` from then on.
pub uninterp spec fn crypter_consumed(crypter: Crypter) -> Option<Seq<u8>>;

/// The byte that an AES-128-CFB8 stream opened with `key` and `iv` gives for
/// `byte`, once it has taken in `before`.
pub uninterp spec fn cfb8_byte(encrypting: bool, key: Seq<u8>, iv: Seq<u8>, before: Seq<u8>, byte: u8) -> u8;

/// `openssl::symm::Cipher::aes_128_cfb8`: the cipher it returns is AES-128-CFB8.
pub assume_specification[ Cipher::aes_128_cfb8 ]() -> (cipher: Cipher)
    ensures
        is_aes_128_cfb8(cipher),
;

/// `openssl::symm::Crypter::new`, always with an initialisation vector. Key and
/// vector have the length that the cipher asks for, so the call does not panic.
/// A crypter that comes back was opened with exactly these values and has taken
/// in nothing.
#[verifier::external_body]
pub(crate) fn open_crypter(cipher: Cipher, direction: Direction, key: &[u8], iv: &[u8]) -> (outcome: Result<Crypter, ErrorStack>)
    requires
        is_aes_128_cfb8(cipher),
        key@.len() == KEY_LEN,
        iv@.len() == KEY_LEN,
    ensures
        outcome matches Ok(crypter) ==> {
            &&& crypter_setup(crypter) == Some((direction == Direction::Encrypt, key@, iv@))
            &&& crypter_consumed(crypter) == Some(Seq::<u8>::empty())
        },
{
    let mode = match direction {
        Direction::Encrypt => Mode::Encrypt,
        Direction::Decrypt => Mode::Decrypt,
    };
    Crypter::new(cipher, mode, key, Some(iv))
}

/// `openssl::symm::Crypter::update` on a stream cipher. With room in the output
/// for the whole input, and no more than `MAX_SPAN` bytes of either, the call
/// does not panic. The output is as long as before, and a count that comes
/// back is no greater than that length. On a crypter whose stream is intact,
/// success means that every input byte was taken in, that the output starts
/// with the stream's byte for each of them, in order, and that the rest of the
/// output is as it was; and of an encrypting crypter, that a decrypting stream
/// under the same key and vector, once it has taken in all that the crypter
/// gave out before, turns these output bytes back into the input. A stream is
/// intact no longer once a step on it has failed: that is what
/// `crypter_consumed` means by `None`, and it stays so.
#[verifier::external_body]
pub(crate) fn crypter_update(crypter: &mut Crypter, input: &[u8], output: &mut [u8]) -> (outcome: Result<usize, ErrorStack>)
    requires
        crypter_setup(*old(crypter)) is Some,
        input@.len() <= old(output)@.len() <= MAX_SPAN,
    ensures
        crypter_setup(*final(crypter)) == crypter_setup(*old(crypter)),
        final(output)@.len() == old(output)@.len(),
        outcome matches Ok(n) ==> n <= old(output)@.len(),
        outcome is Err ==> crypter_consumed(*final(crypter)) is None,
        crypter_consumed(*old(crypter)) is None ==> crypter_consumed(*final(crypter)) is None,
        outcome matches Ok(n) ==> (crypter_consumed(*old(crypter)) matches Some(before) ==> (
            crypter_setup(*old(crypter)) matches Some(setup) ==> {
                &&& n == input@.len()
                &&& crypter_consumed(*final(crypter)) == Some(before + input@)
                &&& forall|i: int| 0 <= i < n ==> #[trigger] final(output)@[i] == cfb8_byte(
                        setup.0, setup.1, setup.2, before + input@.subrange(0, i), input@[i])
                &&& forall|i: int| n <= i < old(output)@.len() ==> #[trigger] final(output)@[i] == old(output)@[i]
                &&& setup.0 ==> stream_bytes(
                    false,
                    setup.1,
                    setup.2,
                    stream_bytes(true, setup.1, setup.2, Seq::<u8>::empty(), before),
                    final(output)@.subrange(0, n as int),
                ) == input@
            })),
    no_unwind
{
    crypter.update(input, output)
}

/// `openssl::symm::Crypter::finalize` on a stream cipher, into the output from
/// `from` on; a stream cipher asks for no room there, so the call does not
/// panic. The output is as long as before and unchanged below `from`; a count
/// that comes back is no greater than the room from `from` on. A finalized
/// stream is intact no longer: that is what `crypter_consumed` means by `None`.
#[verifier::external_body]
pub(crate) fn crypter_finalize(crypter: &mut Crypter, output: &mut [u8], from: usize) -> (outcome: Result<usize, ErrorStack>)
    requires
        crypter_setup(*old(crypter)) is Some,
        from <= old(output)@.len(),
    ensures
        crypter_setup(*final(crypter)) == crypter_setup(*old(crypter)),
        final(output)@.len() == old(output)@.len(),
        final(output)@.subrange(0, from as int) == old(output)@.subrange(0, from as int),
        outcome matches Ok(n) ==> from + n <= old(output)@.len(),
        crypter_consumed(*final(crypter)) is None,
    no_unwind
{
    crypter.finalize(&mut output[from..])
}

} // verus!
