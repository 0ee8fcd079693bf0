//! Peer-session transcoding boundary: the duplex encrypt/decrypt
//! capability that transport framing plugs into, and the identity
//! transcoder used by sessions that run without encryption. The
//! codecs only require that a transcoder carries opaque byte frames.

use vstd::prelude::*;

verus! {

/// Failure of a decryption attempt on a transport frame.
#[derive(Clone, Copy, Debug, PartialEq, Eq, PartialOrd, Ord, Hash, Structural)]
pub struct DecryptionError;

/// Write side of a duplex transcoder: turns plaintext frames into wire
/// bytes, advancing an internal state with every frame.
pub trait Encrypt: Sized {
    /// The wire bytes this state produces for a frame.
    spec fn encrypted(self, msg: Seq<u8>) -> Seq<u8>;

    /// The state left behind after encrypting a frame.
    spec fn encrypt_next(self, msg: Seq<u8>) -> Self;

    /// Encrypts one frame.
    fn encrypt(&mut self, buffer: &[u8]) -> (r: Vec<u8>)
        ensures
            r@ == old(self).encrypted(buffer@),
            *final(self) == old(self).encrypt_next(buffer@),
    ;
}

/// Read side of a duplex transcoder: turns wire bytes back into
/// plaintext frames, advancing an internal state with every attempt.
pub trait Decrypt: Sized {
    /// Failure reported for a refused frame.
    type Error;

    /// Whether this state accepts the frame.
    spec fn decrypt_ok(self, msg: Seq<u8>) -> bool;

    /// The plaintext this state reads from an accepted frame.
    spec fn decrypted(self, msg: Seq<u8>) -> Seq<u8>;

    /// The failure this state reports for a refused frame.
    spec fn decrypt_err(self, msg: Seq<u8>) -> Self::Error;

    /// The state left behind after a decryption attempt.
    spec fn decrypt_next(self, msg: Seq<u8>) -> Self;

    /// Decrypts one frame; a refused frame is a typed failure, never a
    /// silently altered payload.
    fn decrypt(&mut self, buffer: &[u8]) -> (r: Result<Vec<u8>, Self::Error>)
        ensures
            *final(self) == old(self).decrypt_next(buffer@),
            old(self).decrypt_ok(buffer@) ==> (r matches Ok(v) && v@ == old(self).decrypted(
                buffer@,
            )),
            !old(self).decrypt_ok(buffer@) ==> r == Err::<Vec<u8>, Self::Error>(
                old(self).decrypt_err(buffer@),
            ),
    ;
}

/// A duplex transcoder: both directions in one value. It splits into
/// two independently owned halves, created together, and is rebuilt
/// from them only by explicit reconstruction, never by aliasing.
pub trait Transcode: Encrypt + Decrypt {
    /// The owned write-side handle.
    type Encryptor: Encrypt;

    /// The owned read-side handle.
    type Decryptor: Decrypt;

    /// The transcoder a pair of halves joins into.
    spec fn joined(encryptor: Self::Encryptor, decryptor: Self::Decryptor) -> Self;

    /// The halves this transcoder splits into.
    spec fn halves(self) -> (Self::Encryptor, Self::Decryptor);

    /// Joins an encrypting and a decrypting half into one conduit.
    fn join(encryptor: Self::Encryptor, decryptor: Self::Decryptor) -> (r: Self)
        ensures
            r == Self::joined(encryptor, decryptor),
    ;

    /// Splits the conduit into its encrypting and decrypting halves.
    fn split(self) -> (r: (Self::Encryptor, Self::Decryptor))
        ensures
            r == self.halves(),
    ;

    /// Splitting a conduit and rejoining the halves reconstructs the
    /// original conduit.
    proof fn lemma_join_split(self)
        ensures
            Self::joined(self.halves().0, self.halves().1) == self,
    ;
}

/// Identity transcoder for sessions that run without encryption:
/// frames pass through unchanged in both directions, and decryption
/// never fails.
#[derive(Clone, Copy, Debug, PartialEq, Eq, Hash, Structural)]
pub struct NoEncryption;

impl Encrypt for NoEncryption {
    open spec fn encrypted(self, msg: Seq<u8>) -> Seq<u8> {
        msg
    }

    open spec fn encrypt_next(self, msg: Seq<u8>) -> Self {
        self
    }

    fn encrypt(&mut self, buffer: &[u8]) -> Vec<u8> {
        vstd::slice::slice_to_vec(buffer)
    }
}

impl Decrypt for NoEncryption {
    type Error = DecryptionError;

    open spec fn decrypt_ok(self, msg: Seq<u8>) -> bool {
        true
    }

    open spec fn decrypted(self, msg: Seq<u8>) -> Seq<u8> {
        msg
    }

    open spec fn decrypt_err(self, msg: Seq<u8>) -> DecryptionError {
        DecryptionError
    }

    open spec fn decrypt_next(self, msg: Seq<u8>) -> Self {
        self
    }

    fn decrypt(&mut self, buffer: &[u8]) -> Result<Vec<u8>, DecryptionError> {
        Ok(vstd::slice::slice_to_vec(buffer))
    }
}

impl Transcode for NoEncryption {
    type Encryptor = NoEncryption;

    type Decryptor = NoEncryption;

    open spec fn joined(encryptor: NoEncryption, decryptor: NoEncryption) -> NoEncryption {
        encryptor
    }

    open spec fn halves(self) -> (NoEncryption, NoEncryption) {
        (self, self)
    }

    fn join(encryptor: NoEncryption, decryptor: NoEncryption) -> NoEncryption {
        encryptor
    }

    fn split(self) -> (NoEncryption, NoEncryption) {
        (self, self)
    }

    proof fn lemma_join_split(self) {
    }
}

} // verus!
