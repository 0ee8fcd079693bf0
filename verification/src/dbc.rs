//! Deterministic bitcoin commitments: the `Proof` carried on-chain,
//! its canonical encoding, and the `Container` protocol that
//! reconstructs committed application data from a proof, caller-held
//! supplement and chain-side host context.

use vstd::prelude::*;

use crate::error::{Error, TypeName};
use crate::strict::{
    decode_byte_seq, decode_bytes, decode_u8, encode_byte_seq, encode_bytes, encode_u8,
    lemma_byte_seq_round_trip, spec_byte_seq, spec_byte_seq_decode, STRICT_COLLECTION_MAX,
};

verus! {

/// Copies a byte buffer, preserving its abstract contents exactly.
fn clone_bytes(v: &Vec<u8>) -> (r: Vec<u8>)
    ensures
        r@ == v@,
{
    let mut r: Vec<u8> = Vec::new();
    let mut i: usize = 0;
    while i < v.len()
        invariant
            i <= v@.len(),
            r@ == v@.subrange(0, i as int),
        decreases v@.len() - i,
    {
        r.push(v[i]);
        i = i + 1;
        assert(r@ =~= v@.subrange(0, i as int));
    }
    assert(v@.subrange(0, v@.len() as int) =~= v@);
    r
}

/// Compares two byte buffers for equal abstract contents.
fn bytes_eq(a: &Vec<u8>, b: &Vec<u8>) -> (r: bool)
    ensures
        r == (a@ == b@),
{
    if a.len() != b.len() {
        return false;
    }
    let mut i: usize = 0;
    while i < a.len()
        invariant
            i <= a@.len(),
            a@.len() == b@.len(),
            forall|k: int| 0 <= k < i ==> a@[k] == b@[k],
        decreases a@.len() - i,
    {
        if a[i] != b[i] {
            return false;
        }
        i = i + 1;
    }
    assert(a@ =~= b@);
    true
}

/// A compressed public key, treated as an opaque 33-byte value: the
/// elliptic-curve mathematics lives outside this library, which only
/// ever moves, compares and serializes the raw bytes.
#[derive(Debug, PartialEq, Eq, Hash)]
pub struct PublicKey {
    /// The raw compressed-form key bytes.
    pub bytes: Vec<u8>,
}

impl View for PublicKey {
    type V = Seq<u8>;

    open spec fn view(&self) -> Seq<u8> {
        self.bytes@
    }
}

impl Clone for PublicKey {
    /// Copies the key, preserving its bytes exactly.
    fn clone(&self) -> (r: Self)
        ensures
            r@ == self@,
    {
        PublicKey { bytes: clone_bytes(&self.bytes) }
    }
}

impl PublicKey {
    /// A key is well-formed when it holds exactly 33 bytes, the length
    /// of a compressed-form public key.
    pub open spec fn wf(self) -> bool {
        self@.len() == 33
    }

    /// Builds a key from raw bytes; any length other than 33 is
    /// refused.
    pub fn from_bytes(bytes: Vec<u8>) -> (r: Option<PublicKey>)
        ensures
            bytes@.len() == 33 ==> (r matches Some(k) && k@ == bytes@ && k.wf()),
            bytes@.len() != 33 ==> r is None,
    {
        if bytes.len() == 33 {
            Some(PublicKey { bytes })
        } else {
            None
        }
    }
}

/// Abstract value of a `ScriptEncodeData`: how a commitment key was
/// embedded on-chain, over mathematical byte sequences.
pub enum ScriptEncodeDataView {
    /// The key stands alone as a single-use pubkey.
    SinglePubkey,
    /// The key is wrapped in the given script template.
    LockScript(Seq<u8>),
}

impl ScriptEncodeDataView {
    /// A source is well-formed when any script it carries fits the
    /// collection cap, so that it can be strict-encoded.
    pub open spec fn wf(self) -> bool {
        match self {
            ScriptEncodeDataView::SinglePubkey => true,
            ScriptEncodeDataView::LockScript(s) => s.len() <= STRICT_COLLECTION_MAX,
        }
    }

    /// Canonical byte image: a one-byte tag, then the script as a
    /// length-prefixed sequence where present.
    pub open spec fn spec_bytes(self) -> Seq<u8> {
        match self {
            ScriptEncodeDataView::SinglePubkey => seq![0u8],
            ScriptEncodeDataView::LockScript(s) => seq![1u8] + spec_byte_seq(s),
        }
    }

    /// What decoding yields from stream `s` at position `pos`.
    pub open spec fn spec_decode(s: Seq<u8>, pos: int) -> Result<(ScriptEncodeDataView, int), Error>
        recommends
            0 <= pos,
    {
        if pos + 1 > s.len() {
            Err(Error::DataIncomplete)
        } else if s[pos] == 0 {
            Ok((ScriptEncodeDataView::SinglePubkey, pos + 1))
        } else if s[pos] == 1 {
            match spec_byte_seq_decode(s, pos + 1) {
                Err(e) => Err(e),
                Ok((sc, q)) => Ok((ScriptEncodeDataView::LockScript(sc), q)),
            }
        } else {
            Err(Error::EnumValueNotKnown(TypeName::ScriptEncodeData, s[pos]))
        }
    }
}

/// How a commitment key was embedded on-chain: bare, or wrapped in a
/// script template. The enumeration is owned by the commitment scheme
/// and open to future embeddings.
#[non_exhaustive]
#[derive(Debug, PartialEq, Eq, Hash)]
pub enum ScriptEncodeData {
    /// The key stands alone as a single-use pubkey.
    SinglePubkey,
    /// The key is wrapped in the given script template.
    LockScript(Vec<u8>),
}

impl View for ScriptEncodeData {
    type V = ScriptEncodeDataView;

    open spec fn view(&self) -> ScriptEncodeDataView {
        match self {
            ScriptEncodeData::SinglePubkey => ScriptEncodeDataView::SinglePubkey,
            ScriptEncodeData::LockScript(s) => ScriptEncodeDataView::LockScript(s@),
        }
    }
}

impl Clone for ScriptEncodeData {
    /// Copies the source, preserving its abstract value exactly.
    fn clone(&self) -> (r: Self)
        ensures
            r@ == self@,
    {
        match self {
            ScriptEncodeData::SinglePubkey => ScriptEncodeData::SinglePubkey,
            ScriptEncodeData::LockScript(s) => ScriptEncodeData::LockScript(clone_bytes(s)),
        }
    }
}

/// Compares two sources for equal abstract value.
fn eq_source(a: &ScriptEncodeData, b: &ScriptEncodeData) -> (r: bool)
    ensures
        r == (a@ == b@),
{
    match (a, b) {
        (ScriptEncodeData::SinglePubkey, ScriptEncodeData::SinglePubkey) => true,
        (ScriptEncodeData::LockScript(x), ScriptEncodeData::LockScript(y)) => bytes_eq(x, y),
        _ => false,
    }
}

impl ScriptEncodeData {
    /// A source is well-formed when its abstract value is.
    pub open spec fn wf(self) -> bool {
        self@.wf()
    }

    /// Appends the canonical byte image to the sink. A script beyond
    /// the collection cap is refused and the sink is left untouched.
    pub fn strict_encode(&self, sink: &mut Vec<u8>) -> (r: Result<(), Error>)
        ensures
            self.wf() ==> (r == Ok::<(), Error>(()) && final(sink)@ == old(sink)@
                + self@.spec_bytes()),
            !self.wf() ==> (r == Err::<(), Error>(Error::ValueOutOfRange) && final(sink)@ == old(
                sink,
            )@),
    {
        match self {
            ScriptEncodeData::SinglePubkey => {
                encode_u8(sink, 0);
                assert(sink@ =~= old(sink)@ + self@.spec_bytes());
                Ok(())
            },
            ScriptEncodeData::LockScript(script) => {
                if script.len() > STRICT_COLLECTION_MAX {
                    return Err(Error::ValueOutOfRange);
                }
                encode_u8(sink, 1);
                match encode_byte_seq(sink, script) {
                    Ok(u) => {
                        assert(sink@ =~= old(sink)@ + self@.spec_bytes());
                        Ok(u)
                    },
                    Err(e) => Err(e),
                }
            },
        }
    }

    /// Reads one source from the stream; an unknown tag is a hard
    /// failure naming this enumeration and the offending byte.
    pub fn strict_decode(data: &Vec<u8>, pos: usize) -> (r: Result<(ScriptEncodeData, usize), Error>)
        ensures
            r matches Ok(p) ==> (p.0.wf() && ScriptEncodeDataView::spec_decode(data@, pos as int)
                == Ok::<(ScriptEncodeDataView, int), Error>((p.0@, p.1 as int))),
            r matches Err(e) ==> ScriptEncodeDataView::spec_decode(data@, pos as int) == Err::<
                (ScriptEncodeDataView, int),
                Error,
            >(e),
    {
        let tag = match decode_u8(data, pos) {
            Ok(p) => p,
            Err(e) => {
                return Err(e);
            },
        };
        if tag.0 == 0 {
            Ok((ScriptEncodeData::SinglePubkey, tag.1))
        } else if tag.0 == 1 {
            let script = match decode_byte_seq(data, tag.1) {
                Ok(p) => p,
                Err(e) => {
                    return Err(e);
                },
            };
            Ok((ScriptEncodeData::LockScript(script.0), script.1))
        } else {
            Err(Error::EnumValueNotKnown(TypeName::ScriptEncodeData, tag.0))
        }
    }
}

/// Abstract value of a `Proof`: the key bytes and the embedding.
pub struct ProofView {
    /// Raw bytes of the commitment key.
    pub pubkey: Seq<u8>,
    /// How the key was embedded on-chain.
    pub source: ScriptEncodeDataView,
}

impl ProofView {
    /// A proof is well-formed when its key holds exactly 33 bytes and
    /// its source is well-formed.
    pub open spec fn wf(self) -> bool {
        self.pubkey.len() == 33 && self.source.wf()
    }

    /// Canonical byte image: the 33 key bytes, then the source.
    pub open spec fn spec_bytes(self) -> Seq<u8> {
        self.pubkey + self.source.spec_bytes()
    }

    /// What decoding yields from stream `s` at position `pos`.
    pub open spec fn spec_decode(s: Seq<u8>, pos: int) -> Result<(ProofView, int), Error>
        recommends
            0 <= pos,
    {
        if pos + 33 > s.len() {
            Err(Error::DataIncomplete)
        } else {
            match ScriptEncodeDataView::spec_decode(s, pos + 33) {
                Err(e) => Err(e),
                Ok((source, q)) => Ok(
                    (ProofView { pubkey: s.subrange(pos, pos + 33), source }, q),
                ),
            }
        }
    }
}

/// A small, chain-verifiable attestation that some data was committed
/// via a public key: the key itself, and how it was embedded.
#[derive(Debug, PartialEq, Eq, Hash)]
pub struct Proof {
    /// The 33-byte compressed commitment key.
    pub pubkey: PublicKey,
    /// How the key was embedded on-chain.
    pub source: ScriptEncodeData,
}

impl View for Proof {
    type V = ProofView;

    open spec fn view(&self) -> ProofView {
        ProofView { pubkey: self.pubkey@, source: self.source@ }
    }
}

impl Clone for Proof {
    /// Copies the proof, preserving its abstract value exactly.
    fn clone(&self) -> (r: Self)
        ensures
            r@ == self@,
    {
        Proof { pubkey: self.pubkey.clone(), source: self.source.clone() }
    }
}

impl vstd::std_specs::convert::FromSpecImpl<PublicKey> for Proof {
    open spec fn obeys_from_spec() -> bool {
        true
    }

    open spec fn from_spec(pubkey: PublicKey) -> Proof {
        Proof { pubkey, source: ScriptEncodeData::SinglePubkey }
    }
}

impl From<PublicKey> for Proof {
    /// Wraps a bare key as the proof of a single-use pubkey commitment.
    fn from(pubkey: PublicKey) -> (r: Self)
        ensures
            r@ == (ProofView { pubkey: pubkey@, source: ScriptEncodeDataView::SinglePubkey }),
    {
        Proof { pubkey, source: ScriptEncodeData::SinglePubkey }
    }
}

impl Proof {
    /// A proof is well-formed when its abstract value is.
    pub open spec fn wf(self) -> bool {
        self@.wf()
    }

    /// Appends the canonical byte image to the sink. A key of the wrong
    /// size or a script beyond the collection cap is refused and the
    /// sink is left untouched.
    pub fn strict_encode(&self, sink: &mut Vec<u8>) -> (r: Result<(), Error>)
        ensures
            self.wf() ==> (r == Ok::<(), Error>(()) && final(sink)@ == old(sink)@
                + self@.spec_bytes()),
            !self.wf() ==> (r == Err::<(), Error>(Error::ValueOutOfRange) && final(sink)@ == old(
                sink,
            )@),
    {
        if self.pubkey.bytes.len() != 33 {
            return Err(Error::ValueOutOfRange);
        }
        let source_ok = match &self.source {
            ScriptEncodeData::SinglePubkey => true,
            ScriptEncodeData::LockScript(s) => s.len() <= STRICT_COLLECTION_MAX,
        };
        if !source_ok {
            return Err(Error::ValueOutOfRange);
        }
        encode_bytes(sink, &self.pubkey.bytes);
        match self.source.strict_encode(sink) {
            Ok(u) => {
                assert(sink@ =~= old(sink)@ + self@.spec_bytes());
                Ok(u)
            },
            Err(e) => Err(e),
        }
    }

    /// Canonical byte image as a fresh buffer, under the same
    /// well-formedness condition as `strict_encode`.
    pub fn strict_serialize(&self) -> (r: Result<Vec<u8>, Error>)
        ensures
            self.wf() ==> (r matches Ok(v) && v@ == self@.spec_bytes()),
            !self.wf() ==> r == Err::<Vec<u8>, Error>(Error::ValueOutOfRange),
    {
        let mut sink: Vec<u8> = Vec::new();
        match self.strict_encode(&mut sink) {
            Ok(_) => Ok(sink),
            Err(e) => Err(e),
        }
    }

    /// Reads a proof from the stream: 33 raw key bytes, then the
    /// source.
    pub fn strict_decode(data: &Vec<u8>, pos: usize) -> (r: Result<(Proof, usize), Error>)
        ensures
            r matches Ok(p) ==> (p.0.wf() && ProofView::spec_decode(data@, pos as int) == Ok::<
                (ProofView, int),
                Error,
            >((p.0@, p.1 as int))),
            r matches Err(e) ==> ProofView::spec_decode(data@, pos as int) == Err::<
                (ProofView, int),
                Error,
            >(e),
    {
        let key = match decode_bytes(data, pos, 33) {
            Ok(p) => p,
            Err(e) => {
                return Err(e);
            },
        };
        let source = match ScriptEncodeData::strict_decode(data, key.1) {
            Ok(p) => p,
            Err(e) => {
                return Err(e);
            },
        };
        Ok((Proof { pubkey: PublicKey { bytes: key.0 }, source: source.0 }, source.1))
    }
}

/// Reading back the canonical bytes of a well-formed source, from any
/// stream that carries them, returns exactly that source.
pub proof fn lemma_source_round_trip(v: ScriptEncodeDataView, s: Seq<u8>, pos: int)
    requires
        0 <= pos,
        v.wf(),
        pos + v.spec_bytes().len() <= s.len(),
        s.subrange(pos, pos + v.spec_bytes().len()) == v.spec_bytes(),
    ensures
        ScriptEncodeDataView::spec_decode(s, pos) == Ok::<(ScriptEncodeDataView, int), Error>((
            v,
            pos + v.spec_bytes().len(),
        )),
{
    let b = v.spec_bytes();
    let n = b.len();
    assert(forall|i: int| 0 <= i < n ==> s[pos + i] == #[trigger] b[i]) by {
        assert(forall|i: int|
            0 <= i < n ==> #[trigger] s.subrange(pos, pos + n)[i] == s[pos + i]);
    }
    match v {
        ScriptEncodeDataView::SinglePubkey => {
            assert(s[pos] == b[0] && b[0] == 0);
        },
        ScriptEncodeDataView::LockScript(sc) => {
            assert(s[pos] == b[0] && b[0] == 1);
            let sb = spec_byte_seq(sc);
            assert forall|i: int| 0 <= i < sb.len() implies s.subrange(
                pos + 1,
                pos + 1 + sb.len(),
            )[i] == sb[i] by {
                assert(s.subrange(pos + 1, pos + 1 + sb.len())[i] == s[pos + 1 + i]);
                assert(s[pos + 1 + i] == b[1 + i]);
                assert(b[1 + i] == sb[i]);
            }
            assert(s.subrange(pos + 1, pos + 1 + sb.len()) =~= sb);
            lemma_byte_seq_round_trip(sc, s, pos + 1);
        },
    }
}

/// Reading back the canonical bytes of a well-formed proof, from any
/// stream that carries them, returns exactly that proof: the round-trip
/// law of the commitment proof encoding.
pub proof fn lemma_proof_round_trip(v: ProofView, s: Seq<u8>, pos: int)
    requires
        0 <= pos,
        v.wf(),
        pos + v.spec_bytes().len() <= s.len(),
        s.subrange(pos, pos + v.spec_bytes().len()) == v.spec_bytes(),
    ensures
        ProofView::spec_decode(s, pos) == Ok::<(ProofView, int), Error>((
            v,
            pos + v.spec_bytes().len(),
        )),
{
    let b = v.spec_bytes();
    let n = b.len();
    assert(forall|i: int| 0 <= i < n ==> s[pos + i] == #[trigger] b[i]) by {
        assert(forall|i: int|
            0 <= i < n ==> #[trigger] s.subrange(pos, pos + n)[i] == s[pos + i]);
    }
    assert forall|i: int| 0 <= i < 33 implies s.subrange(pos, pos + 33)[i] == v.pubkey[i] by {
        assert(s.subrange(pos, pos + 33)[i] == s[pos + i]);
        assert(s[pos + i] == b[i]);
        assert(b[i] == v.pubkey[i]);
    }
    assert(s.subrange(pos, pos + 33) =~= v.pubkey);
    let sb = v.source.spec_bytes();
    assert forall|i: int| 0 <= i < sb.len() implies s.subrange(pos + 33, pos + 33 + sb.len())[i]
        == sb[i] by {
        assert(s.subrange(pos + 33, pos + 33 + sb.len())[i] == s[pos + 33 + i]);
        assert(s[pos + 33 + i] == b[33 + i]);
        assert(b[33 + i] == sb[i]);
    }
    assert(s.subrange(pos + 33, pos + 33 + sb.len()) =~= sb);
    lemma_source_round_trip(v.source, s, pos + 33);
}

/// Chain-side context a proof is verified against: the anchor key that
/// the chain actually shows, and the embedding it sits in.
#[derive(Debug, PartialEq, Eq)]
pub struct CommitmentHost {
    /// The key actually embedded on-chain.
    pub anchor: PublicKey,
    /// The embedding the chain actually shows.
    pub embedding: ScriptEncodeData,
}

/// The reconstructed, application-specific view of a commitment: built
/// deterministically from a proof, a caller-held supplement and a host,
/// and decomposable back into the exact proof it came from.
pub trait Container: Sized {
    /// Caller-held auxiliary data that was never itself committed.
    type Supplement: View;

    /// Chain-side context needed to locate and verify the commitment.
    type Host;

    /// The proof this container attests to.
    spec fn proof_view(&self) -> ProofView;

    /// The auxiliary data this container carries.
    spec fn supp_view(&self) -> <Self::Supplement as View>::V;

    /// On which inputs reconstruction succeeds.
    spec fn accepts(proof: &Proof, supplement: &Self::Supplement, host: &Self::Host) -> bool;

    /// The failure reported when reconstruction is refused.
    spec fn rejection(proof: &Proof, supplement: &Self::Supplement, host: &Self::Host) -> Error;

    /// Deterministically re-derives the committed container from a
    /// published proof; fails, never guesses, when the proof does not
    /// match what the host contains.
    fn reconstruct(proof: &Proof, supplement: &Self::Supplement, host: &Self::Host) -> (r: Result<
        Self,
        Error,
    >)
        ensures
            Self::accepts(proof, supplement, host) ==> (r matches Ok(c) && c.proof_view()
                == proof@ && c.supp_view() == supplement@),
            !Self::accepts(proof, supplement, host) ==> r == Err::<Self, Error>(
                Self::rejection(proof, supplement, host),
            ),
    ;

    /// Consumes the container, yielding back the exact proof it was
    /// reconstructed from together with the supplement.
    fn deconstruct(self) -> (r: (Proof, Self::Supplement))
        ensures
            r.0@ == self.proof_view(),
            r.1@ == self.supp_view(),
    ;

    /// The proof this container attests to, as a fresh value.
    fn to_proof(&self) -> (p: Proof)
        ensures
            p@ == self.proof_view(),
    ;

    /// The proof this container attests to, consuming the container.
    fn into_proof(self) -> (p: Proof)
        ensures
            p@ == self.proof_view(),
    ;
}

/// Reference container for plain pubkey commitments: the committed key,
/// its embedding, and an opaque byte payload held by the caller.
#[derive(Debug, PartialEq, Eq)]
pub struct PubkeyContainer {
    /// The committed key.
    pub pubkey: PublicKey,
    /// How the key was embedded on-chain.
    pub source: ScriptEncodeData,
    /// Caller-held auxiliary payload, never itself committed.
    pub supplement: Vec<u8>,
}

impl Container for PubkeyContainer {
    type Supplement = Vec<u8>;

    type Host = CommitmentHost;

    open spec fn proof_view(&self) -> ProofView {
        ProofView { pubkey: self.pubkey@, source: self.source@ }
    }

    open spec fn supp_view(&self) -> Seq<u8> {
        self.supplement@
    }

    /// The proof must claim the embedding the host shows, and carry the
    /// host's anchor key.
    open spec fn accepts(proof: &Proof, supplement: &Vec<u8>, host: &CommitmentHost) -> bool {
        proof@.source == host.embedding@ && proof@.pubkey == host.anchor@
    }

    /// A wrong embedding is a structural mismatch; a wrong key, with
    /// the right embedding, is a commitment mismatch.
    open spec fn rejection(proof: &Proof, supplement: &Vec<u8>, host: &CommitmentHost) -> Error {
        if proof@.source != host.embedding@ {
            Error::InvalidProofStructure
        } else {
            Error::CommitmentMismatch
        }
    }

    fn reconstruct(proof: &Proof, supplement: &Vec<u8>, host: &CommitmentHost) -> Result<
        Self,
        Error,
    > {
        if !eq_source(&proof.source, &host.embedding) {
            return Err(Error::InvalidProofStructure);
        }
        if !bytes_eq(&proof.pubkey.bytes, &host.anchor.bytes) {
            return Err(Error::CommitmentMismatch);
        }
        Ok(
            PubkeyContainer {
                pubkey: proof.pubkey.clone(),
                source: proof.source.clone(),
                supplement: clone_bytes(supplement),
            },
        )
    }

    fn deconstruct(self) -> (Proof, Vec<u8>) {
        (Proof { pubkey: self.pubkey, source: self.source }, self.supplement)
    }

    fn to_proof(&self) -> Proof {
        Proof { pubkey: self.pubkey.clone(), source: self.source.clone() }
    }

    fn into_proof(self) -> Proof {
        Proof { pubkey: self.pubkey, source: self.source }
    }
}


} // verus!
