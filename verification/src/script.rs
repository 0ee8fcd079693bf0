//! Schema script bindings: the node-action enumerations, the validation
//! `Procedure` tagged union with its canonical encoding, and the ABI
//! tables mapping actions to procedures in deterministic key order.

use vstd::prelude::*;

use crate::error::{Error, TypeName};
use crate::strict::{
    decode_result_matches, decode_u16, decode_u32, decode_u8, encode_u16, encode_u32, encode_u8,
    spec_u16_le, spec_u32_le, u16_from_le, u32_from_le,
};

verus! {

/// Capability of a node-specific action enumeration: each action has a
/// canonical one-byte discriminant, and the discriminant determines the
/// action. The discriminant order is the canonical encoding order.
pub trait NodeAction: Sized + Copy {
    /// Canonical discriminant of this action.
    spec fn disc_spec(self) -> u8;

    /// The action a discriminant stands for, if any.
    spec fn from_disc_spec(d: u8) -> Option<Self>;

    /// Name under which decode failures report this enumeration.
    spec fn reported_type_spec() -> TypeName;

    /// A discriminant round-trips to the action it was taken from; in
    /// particular the discriminant determines the action.
    proof fn lemma_disc(a: Self)
        ensures
            Self::from_disc_spec(a.disc_spec()) == Some(a),
    ;

    /// A known discriminant maps back to its own value.
    proof fn lemma_from_disc(d: u8)
        ensures
            Self::from_disc_spec(d) matches Some(a) ==> a.disc_spec() == d,
    ;

    /// Converts the action to its canonical discriminant.
    fn to_discriminant(&self) -> (r: u8)
        ensures
            r == self.disc_spec(),
    ;

    /// Looks an action up by discriminant; unknown values yield `None`.
    fn from_discriminant(d: u8) -> (r: Option<Self>)
        ensures
            r == Self::from_disc_spec(d),
    ;

    /// Name under which decode failures report this enumeration.
    fn reported_type() -> (r: TypeName)
        ensures
            r == Self::reported_type_spec(),
    ;
}

/// Actions attachable to a state-transition node.
#[non_exhaustive]
#[derive(Clone, Copy, Debug, PartialEq, Eq, PartialOrd, Ord, Structural)]
pub enum TransitionAction {
    /// Generates a blank transition for the node.
    GenerateBlank,
}

impl NodeAction for TransitionAction {
    open spec fn disc_spec(self) -> u8 {
        0
    }

    open spec fn from_disc_spec(d: u8) -> Option<Self> {
        if d == 0 {
            Some(TransitionAction::GenerateBlank)
        } else {
            None
        }
    }

    open spec fn reported_type_spec() -> TypeName {
        TypeName::TransitionAction
    }

    proof fn lemma_disc(a: Self) {
    }

    proof fn lemma_from_disc(d: u8) {
    }

    fn to_discriminant(&self) -> u8 {
        0
    }

    fn from_discriminant(d: u8) -> Option<Self> {
        if d == 0 {
            Some(TransitionAction::GenerateBlank)
        } else {
            None
        }
    }

    fn reported_type() -> TypeName {
        TypeName::TransitionAction
    }
}

/// Actions attachable to an assignment node.
#[non_exhaustive]
#[derive(Clone, Copy, Debug, PartialEq, Eq, PartialOrd, Ord, Structural)]
pub enum AssignmentAction {
    /// Validates the assignment's state data.
    Validate,
}

impl NodeAction for AssignmentAction {
    open spec fn disc_spec(self) -> u8 {
        0
    }

    open spec fn from_disc_spec(d: u8) -> Option<Self> {
        if d == 0 {
            Some(AssignmentAction::Validate)
        } else {
            None
        }
    }

    open spec fn reported_type_spec() -> TypeName {
        TypeName::AssignmentAction
    }

    proof fn lemma_disc(a: Self) {
    }

    proof fn lemma_from_disc(d: u8) {
    }

    fn to_discriminant(&self) -> u8 {
        0
    }

    fn from_discriminant(d: u8) -> Option<Self> {
        if d == 0 {
            Some(AssignmentAction::Validate)
        } else {
            None
        }
    }

    fn reported_type() -> TypeName {
        TypeName::AssignmentAction
    }
}

/// Well-known validation routines, each identified by a fixed one-byte
/// discriminant starting at 1.
#[non_exhaustive]
#[derive(Clone, Copy, Debug, PartialEq, Eq, PartialOrd, Ord, Structural)]
pub enum StandardProcedure {
    /// Validates a confidential-amount commitment.
    ConfidentialAmount,
    /// Validates issue-control rules.
    IssueControl,
    /// Validates pruning of spent state.
    Prunning,
}

impl StandardProcedure {
    /// Canonical discriminant of this procedure.
    pub open spec fn disc_spec(self) -> u8 {
        match self {
            StandardProcedure::ConfidentialAmount => 1,
            StandardProcedure::IssueControl => 2,
            StandardProcedure::Prunning => 3,
        }
    }

    /// Canonical byte image: the discriminant alone.
    pub open spec fn spec_bytes(self) -> Seq<u8> {
        seq![self.disc_spec()]
    }

    /// What decoding yields from stream `s` at position `pos`.
    pub open spec fn spec_decode(s: Seq<u8>, pos: int) -> Result<(StandardProcedure, int), Error>
        recommends
            0 <= pos,
    {
        if pos + 1 > s.len() {
            Err(Error::DataIncomplete)
        } else if s[pos] == 1 {
            Ok((StandardProcedure::ConfidentialAmount, pos + 1))
        } else if s[pos] == 2 {
            Ok((StandardProcedure::IssueControl, pos + 1))
        } else if s[pos] == 3 {
            Ok((StandardProcedure::Prunning, pos + 1))
        } else {
            Err(Error::EnumValueNotKnown(TypeName::StandardProcedure, s[pos]))
        }
    }

    /// Appends the canonical byte image to the sink.
    pub fn strict_encode(&self, sink: &mut Vec<u8>)
        ensures
            final(sink)@ == old(sink)@ + self.spec_bytes(),
    {
        match self {
            StandardProcedure::ConfidentialAmount => encode_u8(sink, 1),
            StandardProcedure::IssueControl => encode_u8(sink, 2),
            StandardProcedure::Prunning => encode_u8(sink, 3),
        }
    }

    /// Canonical byte image as a fresh buffer.
    pub fn strict_serialize(&self) -> (r: Vec<u8>)
        ensures
            r@ == self.spec_bytes(),
    {
        let mut sink: Vec<u8> = Vec::new();
        self.strict_encode(&mut sink);
        sink
    }

    /// Reads one procedure from the stream; an unknown discriminant is
    /// a hard failure naming this enumeration and the offending byte.
    pub fn strict_decode(data: &Vec<u8>, pos: usize) -> (r: Result<
        (StandardProcedure, usize),
        Error,
    >)
        ensures
            decode_result_matches(r, StandardProcedure::spec_decode(data@, pos as int)),
    {
        match decode_u8(data, pos) {
            Err(e) => Err(e),
            Ok((d, q)) => {
                if d == 1 {
                    Ok((StandardProcedure::ConfidentialAmount, q))
                } else if d == 2 {
                    Ok((StandardProcedure::IssueControl, q))
                } else if d == 3 {
                    Ok((StandardProcedure::Prunning, q))
                } else {
                    Err(Error::EnumValueNotKnown(TypeName::StandardProcedure, d))
                }
            },
        }
    }
}

/// Reading back the canonical bytes of a standard procedure, from any
/// stream that carries them, returns exactly that procedure.
pub proof fn lemma_standard_procedure_round_trip(p: StandardProcedure, s: Seq<u8>, pos: int)
    requires
        0 <= pos,
        pos + p.spec_bytes().len() <= s.len(),
        s.subrange(pos, pos + p.spec_bytes().len()) == p.spec_bytes(),
    ensures
        StandardProcedure::spec_decode(s, pos) == Ok::<(StandardProcedure, int), Error>((
            p,
            pos + p.spec_bytes().len(),
        )),
{
    assert(s[pos] == p.spec_bytes()[0]) by {
        assert(s.subrange(pos, pos + 1)[0] == s[pos]);
    }
}

/// A validation procedure: either a well-known standard routine, or a
/// byte offset into an external script engine's code.
#[non_exhaustive]
#[derive(Clone, Copy, Debug, PartialEq, Eq, PartialOrd, Ord, Structural)]
pub enum Procedure {
    /// A well-known validation routine, tagged `0xFF` on the wire.
    Standard(StandardProcedure),
    /// A script-engine entry point, tagged `0x00` on the wire and
    /// identified by byte offset.
    Simplicity { offset: u32 },
}

impl Procedure {
    /// Canonical byte image: the leading tag, then the payload.
    pub open spec fn spec_bytes(self) -> Seq<u8> {
        match self {
            Procedure::Simplicity { offset } => seq![0u8] + spec_u32_le(offset),
            Procedure::Standard(p) => seq![0xffu8] + p.spec_bytes(),
        }
    }

    /// What decoding yields from stream `s` at position `pos`: tag
    /// `0x00` reads a 32-bit offset, tag `0xFF` reads a standard
    /// procedure, and any other first byte is unknown.
    pub open spec fn spec_decode(s: Seq<u8>, pos: int) -> Result<(Procedure, int), Error>
        recommends
            0 <= pos,
    {
        if pos + 1 > s.len() {
            Err(Error::DataIncomplete)
        } else if s[pos] == 0 {
            if pos + 5 > s.len() {
                Err(Error::DataIncomplete)
            } else {
                Ok((
                    Procedure::Simplicity {
                        offset: u32_from_le(s[pos + 1], s[pos + 2], s[pos + 3], s[pos + 4]),
                    },
                    pos + 5,
                ))
            }
        } else if s[pos] == 0xff {
            match StandardProcedure::spec_decode(s, pos + 1) {
                Ok((p, q)) => Ok((Procedure::Standard(p), q)),
                Err(e) => Err(e),
            }
        } else {
            Err(Error::EnumValueNotKnown(TypeName::Procedure, s[pos]))
        }
    }

    /// Appends the canonical byte image to the sink.
    pub fn strict_encode(&self, sink: &mut Vec<u8>)
        ensures
            final(sink)@ == old(sink)@ + self.spec_bytes(),
    {
        match self {
            Procedure::Simplicity { offset } => {
                encode_u8(sink, 0);
                encode_u32(sink, *offset);
                assert(sink@ =~= old(sink)@ + self.spec_bytes());
            },
            Procedure::Standard(p) => {
                encode_u8(sink, 0xff);
                p.strict_encode(sink);
                assert(sink@ =~= old(sink)@ + self.spec_bytes());
            },
        }
    }

    /// Canonical byte image as a fresh buffer.
    pub fn strict_serialize(&self) -> (r: Vec<u8>)
        ensures
            r@ == self.spec_bytes(),
    {
        let mut sink: Vec<u8> = Vec::new();
        self.strict_encode(&mut sink);
        sink
    }

    /// Reads one procedure from the stream; an unknown leading tag is a
    /// hard failure naming this enumeration and the offending byte.
    pub fn strict_decode(data: &Vec<u8>, pos: usize) -> (r: Result<(Procedure, usize), Error>)
        ensures
            decode_result_matches(r, Procedure::spec_decode(data@, pos as int)),
    {
        match decode_u8(data, pos) {
            Err(e) => Err(e),
            Ok((tag, q)) => {
                if tag == 0 {
                    match decode_u32(data, q) {
                        Err(e) => Err(e),
                        Ok((offset, q2)) => Ok((Procedure::Simplicity { offset }, q2)),
                    }
                } else if tag == 0xff {
                    match StandardProcedure::strict_decode(data, q) {
                        Err(e) => Err(e),
                        Ok((p, q2)) => Ok((Procedure::Standard(p), q2)),
                    }
                } else {
                    Err(Error::EnumValueNotKnown(TypeName::Procedure, tag))
                }
            },
        }
    }
}

/// Reading back the canonical bytes of a procedure, from any stream
/// that carries them, returns exactly that procedure: the round-trip
/// law of the tagged variant codec.
pub proof fn lemma_procedure_round_trip(p: Procedure, s: Seq<u8>, pos: int)
    requires
        0 <= pos,
        pos + p.spec_bytes().len() <= s.len(),
        s.subrange(pos, pos + p.spec_bytes().len()) == p.spec_bytes(),
    ensures
        Procedure::spec_decode(s, pos) == Ok::<(Procedure, int), Error>((
            p,
            pos + p.spec_bytes().len(),
        )),
{
    let b = p.spec_bytes();
    let n = b.len();
    assert(forall|i: int| 0 <= i < n ==> s[pos + i] == #[trigger] b[i]) by {
        assert(forall|i: int|
            0 <= i < n ==> #[trigger] s.subrange(pos, pos + n)[i] == s[pos + i]);
    }
    match p {
        Procedure::Simplicity { offset } => {
            assert(b[0] == 0 && b[1] == spec_u32_le(offset)[0] && b[2] == spec_u32_le(offset)[1]
                && b[3] == spec_u32_le(offset)[2] && b[4] == spec_u32_le(offset)[3]);
            assert(s[pos] == b[0] && s[pos + 1] == b[1] && s[pos + 2] == b[2] && s[pos + 3] == b[3]
                && s[pos + 4] == b[4]);
            crate::strict::lemma_u32_le_round(offset);
        },
        Procedure::Standard(sp) => {
            assert(b[0] == 0xff && b[1] == sp.disc_spec());
            assert(s[pos] == b[0] && s[pos + 1] == b[1]);
            assert(StandardProcedure::spec_decode(s, pos + 1) == Ok::<
                (StandardProcedure, int),
                Error,
            >((sp, pos + 2)));
        },
    }
}


/// An ordered mapping from node actions to validation procedures.
/// Entries are held sorted by ascending action discriminant, so the
/// canonical encoding never depends on the order of insertions.
#[derive(Debug, PartialEq, Eq)]
pub struct ActionTable<A: NodeAction> {
    entries: Vec<(A, Procedure)>,
}

/// ABI table binding state-transition actions to procedures.
pub type TransitionAbi = ActionTable<TransitionAction>;

/// ABI table binding assignment actions to procedures.
pub type AssignmentAbi = ActionTable<AssignmentAction>;

impl<A: NodeAction> View for ActionTable<A> {
    type V = Map<u8, Procedure>;

    closed spec fn view(&self) -> Map<u8, Procedure> {
        ActionTable::<A>::seq_to_map(self.entries@)
    }
}

impl<A: NodeAction> ActionTable<A> {
    /// The stored entry run, ascending by discriminant.
    pub closed spec fn entries_spec(self) -> Seq<(A, Procedure)> {
        self.entries@
    }

    /// Strict ascending discriminant order over a run of entries.
    pub open spec fn sorted(s: Seq<(A, Procedure)>) -> bool {
        forall|i: int, j: int|
            0 <= i < j < s.len() ==> (#[trigger] s[i]).0.disc_spec() < (
            #[trigger] s[j]).0.disc_spec()
    }

    /// No two entries of the run share a discriminant.
    pub open spec fn distinct_discs(s: Seq<(A, Procedure)>) -> bool {
        forall|i: int, j: int|
            0 <= i < j < s.len() ==> (#[trigger] s[i]).0.disc_spec() != (
            #[trigger] s[j]).0.disc_spec()
    }

    /// Well-formed: the entry run is strictly sorted by discriminant.
    pub open spec fn wf(self) -> bool {
        Self::sorted(self.entries_spec())
    }

    /// The logical map a run of entries stands for.
    pub open spec fn seq_to_map(s: Seq<(A, Procedure)>) -> Map<u8, Procedure> {
        Map::new(
            |d: u8| exists|i: int| 0 <= i < s.len() && (#[trigger] s[i]).0.disc_spec() == d,
            |d: u8|
                s[choose|i: int| 0 <= i < s.len() && (#[trigger] s[i]).0.disc_spec() == d].1,
        )
    }

    /// With distinct discriminants, each entry is the map's binding.
    proof fn lemma_map_value(s: Seq<(A, Procedure)>, i: int)
        requires
            Self::distinct_discs(s),
            0 <= i < s.len(),
        ensures
            Self::seq_to_map(s).contains_key(s[i].0.disc_spec()),
            Self::seq_to_map(s)[s[i].0.disc_spec()] == s[i].1,
    {
        let d = s[i].0.disc_spec();
        assert(exists|k: int| 0 <= k < s.len() && (#[trigger] s[k]).0.disc_spec() == d);
        let j = choose|k: int| 0 <= k < s.len() && (#[trigger] s[k]).0.disc_spec() == d;
        assert(j == i);
    }

    /// Creates an empty table.
    pub fn new() -> (r: Self)
        ensures
            r.wf(),
            r@ == Map::<u8, Procedure>::empty(),
    {
        let r = ActionTable { entries: Vec::new() };
        proof {
            assert(r@ =~= Map::<u8, Procedure>::empty());
        }
        r
    }

    /// Binds `action` to `procedure`, replacing any earlier binding for
    /// the same action. The entry run stays sorted by discriminant.
    pub fn insert(&mut self, action: A, procedure: Procedure)
        requires
            old(self).wf(),
        ensures
            final(self).wf(),
            final(self)@ == old(self)@.insert(action.disc_spec(), procedure),
    {
        let d = action.to_discriminant();
        let ghost s0: Seq<(A, Procedure)> = self.entries@;
        let mut i: usize = 0;
        while i < self.entries.len() && self.entries[i].0.to_discriminant() < d
            invariant
                i <= s0.len(),
                self.entries@ == s0,
                d == action.disc_spec(),
                forall|k: int| 0 <= k < i ==> (#[trigger] s0[k]).0.disc_spec() < action.disc_spec(),
            decreases s0.len() - i,
        {
            i = i + 1;
        }
        let replace = i < self.entries.len() && self.entries[i].0.to_discriminant() == d;
        if replace {
            self.entries.remove(i);
        }
        self.entries.insert(i, (action, procedure));
        proof {
            let s1 = self.entries@;
            let dd = action.disc_spec();
            if replace {
                assert(s1 =~= s0.update(i as int, (action, procedure)));
                assert forall|k: int, l: int| 0 <= k < l < s1.len() implies (#[trigger] s1[k]).0.disc_spec()
                    < (#[trigger] s1[l]).0.disc_spec() by {
                    if k == i {
                        assert(s1[l] == s0[l] && s0[i as int].0.disc_spec() == dd);
                    } else if l == i {
                        assert(s1[k] == s0[k] && s0[i as int].0.disc_spec() == dd);
                    } else {
                        assert(s1[k] == s0[k] && s1[l] == s0[l]);
                    }
                }
                assert forall|d2: u8| true implies (Self::seq_to_map(s1).contains_key(d2)
                    <==> Self::seq_to_map(s0).insert(dd, procedure).contains_key(d2)) by {
                    assert(s1[i as int] == (action, procedure));
                    assert(s1[i as int].0.disc_spec() == dd);
                    if Self::seq_to_map(s1).contains_key(d2) {
                        let k = choose|k: int|
                            0 <= k < s1.len() && (#[trigger] s1[k]).0.disc_spec() == d2;
                        if k != i {
                            assert(s0[k] == s1[k]);
                            assert(s0[k].0.disc_spec() == d2);
                        }
                    }
                    if d2 != dd && Self::seq_to_map(s0).contains_key(d2) {
                        let k = choose|k: int|
                            0 <= k < s0.len() && (#[trigger] s0[k]).0.disc_spec() == d2;
                        assert(k != i && s1[k] == s0[k]);
                    }
                }
                assert forall|d2: u8| Self::seq_to_map(s1).contains_key(d2) implies Self::seq_to_map(
                    s1,
                )[d2] == Self::seq_to_map(s0).insert(dd, procedure)[d2] by {
                    let k = choose|k: int|
                        0 <= k < s1.len() && (#[trigger] s1[k]).0.disc_spec() == d2;
                    Self::lemma_map_value(s1, k);
                    if d2 == dd {
                        assert(k == i);
                    } else {
                        assert(k != i && s1[k] == s0[k]);
                        Self::lemma_map_value(s0, k);
                    }
                }
                assert(Self::seq_to_map(s1) =~= Self::seq_to_map(s0).insert(dd, procedure));
            } else {
                assert(i < s0.len() ==> s0[i as int].0.disc_spec() > dd);
                assert(s1 == s0.insert(i as int, (action, procedure)));
                assert forall|k: int| 0 <= k < s1.len() implies (#[trigger] s1[k]) == (if k < i {
                    s0[k]
                } else if k == i {
                    (action, procedure)
                } else {
                    s0[k - 1]
                }) by {}
                assert forall|k: int, l: int| 0 <= k < l < s1.len() implies (#[trigger] s1[k]).0.disc_spec()
                    < (#[trigger] s1[l]).0.disc_spec() by {
                    if k == i {
                        assert(s1[l] == s0[l - 1] && l - 1 >= i);
                        if l - 1 == i {
                            assert(s0[l - 1].0.disc_spec() > dd);
                        }
                    } else if l == i {
                        assert(s1[k] == s0[k]);
                    }
                }
                assert forall|d2: u8| true implies (Self::seq_to_map(s1).contains_key(d2)
                    <==> Self::seq_to_map(s0).insert(dd, procedure).contains_key(d2)) by {
                    assert(s1[i as int] == (action, procedure));
                    assert(s1[i as int].0.disc_spec() == dd);
                    if Self::seq_to_map(s1).contains_key(d2) {
                        let k = choose|k: int|
                            0 <= k < s1.len() && (#[trigger] s1[k]).0.disc_spec() == d2;
                        if k < i {
                            assert(s0[k].0.disc_spec() == d2);
                        } else if k > i {
                            assert(s0[k - 1].0.disc_spec() == d2);
                        }
                    }
                    if d2 != dd && Self::seq_to_map(s0).contains_key(d2) {
                        let k = choose|k: int|
                            0 <= k < s0.len() && (#[trigger] s0[k]).0.disc_spec() == d2;
                        if k < i {
                            assert(s1[k].0.disc_spec() == d2);
                        } else {
                            assert(s1[k + 1].0.disc_spec() == d2);
                        }
                    }
                }
                assert forall|d2: u8| Self::seq_to_map(s1).contains_key(d2) implies Self::seq_to_map(
                    s1,
                )[d2] == Self::seq_to_map(s0).insert(dd, procedure)[d2] by {
                    let k = choose|k: int|
                        0 <= k < s1.len() && (#[trigger] s1[k]).0.disc_spec() == d2;
                    Self::lemma_map_value(s1, k);
                    if d2 == dd {
                        assert(k == i) by {
                            if k < i {
                                assert(s1[k] == s0[k]);
                            } else if k > i {
                                assert(s1[k] == s0[k - 1] && k - 1 >= i);
                                if k - 1 == i {
                                    assert(s0[k - 1].0.disc_spec() > dd);
                                }
                            }
                        }
                    } else {
                        if k < i {
                            assert(s1[k] == s0[k]);
                            Self::lemma_map_value(s0, k);
                        } else {
                            assert(k > i && s1[k] == s0[k - 1]);
                            Self::lemma_map_value(s0, k - 1);
                        }
                    }
                }
                assert(Self::seq_to_map(s1) =~= Self::seq_to_map(s0).insert(dd, procedure));
            }
        }
    }

    /// Returns the procedure bound to `action`, if any.
    pub fn get(&self, action: &A) -> (r: Option<Procedure>)
        requires
            self.wf(),
        ensures
            self@.contains_key(action.disc_spec()) ==> r == Some(self@[action.disc_spec()]),
            !self@.contains_key(action.disc_spec()) ==> r is None,
    {
        let d = action.to_discriminant();
        let mut i: usize = 0;
        while i < self.entries.len()
            invariant
                i <= self.entries@.len(),
                self.wf(),
                d == action.disc_spec(),
                forall|k: int|
                    0 <= k < i ==> (#[trigger] self.entries@[k]).0.disc_spec()
                        != action.disc_spec(),
            decreases self.entries@.len() - i,
        {
            if self.entries[i].0.to_discriminant() == d {
                proof {
                    Self::lemma_map_value(self.entries@, i as int);
                }
                return Some(self.entries[i].1);
            }
            i = i + 1;
        }
        None
    }

    /// Canonical byte image of one entry: key discriminant, then the
    /// procedure's bytes.
    pub open spec fn spec_entry_bytes(e: (A, Procedure)) -> Seq<u8> {
        seq![e.0.disc_spec()] + e.1.spec_bytes()
    }

    /// Canonical byte image of a run of entries, in order.
    pub open spec fn spec_entries_bytes(s: Seq<(A, Procedure)>) -> Seq<u8>
        decreases s.len(),
    {
        if s.len() == 0 {
            Seq::empty()
        } else {
            Self::spec_entry_bytes(s[0]) + Self::spec_entries_bytes(s.drop_first())
        }
    }

    /// Canonical byte image of the table: 16-bit little-endian entry
    /// count, then each entry in ascending key order.
    pub closed spec fn spec_bytes(self) -> Seq<u8> {
        spec_u16_le(self.entries@.len() as u16) + Self::spec_entries_bytes(self.entries@)
    }

    /// In a sorted run, discriminants grow at least as fast as indices.
    proof fn lemma_sorted_disc_lower(s: Seq<(A, Procedure)>)
        requires
            Self::sorted(s),
            s.len() > 0,
        ensures
            forall|k: int|
                0 <= k < s.len() ==> (#[trigger] s[k]).0.disc_spec() >= s[0].0.disc_spec() + k,
        decreases s.len(),
    {
        if s.len() > 1 {
            let t = s.drop_first();
            assert forall|k: int| 0 <= k < t.len() implies (#[trigger] t[k]) == s[k + 1] by {}
            assert(Self::sorted(t));
            Self::lemma_sorted_disc_lower(t);
            assert forall|k: int| 0 <= k < s.len() implies (#[trigger] s[k]).0.disc_spec()
                >= s[0].0.disc_spec() + k by {
                if k > 0 {
                    assert(t[k - 1] == s[k]);
                    assert(t[k - 1].0.disc_spec() >= t[0].0.disc_spec() + (k - 1));
                    assert(t[0].0.disc_spec() == s[1].0.disc_spec() > s[0].0.disc_spec());
                }
            }
        }
    }

    /// A sorted run of one-byte discriminants cannot exceed 256 items.
    proof fn lemma_sorted_len(s: Seq<(A, Procedure)>)
        requires
            Self::sorted(s),
        ensures
            s.len() <= 256,
    {
        if s.len() > 256 {
            Self::lemma_sorted_disc_lower(s);
            assert(s[256].0.disc_spec() >= s[0].0.disc_spec() + 256);
        }
    }

    /// Appending one entry to a prefix extends its canonical bytes by
    /// that entry's bytes.
    proof fn lemma_entries_bytes_snoc(s: Seq<(A, Procedure)>, i: int)
        requires
            0 <= i < s.len(),
        ensures
            Self::spec_entries_bytes(s.take(i + 1)) == Self::spec_entries_bytes(s.take(i))
                + Self::spec_entry_bytes(s[i]),
        decreases i,
    {
        if i == 0 {
            assert(s.take(1) =~= seq![s[0]]);
            assert(s.take(0) =~= Seq::<(A, Procedure)>::empty());
            assert(s.take(1).drop_first() =~= Seq::<(A, Procedure)>::empty());
            assert(Self::spec_entries_bytes(s.take(1)) =~= Self::spec_entries_bytes(s.take(0))
                + Self::spec_entry_bytes(s[0]));
        } else {
            let t = s.drop_first();
            assert(s.take(i + 1).drop_first() =~= t.take(i));
            assert(s.take(i).drop_first() =~= t.take(i - 1));
            assert(s.take(i + 1)[0] == s[0] && s.take(i)[0] == s[0]);
            Self::lemma_entries_bytes_snoc(t, i - 1);
            assert(t[i - 1] == s[i]);
            assert(Self::spec_entries_bytes(s.take(i + 1)) =~= Self::spec_entries_bytes(s.take(i))
                + Self::spec_entry_bytes(s[i]));
        }
    }

    /// Appends the canonical byte image to the sink.
    pub fn strict_encode(&self, sink: &mut Vec<u8>)
        requires
            self.wf(),
        ensures
            final(sink)@ == old(sink)@ + self.spec_bytes(),
    {
        proof {
            Self::lemma_sorted_len(self.entries@);
        }
        let n = self.entries.len();
        encode_u16(sink, n as u16);
        let mut i: usize = 0;
        while i < self.entries.len()
            invariant
                i <= self.entries@.len(),
                self.entries@.len() == n,
                self.wf(),
                sink@ == old(sink)@ + spec_u16_le(n as u16) + Self::spec_entries_bytes(
                    self.entries@.take(i as int),
                ),
            decreases self.entries@.len() - i,
        {
            let entry = self.entries[i];
            encode_u8(sink, entry.0.to_discriminant());
            entry.1.strict_encode(sink);
            proof {
                Self::lemma_entries_bytes_snoc(self.entries@, i as int);
                assert(seq![entry.0.disc_spec()] + entry.1.spec_bytes() == Self::spec_entry_bytes(
                    self.entries@[i as int],
                ));
            }
            i = i + 1;
            assert(sink@ =~= old(sink)@ + spec_u16_le(n as u16) + Self::spec_entries_bytes(
                self.entries@.take(i as int),
            ));
        }
        proof {
            assert(self.entries@.take(n as int) =~= self.entries@);
            assert(sink@ =~= old(sink)@ + self.spec_bytes());
        }
    }

    /// Canonical byte image as a fresh buffer.
    pub fn strict_serialize(&self) -> (r: Vec<u8>)
        requires
            self.wf(),
        ensures
            r@ == self.spec_bytes(),
    {
        let mut sink: Vec<u8> = Vec::new();
        self.strict_encode(&mut sink);
        sink
    }

    /// What decoding `n` entries yields, inserting each into `acc` in
    /// encoded order with a duplicate-key check.
    pub open spec fn spec_entries_decode(
        s: Seq<u8>,
        pos: int,
        n: nat,
        acc: Map<u8, Procedure>,
    ) -> Result<(Map<u8, Procedure>, int), Error>
        decreases n,
    {
        if n == 0 {
            Ok((acc, pos))
        } else if pos + 1 > s.len() {
            Err(Error::DataIncomplete)
        } else {
            match A::from_disc_spec(s[pos]) {
                None => Err(Error::EnumValueNotKnown(A::reported_type_spec(), s[pos])),
                Some(a) => match Procedure::spec_decode(s, pos + 1) {
                    Err(e) => Err(e),
                    Ok((p, q)) => if acc.contains_key(a.disc_spec()) {
                        Err(Error::DuplicateKey)
                    } else {
                        Self::spec_entries_decode(s, q, (n - 1) as nat, acc.insert(a.disc_spec(), p))
                    },
                },
            }
        }
    }

    /// What decoding a whole table yields from stream `s` at `pos`: a
    /// 16-bit count, then exactly that many key/procedure entries.
    pub open spec fn spec_decode(s: Seq<u8>, pos: int) -> Result<(Map<u8, Procedure>, int), Error>
        recommends
            0 <= pos,
    {
        if pos + 2 > s.len() {
            Err(Error::DataIncomplete)
        } else {
            Self::spec_entries_decode(
                s,
                pos + 2,
                u16_from_le(s[pos], s[pos + 1]) as nat,
                Map::empty(),
            )
        }
    }

    /// Reads a table from the stream. Keys are re-sorted on insertion;
    /// a repeated key is a hard `DuplicateKey` failure, never a silent
    /// overwrite.
    pub fn strict_decode(data: &Vec<u8>, pos: usize) -> (r: Result<(Self, usize), Error>)
        ensures
            r matches Ok(p) ==> p.0.wf() && Self::spec_decode(data@, pos as int) == Ok::<
                (Map<u8, Procedure>, int),
                Error,
            >((p.0@, p.1 as int)),
            r matches Err(e) ==> Self::spec_decode(data@, pos as int) == Err::<
                (Map<u8, Procedure>, int),
                Error,
            >(e),
    {
        let count = match decode_u16(data, pos) {
            Ok(p) => p,
            Err(e) => {
                return Err(e);
            },
        };
        let n = count.0 as usize;
        let mut q = count.1;
        let mut table = Self::new();
        let mut i: usize = 0;
        while i < n
            invariant
                i <= n,
                table.wf(),
                Self::spec_decode(data@, pos as int) == Self::spec_entries_decode(
                    data@,
                    q as int,
                    (n - i) as nat,
                    table@,
                ),
            decreases n - i,
        {
            let key = match decode_u8(data, q) {
                Ok(p) => p,
                Err(e) => {
                    return Err(e);
                },
            };
            let action = match A::from_discriminant(key.0) {
                Some(a) => a,
                None => {
                    return Err(Error::EnumValueNotKnown(A::reported_type(), key.0));
                },
            };
            let proc_entry = match Procedure::strict_decode(data, key.1) {
                Ok(p) => p,
                Err(e) => {
                    return Err(e);
                },
            };
            if table.get(&action).is_some() {
                return Err(Error::DuplicateKey);
            }
            table.insert(action, proc_entry.0);
            q = proc_entry.1;
            i = i + 1;
        }
        Ok((table, q))
    }
}

/// The canonical encoding of a table is a function of the logical map
/// it holds alone: two well-formed tables holding equal maps encode to
/// identical bytes, whatever order of insertions built each of them.
pub proof fn lemma_table_encoding_deterministic<A: NodeAction>(
    t1: ActionTable<A>,
    t2: ActionTable<A>,
)
    requires
        t1.wf(),
        t2.wf(),
        t1@ == t2@,
    ensures
        t1.spec_bytes() == t2.spec_bytes(),
{
    lemma_sorted_entries_determined::<A>(t1.entries_spec(), t2.entries_spec());
}

/// Two sorted entry runs standing for the same logical map are equal.
proof fn lemma_sorted_entries_determined<A: NodeAction>(
    s1: Seq<(A, Procedure)>,
    s2: Seq<(A, Procedure)>,
)
    requires
        ActionTable::<A>::sorted(s1),
        ActionTable::<A>::sorted(s2),
        ActionTable::<A>::seq_to_map(s1) == ActionTable::<A>::seq_to_map(s2),
    ensures
        s1 == s2,
    decreases s1.len(),
{
    let m1 = ActionTable::<A>::seq_to_map(s1);
    let m2 = ActionTable::<A>::seq_to_map(s2);
    if s1.len() == 0 {
        if s2.len() > 0 {
            assert(m2.contains_key(s2[0].0.disc_spec()));
            assert(m1.contains_key(s2[0].0.disc_spec()));
        }
        assert(s1 =~= s2);
    } else if s2.len() == 0 {
        assert(m1.contains_key(s1[0].0.disc_spec()));
        assert(m2.contains_key(s1[0].0.disc_spec()));
        assert(s1 =~= s2);
    } else {
        let d1 = s1[0].0.disc_spec();
        let d2 = s2[0].0.disc_spec();
        assert(m1.contains_key(d1));
        assert(m2.contains_key(d2));
        assert(d2 <= d1) by {
            assert(m2.contains_key(d1));
            let j = choose|k: int| 0 <= k < s2.len() && (#[trigger] s2[k]).0.disc_spec() == d1;
            if j > 0 {
                assert(s2[0].0.disc_spec() < s2[j].0.disc_spec());
            }
        }
        assert(d1 <= d2) by {
            assert(m1.contains_key(d2));
            let j = choose|k: int| 0 <= k < s1.len() && (#[trigger] s1[k]).0.disc_spec() == d2;
            if j > 0 {
                assert(s1[0].0.disc_spec() < s1[j].0.disc_spec());
            }
        }
        assert(s1[0].0 == s2[0].0) by {
            A::lemma_disc(s1[0].0);
            A::lemma_disc(s2[0].0);
        }
        ActionTable::<A>::lemma_map_value(s1, 0);
        ActionTable::<A>::lemma_map_value(s2, 0);
        assert(s1[0].1 == m1[d1] && s2[0].1 == m2[d1]);
        let t1 = s1.drop_first();
        let t2 = s2.drop_first();
        assert forall|k: int| 0 <= k < t1.len() implies (#[trigger] t1[k]) == s1[k + 1] by {}
        assert forall|k: int| 0 <= k < t2.len() implies (#[trigger] t2[k]) == s2[k + 1] by {}
        assert(ActionTable::<A>::sorted(t1));
        assert(ActionTable::<A>::sorted(t2));
        lemma_tail_map_is_remove::<A>(s1);
        lemma_tail_map_is_remove::<A>(s2);
        assert(ActionTable::<A>::seq_to_map(t1) == ActionTable::<A>::seq_to_map(t2));
        lemma_sorted_entries_determined::<A>(t1, t2);
        assert(s1 =~= s2) by {
            assert forall|k: int| 0 <= k < s1.len() implies s1[k] == s2[k] by {
                if k > 0 {
                    assert(t1[k - 1] == s1[k] && t2[k - 1] == s2[k]);
                }
            }
        }
    }
}

/// Dropping a sorted run's first entry removes exactly its key from the
/// logical map.
proof fn lemma_tail_map_is_remove<A: NodeAction>(s: Seq<(A, Procedure)>)
    requires
        ActionTable::<A>::sorted(s),
        s.len() > 0,
    ensures
        ActionTable::<A>::seq_to_map(s.drop_first()) == ActionTable::<A>::seq_to_map(s).remove(
            s[0].0.disc_spec(),
        ),
{
    let t = s.drop_first();
    let d0 = s[0].0.disc_spec();
    assert forall|k: int| 0 <= k < t.len() implies (#[trigger] t[k]) == s[k + 1] by {}
    assert forall|d2: u8| true implies (ActionTable::<A>::seq_to_map(t).contains_key(d2)
        <==> ActionTable::<A>::seq_to_map(s).remove(d0).contains_key(d2)) by {
        if ActionTable::<A>::seq_to_map(t).contains_key(d2) {
            let k = choose|k: int| 0 <= k < t.len() && (#[trigger] t[k]).0.disc_spec() == d2;
            assert(s[k + 1].0.disc_spec() == d2);
            assert(s[0].0.disc_spec() < s[k + 1].0.disc_spec());
        }
        if d2 != d0 && ActionTable::<A>::seq_to_map(s).contains_key(d2) {
            let k = choose|k: int| 0 <= k < s.len() && (#[trigger] s[k]).0.disc_spec() == d2;
            assert(k > 0);
            assert(t[k - 1].0.disc_spec() == d2);
        }
    }
    assert forall|d2: u8| ActionTable::<A>::seq_to_map(t).contains_key(d2)
        implies ActionTable::<A>::seq_to_map(t)[d2] == ActionTable::<A>::seq_to_map(s).remove(
        d0,
    )[d2] by {
        let k = choose|k: int| 0 <= k < t.len() && (#[trigger] t[k]).0.disc_spec() == d2;
        assert(ActionTable::<A>::distinct_discs(t));
        ActionTable::<A>::lemma_map_value(t, k);
        assert(s[k + 1].0.disc_spec() == d2);
        assert(ActionTable::<A>::distinct_discs(s));
        ActionTable::<A>::lemma_map_value(s, k + 1);
    }
    assert(ActionTable::<A>::seq_to_map(t) =~= ActionTable::<A>::seq_to_map(s).remove(d0));
}


} // verus!
