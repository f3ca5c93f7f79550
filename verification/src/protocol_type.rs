//! What a protocol is: the closed set of replica kinds that a server and its
//! clients agree on, and the sum of their values.

use vstd::prelude::*;
use crate::diff_mask::DiffMask;
use crate::error::ProtocolError;
use crate::packet_reader::Parsed;
use crate::packet_reader::PacketReader;
use crate::replicate::Replicate;
use crate::wire::{
    ReplicaView, spec_is_diff, spec_mask_size, spec_read_full, spec_read_partial,
    spec_well_formed, spec_write, spec_write_partial,
};

verus! {

/// The kinds of replica of one protocol. A kind has a stable 16-bit number
/// and fixes how many properties a replica has and how each is laid out on
/// the wire.
pub trait ProtocolKindType: Copy + Sized {
    /// The number of this kind on the wire.
    spec fn spec_to_u16(&self) -> u16;

    /// The kind with the given number, if the protocol declares one.
    spec fn spec_from_u16(val: u16) -> Option<Self>;

    /// How many properties a replica of this kind has.
    spec fn spec_property_count(&self) -> nat;

    /// The length of the encoding of property `index` that stands at the head
    /// of `input`, or why none stands there.
    spec fn spec_property_len(&self, index: nat, input: Seq<u8>) -> Result<nat, ProtocolError>;

    /// A kind is found again under its number, and only there; and its diff
    /// mask fits the one byte that carries a mask's length.
    proof fn lemma_kind_number(val: u16, kind: Self)
        ensures
            Self::spec_from_u16(val) == Some(kind) <==> kind.spec_to_u16() == val,
            kind.spec_property_count() <= 2040,
    ;

    fn to_u16(&self) -> (val: u16)
        ensures
            val == self.spec_to_u16(),
    ;

    fn from_u16(val: u16) -> (kind: Option<Self>)
        ensures
            kind == Self::spec_from_u16(val),
    ;
}

/// The sum of all replicas of one protocol: any message, component or
/// command that can travel between the hosts.
pub trait ProtocolType: Sized {
    type Kind: ProtocolKindType;

    /// The kind and the property encodings of the replica inside.
    spec fn view(&self) -> ReplicaView;

    /// Every value is a well-formed replica of a declared kind.
    proof fn lemma_well_formed(&self)
        ensures
            spec_well_formed::<Self::Kind>(self@),
    ;

    /// The kind of the replica inside.
    fn kind(&self) -> (kind: Self::Kind)
        ensures
            kind.spec_to_u16() == self@.kind,
    ;

    /// The number of bytes of a diff mask of the replica inside.
    fn get_diff_mask_size(&self) -> (size: u8)
        ensures
            size == spec_mask_size(self@.props.len()),
    ;

    /// Appends the full body of the replica inside.
    fn write(&self, out: &mut Vec<u8>)
        ensures
            final(out)@ == old(out)@ + spec_write(self@.props),
    ;

    /// Appends the properties that `diff_mask` selects.
    fn write_partial(&self, diff_mask: &DiffMask, out: &mut Vec<u8>)
        ensures
            final(out)@ == old(out)@ + spec_write_partial(self@.props, diff_mask@),
    ;

    /// Reads a whole replica of the kind numbered `kind`.
    fn read_full(kind: u16, reader: &mut PacketReader, packet_index: u16) -> (r: Result<
        Self,
        ProtocolError,
    >)
        requires
            old(reader).wf(),
        ensures
            final(reader).wf(),
            final(reader).bytes() == old(reader).bytes(),
            match r {
                Ok(replica) => spec_read_full::<Self::Kind>(kind, old(reader).remaining())
                    matches Ok(parsed) && parsed.value == replica@ && final(reader).remaining()
                    == old(reader).remaining().skip(parsed.consumed as int),
                Err(e) => spec_read_full::<Self::Kind>(kind, old(reader).remaining()) == Err::<
                    Parsed<ReplicaView>,
                    ProtocolError,
                >(e),
            },
    ;

    /// Reads the properties that `diff_mask` selects into the replica
    /// inside. If the packet is at fault the replica keeps its value.
    fn read_partial(
        &mut self,
        diff_mask: &DiffMask,
        reader: &mut PacketReader,
        packet_index: u16,
    ) -> (r: Result<(), ProtocolError>)
        requires
            old(reader).wf(),
        ensures
            final(reader).wf(),
            final(reader).bytes() == old(reader).bytes(),
            match r {
                Ok(_) => spec_read_partial::<Self::Kind>(
                    old(self)@,
                    diff_mask@,
                    old(reader).remaining(),
                ) matches Ok(parsed) && parsed.value == final(self)@ && final(reader).remaining()
                    == old(reader).remaining().skip(parsed.consumed as int),
                Err(e) => spec_read_partial::<Self::Kind>(
                    old(self)@,
                    diff_mask@,
                    old(reader).remaining(),
                ) == Err::<Parsed<ReplicaView>, ProtocolError>(e) && final(self)@ == old(self)@,
            },
    ;

    /// Whether two values hold equal replicas: the same kind with the same
    /// properties.
    fn equals(&self, other: &Self) -> (equal: bool)
        ensures
            equal == (self@ == other@),
    ;

    /// Takes over the properties of `other` if it is of the same kind;
    /// otherwise nothing changes.
    fn mirror(&mut self, other: &Self)
        ensures
            final(self)@ == (if old(self)@.kind == other@.kind {
                other@
            } else {
                old(self)@
            }),
    ;

    /// The mask of the properties in which `other`, a replica of the same
    /// kind, differs from this one; a clear mask for one of another kind.
    fn diff(&self, other: &Self) -> (mask: DiffMask)
        ensures
            mask.wf(),
            spec_is_diff(mask@, self@, other@),
    ;

    /// A value with an equal replica inside.
    fn copy(&self) -> (duplicate: Self)
        ensures
            duplicate@ == self@,
    ;
}

/// The kind of the replica type `R` in the protocol `P`.
pub fn kind_of<P: ProtocolType, R: Replicate<P>>() -> (kind: P::Kind)
    ensures
        kind == R::spec_kind(),
{
    R::get_kind()
}

/// Something that takes typed replicas in, such as the world of a host
/// program. It keeps account of what it was given.
pub trait ProtocolInserter<P: ProtocolType, N> {
    /// The replicas that were inserted so far, oldest first.
    spec fn inserted(&self) -> Seq<ReplicaView>;

    fn insert<R: Replicate<P>>(&mut self, entity: &N, component: R)
        ensures
            final(self).inserted() == old(self).inserted().push(component@),
    ;
}

/// An inserter that keeps what it is given, as values of the protocol.
pub struct ReplicaCollector<P: ProtocolType> {
    replicas: Vec<P>,
}

impl<P: ProtocolType> ReplicaCollector<P> {
    /// The views of the replicas that were collected, oldest first.
    pub closed spec fn view(&self) -> Seq<ReplicaView> {
        self.replicas@.map_values(|replica: P| replica@)
    }

    /// A collector that holds nothing.
    pub fn new() -> (collector: Self)
        ensures
            collector@ == Seq::<ReplicaView>::empty(),
    {
        let collector = ReplicaCollector { replicas: Vec::new() };
        assert(collector@ =~= Seq::<ReplicaView>::empty());
        collector
    }

    /// Hands out what was collected.
    pub fn into_replicas(self) -> (replicas: Vec<P>)
        ensures
            replicas@.map_values(|replica: P| replica@) == self@,
    {
        self.replicas
    }
}

impl<P: ProtocolType, N> ProtocolInserter<P, N> for ReplicaCollector<P> {
    closed spec fn inserted(&self) -> Seq<ReplicaView> {
        self@
    }

    fn insert<R: Replicate<P>>(&mut self, entity: &N, component: R) {
        let copy = component.get_typed_copy();
        self.replicas.push(copy);
        assert(self@ =~= old(self)@.push(component@));
    }
}

/// A protocol whose replicas can be handed out as the types they have.
pub trait ProtocolExtract: ProtocolType {
    /// Hands a copy of the replica inside, as the type it has, to `inserter`.
    fn extract_and_insert<N, X: ProtocolInserter<Self, N>>(&self, entity: &N, inserter: &mut X)
        ensures
            final(inserter).inserted() == old(inserter).inserted().push(self@),
    ;
}

} // verus!
