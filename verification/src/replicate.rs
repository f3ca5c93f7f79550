//! What a single replica type can do: a struct of properties that is written
//! to and read from the wire, whole or in part.

use vstd::prelude::*;
use crate::diff_mask::DiffMask;
use crate::error::ProtocolError;
use crate::packet_reader::Parsed;
use crate::packet_reader::PacketReader;
use crate::protocol_type::{ProtocolKindType, ProtocolType};
use crate::wire::{
    ReplicaView, spec_mask_size, spec_read_full, spec_read_partial, spec_well_formed,
    spec_write, spec_write_partial,
};

verus! {

/// A replica that can be copied into the protocol's sum type.
pub trait EventClone<P: ProtocolType>: Sized {
    /// The kind and the property encodings of this replica.
    spec fn view(&self) -> ReplicaView;

    /// A boxed copy, as a value of the protocol.
    fn clone_box(&self) -> (copy: Box<P>)
        ensures
            copy@ == self@,
    ;
}

/// A container of properties that is kept in step with its copies on other
/// hosts.
pub trait Replicate<P: ProtocolType>: EventClone<P> {
    /// The kind of every value of this type.
    spec fn spec_kind() -> P::Kind;

    /// Every value is a well-formed replica of the type's kind.
    proof fn lemma_replica(&self)
        ensures
            self@.kind == Self::spec_kind().spec_to_u16(),
            spec_well_formed::<P::Kind>(self@),
    ;

    /// The kind of every value of this type.
    fn get_kind() -> (kind: P::Kind)
        ensures
            kind == Self::spec_kind(),
    ;

    /// The number of bytes of this replica's diff mask.
    fn get_diff_mask_size(&self) -> (size: u8)
        ensures
            size == spec_mask_size(self@.props.len()),
    ;

    /// A copy, as a value of the protocol.
    fn get_typed_copy(&self) -> (copy: P)
        ensures
            copy@ == self@,
    ;

    /// Appends the full body: all that a host needs to build the replica.
    fn write(&self, out_bytes: &mut Vec<u8>)
        ensures
            final(out_bytes)@ == old(out_bytes)@ + spec_write(self@.props),
    ;

    /// Appends the properties that `diff_mask` selects: all that a host
    /// needs to bring its copy up to date.
    fn write_partial(&self, diff_mask: &DiffMask, out_bytes: &mut Vec<u8>)
        ensures
            final(out_bytes)@ == old(out_bytes)@ + spec_write_partial(self@.props, diff_mask@),
    ;

    /// Builds a replica from a full body.
    fn read_full(reader: &mut PacketReader, packet_index: u16) -> (r: Result<Self, ProtocolError>)
        requires
            old(reader).wf(),
        ensures
            final(reader).wf(),
            final(reader).bytes() == old(reader).bytes(),
            match r {
                Ok(replica) => spec_read_full::<P::Kind>(
                    Self::spec_kind().spec_to_u16(),
                    old(reader).remaining(),
                ) matches Ok(parsed) && parsed.value == replica@ && final(reader).remaining()
                    == old(reader).remaining().skip(parsed.consumed as int),
                Err(e) => spec_read_full::<P::Kind>(
                    Self::spec_kind().spec_to_u16(),
                    old(reader).remaining(),
                ) == Err::<Parsed<ReplicaView>, ProtocolError>(e),
            },
    ;

    /// Reads the properties that `diff_mask` selects. If the packet is at
    /// fault the replica keeps its value.
    fn read_partial(
        &mut self,
        diff_mask: &DiffMask,
        reader: &mut PacketReader,
        packet_index: u16,
    ) -> (r: Result<(), ProtocolError>)
        requires
            old(reader).wf(),
        ensures
            final(reader).wf(),
            final(reader).bytes() == old(reader).bytes(),
            match r {
                Ok(_) => spec_read_partial::<P::Kind>(
                    old(self)@,
                    diff_mask@,
                    old(reader).remaining(),
                ) matches Ok(parsed) && parsed.value == final(self)@ && final(reader).remaining()
                    == old(reader).remaining().skip(parsed.consumed as int),
                Err(e) => spec_read_partial::<P::Kind>(
                    old(self)@,
                    diff_mask@,
                    old(reader).remaining(),
                ) == Err::<Parsed<ReplicaView>, ProtocolError>(e) && final(self)@ == old(self)@,
            },
    ;

    /// This replica inside `protocol`, if `protocol` holds one of this type.
    fn cast_ref(protocol: &P) -> (r: Option<&Self>)
        ensures
            match r {
                Some(replica) => replica@ == protocol@,
                None => protocol@.kind != Self::spec_kind().spec_to_u16(),
            },
    ;

    /// This replica inside `protocol`, to be changed in place, if
    /// `protocol` holds one of this type.
    fn cast_mut(protocol: &mut P) -> (r: Option<&mut Self>)
        ensures
            match r {
                Some(replica) => replica@ == old(protocol)@
                    && final(protocol)@ == final(replica)@,
                None => old(protocol)@.kind != Self::spec_kind().spec_to_u16()
                    && final(protocol)@ == old(protocol)@,
            },
    ;

    /// This replica taken out of `protocol`, if `protocol` holds one of this
    /// type.
    fn cast(protocol: P) -> (r: Option<Self>)
        ensures
            match r {
                Some(replica) => replica@ == protocol@,
                None => protocol@.kind != Self::spec_kind().spec_to_u16(),
            },
    ;
}

/// Equality of replicas goes by their properties alone.
pub trait ReplicateEq<P: ProtocolType>: Replicate<P> {
    /// Whether the two have the same properties.
    fn equals(&self, other: &Self) -> (equal: bool)
        ensures
            equal == (self@ == other@),
    ;

    /// Takes over the properties of `other`.
    fn mirror(&mut self, other: &Self)
        ensures
            final(self)@ == other@,
    ;
}

} // verus!
