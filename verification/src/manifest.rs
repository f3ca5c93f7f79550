//! The kinds of replica that a host is ready to receive, and the way from
//! the number of a kind on the wire to a replica.

use vstd::prelude::*;
use std::collections::HashMap;
use crate::error::ProtocolError;
use crate::packet_reader::Parsed;
use crate::packet_reader::PacketReader;
use crate::protocol_type::{ProtocolKindType, ProtocolType};
use crate::wire::{
    ReplicaView, spec_read_full};

verus! {

/// Builds replicas of one kind from the bytes of a packet.
pub trait ReplicaBuilder<P: ProtocolType> {
    /// The number of the kind that this builder builds.
    spec fn spec_kind(&self) -> u16;

    /// The kind that this builder builds.
    fn get_kind(&self) -> (kind: P::Kind)
        ensures
            kind.spec_to_u16() == self.spec_kind(),
    ;

    /// Reads a replica of the builder's kind.
    fn build(&self, reader: &mut PacketReader, packet_index: u16) -> (r: Result<P, ProtocolError>)
        requires
            old(reader).wf(),
        ensures
            final(reader).wf(),
            final(reader).bytes() == old(reader).bytes(),
            match r {
                Ok(replica) => spec_read_full::<P::Kind>(
                    self.spec_kind(),
                    old(reader).remaining(),
                ) matches Ok(parsed) && parsed.value == replica@ && final(reader).remaining()
                    == old(reader).remaining().skip(parsed.consumed as int),
                Err(e) => spec_read_full::<P::Kind>(self.spec_kind(), old(reader).remaining())
                    == Err::<Parsed<ReplicaView>, ProtocolError>(e),
            },
    ;
}

/// The builder of the replicas of one kind of a protocol.
pub struct KindBuilder<P: ProtocolType> {
    kind: P::Kind,
}

impl<P: ProtocolType> KindBuilder<P> {
    /// A builder for `kind`.
    pub fn new(kind: P::Kind) -> (builder: Self)
        ensures
            builder.spec_kind() == kind.spec_to_u16(),
    {
        KindBuilder { kind }
    }
}

impl<P: ProtocolType> ReplicaBuilder<P> for KindBuilder<P> {
    closed spec fn spec_kind(&self) -> u16 {
        self.kind.spec_to_u16()
    }

    fn get_kind(&self) -> (kind: P::Kind) {
        self.kind
    }

    fn build(&self, reader: &mut PacketReader, packet_index: u16) -> (r: Result<
        P,
        ProtocolError,
    >) {
        P::read_full(self.kind.to_u16(), reader, packet_index)
    }
}

/// What creating a replica of the kind numbered `kind` from the head of
/// `input` gives, where `registered` are the kinds that have a builder.
pub open spec fn spec_create_replica<K: ProtocolKindType>(
    registered: Set<u16>,
    kind: u16,
    input: Seq<u8>,
) -> Result<Parsed<ReplicaView>, ProtocolError> {
    if registered.contains(kind) {
        spec_read_full::<K>(kind, input)
    } else {
        Err(ProtocolError::UnknownKind)
    }
}

/// The builders of a protocol, by the number of their kind. The builders
/// are those of the library unless the host program brings its own.
pub struct Manifest<P: ProtocolType, B: ReplicaBuilder<P> = KindBuilder<P>> {
    builder_map: HashMap<u16, B>,
    protocol: core::marker::PhantomData<P>,
}

impl<P: ProtocolType, B: ReplicaBuilder<P>> Manifest<P, B> {
    /// The numbers of the kinds that have a builder.
    pub closed spec fn view(&self) -> Set<u16> {
        self.builder_map@.dom()
    }

    /// Each builder stands under the number of its kind.
    pub closed spec fn wf(&self) -> bool {
        forall|kind: u16|
            (#[trigger] self.builder_map@.contains_key(kind))
                ==> self.builder_map@[kind].spec_kind() == kind
    }

    /// A manifest without builders.
    pub fn new() -> (manifest: Self)
        ensures
            manifest.wf(),
            manifest@ == Set::<u16>::empty(),
    {
        let manifest = Manifest { builder_map: HashMap::new(), protocol: core::marker::PhantomData };
        assert(manifest@ =~= Set::<u16>::empty());
        manifest
    }

    /// Registers the builder of a kind; a builder that was registered for the
    /// same kind is replaced.
    pub fn register_replica(&mut self, replica_builder: B)
        requires
            old(self).wf(),
        ensures
            final(self).wf(),
            final(self)@ == old(self)@.insert(replica_builder.spec_kind()),
    {
        let kind = replica_builder.get_kind().to_u16();
        self.builder_map.insert(kind, replica_builder);
        assert(self@ =~= old(self)@.insert(replica_builder.spec_kind()));
    }

    /// Whether a builder is registered for the kind numbered `kind`.
    pub fn has_kind(&self, kind: u16) -> (registered: bool)
        ensures
            registered == self@.contains(kind),
    {
        self.builder_map.contains_key(&kind)
    }

    /// Creates a replica of the kind numbered `kind` from the bytes at the
    /// reader. A kind without a builder is a violation of the protocol, and
    /// nothing is read.
    pub fn create_replica(&self, kind: u16, reader: &mut PacketReader, packet_index: u16) -> (r:
        Result<P, ProtocolError>)
        requires
            self.wf(),
            old(reader).wf(),
        ensures
            final(reader).wf(),
            final(reader).bytes() == old(reader).bytes(),
            match r {
                Ok(replica) => spec_create_replica::<P::Kind>(
                    self@,
                    kind,
                    old(reader).remaining(),
                ) matches Ok(parsed) && parsed.value == replica@ && final(reader).remaining()
                    == old(reader).remaining().skip(parsed.consumed as int),
                Err(e) => spec_create_replica::<P::Kind>(self@, kind, old(reader).remaining())
                    == Err::<Parsed<ReplicaView>, ProtocolError>(e),
            },
            !self@.contains(kind) ==> r == Err::<P, ProtocolError>(ProtocolError::UnknownKind)
                && final(reader).remaining() == old(reader).remaining(),
    {
        match self.builder_map.get(&kind) {
            Some(replica_builder) => replica_builder.build(reader, packet_index),
            None => Err(ProtocolError::UnknownKind),
        }
    }
}

} // verus!
