//! The bytes of a replica on the wire, stated once for every protocol: the
//! full body is the encodings of all properties in order, the partial body
//! those of the properties that a diff mask selects.

use vstd::prelude::*;
use crate::diff_mask::spec_bit;
use crate::error::ProtocolError;
use crate::packet_reader::Parsed;
use crate::protocol_type::ProtocolKindType;

verus! {

/// What a replica is to the protocol: its kind and the encodings of its
/// properties, in the order of the bits of its diff mask.
pub struct ReplicaView {
    pub kind: u16,
    pub props: Seq<Seq<u8>>,
}

/// The bytes of a diff mask for `count` properties.
pub open spec fn spec_mask_size(count: nat) -> nat {
    (count + 7) / 8
}

/// The properties of `view` are as many as its kind declares, and each one
/// is read back whole from any input that starts with it.
pub open spec fn spec_well_formed<K: ProtocolKindType>(view: ReplicaView) -> bool {
    match K::spec_from_u16(view.kind) {
        Some(kind) => {
            &&& kind.spec_property_count() == view.props.len()
            &&& spec_self_delimiting(kind, view.props)
        },
        None => false,
    }
}

/// Each of `props` is read back whole from any input that starts with it.
pub open spec fn spec_self_delimiting<K: ProtocolKindType>(kind: K, props: Seq<Seq<u8>>) -> bool {
    forall|i: nat, rest: Seq<u8>|
        i < props.len() ==> #[trigger] kind.spec_property_len(i, props[i as int] + rest) == Ok::<
            nat,
            ProtocolError,
        >(props[i as int].len())
}

/// The encodings of the properties from index `from` on, one after another.
pub open spec fn spec_write_from(props: Seq<Seq<u8>>, from: nat) -> Seq<u8>
    decreases props.len() - from,
{
    if from >= props.len() {
        Seq::empty()
    } else {
        props[from as int] + spec_write_from(props, from + 1)
    }
}

/// The full body of a replica.
pub open spec fn spec_write(props: Seq<Seq<u8>>) -> Seq<u8> {
    spec_write_from(props, 0)
}

/// The encodings of the properties from index `from` on whose bit is set in
/// `mask`.
pub open spec fn spec_write_partial_from(props: Seq<Seq<u8>>, mask: Seq<u8>, from: nat) -> Seq<u8>
    decreases props.len() - from,
{
    if from >= props.len() {
        Seq::empty()
    } else if spec_bit(mask, from) {
        props[from as int] + spec_write_partial_from(props, mask, from + 1)
    } else {
        spec_write_partial_from(props, mask, from + 1)
    }
}

/// The partial body of a replica under `mask`.
pub open spec fn spec_write_partial(props: Seq<Seq<u8>>, mask: Seq<u8>) -> Seq<u8> {
    spec_write_partial_from(props, mask, 0)
}

/// Reads the properties `from..count` of a replica of `kind` from the head
/// of `input`.
pub open spec fn spec_read_props<K: ProtocolKindType>(
    kind: K,
    from: nat,
    count: nat,
    input: Seq<u8>,
) -> Result<Parsed<Seq<Seq<u8>>>, ProtocolError>
    decreases count - from,
{
    if from >= count {
        Ok(Parsed { value: Seq::empty(), consumed: 0 })
    } else {
        match kind.spec_property_len(from, input) {
            Ok(n) => {
                if n > input.len() {
                    Err(ProtocolError::Truncated)
                } else {
                    match spec_read_props(kind, from + 1, count, input.skip(n as int)) {
                        Ok(rest) => Ok(
                            Parsed {
                                value: seq![input.take(n as int)] + rest.value,
                                consumed: n + rest.consumed,
                            },
                        ),
                        Err(e) => Err(e),
                    }
                }
            },
            Err(e) => Err(e),
        }
    }
}

/// Reads a whole replica of the kind with number `kind` from the head of
/// `input`. A number that the protocol does not declare is refused.
pub open spec fn spec_read_full<K: ProtocolKindType>(kind: u16, input: Seq<u8>) -> Result<
    Parsed<ReplicaView>,
    ProtocolError,
> {
    match K::spec_from_u16(kind) {
        None => Err(ProtocolError::UnknownKind),
        Some(k) => match spec_read_props(k, 0, k.spec_property_count(), input) {
            Ok(parsed) => Ok(
                Parsed {
                    value: ReplicaView { kind, props: parsed.value },
                    consumed: parsed.consumed,
                },
            ),
            Err(e) => Err(e),
        },
    }
}

/// Reads from the head of `input` the properties `from..` that `mask`
/// selects, and keeps those of `current` that it does not.
pub open spec fn spec_read_partial_from<K: ProtocolKindType>(
    kind: K,
    current: Seq<Seq<u8>>,
    mask: Seq<u8>,
    from: nat,
    input: Seq<u8>,
) -> Result<Parsed<Seq<Seq<u8>>>, ProtocolError>
    decreases current.len() - from,
{
    if from >= current.len() {
        Ok(Parsed { value: Seq::empty(), consumed: 0 })
    } else if spec_bit(mask, from) {
        match kind.spec_property_len(from, input) {
            Ok(n) => {
                if n > input.len() {
                    Err(ProtocolError::Truncated)
                } else {
                    match spec_read_partial_from(
                        kind,
                        current,
                        mask,
                        from + 1,
                        input.skip(n as int),
                    ) {
                        Ok(rest) => Ok(
                            Parsed {
                                value: seq![input.take(n as int)] + rest.value,
                                consumed: n + rest.consumed,
                            },
                        ),
                        Err(e) => Err(e),
                    }
                }
            },
            Err(e) => Err(e),
        }
    } else {
        match spec_read_partial_from(kind, current, mask, from + 1, input) {
            Ok(rest) => Ok(
                Parsed { value: seq![current[from as int]] + rest.value, consumed: rest.consumed },
            ),
            Err(e) => Err(e),
        }
    }
}

/// The outcome `rest` of reading the later properties, with the properties
/// `done` that took `used` bytes put in front of it.
pub open spec fn spec_prepend(
    done: Seq<Seq<u8>>,
    used: nat,
    rest: Result<Parsed<Seq<Seq<u8>>>, ProtocolError>,
) -> Result<Parsed<Seq<Seq<u8>>>, ProtocolError> {
    match rest {
        Ok(parsed) => Ok(Parsed { value: done + parsed.value, consumed: used + parsed.consumed }),
        Err(e) => Err(e),
    }
}

/// Applies a partial body at the head of `input` to the replica `current`.
pub open spec fn spec_read_partial<K: ProtocolKindType>(
    current: ReplicaView,
    mask: Seq<u8>,
    input: Seq<u8>,
) -> Result<Parsed<ReplicaView>, ProtocolError> {
    match K::spec_from_u16(current.kind) {
        None => Err(ProtocolError::UnknownKind),
        Some(k) => match spec_read_partial_from(k, current.props, mask, 0, input) {
            Ok(parsed) => Ok(
                Parsed {
                    value: ReplicaView { kind: current.kind, props: parsed.value },
                    consumed: parsed.consumed,
                },
            ),
            Err(e) => Err(e),
        },
    }
}

/// `current` with the properties that `mask` selects taken from `source`.
pub open spec fn spec_merge(current: Seq<Seq<u8>>, source: Seq<Seq<u8>>, mask: Seq<u8>) -> Seq<
    Seq<u8>,
> {
    Seq::new(
        current.len(),
        |i: int|
            if spec_bit(mask, i as nat) && i < source.len() {
                source[i]
            } else {
                current[i]
            },
    )
}

/// The mask of the properties in which two replicas of one kind differ: as
/// wide as the kind asks, with exactly those bits set.
pub open spec fn spec_is_diff(mask: Seq<u8>, a: ReplicaView, b: ReplicaView) -> bool {
    &&& mask.len() == spec_mask_size(a.props.len())
    &&& forall|i: nat|
        spec_bit(mask, i) <==> (i < a.props.len() && a.kind == b.kind && i < b.props.len()
            && a.props[i as int] != b.props[i as int])
}

/// Reading properties never takes more bytes than there are, and gives as
/// many properties as were asked for.
pub proof fn lemma_read_props_bounds<K: ProtocolKindType>(
    kind: K,
    from: nat,
    count: nat,
    input: Seq<u8>,
)
    requires
        from <= count,
    ensures
        spec_read_props(kind, from, count, input) matches Ok(parsed) ==> parsed.consumed
            <= input.len() && parsed.value.len() == count - from,
    decreases count - from,
{
    if from < count {
        if let Ok(n) = kind.spec_property_len(from, input) {
            if n <= input.len() {
                lemma_read_props_bounds(kind, from + 1, count, input.skip(n as int));
            }
        }
    }
}

/// A replica that was read is of the kind asked for and took no more bytes
/// than there were.
pub proof fn lemma_read_full_bounds<K: ProtocolKindType>(kind: u16, input: Seq<u8>)
    ensures
        spec_read_full::<K>(kind, input) matches Ok(parsed) ==> parsed.consumed <= input.len()
            && parsed.value.kind == kind,
{
    if let Some(k) = K::spec_from_u16(kind) {
        lemma_read_props_bounds(k, 0, k.spec_property_count(), input);
    }
}

/// A partial read never takes more bytes than there are, and gives as many
/// properties as the replica has.
pub proof fn lemma_read_partial_bounds<K: ProtocolKindType>(
    kind: K,
    current: Seq<Seq<u8>>,
    mask: Seq<u8>,
    from: nat,
    input: Seq<u8>,
)
    requires
        from <= current.len(),
    ensures
        spec_read_partial_from(kind, current, mask, from, input) matches Ok(parsed)
            ==> parsed.consumed <= input.len() && parsed.value.len() == current.len() - from,
    decreases current.len() - from,
{
    if from < current.len() {
        if spec_bit(mask, from) {
            if let Ok(n) = kind.spec_property_len(from, input) {
                if n <= input.len() {
                    lemma_read_partial_bounds(kind, current, mask, from + 1, input.skip(n as int));
                }
            }
        } else {
            lemma_read_partial_bounds(kind, current, mask, from + 1, input);
        }
    }
}

/// Reading back what was written gives the properties that were written,
/// whatever follows them in the packet.
pub proof fn lemma_props_round_trip<K: ProtocolKindType>(
    kind: K,
    props: Seq<Seq<u8>>,
    from: nat,
    rest: Seq<u8>,
)
    requires
        from <= props.len(),
        spec_self_delimiting(kind, props),
    ensures
        spec_read_props(kind, from, props.len(), spec_write_from(props, from) + rest) == Ok::<
            Parsed<Seq<Seq<u8>>>,
            ProtocolError,
        >(
            Parsed {
                value: props.skip(from as int),
                consumed: spec_write_from(props, from).len(),
            },
        ),
        (spec_write_from(props, from) + rest).skip(spec_write_from(props, from).len() as int)
            == rest,
    decreases props.len() - from,
{
    let written = spec_write_from(props, from);
    assert((written + rest).skip(written.len() as int) =~= rest);
    if from < props.len() {
        let head = props[from as int];
        let tail = spec_write_from(props, from + 1);
        let input = written + rest;
        assert(input =~= head + (tail + rest));
        assert(kind.spec_property_len(from, head + (tail + rest)) == Ok::<nat, ProtocolError>(
            head.len(),
        ));
        assert(input.take(head.len() as int) =~= head);
        assert(input.skip(head.len() as int) =~= tail + rest);
        lemma_props_round_trip(kind, props, from + 1, rest);
        assert(seq![head] + props.skip(from as int + 1) =~= props.skip(from as int));
    } else {
        assert(props.skip(from as int) =~= Seq::<Seq<u8>>::empty());
    }
}

/// A full body that is read back gives the replica that was written.
pub proof fn lemma_full_round_trip<K: ProtocolKindType>(view: ReplicaView, rest: Seq<u8>)
    requires
        spec_well_formed::<K>(view),
    ensures
        spec_read_full::<K>(view.kind, spec_write(view.props) + rest) == Ok::<
            Parsed<ReplicaView>,
            ProtocolError,
        >(Parsed { value: view, consumed: spec_write(view.props).len() }),
        (spec_write(view.props) + rest).skip(spec_write(view.props).len() as int) == rest,
{
    let kind = K::spec_from_u16(view.kind)->0;
    lemma_props_round_trip(kind, view.props, 0, rest);
    assert(view.props.skip(0) =~= view.props);
}

/// A partial body that is applied to another replica of the same kind gives
/// that replica with the masked properties replaced, whatever follows the
/// body in the packet.
pub proof fn lemma_partial_props_round_trip<K: ProtocolKindType>(
    kind: K,
    source: Seq<Seq<u8>>,
    current: Seq<Seq<u8>>,
    mask: Seq<u8>,
    from: nat,
    rest: Seq<u8>,
)
    requires
        from <= source.len(),
        source.len() == current.len(),
        spec_self_delimiting(kind, source),
    ensures
        spec_read_partial_from(
            kind,
            current,
            mask,
            from,
            spec_write_partial_from(source, mask, from) + rest,
        ) == Ok::<Parsed<Seq<Seq<u8>>>, ProtocolError>(
            Parsed {
                value: spec_merge(current, source, mask).skip(from as int),
                consumed: spec_write_partial_from(source, mask, from).len(),
            },
        ),
        (spec_write_partial_from(source, mask, from) + rest).skip(
            spec_write_partial_from(source, mask, from).len() as int,
        ) == rest,
    decreases source.len() - from,
{
    let written = spec_write_partial_from(source, mask, from);
    let merged = spec_merge(current, source, mask);
    assert((written + rest).skip(written.len() as int) =~= rest);
    if from < source.len() {
        lemma_partial_props_round_trip(kind, source, current, mask, from + 1, rest);
        let tail = spec_write_partial_from(source, mask, from + 1);
        assert(seq![merged[from as int]] + merged.skip(from as int + 1) =~= merged.skip(
            from as int,
        ));
        if spec_bit(mask, from) {
            let head = source[from as int];
            let input = written + rest;
            assert(input =~= head + (tail + rest));
            assert(kind.spec_property_len(from, head + (tail + rest)) == Ok::<
                nat,
                ProtocolError,
            >(head.len()));
            assert(input.take(head.len() as int) =~= head);
            assert(input.skip(head.len() as int) =~= tail + rest);
        }
    } else {
        assert(merged.skip(from as int) =~= Seq::<Seq<u8>>::empty());
    }
}

/// Writing the masked properties of `source` and reading them into
/// `current`, a replica of the same kind, makes `current` equal to `source`
/// in the masked properties and leaves the others as they were.
pub proof fn lemma_partial_round_trip<K: ProtocolKindType>(
    source: ReplicaView,
    current: ReplicaView,
    mask: Seq<u8>,
    rest: Seq<u8>,
)
    requires
        spec_well_formed::<K>(source),
        spec_well_formed::<K>(current),
        source.kind == current.kind,
    ensures
        spec_read_partial::<K>(current, mask, spec_write_partial(source.props, mask) + rest)
            == Ok::<Parsed<ReplicaView>, ProtocolError>(
            Parsed {
                value: ReplicaView {
                    kind: current.kind,
                    props: spec_merge(current.props, source.props, mask),
                },
                consumed: spec_write_partial(source.props, mask).len(),
            },
        ),
        (spec_write_partial(source.props, mask) + rest).skip(
            spec_write_partial(source.props, mask).len() as int,
        ) == rest,
{
    let kind = K::spec_from_u16(source.kind)->0;
    lemma_partial_props_round_trip(kind, source.props, current.props, mask, 0, rest);
    let merged = spec_merge(current.props, source.props, mask);
    assert(merged.skip(0) =~= merged);
}

/// Merging under the mask of the differences makes the two replicas equal;
/// merging under a mask that covers those differences does too.
pub proof fn lemma_merge_covers(current: ReplicaView, source: ReplicaView, mask: Seq<u8>)
    requires
        current.kind == source.kind,
        current.props.len() == source.props.len(),
        forall|i: nat|
            i < current.props.len() && current.props[i as int] != source.props[i as int]
                ==> spec_bit(mask, i),
    ensures
        spec_merge(current.props, source.props, mask) == source.props,
{
    assert(spec_merge(current.props, source.props, mask) =~= source.props);
}

} // verus!
