//! What can be wrong with the bytes of an incoming packet.

use vstd::prelude::*;

verus! {

/// A violation of the wire protocol. The connection that sent the packet is
/// dropped on any of them.
#[derive(Clone, Copy, Debug, PartialEq, Eq, Structural)]
pub enum ProtocolError {
    /// The packet ends before the value that is being read.
    Truncated,
    /// A replica kind that the protocol does not declare.
    UnknownKind,
    /// An action code outside the table of actions.
    UnknownAction,
    /// A diff mask whose length is not that of the replica it is for.
    MalformedMask,
    /// A section for a manager that the receiving host does not have.
    UnknownManager,
    /// New values for a component that the client does not have.
    UnknownComponent,
    /// Bytes that are not the encoding of any value of a property.
    InvalidValue,
}

} // verus!
