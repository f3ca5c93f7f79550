//! What a server and its clients must agree on before they talk.

use vstd::prelude::*;
use crate::manifest::{KindBuilder, Manifest, ReplicaBuilder};
use crate::protocol_type::ProtocolType;

verus! {

/// The time between two ticks, in milliseconds, where none is asked for.
pub const DEFAULT_TICK_INTERVAL: u64 = 16;

/// A network to be simulated: how late packets come, by how much that
/// varies, and how many of a thousand are lost.
#[derive(Clone, Copy, Debug, PartialEq, Eq, Structural)]
pub struct LinkConditionerConfig {
    /// The delay of a packet, in milliseconds.
    pub incoming_latency: u32,
    /// How far the delay of a packet may be from the latency, in
    /// milliseconds.
    pub incoming_jitter: u32,
    /// How many of a thousand packets are lost.
    pub incoming_loss: u16,
}

impl LinkConditionerConfig {
    /// A network with the given latency, jitter and loss.
    pub fn new(incoming_latency: u32, incoming_jitter: u32, incoming_loss: u16) -> (config: Self)
        ensures
            config == (LinkConditionerConfig { incoming_latency, incoming_jitter, incoming_loss }),
    {
        LinkConditionerConfig { incoming_latency, incoming_jitter, incoming_loss }
    }
}

/// The configuration that a server and its clients share.
pub struct SharedConfig<P: ProtocolType, B: ReplicaBuilder<P> = KindBuilder<P>> {
    /// The kinds of replica of the protocol.
    pub manifest: Manifest<P, B>,
    /// The time between two ticks, in milliseconds.
    pub tick_interval: u64,
    /// The network to be simulated, if any.
    pub link_condition_config: Option<LinkConditionerConfig>,
}

impl<P: ProtocolType, B: ReplicaBuilder<P>> SharedConfig<P, B> {
    /// A configuration with the given manifest and network; ticks are 16
    /// milliseconds apart unless another interval is given.
    pub fn new(
        manifest: Manifest<P, B>,
        tick_interval: Option<u64>,
        link_condition_config: Option<LinkConditionerConfig>,
    ) -> (config: Self)
        ensures
            config.manifest == manifest,
            config.tick_interval == (match tick_interval {
                Some(interval) => interval,
                None => DEFAULT_TICK_INTERVAL,
            }),
            config.link_condition_config == link_condition_config,
    {
        SharedConfig {
            manifest,
            tick_interval: match tick_interval {
                Some(interval) => interval,
                None => DEFAULT_TICK_INTERVAL,
            },
            link_condition_config,
        }
    }
}

} // verus!
