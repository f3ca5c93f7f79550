//! Tick-synchronised entity/component replication: the engine shared by the
//! server and its clients, with its rules stated as contracts.

pub mod action_writer;
pub mod behavior;
pub mod client;
pub mod diff_mask;
pub mod error;
pub mod key_set;
pub mod manager_type;
pub mod manifest;
pub mod message_writer;
pub mod messages;
pub mod packet_reader;
pub mod packet_type;
pub mod property;
pub mod protocol;
pub mod protocol_type;
pub mod replica_action_type;
pub mod replicate;
pub mod round_trip;
pub mod sequence_buffer;
pub mod server;
pub mod shared_config;
pub mod text;
pub mod ticker;
pub mod wire;
pub mod wrapping_number;
