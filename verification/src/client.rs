//! The client's side: the replicas it has been sent, and the commands it
//! predicts.

pub mod client_state;
pub mod client_view;
pub mod command_receiver;
pub mod component_record;
pub mod packet;
pub mod replica_action;
pub mod replica_manager;
pub mod session;
pub mod wire_action;
