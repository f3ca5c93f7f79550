//! The server's side: who is connected, what lives in the world, who sees
//! what, and what each connection still has to be told.

pub mod connection_table;
pub mod dispatch;
pub mod endpoint;
pub mod entity_message_receiver;
pub mod entity_store;
pub mod host;
pub mod keys;
pub mod packet_watch;
pub mod replication;
pub mod replication_laws;
pub mod replication_view;
pub mod room;
pub mod section_writer;
pub mod server_event;
pub mod server_laws;
pub mod server_view;
pub mod user;
