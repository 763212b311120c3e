pub mod commands;
pub mod connection;
pub mod replication;
pub mod resp;
pub mod resp_result;
pub mod server;
pub mod server_result;
pub mod set;
pub mod storage;
pub mod storage_result;
pub mod text;
