pub mod text;
pub mod sorting;
pub mod wire;
pub mod proto;
pub mod crypto;
pub mod packet;
pub mod jitter;
pub mod receiver;
pub mod security;
pub mod netinfo;
pub mod discovery;
pub mod settings;
pub mod panel;
pub mod handshake;
pub mod sender;
pub mod capture;
pub mod devices;
pub mod metrics;
