pub mod exit;
pub mod relay;
pub mod client;
pub mod exit_handshake;
pub mod exit_session;
