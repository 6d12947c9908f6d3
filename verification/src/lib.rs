pub mod control;
pub mod detector;
pub mod encoder;
pub mod layout;
pub mod session;
pub mod transport;
