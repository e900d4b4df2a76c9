//! The verified core of a server that turns a phone into a PC microphone.
pub mod audio;
pub mod server;
