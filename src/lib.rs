//! A timed secret-sharing challenge: XOR secret splitting and the round
//! coordinator that hands out shares and checks reconstructions.
pub mod challenge;
pub mod crypto;
pub mod models;
