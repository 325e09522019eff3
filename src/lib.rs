//! Silent threshold encryption over BLS12-381.
//!
//! Parties publish public keys once; an aggregate key derived from them lets an
//! encryptor pick a threshold `t`, and any `t + 1` parties (the dummy party 0
//! among them) recover the session key from their partial decryptions.
//!
//! Field and group elements are held as their canonical compressed encodings;
//! the group arithmetic itself is done by the arkworks crates.
pub mod algebra;
pub mod codec;
pub mod decryption;
pub mod der;
pub mod encryption;
pub mod error;
pub mod kzg;
pub mod p2p;
pub mod poly;
pub mod security;
pub mod setup;
pub mod trusted_setup;
