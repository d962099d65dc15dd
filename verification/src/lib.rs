//! Decryption engine for the QMC2 stream cipher in its RC4 flavour.
//!
//! The cipher XORs every byte of a logical stream with a mask that depends on
//! the byte's absolute position only.  The first 128 positions take their mask
//! from the key itself, at an index derived per byte; every later position
//! takes it from one cached keystream, read through a window that slides by a
//! pseudo-random amount per block of 5120 bytes.
//!
//! The keystream generator, the key hash and the segment-key derivation are
//! not part of this crate: the engine receives them as functions when it is
//! built and composes them.
//!
//! * [`model`] states what the cipher computes, over sequences.
//! * [`collaborators`] states what the engine asks of the three functions.
//! * [`cipher`] is the engine, proved against the model.
//! * [`laws`] holds the theorems that follow from the model.

pub mod cipher;
pub mod collaborators;
pub mod laws;
pub mod model;

pub use cipher::Error;
pub use cipher::QMC2RC4;
