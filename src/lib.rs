//! Control/audio split for a headless multi-track audio engine.
//!
//! The control side ([`manager::PeppermintManager`]) keeps the authoritative
//! view of tracks and plugin instances and sends [`command::Command`]s through a
//! bounded single-producer/single-consumer queue to the realtime side
//! ([`engine::PeppermintCore`]), which applies them at the start of every audio
//! callback.
use vstd::prelude::*;

pub mod command;
pub mod consistency;
pub mod control;
pub mod engine;
pub mod ids;
pub mod manager;
pub mod names;
pub mod queue;
pub mod records;
pub mod track;

verus! {

/// Identifier of a track or of a plugin instance. Zero means "allocate one".
pub type Id = u64;

/// A MIDI message from the audio backend, at a frame of the current buffer.
#[derive(Clone, Copy, Debug)]
pub struct RawMidi<'a> {
    pub frame: usize,
    pub data: &'a [u8],
}

} // verus!
