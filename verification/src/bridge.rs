//! Common control surface of the reader and writer halves: protocol state,
//! compression threshold, and one-shot encryption.

use vstd::prelude::*;
use crate::types::{State, PacketDirection, Error};

verus! {

/// Control operations shared by `ReadBridge` and `WriteBridge`. A connection
/// fans each call to both halves.
pub trait Bridge: Sized {
    /// Current protocol state.
    spec fn bridge_state(&self) -> State;

    /// Current compression threshold; `None` bypasses the compression layer.
    spec fn bridge_threshold(&self) -> Option<i32>;

    /// Installed cipher, as (key, current iv register); `None` until
    /// encryption is enabled.
    spec fn bridge_cipher(&self) -> Option<(Seq<u8>, Seq<u8>)>;

    /// The half's well-formedness invariant; every control call preserves
    /// it, so the data path stays callable.
    spec fn bridge_wf(&self) -> bool;

    /// The direction this half serves; fixed at construction, untouched by
    /// every control call.
    spec fn bridge_direction(&self) -> PacketDirection;

    /// Replace the protocol state. No effect on bytes already in flight.
    fn set_state(&mut self, next: State)
        ensures
            final(self).bridge_state() == next,
            final(self).bridge_threshold() == old(self).bridge_threshold(),
            final(self).bridge_cipher() == old(self).bridge_cipher(),
            old(self).bridge_wf() ==> final(self).bridge_wf(),
            final(self).bridge_direction() == old(self).bridge_direction(),
    ;

    /// Switch compression on or off; the threshold is a non-negative cutoff.
    /// Takes effect on the next packet.
    fn set_compression_threshold(&mut self, threshold: Option<i32>)
        requires
            threshold matches Some(t) ==> t >= 0,
        ensures
            final(self).bridge_threshold() == threshold,
            final(self).bridge_state() == old(self).bridge_state(),
            final(self).bridge_cipher() == old(self).bridge_cipher(),
            old(self).bridge_wf() ==> final(self).bridge_wf(),
            final(self).bridge_direction() == old(self).bridge_direction(),
    ;

    /// Install cipher state from 16 bytes of key and 16 bytes of iv. One-shot
    /// per half: a second call fails with `DoubleEnableEncryption` and leaves
    /// the installed cipher state untouched.
    fn enable_encryption(&mut self, key: &Vec<u8>, iv: &Vec<u8>) -> (r: Result<(), Error>)
        ensures
            final(self).bridge_state() == old(self).bridge_state(),
            final(self).bridge_threshold() == old(self).bridge_threshold(),
            old(self).bridge_wf() ==> final(self).bridge_wf(),
            final(self).bridge_direction() == old(self).bridge_direction(),
            match r {
                Ok(u) => old(self).bridge_cipher() is None && key@.len() == 16 && iv@.len() == 16
                    && final(self).bridge_cipher() == Some((key@, iv@)),
                Err(e) => final(self).bridge_cipher() == old(self).bridge_cipher() && ((e
                    == Error::DoubleEnableEncryption && old(self).bridge_cipher() is Some) || (e
                    == Error::InvalidKeyMaterial && old(self).bridge_cipher() is None && !(
                key@.len() == 16 && iv@.len() == 16))),
            },
    ;
}

} // verus!
