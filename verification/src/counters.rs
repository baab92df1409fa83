//! Lifetime counters for one device: frames sent and received, frames dropped for a bad CRC,
//! reconnects and recovered restarts. Statistics, not synchronisation: each total wraps rather
//! than fail.

use crate::types::CountersSnapshot;
use vstd::prelude::*;

verus! {

/// Lifetime totals for one device.
#[derive(Debug, Clone, Copy, PartialEq, Eq, Structural)]
pub struct Counters {
    /// Frames written to the box.
    pub frames_tx: u64,
    /// Frames decoded from the box.
    pub frames_rx: u64,
    /// The decoder's running total of frames dropped for a bad CRC.
    pub crc_drops: u64,
    /// Reconnects performed.
    pub reconnects: u64,
    /// Device-chip restarts and session releases recovered from.
    pub restarts: u64,
}

/// One more, wrapping past the top.
pub open spec fn bump(n: u64) -> u64 {
    if n == u64::MAX {
        0
    } else {
        (n + 1) as u64
    }
}

impl Default for Counters {
    fn default() -> (c: Counters)
        ensures
            c == (Counters { frames_tx: 0, frames_rx: 0, crc_drops: 0, reconnects: 0, restarts: 0 }),
    {
        Counters { frames_tx: 0, frames_rx: 0, crc_drops: 0, reconnects: 0, restarts: 0 }
    }
}

impl Counters {
    /// Every total at zero.
    pub fn new() -> (c: Counters)
        ensures
            c == (Counters { frames_tx: 0, frames_rx: 0, crc_drops: 0, reconnects: 0, restarts: 0 }),
    {
        Counters { frames_tx: 0, frames_rx: 0, crc_drops: 0, reconnects: 0, restarts: 0 }
    }

    /// Count a frame sent.
    pub fn inc_tx(&mut self)
        ensures
            *final(self) == (Counters { frames_tx: bump(old(self).frames_tx), ..*old(self) }),
    {
        self.frames_tx = self.frames_tx.wrapping_add(1);
    }

    /// Count a frame received.
    pub fn inc_rx(&mut self)
        ensures
            *final(self) == (Counters { frames_rx: bump(old(self).frames_rx), ..*old(self) }),
    {
        self.frames_rx = self.frames_rx.wrapping_add(1);
    }

    /// Count a reconnect.
    pub fn inc_reconnects(&mut self)
        ensures
            *final(self) == (Counters { reconnects: bump(old(self).reconnects), ..*old(self) }),
    {
        self.reconnects = self.reconnects.wrapping_add(1);
    }

    /// Count a recovered device-chip restart.
    pub fn inc_restarts(&mut self)
        ensures
            *final(self) == (Counters { restarts: bump(old(self).restarts), ..*old(self) }),
    {
        self.restarts = self.restarts.wrapping_add(1);
    }

    /// Mirror the decoder's running CRC-drop total: it owns the count, so this stores it.
    pub fn set_crc_drops(&mut self, n: u64)
        ensures
            *final(self) == (Counters { crc_drops: n, ..*old(self) }),
    {
        self.crc_drops = n;
    }

    /// The four totals as a plain value.
    pub fn snapshot(&self) -> (s: CountersSnapshot)
        ensures
            s == (CountersSnapshot {
                frames_tx: self.frames_tx,
                frames_rx: self.frames_rx,
                crc_drops: self.crc_drops,
                reconnects: self.reconnects,
                restarts: self.restarts,
            }),
    {
        CountersSnapshot {
            frames_tx: self.frames_tx,
            frames_rx: self.frames_rx,
            crc_drops: self.crc_drops,
            reconnects: self.reconnects,
            restarts: self.restarts,
        }
    }
}

} // verus!
