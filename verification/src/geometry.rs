//! Disk geometry: sectors, tracks and the two densities.

use vstd::prelude::*;

verus! {

/// Bytes in one sector, the unit of extraction.
pub const SECTOR_BYTES: usize = 512;

/// Tracks on a disk of either density: 80 cylinders with two heads each.
pub const TRACKS: u16 = 160;

/// Recording density. It fixes how many sectors a track holds and with that
/// the size of the whole image.
#[derive(Clone, Copy, Debug, PartialEq, Eq, Structural)]
pub enum Density {
    /// Double density: 11 sectors per track, 1760 sectors, 880 KiB.
    Double,
    /// High density: 22 sectors per track, 3520 sectors, 1760 KiB.
    High,
}

impl Density {
    pub open spec fn spec_sectors_per_track(self) -> nat {
        match self {
            Density::Double => 11,
            Density::High => 22,
        }
    }

    pub open spec fn spec_total_sectors(self) -> nat {
        TRACKS as nat * self.spec_sectors_per_track()
    }

    pub open spec fn spec_track_bytes(self) -> nat {
        self.spec_sectors_per_track() * SECTOR_BYTES as nat
    }

    pub open spec fn spec_image_bytes(self) -> nat {
        self.spec_total_sectors() * SECTOR_BYTES as nat
    }

    /// Sectors in one track.
    pub fn sectors_per_track(self) -> (n: u16)
        ensures
            n == self.spec_sectors_per_track(),
            n == 11 || n == 22,
    {
        match self {
            Density::Double => 11,
            Density::High => 22,
        }
    }

    /// Sectors on the whole disk: 1760 or 3520.
    pub fn total_sectors(self) -> (n: u16)
        ensures
            n == self.spec_total_sectors(),
            n == 1760 || n == 3520,
    {
        match self {
            Density::Double => 1760,
            Density::High => 3520,
        }
    }

    /// Bytes in one decoded track: 5632 or 11264.
    pub fn track_bytes(self) -> (n: usize)
        ensures
            n == self.spec_track_bytes(),
            n == 5632 || n == 11264,
    {
        match self {
            Density::Double => 5632,
            Density::High => 11264,
        }
    }

    /// Bytes in the whole image: 901120 or 1802240.
    pub fn image_bytes(self) -> (n: usize)
        ensures
            n == self.spec_image_bytes(),
            n == 901120 || n == 1802240,
            n == TRACKS * self.spec_track_bytes(),
    {
        match self {
            Density::Double => 901120,
            Density::High => 1802240,
        }
    }

    /// The density whose image has exactly `len` bytes, if there is one.
    pub open spec fn spec_of_image_len(len: nat) -> Option<Density> {
        if len == Density::Double.spec_image_bytes() {
            Some(Density::Double)
        } else if len == Density::High.spec_image_bytes() {
            Some(Density::High)
        } else {
            None
        }
    }

    /// Detects the density of a linear image from its length.
    pub fn of_image_len(len: usize) -> (d: Option<Density>)
        ensures
            d == Density::spec_of_image_len(len as nat),
            d matches Some(found) ==> found.spec_image_bytes() == len,
    {
        if len == 901120 {
            Some(Density::Double)
        } else if len == 1802240 {
            Some(Density::High)
        } else {
            None
        }
    }
}

} // verus!
