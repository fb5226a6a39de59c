//! Decoding one track record: unpack the payload by its mode, then verify
//! the checksum.
//!
//! A record is corrupt where its payload is not as long as its header says,
//! where the decoded length it declares is not a track of the disk, where
//! its mode tag is unknown, where the payload is not a well-formed stream
//! that takes up all of the payload and fills the track exactly, or where the
//! decoded bytes do not add up to the declared checksum.

use vstd::prelude::*;
use vstd::slice::slice_to_vec;
use crate::checksum::{checksum, track_checksum};
use crate::dms::{Mode, TrackEntry, TrackRecord, MAX_PACKED_LEN};
use crate::geometry::Density;
use crate::lzh::{decode_lzh, lemma_lzh_fills_track, lzh_unpacked, Depth};
use crate::quick::{decode_quick, lemma_quick_fills_track, quick_unpacked};
use crate::rle::{decode_simple, simple_unpacked};

verus! {

/// What a payload unpacks to under `mode`, if it is a well-formed stream for
/// a track of `out_len` bytes.
pub open spec fn unpacked(mode: Mode, payload: Seq<u8>, out_len: nat) -> Option<Seq<u8>> {
    match mode {
        Mode::NONE => if payload.len() == out_len {
            Some(payload)
        } else {
            None
        },
        Mode::SIMPLE => simple_unpacked(payload, out_len),
        Mode::QUICK => quick_unpacked(payload, out_len),
        Mode::MEDIUM => lzh_unpacked(Depth::Medium, payload, out_len),
        Mode::DEEP => lzh_unpacked(Depth::Deep, payload, out_len),
    }
}

/// The bytes of the track that a record holds, or `None` where the record
/// is corrupt.
pub open spec fn decoded_track(entry: TrackEntry, density: Density) -> Option<Seq<u8>> {
    if entry.payload.len() != entry.header.packed_len || entry.header.unpacked_len
        != density.spec_track_bytes() {
        None
    } else {
        match Mode::spec_from_tag(entry.header.mode_tag) {
            None => None,
            Some(mode) => match unpacked(mode, entry.payload, entry.header.unpacked_len as nat) {
                None => None,
                Some(bytes) => if track_checksum(bytes) == entry.header.checksum {
                    Some(bytes)
                } else {
                    None
                },
            },
        }
    }
}

/// A record that is not corrupt holds a whole track.
pub proof fn lemma_decoded_track_is_whole(entry: TrackEntry, density: Density)
    ensures
        decoded_track(entry, density) matches Some(bytes) ==> bytes.len()
            == density.spec_track_bytes(),
{
    let out_len = entry.header.unpacked_len as nat;
    lemma_quick_fills_track(entry.payload, 0, Seq::empty(), out_len);
    lemma_lzh_fills_track(Depth::Medium, entry.payload, 0, Seq::empty(), out_len);
    lemma_lzh_fills_track(Depth::Deep, entry.payload, 0, Seq::empty(), out_len);
}

/// Unpacks a payload under `mode` into a track of `out_len` bytes.
pub fn unpack(mode: Mode, payload: &[u8], out_len: usize) -> (r: Option<Vec<u8>>)
    requires
        payload@.len() <= MAX_PACKED_LEN,
    ensures
        match r {
            Some(bytes) => unpacked(mode, payload@, out_len as nat) == Some(bytes@) && bytes@.len()
                == out_len,
            None => unpacked(mode, payload@, out_len as nat) is None,
        },
{
    match mode {
        Mode::NONE => {
            if payload.len() == out_len {
                Some(slice_to_vec(payload))
            } else {
                None
            }
        },
        Mode::SIMPLE => decode_simple(payload, out_len),
        Mode::QUICK => decode_quick(payload, out_len),
        Mode::MEDIUM => decode_lzh(Depth::Medium, payload, out_len),
        Mode::DEEP => decode_lzh(Depth::Deep, payload, out_len),
    }
}

/// Decodes one track record for a disk of the given density. `None` says
/// that the record is corrupt.
pub fn decode_track(record: &TrackRecord, density: Density) -> (r: Option<Vec<u8>>)
    ensures
        match r {
            Some(bytes) => decoded_track(record@, density) == Some(bytes@) && bytes@.len()
                == density.spec_track_bytes(),
            None => decoded_track(record@, density) is None,
        },
{
    if record.payload.len() != record.header.packed_len as usize {
        return None;
    }
    if record.header.unpacked_len as usize != density.track_bytes() {
        return None;
    }
    let mode = match Mode::from_tag(record.header.mode_tag) {
        Some(mode) => mode,
        None => {
            return None;
        },
    };
    let bytes = match unpack(mode, record.payload.as_slice(), record.header.unpacked_len as usize) {
        Some(bytes) => bytes,
        None => {
            return None;
        },
    };
    if checksum(bytes.as_slice()) == record.header.checksum {
        Some(bytes)
    } else {
        None
    }
}

} // verus!
