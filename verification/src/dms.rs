//! The DMS container: a file header and the track records behind it.
//!
//! All numbers are big-endian. The file header has 56 bytes: the magic
//! `DMS!` in bytes 0 to 3 and the density in bytes 50 and 51 (0 for double,
//! 1 for high density); the other bytes carry notes of the creating program
//! and are not interpreted. Track records follow until the input ends. A
//! record is a header of 20 bytes and its payload. The header holds the
//! magic `TR` in bytes 0 and 1, the track index in bytes 2 and 3, the length
//! of the payload in bytes 6 and 7, the length of the decoded track in
//! bytes 10 and 11, the mode tag in byte 13 and the checksum of the decoded
//! track in bytes 14 and 15. Records may come in any order of track index,
//! but no index may come twice or lie beyond the last track of a disk.

use vstd::prelude::*;
use vstd::slice::{slice_subrange, slice_to_vec};
use crate::error::ReadFailure;
use crate::geometry::{Density, TRACKS};

verus! {

/// Bytes in the file header.
pub const FILE_HEADER_BYTES: usize = 56;

/// Bytes in the header of a track record.
pub const TRACK_HEADER_BYTES: usize = 20;

/// The longest payload a track record can hold: its length is stored in
/// sixteen bits.
pub const MAX_PACKED_LEN: usize = 0xFFFF;

/// Where the density stands in the file header.
pub const DENSITY_OFFSET: usize = 50;

/// How the payload of a track is compressed.
#[derive(Clone, Copy, Debug, PartialEq, Eq, Structural)]
pub enum Mode {
    /// Stored as it is.
    NONE,
    /// Run-length coded.
    SIMPLE,
    /// Short back-references over a small window.
    QUICK,
    /// Prefix-coded back-references and literals.
    MEDIUM,
    /// As MEDIUM, with larger alphabets.
    DEEP,
}

impl Mode {
    /// The mode a tag stands for, if it stands for one.
    pub open spec fn spec_from_tag(tag: u8) -> Option<Mode> {
        if tag == 0 {
            Some(Mode::NONE)
        } else if tag == 1 {
            Some(Mode::SIMPLE)
        } else if tag == 2 {
            Some(Mode::QUICK)
        } else if tag == 3 {
            Some(Mode::MEDIUM)
        } else if tag == 4 {
            Some(Mode::DEEP)
        } else {
            None
        }
    }

    /// Resolves a mode tag.
    pub fn from_tag(tag: u8) -> (m: Option<Mode>)
        ensures
            m == Mode::spec_from_tag(tag),
    {
        match tag {
            0 => Some(Mode::NONE),
            1 => Some(Mode::SIMPLE),
            2 => Some(Mode::QUICK),
            3 => Some(Mode::MEDIUM),
            4 => Some(Mode::DEEP),
            _ => None,
        }
    }
}

/// The header of a track record.
#[derive(Clone, Copy, Debug, PartialEq, Eq, Structural)]
pub struct TrackHeader {
    pub index: u16,
    pub mode_tag: u8,
    pub packed_len: u16,
    pub unpacked_len: u16,
    pub checksum: u16,
}

/// A track record: its header and its payload.
#[derive(Debug)]
pub struct TrackRecord {
    pub header: TrackHeader,
    pub payload: Vec<u8>,
}

/// A track record as a value.
pub struct TrackEntry {
    pub header: TrackHeader,
    pub payload: Seq<u8>,
}

impl View for TrackRecord {
    type V = TrackEntry;

    open spec fn view(&self) -> TrackEntry {
        TrackEntry { header: self.header, payload: self.payload@ }
    }
}

/// The records of a vector as values.
pub open spec fn entries_of(tracks: Seq<TrackRecord>) -> Seq<TrackEntry> {
    Seq::new(tracks.len(), |i: int| tracks[i]@)
}

/// A parsed container.
#[derive(Debug)]
pub struct DmsContainer {
    pub density: Density,
    pub tracks: Vec<TrackRecord>,
}

/// A parsed container as a value.
pub struct DmsImage {
    pub density: Density,
    pub tracks: Seq<TrackEntry>,
}

impl View for DmsContainer {
    type V = DmsImage;

    open spec fn view(&self) -> DmsImage {
        DmsImage { density: self.density, tracks: entries_of(self.tracks@) }
    }
}

/// The big-endian sixteen-bit number at byte `pos`.
pub open spec fn be16(data: Seq<u8>, pos: int) -> u16 {
    (data[pos] as int * 256 + data[pos + 1] as int) as u16
}

/// The file starts with the container's magic.
pub open spec fn has_file_magic(data: Seq<u8>) -> bool {
    data[0] == 0x44 && data[1] == 0x4D && data[2] == 0x53 && data[3] == 0x21
}

/// The density a header value stands for, if it stands for one.
pub open spec fn density_of(code: u16) -> Option<Density> {
    if code == 0 {
        Some(Density::Double)
    } else if code == 1 {
        Some(Density::High)
    } else {
        None
    }
}

/// The fields of the track header that starts at byte `pos`.
pub open spec fn header_at(data: Seq<u8>, pos: int) -> TrackHeader {
    TrackHeader {
        index: be16(data, pos + 2),
        mode_tag: data[pos + 13],
        packed_len: be16(data, pos + 6),
        unpacked_len: be16(data, pos + 10),
        checksum: be16(data, pos + 14),
    }
}

/// The track records from byte `pos` to the end of the input, in the order
/// in which they stand there.
pub open spec fn tracks_from(data: Seq<u8>, pos: int) -> Result<Seq<TrackEntry>, ReadFailure>
    decreases data.len() - pos,
{
    if pos < 0 || pos >= data.len() {
        Ok(Seq::empty())
    } else if pos + TRACK_HEADER_BYTES > data.len() {
        Err(ReadFailure::UnexpectedEof)
    } else if data[pos] != 0x54 || data[pos + 1] != 0x52 {
        Err(ReadFailure::InvalidData)
    } else {
        let header = header_at(data, pos);
        let body = pos + TRACK_HEADER_BYTES;
        let end = body + header.packed_len;
        if end > data.len() {
            Err(ReadFailure::UnexpectedEof)
        } else {
            match tracks_from(data, end) {
                Err(failure) => Err(failure),
                Ok(rest) => Ok(seq![TrackEntry { header, payload: data.subrange(body, end) }] + rest),
            }
        }
    }
}

/// Every index is a track of the disk, and none comes twice.
pub open spec fn indexes_valid(tracks: Seq<TrackEntry>) -> bool {
    &&& forall|i: int| 0 <= i < tracks.len() ==> (#[trigger] tracks[i]).header.index < TRACKS
    &&& forall|i: int, j: int|
        0 <= i < j < tracks.len() ==> (#[trigger] tracks[i]).header.index != (
        #[trigger] tracks[j]).header.index
}

/// The container that the input holds, or why it holds none.
pub open spec fn container_of(data: Seq<u8>) -> Result<DmsImage, ReadFailure> {
    if data.len() < FILE_HEADER_BYTES {
        Err(ReadFailure::UnexpectedEof)
    } else if !has_file_magic(data) {
        Err(ReadFailure::InvalidData)
    } else {
        match density_of(be16(data, DENSITY_OFFSET as int)) {
            None => Err(ReadFailure::InvalidData),
            Some(density) => match tracks_from(data, FILE_HEADER_BYTES as int) {
                Err(failure) => Err(failure),
                Ok(tracks) => if indexes_valid(tracks) {
                    Ok(DmsImage { density, tracks })
                } else {
                    Err(ReadFailure::InvalidData)
                },
            },
        }
    }
}

/// `front` followed by the records that were read behind it.
pub open spec fn joined(front: Seq<TrackEntry>, rest: Result<Seq<TrackEntry>, ReadFailure>)
    -> Result<Seq<TrackEntry>, ReadFailure> {
    match rest {
        Ok(more) => Ok(front + more),
        Err(failure) => Err(failure),
    }
}

/// Reads the big-endian sixteen-bit number at byte `pos`.
pub fn read_be16(data: &[u8], pos: usize) -> (v: u16)
    requires
        pos + 2 <= data@.len(),
    ensures
        v == be16(data@, pos as int),
{
    data[pos] as u16 * 256 + data[pos + 1] as u16
}

/// Reads the track records from byte `start` to the end of the input.
pub fn read_tracks(data: &[u8], start: usize) -> (r: Result<Vec<TrackRecord>, ReadFailure>)
    ensures
        match r {
            Ok(tracks) => tracks_from(data@, start as int) == Ok::<Seq<TrackEntry>, ReadFailure>(
                entries_of(tracks@),
            ),
            Err(failure) => tracks_from(data@, start as int) == Err::<
                Seq<TrackEntry>,
                ReadFailure,
            >(failure),
        },
{
    let len = data.len();
    let mut tracks: Vec<TrackRecord> = Vec::new();
    let mut pos: usize = start;
    proof {
        match tracks_from(data@, start as int) {
            Ok(all) => {
                assert(entries_of(tracks@) + all =~= all);
            },
            Err(_) => {},
        }
    }
    while pos < len
        invariant
            len == data@.len(),
            tracks_from(data@, start as int) == joined(
                entries_of(tracks@),
                tracks_from(data@, pos as int),
            ),
        decreases len - pos,
    {
        if len - pos < TRACK_HEADER_BYTES {
            return Err(ReadFailure::UnexpectedEof);
        }
        if data[pos] != 0x54 || data[pos + 1] != 0x52 {
            return Err(ReadFailure::InvalidData);
        }
        let header = TrackHeader {
            index: read_be16(data, pos + 2),
            mode_tag: data[pos + 13],
            packed_len: read_be16(data, pos + 6),
            unpacked_len: read_be16(data, pos + 10),
            checksum: read_be16(data, pos + 14),
        };
        let body: usize = pos + TRACK_HEADER_BYTES;
        if len - body < header.packed_len as usize {
            return Err(ReadFailure::UnexpectedEof);
        }
        let end: usize = body + header.packed_len as usize;
        let payload = slice_to_vec(slice_subrange(data, body, end));
        let ghost before = entries_of(tracks@);
        let ghost entry = TrackEntry { header, payload: payload@ };
        tracks.push(TrackRecord { header, payload });
        proof {
            assert(entries_of(tracks@) =~= before + seq![entry]);
            match tracks_from(data@, end as int) {
                Ok(rest) => {
                    assert(before + (seq![entry] + rest) =~= (before + seq![entry]) + rest);
                },
                Err(_) => {},
            }
        }
        pos = end;
    }
    proof {
        assert(entries_of(tracks@) + Seq::<TrackEntry>::empty() =~= entries_of(tracks@));
    }
    Ok(tracks)
}

/// Checks that every index is a track of the disk and that none comes
/// twice.
pub fn check_indexes(tracks: &Vec<TrackRecord>) -> (ok: bool)
    ensures
        ok == indexes_valid(entries_of(tracks@)),
{
    let ghost entries = entries_of(tracks@);
    let mut seen: Vec<bool> = Vec::new();
    let mut t: usize = 0;
    while t < TRACKS as usize
        invariant
            t <= TRACKS,
            seen@.len() == t,
            forall|u: int| 0 <= u < t ==> !(#[trigger] seen@[u]),
        decreases TRACKS - t,
    {
        seen.push(false);
        t += 1;
    }
    let mut k: usize = 0;
    while k < tracks.len()
        invariant
            entries == entries_of(tracks@),
            k <= tracks@.len(),
            seen@.len() == TRACKS,
            forall|u: int|
                0 <= u < TRACKS ==> (#[trigger] seen@[u] <==> exists|i: int|
                    0 <= i < k && (#[trigger] entries[i]).header.index == u),
            forall|i: int| 0 <= i < k ==> (#[trigger] entries[i]).header.index < TRACKS,
            forall|i: int, j: int|
                0 <= i < j < k ==> (#[trigger] entries[i]).header.index != (
                #[trigger] entries[j]).header.index,
        decreases tracks@.len() - k,
    {
        let index = tracks[k].header.index;
        assert(entries[k as int].header.index == index);
        if index >= TRACKS {
            return false;
        }
        if seen[index as usize] {
            proof {
                let i = choose|i: int| 0 <= i < k && (#[trigger] entries[i]).header.index == index;
                assert(entries[i].header.index == entries[k as int].header.index);
            }
            return false;
        }
        let ghost seen_before = seen@;
        seen.set(index as usize, true);
        proof {
            assert forall|u: int| 0 <= u < TRACKS implies (#[trigger] seen@[u] <==> exists|i: int|
                0 <= i < k + 1 && (#[trigger] entries[i]).header.index == u) by {
                if u == index {
                    assert(entries[k as int].header.index == u);
                } else {
                    if seen@[u] {
                        assert(seen_before[u]);
                        let i = choose|i: int|
                            0 <= i < k && (#[trigger] entries[i]).header.index == u;
                        assert(0 <= i < k + 1 && entries[i].header.index == u);
                    }
                    if exists|i: int| 0 <= i < k + 1 && (#[trigger] entries[i]).header.index == u {
                        let i = choose|i: int|
                            0 <= i < k + 1 && (#[trigger] entries[i]).header.index == u;
                        assert(i != k);
                        assert(0 <= i < k && entries[i].header.index == u);
                    }
                }
            }
            assert forall|i: int, j: int| 0 <= i < j < k + 1 implies (
            #[trigger] entries[i]).header.index != (#[trigger] entries[j]).header.index by {
                if j == k {
                    if entries[i].header.index == index {
                        assert(0 <= i < k && entries[i].header.index == index);
                        assert(seen_before[index as int]);
                    }
                }
            }
        }
        k += 1;
    }
    true
}

impl DmsContainer {
    /// The records carry valid indexes.
    pub open spec fn wf(&self) -> bool {
        indexes_valid(self@.tracks)
    }

    /// Parses a whole container. The failures, in the order in which they
    /// are looked for: an input shorter than the file header ends early; a
    /// wrong file magic or an unknown density is invalid; a track header
    /// that does not fit ends early, one with a wrong magic is invalid, a
    /// payload that does not fit ends early; an index beyond the disk or
    /// one that comes twice is invalid.
    pub fn parse(data: &[u8]) -> (r: Result<DmsContainer, ReadFailure>)
        ensures
            match r {
                Ok(container) => container_of(data@) == Ok::<DmsImage, ReadFailure>(container@)
                    && container.wf(),
                Err(failure) => container_of(data@) == Err::<DmsImage, ReadFailure>(failure),
            },
    {
        if data.len() < FILE_HEADER_BYTES {
            return Err(ReadFailure::UnexpectedEof);
        }
        if data[0] != 0x44 || data[1] != 0x4D || data[2] != 0x53 || data[3] != 0x21 {
            return Err(ReadFailure::InvalidData);
        }
        let code = read_be16(data, DENSITY_OFFSET);
        let density = if code == 0 {
            Density::Double
        } else if code == 1 {
            Density::High
        } else {
            return Err(ReadFailure::InvalidData);
        };
        let tracks = match read_tracks(data, FILE_HEADER_BYTES) {
            Ok(tracks) => tracks,
            Err(failure) => {
                return Err(failure);
            },
        };
        if !check_indexes(&tracks) {
            return Err(ReadFailure::InvalidData);
        }
        Ok(DmsContainer { density, tracks })
    }
}

} // verus!
