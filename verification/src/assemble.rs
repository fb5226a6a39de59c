//! Placing decoded tracks into the linear image.
//!
//! The image is a buffer of the size of the whole disk, zero at first. Each
//! record's track goes to the place its declared index gives it, whatever
//! the order of the records; the place of a corrupt record is filled with
//! zeros and its index is noted.

use vstd::prelude::*;
use crate::dms::{entries_of, indexes_valid, DmsContainer, DmsImage, TrackEntry};
use crate::error::ExtractError;
use crate::geometry::{Density, TRACKS};
use crate::track::{decode_track, decoded_track, lemma_decoded_track_is_whole};

verus! {

/// The record that decides track `index`: the last one that declares it.
pub open spec fn record_for(tracks: Seq<TrackEntry>, index: int) -> Option<TrackEntry>
    decreases tracks.len(),
{
    if tracks.len() == 0 {
        None
    } else if tracks.last().header.index == index {
        Some(tracks.last())
    } else {
        record_for(tracks.drop_last(), index)
    }
}

/// Byte `i` of the image: the byte of the decoded track it falls into, or
/// zero where no record declares that track or the record is corrupt.
pub open spec fn image_byte(tracks: Seq<TrackEntry>, density: Density, i: int) -> u8 {
    let track_bytes = density.spec_track_bytes() as int;
    match record_for(tracks, i / track_bytes) {
        None => 0,
        Some(entry) => match decoded_track(entry, density) {
            None => 0,
            Some(bytes) => bytes[i % track_bytes],
        },
    }
}

/// The linear image that the records make up.
pub open spec fn image_of(tracks: Seq<TrackEntry>, density: Density) -> Seq<u8> {
    Seq::new(density.spec_image_bytes(), |i: int| image_byte(tracks, density, i))
}

/// The indexes of the corrupt records, in the order of the records.
pub open spec fn corrupt_indexes(tracks: Seq<TrackEntry>, density: Density) -> Seq<u16>
    decreases tracks.len(),
{
    if tracks.len() == 0 {
        Seq::empty()
    } else if decoded_track(tracks.last(), density) is None {
        corrupt_indexes(tracks.drop_last(), density).push(tracks.last().header.index)
    } else {
        corrupt_indexes(tracks.drop_last(), density)
    }
}

/// What assembling a container gives: the image and the indexes of the
/// corrupt tracks, or, under `strict`, the first corrupt track as an error.
pub open spec fn assembly_of(container: DmsImage, strict: bool) -> Result<
    (Seq<u8>, Seq<u16>),
    ExtractError,
> {
    let corrupt = corrupt_indexes(container.tracks, container.density);
    if strict && corrupt.len() > 0 {
        Err(ExtractError::CorruptTrack(corrupt[0]))
    } else {
        Ok((image_of(container.tracks, container.density), corrupt))
    }
}

/// The corrupt records among the first `k` come first among all.
pub proof fn lemma_corrupt_prefix(tracks: Seq<TrackEntry>, density: Density, k: int, n: int)
    requires
        0 <= k <= n <= tracks.len(),
    ensures
        corrupt_indexes(tracks.take(k), density).len() <= corrupt_indexes(
            tracks.take(n),
            density,
        ).len(),
        forall|i: int|
            0 <= i < corrupt_indexes(tracks.take(k), density).len() ==> corrupt_indexes(
                tracks.take(k),
                density,
            )[i] == corrupt_indexes(tracks.take(n), density)[i],
    decreases n - k,
{
    if k < n {
        lemma_corrupt_prefix(tracks, density, k, n - 1);
        assert(tracks.take(n).drop_last() =~= tracks.take(n - 1));
    }
}

/// Record `k` adds its index to the corrupt ones exactly if it is corrupt.
pub proof fn lemma_corrupt_step(tracks: Seq<TrackEntry>, density: Density, k: int)
    requires
        0 <= k < tracks.len(),
    ensures
        corrupt_indexes(tracks.take(k + 1), density) == if decoded_track(tracks[k], density)
            is None {
            corrupt_indexes(tracks.take(k), density).push(tracks[k].header.index)
        } else {
            corrupt_indexes(tracks.take(k), density)
        },
{
    assert(tracks.take(k + 1).drop_last() =~= tracks.take(k));
    assert(tracks.take(k + 1).last() == tracks[k]);
}

/// Placing the track of record `k` turns the image of the first `k` records
/// into the image of the first `k + 1`.
pub proof fn lemma_image_step(
    tracks: Seq<TrackEntry>,
    density: Density,
    k: int,
    before: Seq<u8>,
    after: Seq<u8>,
)
    requires
        0 <= k < tracks.len(),
        tracks[k].header.index < TRACKS,
        before == image_of(tracks.take(k), density),
        after.len() == before.len(),
        forall|i: int|
            0 <= i < after.len() ==> #[trigger] after[i] == {
                let at = tracks[k].header.index * density.spec_track_bytes();
                if at <= i < at + density.spec_track_bytes() {
                    match decoded_track(tracks[k], density) {
                        Some(bytes) => bytes[i - at],
                        None => 0u8,
                    }
                } else {
                    before[i]
                }
            },
    ensures
        after == image_of(tracks.take(k + 1), density),
{
    let grown = tracks.take(k + 1);
    assert(grown.drop_last() =~= tracks.take(k));
    assert(grown.last() == tracks[k]);
    let index = tracks[k].header.index as int;
    assert forall|i: int| 0 <= i < after.len() implies after[i] == image_byte(
        grown,
        density,
        i,
    ) by {
        match density {
            Density::Double => {
                assert(density.spec_track_bytes() == 5632);
                assert((i / 5632 == index) <==> (index * 5632 <= i < index * 5632 + 5632));
                if i / 5632 == index {
                    assert(i % 5632 == i - index * 5632);
                }
            },
            Density::High => {
                assert(density.spec_track_bytes() == 11264);
                assert((i / 11264 == index) <==> (index * 11264 <= i < index * 11264 + 11264));
                if i / 11264 == index {
                    assert(i % 11264 == i - index * 11264);
                }
            },
        }
    }
    assert(after =~= image_of(grown, density));
}

/// `len` zero bytes.
pub open spec fn zeros(len: nat) -> Seq<u8> {
    Seq::new(len, |i: int| 0u8)
}

/// What stands in the image at the place of track `index`: the decoded
/// track of the record that decides it, or zeros.
pub open spec fn track_content(tracks: Seq<TrackEntry>, density: Density, index: int) -> Seq<u8> {
    match record_for(tracks, index) {
        None => zeros(density.spec_track_bytes()),
        Some(entry) => match decoded_track(entry, density) {
            None => zeros(density.spec_track_bytes()),
            Some(bytes) => bytes,
        },
    }
}

/// The payloads of the records that decide the tracks `0` to `n - 1`, one
/// after the other in the order of their indexes.
pub open spec fn payloads_by_index(tracks: Seq<TrackEntry>, n: nat) -> Seq<u8>
    decreases n,
{
    if n == 0 {
        Seq::empty()
    } else {
        payloads_by_index(tracks, (n - 1) as nat) + match record_for(tracks, n - 1) {
            Some(entry) => entry.payload,
            None => Seq::empty(),
        }
    }
}

/// The record holds its track as it is, and is intact: its mode is NONE,
/// its payload is one track long as the header says, and adds up to the
/// checksum.
pub open spec fn is_stored_intact(entry: TrackEntry, density: Density) -> bool {
    &&& entry.header.mode_tag == 0
    &&& entry.payload.len() == entry.header.packed_len
    &&& entry.payload.len() == density.spec_track_bytes()
    &&& entry.header.unpacked_len == density.spec_track_bytes()
    &&& crate::checksum::track_checksum(entry.payload) == entry.header.checksum
}

/// Where indexes are valid, the record that decides a track is the one
/// record that declares it.
pub proof fn lemma_record_for_declared(tracks: Seq<TrackEntry>, k: int)
    requires
        indexes_valid(tracks),
        0 <= k < tracks.len(),
    ensures
        record_for(tracks, tracks[k].header.index as int) == Some(tracks[k]),
    decreases tracks.len(),
{
    if k < tracks.len() - 1 {
        let shorter = tracks.drop_last();
        assert(tracks[k].header.index != tracks[tracks.len() - 1].header.index);
        assert(indexes_valid(shorter)) by {
            assert forall|i: int| 0 <= i < shorter.len() implies (
            #[trigger] shorter[i]).header.index < TRACKS by {
                assert(shorter[i] == tracks[i]);
            }
            assert forall|i: int, j: int| 0 <= i < j < shorter.len() implies (
            #[trigger] shorter[i]).header.index != (#[trigger] shorter[j]).header.index by {
                assert(shorter[i] == tracks[i]);
                assert(shorter[j] == tracks[j]);
            }
        }
        lemma_record_for_declared(shorter, k);
    }
}

/// The record that decides a track is one of the records and declares it.
pub proof fn lemma_record_for_is_member(tracks: Seq<TrackEntry>, index: int)
    ensures
        record_for(tracks, index) matches Some(entry) ==> tracks.contains(entry)
            && entry.header.index == index,
        record_for(tracks, index) is None ==> forall|k: int|
            0 <= k < tracks.len() ==> (#[trigger] tracks[k]).header.index != index,
    decreases tracks.len(),
{
    if tracks.len() > 0 {
        let shorter = tracks.drop_last();
        lemma_record_for_is_member(shorter, index);
        if tracks.last().header.index == index {
            assert(tracks[tracks.len() - 1] == tracks.last());
        } else {
            match record_for(shorter, index) {
                Some(entry) => {
                    let k = choose|k: int| 0 <= k < shorter.len() && shorter[k] == entry;
                    assert(tracks[k] == entry);
                },
                None => {
                    assert forall|k: int| 0 <= k < tracks.len() implies (
                    #[trigger] tracks[k]).header.index != index by {
                        if k < shorter.len() {
                            assert(shorter[k] == tracks[k]);
                        }
                    }
                },
            }
        }
    }
}

/// The place of a track in the image holds the decoded track of the record
/// that decides it, and zeros where there is none or it is corrupt.
pub proof fn lemma_track_region(tracks: Seq<TrackEntry>, density: Density, index: int)
    requires
        0 <= index < TRACKS,
    ensures
        image_of(tracks, density).subrange(
            index * density.spec_track_bytes(),
            (index + 1) * density.spec_track_bytes(),
        ) == track_content(tracks, density, index),
        track_content(tracks, density, index).len() == density.spec_track_bytes(),
{
    let size = density.spec_track_bytes() as int;
    let image = image_of(tracks, density);
    let content = track_content(tracks, density, index);
    match record_for(tracks, index) {
        Some(entry) => {
            lemma_decoded_track_is_whole(entry, density);
        },
        None => {},
    }
    assert(content.len() == size);
    assert(index * size + size <= image.len() && index * size >= 0 && (index + 1) * size == index
        * size + size) by (nonlinear_arith)
        requires
            0 <= index < 160,
            size > 0,
            image.len() == 160 * size,
    ;
    let region = image.subrange(index * size, (index + 1) * size);
    assert forall|j: int| 0 <= j < size implies region[j] == content[j] by {
        let i = index * size + j;
        assert(region[j] == image_byte(tracks, density, i));
        match density {
            Density::Double => {
                assert(i == index * 5632 + j) by (nonlinear_arith)
                    requires
                        i == index * size + j,
                        size == 5632,
                ;
                assert(i / 5632 == index && i % 5632 == j);
            },
            Density::High => {
                assert(i == index * 11264 + j) by (nonlinear_arith)
                    requires
                        i == index * size + j,
                        size == 11264,
                ;
                assert(i / 11264 == index && i % 11264 == j);
            },
        }
    }
    assert(region =~= content);
}

/// The image does not depend on the order of the records: two containers
/// with valid indexes that hold the same records make up the same image.
pub proof fn lemma_image_ignores_order(a: Seq<TrackEntry>, b: Seq<TrackEntry>, density: Density)
    requires
        indexes_valid(a),
        indexes_valid(b),
        forall|entry: TrackEntry| a.contains(entry) <==> b.contains(entry),
    ensures
        image_of(a, density) == image_of(b, density),
{
    assert forall|index: int| record_for(a, index) == record_for(b, index) by {
        lemma_record_for_is_member(a, index);
        lemma_record_for_is_member(b, index);
        match record_for(a, index) {
            Some(entry) => {
                assert(b.contains(entry));
                let j = choose|j: int| 0 <= j < b.len() && b[j] == entry;
                lemma_record_for_declared(b, j);
            },
            None => {
                match record_for(b, index) {
                    Some(entry) => {
                        assert(a.contains(entry));
                        let k = choose|k: int| 0 <= k < a.len() && a[k] == entry;
                        assert(a[k].header.index == index);
                    },
                    None => {},
                }
            },
        }
    }
    assert(image_of(a, density) =~= image_of(b, density));
}

/// Where the tracks `0` to `n - 1` are all declared, by records that hold
/// them as they are and are intact, the first `n` tracks of the image are
/// the payloads of those records in the order of their indexes, wherever
/// in the container each record stands.
pub proof fn lemma_stored_tracks_concatenate(
    tracks: Seq<TrackEntry>,
    density: Density,
    n: nat,
)
    requires
        n <= TRACKS,
        forall|k: int| 0 <= k < tracks.len() ==> is_stored_intact(#[trigger] tracks[k], density),
        forall|index: int| 0 <= index < n ==> #[trigger] record_for(tracks, index) is Some,
    ensures
        image_of(tracks, density).subrange(0, (n * density.spec_track_bytes()) as int)
            == payloads_by_index(tracks, n),
    decreases n,
{
    let size = density.spec_track_bytes() as int;
    let image = image_of(tracks, density);
    if n == 0 {
        assert(image.subrange(0, 0) =~= Seq::<u8>::empty());
    } else {
        let index = n - 1;
        lemma_stored_tracks_concatenate(tracks, density, index as nat);
        lemma_track_region(tracks, density, index);
        lemma_record_for_is_member(tracks, index);
        let entry = record_for(tracks, index).unwrap();
        let k = choose|k: int| 0 <= k < tracks.len() && tracks[k] == entry;
        assert(is_stored_intact(tracks[k], density));
        assert(decoded_track(entry, density) == Some(entry.payload));
        assert(0 <= index * size && n * size == index * size + size && n * size <= image.len())
            by (nonlinear_arith)
            requires
                index == n - 1,
                0 < n <= 160,
                size > 0,
                image.len() == 160 * size,
        ;
        assert(image.subrange(0, n * size) =~= image.subrange(0, index * size) + image.subrange(
            index * size,
            n * size,
        ));
    }
}

/// An index is noted as corrupt exactly if a corrupt record declares it.
pub proof fn lemma_noted_indexes(tracks: Seq<TrackEntry>, density: Density, index: u16)
    ensures
        corrupt_indexes(tracks, density).contains(index) <==> exists|k: int|
            0 <= k < tracks.len() && (#[trigger] tracks[k]).header.index == index && decoded_track(
                tracks[k],
                density,
            ) is None,
    decreases tracks.len(),
{
    if tracks.len() > 0 {
        let shorter = tracks.drop_last();
        let last = tracks.last();
        let noted = corrupt_indexes(tracks, density);
        let before = corrupt_indexes(shorter, density);
        lemma_noted_indexes(shorter, density, index);
        assert(last == tracks[tracks.len() - 1]);
        if noted.contains(index) {
            let i = choose|i: int| 0 <= i < noted.len() && noted[i] == index;
            if decoded_track(last, density) is None && i == before.len() {
                assert(tracks[tracks.len() - 1].header.index == index);
            } else {
                assert(before[i] == index);
                assert(before.contains(index));
                let k = choose|k: int|
                    0 <= k < shorter.len() && (#[trigger] shorter[k]).header.index == index
                        && decoded_track(shorter[k], density) is None;
                assert(tracks[k] == shorter[k]);
            }
        }
        if exists|k: int|
            0 <= k < tracks.len() && (#[trigger] tracks[k]).header.index == index && decoded_track(
                tracks[k],
                density,
            ) is None {
            let k = choose|k: int|
                0 <= k < tracks.len() && (#[trigger] tracks[k]).header.index == index
                    && decoded_track(tracks[k], density) is None;
            if k == tracks.len() - 1 {
                assert(noted[before.len() as int] == index);
            } else {
                assert(shorter[k] == tracks[k]);
                assert(before.contains(index));
                let i = choose|i: int| 0 <= i < before.len() && before[i] == index;
                assert(noted[i] == index);
            }
        }
    }
}

/// In a container with valid indexes, a corrupt record leaves its track
/// zero-filled and its index noted; an intact record leaves its decoded
/// track in place and its index not noted.
pub proof fn lemma_corrupt_record_leaves_zeros(
    tracks: Seq<TrackEntry>,
    density: Density,
    k: int,
)
    requires
        indexes_valid(tracks),
        0 <= k < tracks.len(),
    ensures
        ({
            let index = tracks[k].header.index;
            let place = image_of(tracks, density).subrange(
                index * density.spec_track_bytes(),
                (index + 1) * density.spec_track_bytes(),
            );
            match decoded_track(tracks[k], density) {
                None => place == zeros(density.spec_track_bytes()) && corrupt_indexes(
                    tracks,
                    density,
                ).contains(index),
                Some(bytes) => place == bytes && !corrupt_indexes(tracks, density).contains(index),
            }
        }),
{
    let index = tracks[k].header.index;
    lemma_record_for_declared(tracks, k);
    lemma_track_region(tracks, density, index as int);
    lemma_noted_indexes(tracks, density, index);
}

/// Where every record is intact, none is noted as corrupt.
pub proof fn lemma_intact_records_are_not_corrupt(tracks: Seq<TrackEntry>, density: Density)
    requires
        forall|k: int|
            0 <= k < tracks.len() ==> decoded_track(#[trigger] tracks[k], density) is Some,
    ensures
        corrupt_indexes(tracks, density) == Seq::<u16>::empty(),
    decreases tracks.len(),
{
    if tracks.len() > 0 {
        let shorter = tracks.drop_last();
        assert forall|k: int| 0 <= k < shorter.len() implies decoded_track(
            #[trigger] shorter[k],
            density,
        ) is Some by {
            assert(shorter[k] == tracks[k]);
        }
        lemma_intact_records_are_not_corrupt(shorter, density);
        assert(tracks.last() == tracks[tracks.len() - 1]);
    }
}

/// A buffer of `len` zero bytes.
pub fn zeroed(len: usize) -> (buffer: Vec<u8>)
    ensures
        buffer@.len() == len,
        forall|i: int| 0 <= i < len ==> #[trigger] buffer@[i] == 0,
{
    let mut buffer: Vec<u8> = Vec::new();
    let mut i: usize = 0;
    while i < len
        invariant
            i <= len,
            buffer@.len() == i,
            forall|j: int| 0 <= j < i ==> #[trigger] buffer@[j] == 0,
        decreases len - i,
    {
        buffer.push(0);
        i += 1;
    }
    buffer
}

/// Writes `bytes` into `image` from byte `at` on.
pub fn write_region(image: &mut Vec<u8>, at: usize, bytes: &[u8])
    requires
        at + bytes@.len() <= old(image)@.len(),
    ensures
        final(image)@.len() == old(image)@.len(),
        forall|i: int|
            0 <= i < old(image)@.len() ==> #[trigger] final(image)@[i] == if at <= i < at
                + bytes@.len() {
                bytes@[i - at]
            } else {
                old(image)@[i]
            },
{
    let mut j: usize = 0;
    let size = image.len();
    while j < bytes.len()
        invariant
            j <= bytes@.len(),
            size == image@.len(),
            at + bytes@.len() <= image@.len(),
            image@.len() == old(image)@.len(),
            forall|i: int|
                0 <= i < image@.len() ==> #[trigger] image@[i] == if at <= i < at + j {
                    bytes@[i - at]
                } else {
                    old(image)@[i]
                },
        decreases bytes@.len() - j,
    {
        image.set(at + j, bytes[j]);
        j += 1;
    }
}

/// Fills `len` bytes of `image` from byte `at` on with zeros.
pub fn clear_region(image: &mut Vec<u8>, at: usize, len: usize)
    requires
        at + len <= old(image)@.len(),
    ensures
        final(image)@.len() == old(image)@.len(),
        forall|i: int|
            0 <= i < old(image)@.len() ==> #[trigger] final(image)@[i] == if at <= i < at + len {
                0u8
            } else {
                old(image)@[i]
            },
{
    let mut j: usize = 0;
    let size = image.len();
    while j < len
        invariant
            j <= len,
            size == image@.len(),
            at + len <= image@.len(),
            image@.len() == old(image)@.len(),
            forall|i: int|
                0 <= i < image@.len() ==> #[trigger] image@[i] == if at <= i < at + j {
                    0u8
                } else {
                    old(image)@[i]
                },
        decreases len - j,
    {
        image.set(at + j, 0);
        j += 1;
    }
}

/// Decodes every record of a container and places its track. Under `strict`
/// the first corrupt record ends the work with `CorruptTrack`; otherwise its
/// place is zero-filled and its index noted.
pub fn assemble(container: &DmsContainer, strict: bool) -> (r: Result<
    (Vec<u8>, Vec<u16>),
    ExtractError,
>)
    requires
        container.wf(),
    ensures
        match r {
            Ok((image, corrupt)) => assembly_of(container@, strict) == Ok::<
                (Seq<u8>, Seq<u16>),
                ExtractError,
            >((image@, corrupt@)) && image@.len() == container.density.spec_image_bytes(),
            Err(e) => assembly_of(container@, strict) == Err::<(Seq<u8>, Seq<u16>), ExtractError>(
                e,
            ),
        },
{
    let density = container.density;
    let track_bytes = density.track_bytes();
    let ghost tracks = entries_of(container.tracks@);
    let mut image = zeroed(density.image_bytes());
    let mut corrupt: Vec<u16> = Vec::new();
    let mut k: usize = 0;
    assert(image@ =~= image_of(tracks.take(0), density));
    while k < container.tracks.len()
        invariant
            container.wf(),
            tracks == entries_of(container.tracks@),
            density == container.density,
            track_bytes == density.spec_track_bytes(),
            track_bytes == 5632 || track_bytes == 11264,
            k <= tracks.len(),
            image@.len() == density.spec_image_bytes(),
            image@ == image_of(tracks.take(k as int), density),
            corrupt@ == corrupt_indexes(tracks.take(k as int), density),
            strict ==> corrupt@.len() == 0,
        decreases tracks.len() - k,
    {
        let record = &container.tracks[k];
        let index = record.header.index;
        assert(tracks[k as int] == record@);
        assert(index < TRACKS);
        assert(index * track_bytes + track_bytes <= 160 * track_bytes) by (nonlinear_arith)
            requires
                index < 160,
                track_bytes > 0,
        ;
        assert(image@.len() == 160 * track_bytes);
        let at: usize = index as usize * track_bytes;
        let ghost before = image@;
        proof {
            lemma_corrupt_step(tracks, density, k as int);
        }
        match decode_track(record, density) {
            Some(bytes) => {
                write_region(&mut image, at, bytes.as_slice());
            },
            None => {
                if strict {
                    proof {
                        lemma_corrupt_prefix(tracks, density, k + 1, tracks.len() as int);
                        assert(tracks.take(tracks.len() as int) =~= tracks);
                        assert(corrupt_indexes(tracks.take(k + 1), density)[0] == index);
                    }
                    return Err(ExtractError::CorruptTrack(index));
                }
                corrupt.push(index);
                clear_region(&mut image, at, track_bytes);
            },
        }
        proof {
            lemma_image_step(tracks, density, k as int, before, image@);
        }
        k += 1;
    }
    assert(tracks.take(k as int) =~= tracks);
    Ok((image, corrupt))
}

} // verus!
