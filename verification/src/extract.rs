//! The extraction as a whole: from the bytes of a container and a request
//! to the bytes of the requested sectors.

use vstd::prelude::*;
use crate::assemble::{
    assemble,
    assembly_of,
    image_of,
    is_stored_intact,
    lemma_intact_records_are_not_corrupt,
    lemma_stored_tracks_concatenate,
    payloads_by_index,
    record_for,
};
use crate::dms::{container_of, DmsContainer};
use crate::error::{ExtractError, ReadFailure};
use crate::format::Format;
use crate::geometry::{Density, TRACKS};
use crate::gzip::{gzip_member_contents, inflate_gzip};
use crate::request::{cut_of, cut_sectors, sector_range, ExtractionRequest};
use crate::track::decoded_track;

verus! {

/// What an extraction hands back: the bytes of the requested sectors, and
/// the indexes of the tracks that were corrupt and therefore zero-filled, in
/// the order in which the container holds them.
#[derive(Debug)]
pub struct Extraction {
    pub data: Vec<u8>,
    pub corrupt_tracks: Vec<u16>,
}

/// An extraction as a value.
pub struct Extracted {
    pub data: Seq<u8>,
    pub corrupt_tracks: Seq<u16>,
}

impl View for Extraction {
    type V = Extracted;

    open spec fn view(&self) -> Extracted {
        Extracted { data: self.data@, corrupt_tracks: self.corrupt_tracks@ }
    }
}

/// The result of an extraction as a value.
pub open spec fn outcome(r: Result<Extraction, ExtractError>) -> Result<Extracted, ExtractError> {
    match r {
        Ok(extraction) => Ok(extraction@),
        Err(e) => Err(e),
    }
}

/// The extraction from a linear stream, as an ADF file is one. In this
/// order: a range whose start lies after its end is an `ArgumentConflict`;
/// a stream that is not as long as a disk of either density is invalid
/// data; a range that reaches past the disk is `RangeOutOfBounds`; otherwise
/// the result is the stream cut to the range.
pub open spec fn flat_extraction(stream: Seq<u8>, request: ExtractionRequest) -> Result<
    Extracted,
    ExtractError,
> {
    if !request.ordered() {
        Err(ExtractError::ArgumentConflict)
    } else {
        match Density::spec_of_image_len(stream.len()) {
            None => Err(ExtractError::IOError(ReadFailure::InvalidData)),
            Some(density) => match cut_of(stream, density, request) {
                Err(e) => Err(e),
                Ok(data) => Ok(Extracted { data, corrupt_tracks: Seq::empty() }),
            },
        }
    }
}

/// The extraction from a DMS container. In this order: a range whose start
/// lies after its end is an `ArgumentConflict`; a container that cannot be
/// parsed is an `IOError` with the reason; under `strict` the first corrupt
/// track is a `CorruptTrack`; a range that reaches past the disk is
/// `RangeOutOfBounds`; otherwise the result is the assembled image cut to
/// the range, with the indexes of the corrupt tracks.
pub open spec fn dms_extraction(input: Seq<u8>, request: ExtractionRequest) -> Result<
    Extracted,
    ExtractError,
> {
    if !request.ordered() {
        Err(ExtractError::ArgumentConflict)
    } else {
        match container_of(input) {
            Err(failure) => Err(ExtractError::IOError(failure)),
            Ok(container) => match assembly_of(container, request.strict) {
                Err(e) => Err(e),
                Ok((image, corrupt)) => match cut_of(image, container.density, request) {
                    Err(e) => Err(e),
                    Ok(data) => Ok(Extracted { data, corrupt_tracks: corrupt }),
                },
            },
        }
    }
}

/// The extraction from a gzip-wrapped stream, as an ADZ file is one, given
/// what the wrapper inflates to: a wrapper that does not inflate is invalid
/// data, and what it inflates to is read as a linear stream.
pub open spec fn inflated_extraction(inflated: Option<Seq<u8>>, request: ExtractionRequest)
    -> Result<Extracted, ExtractError> {
    if !request.ordered() {
        Err(ExtractError::ArgumentConflict)
    } else {
        match inflated {
            None => Err(ExtractError::IOError(ReadFailure::InvalidData)),
            Some(stream) => flat_extraction(stream, request),
        }
    }
}

/// The extraction that a request asks for from an input.
pub open spec fn extraction_of(input: Seq<u8>, request: ExtractionRequest) -> Result<
    Extracted,
    ExtractError,
> {
    match request.format {
        Format::ADF => flat_extraction(input, request),
        Format::ADZ => inflated_extraction(gzip_member_contents(input), request),
        Format::DMS => dms_extraction(input, request),
    }
}

/// Extraction from an ADF file is the identity on the requested range: for
/// an input as long as a disk of either density and an ordered range
/// within that disk, the result is the input cut to the range.
pub proof fn lemma_adf_is_identity(input: Seq<u8>, request: ExtractionRequest)
    requires
        request.format == Format::ADF,
        request.ordered(),
        Density::spec_of_image_len(input.len()) matches Some(density) && request.spec_within(
            density,
        ),
    ensures
        extraction_of(input, request) == Ok::<Extracted, ExtractError>(
            (Extracted {
                data: sector_range(input, request.start_sector, request.end_sector),
                corrupt_tracks: Seq::empty(),
            }),
        ),
{
}

/// A container that declares every track of the disk, each by a record that
/// holds it as it is and is intact, extracts over the whole disk to the
/// payloads of its records in the order of their track indexes, in whatever
/// order the records stand in the container, and under either policy for
/// corrupt tracks.
pub proof fn lemma_stored_disk_is_its_payloads(input: Seq<u8>, request: ExtractionRequest)
    requires
        request.format == Format::DMS,
        container_of(input) is Ok,
        request.start_sector == 0,
        request.end_sector + 1 == container_of(input).unwrap().density.spec_total_sectors(),
        forall|k: int|
            0 <= k < container_of(input).unwrap().tracks.len() ==> is_stored_intact(
                #[trigger] container_of(input).unwrap().tracks[k],
                container_of(input).unwrap().density,
            ),
        forall|index: int|
            0 <= index < TRACKS ==> #[trigger] record_for(
                container_of(input).unwrap().tracks,
                index,
            ) is Some,
    ensures
        extraction_of(input, request) == Ok::<Extracted, ExtractError>(
            (Extracted {
                data: payloads_by_index(container_of(input).unwrap().tracks, TRACKS as nat),
                corrupt_tracks: Seq::empty(),
            }),
        ),
{
    let container = container_of(input).unwrap();
    let tracks = container.tracks;
    let density = container.density;
    let image = image_of(tracks, density);
    assert forall|k: int| 0 <= k < tracks.len() implies decoded_track(
        #[trigger] tracks[k],
        density,
    ) is Some by {
        assert(is_stored_intact(tracks[k], density));
    }
    lemma_intact_records_are_not_corrupt(tracks, density);
    lemma_stored_tracks_concatenate(tracks, density, TRACKS as nat);
    assert(image.subrange(0, image.len() as int) =~= image);
    assert(sector_range(image, 0, request.end_sector) == image.subrange(0, image.len() as int));
}

/// Extracting twice from the same input under the same request gives the
/// same result, byte for byte.
pub proof fn lemma_extraction_repeats(
    input: Seq<u8>,
    request: ExtractionRequest,
    first: Result<Extracted, ExtractError>,
    second: Result<Extracted, ExtractError>,
)
    requires
        first == extraction_of(input, request),
        second == extraction_of(input, request),
    ensures
        first == second,
{
}

/// Extracts the requested sectors from a linear stream.
pub fn extract_flat(stream: &[u8], request: &ExtractionRequest) -> (r: Result<
    Extraction,
    ExtractError,
>)
    ensures
        outcome(r) == flat_extraction(stream@, *request),
{
    if request.start_sector > request.end_sector {
        return Err(ExtractError::ArgumentConflict);
    }
    let density = match Density::of_image_len(stream.len()) {
        Some(density) => density,
        None => {
            return Err(ExtractError::IOError(ReadFailure::InvalidData));
        },
    };
    match cut_sectors(stream, density, request) {
        Ok(data) => Ok(Extraction { data, corrupt_tracks: Vec::new() }),
        Err(e) => Err(e),
    }
}

/// Extracts the requested sectors from a DMS container.
pub fn extract_dms(input: &[u8], request: &ExtractionRequest) -> (r: Result<
    Extraction,
    ExtractError,
>)
    ensures
        outcome(r) == dms_extraction(input@, *request),
{
    if request.start_sector > request.end_sector {
        return Err(ExtractError::ArgumentConflict);
    }
    let container = match DmsContainer::parse(input) {
        Ok(container) => container,
        Err(failure) => {
            return Err(ExtractError::IOError(failure));
        },
    };
    let (image, corrupt_tracks) = match assemble(&container, request.strict) {
        Ok(assembled) => assembled,
        Err(e) => {
            return Err(e);
        },
    };
    match cut_sectors(image.as_slice(), container.density, request) {
        Ok(data) => Ok(Extraction { data, corrupt_tracks }),
        Err(e) => Err(e),
    }
}

/// Extracts the requested sectors from what a gzip wrapper inflated to, or
/// reports that it did not inflate.
pub fn extract_inflated(inflated: Option<Vec<u8>>, request: &ExtractionRequest) -> (r: Result<
    Extraction,
    ExtractError,
>)
    ensures
        outcome(r) == inflated_extraction(
            match inflated {
                Some(stream) => Some(stream@),
                None => None,
            },
            *request,
        ),
{
    if request.start_sector > request.end_sector {
        return Err(ExtractError::ArgumentConflict);
    }
    match inflated {
        Some(stream) => extract_flat(stream.as_slice(), request),
        None => Err(ExtractError::IOError(ReadFailure::InvalidData)),
    }
}

/// Extracts the requested sectors from an input in the format that the
/// request names. No byte of the input is looked at before the range of the
/// request is found to be ordered.
pub fn extract(input: &[u8], request: &ExtractionRequest) -> (r: Result<Extraction, ExtractError>)
    ensures
        outcome(r) == extraction_of(input@, *request),
{
    match request.format {
        Format::ADF => extract_flat(input, request),
        Format::ADZ => {
            if request.start_sector > request.end_sector {
                return Err(ExtractError::ArgumentConflict);
            }
            let inflated = match inflate_gzip(input) {
                Ok(stream) => Some(stream),
                Err(_) => None,
            };
            extract_inflated(inflated, request)
        },
        Format::DMS => extract_dms(input, request),
    }
}

} // verus!
