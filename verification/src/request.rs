//! The extraction request and the cut to its sector range.

use vstd::prelude::*;
use crate::error::ExtractError;
use crate::format::Format;
use crate::geometry::{Density, SECTOR_BYTES};

verus! {

/// What to extract: the container format, the inclusive sector range, and
/// whether a corrupt track is fatal (`strict`) or tolerated by zero-filling.
#[derive(Clone, Copy, Debug)]
pub struct ExtractionRequest {
    pub format: Format,
    pub start_sector: u16,
    pub end_sector: u16,
    pub strict: bool,
}

/// The byte range `[start * 512, (end + 1) * 512)` of a linear image.
pub open spec fn sector_range(image: Seq<u8>, start: u16, end: u16) -> Seq<u8> {
    image.subrange(start as int * SECTOR_BYTES as int, (end as int + 1) * SECTOR_BYTES as int)
}

impl ExtractionRequest {
    /// Builds a request. A range whose start lies after its end is an
    /// `ArgumentConflict`; nothing else is rejected here, and no input is
    /// needed to decide it.
    pub fn new(format: Format, start_sector: u16, end_sector: u16, strict: bool) -> (r: Result<
        ExtractionRequest,
        ExtractError,
    >)
        ensures
            start_sector > end_sector ==> r == Err::<ExtractionRequest, ExtractError>(
                ExtractError::ArgumentConflict,
            ),
            start_sector <= end_sector ==> r == Ok::<ExtractionRequest, ExtractError>(
                (ExtractionRequest { format, start_sector, end_sector, strict }),
            ),
    {
        if start_sector > end_sector {
            Err(ExtractError::ArgumentConflict)
        } else {
            Ok(ExtractionRequest { format, start_sector, end_sector, strict })
        }
    }

    /// The range is ordered: the start sector is not after the end sector.
    pub open spec fn ordered(self) -> bool {
        self.start_sector <= self.end_sector
    }

    /// The range lies within a disk of density `d`.
    pub open spec fn spec_within(self, d: Density) -> bool {
        self.end_sector < d.spec_total_sectors()
    }

    /// Whether the range lies within a disk of density `d`.
    pub fn within(&self, d: Density) -> (b: bool)
        ensures
            b == self.spec_within(d),
    {
        self.end_sector < d.total_sectors()
    }
}

/// The requested range of a complete linear image of density `d`, or the
/// reason it cannot be had.
pub open spec fn cut_of(image: Seq<u8>, d: Density, request: ExtractionRequest) -> Result<
    Seq<u8>,
    ExtractError,
> {
    if !request.spec_within(d) {
        Err(ExtractError::RangeOutOfBounds)
    } else {
        Ok(sector_range(image, request.start_sector, request.end_sector))
    }
}

/// Cuts the requested sector range out of a complete linear image. Fails with
/// `RangeOutOfBounds` exactly when the end sector is not a sector of the disk.
pub fn cut_sectors(image: &[u8], d: Density, request: &ExtractionRequest) -> (r: Result<
    Vec<u8>,
    ExtractError,
>)
    requires
        image@.len() == d.spec_image_bytes(),
        request.ordered(),
    ensures
        match r {
            Ok(bytes) => cut_of(image@, d, *request) == Ok::<Seq<u8>, ExtractError>(bytes@),
            Err(e) => cut_of(image@, d, *request) == Err::<Seq<u8>, ExtractError>(e),
        },
        r matches Ok(bytes) ==> bytes@.len() == (request.end_sector - request.start_sector + 1)
            * SECTOR_BYTES,
{
    if !request.within(d) {
        return Err(ExtractError::RangeOutOfBounds);
    }
    let from: usize = request.start_sector as usize * SECTOR_BYTES;
    let to: usize = (request.end_sector as usize + 1) * SECTOR_BYTES;
    let part = vstd::slice::slice_subrange(image, from, to);
    Ok(vstd::slice::slice_to_vec(part))
}

} // verus!
