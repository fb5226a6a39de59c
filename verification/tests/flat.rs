use amidisk::error::{ExtractError, ReadFailure};
use amidisk::extract::{extract, extract_flat, extract_inflated};
use amidisk::format::Format;
use amidisk::geometry::Density;
use amidisk::request::{cut_sectors, ExtractionRequest};
use std::io::Write;

const DD_BYTES: usize = 901_120;
const HD_BYTES: usize = 1_802_240;

fn pattern(len: usize) -> Vec<u8> {
    (0..len).map(|i| ((i * 31 + i / 512 + 7) % 251) as u8).collect()
}

fn request(format: Format, start_sector: u16, end_sector: u16) -> ExtractionRequest {
    ExtractionRequest { format, start_sector, end_sector, strict: false }
}

fn gzip(bytes: &[u8]) -> Vec<u8> {
    let mut encoder =
        flate2::write::GzEncoder::new(Vec::new(), flate2::Compression::default());
    encoder.write_all(bytes).unwrap();
    encoder.finish().unwrap()
}

#[test]
fn geometry_of_both_densities() {
    assert_eq!(Density::Double.sectors_per_track(), 11);
    assert_eq!(Density::High.sectors_per_track(), 22);
    assert_eq!(Density::Double.total_sectors(), 1760);
    assert_eq!(Density::High.total_sectors(), 3520);
    assert_eq!(Density::Double.track_bytes(), 5632);
    assert_eq!(Density::High.track_bytes(), 11264);
    assert_eq!(Density::Double.image_bytes(), DD_BYTES);
    assert_eq!(Density::High.image_bytes(), HD_BYTES);
}

#[test]
fn density_is_detected_from_image_length() {
    assert_eq!(Density::of_image_len(DD_BYTES), Some(Density::Double));
    assert_eq!(Density::of_image_len(HD_BYTES), Some(Density::High));
    assert_eq!(Density::of_image_len(0), None);
    assert_eq!(Density::of_image_len(DD_BYTES - 1), None);
    assert_eq!(Density::of_image_len(DD_BYTES + 512), None);
}

#[test]
fn start_after_end_is_an_argument_conflict() {
    assert_eq!(
        ExtractionRequest::new(Format::ADF, 5, 3, false).err(),
        Some(ExtractError::ArgumentConflict)
    );
    let built = ExtractionRequest::new(Format::DMS, 3, 5, true).unwrap();
    assert_eq!(built.format, Format::DMS);
    assert_eq!(built.start_sector, 3);
    assert_eq!(built.end_sector, 5);
    assert!(built.strict);
    assert!(ExtractionRequest::new(Format::ADF, 4, 4, false).is_ok());
}

#[test]
fn start_after_end_fails_before_the_input_is_looked_at() {
    // None of these inputs is a readable container; the conflict is
    // reported all the same.
    let garbage = [1u8, 2, 3];
    for format in [Format::ADF, Format::ADZ, Format::DMS] {
        let r = extract(&garbage, &request(format, 5, 3));
        assert_eq!(r.err(), Some(ExtractError::ArgumentConflict));
        let r = extract(&[], &request(format, 5, 3));
        assert_eq!(r.err(), Some(ExtractError::ArgumentConflict));
    }
}

#[test]
fn adf_extraction_is_the_identity_on_the_range() {
    let image = pattern(DD_BYTES);
    let whole = extract(&image, &request(Format::ADF, 0, 1759)).unwrap();
    assert_eq!(whole.data, image);
    assert!(whole.corrupt_tracks.is_empty());
    let part = extract(&image, &request(Format::ADF, 3, 5)).unwrap();
    assert_eq!(part.data.len(), 3 * 512);
    assert_eq!(part.data, image[3 * 512..6 * 512].to_vec());
    let one = extract(&image, &request(Format::ADF, 1759, 1759)).unwrap();
    assert_eq!(one.data, image[1759 * 512..].to_vec());
}

#[test]
fn adf_extraction_of_a_high_density_image() {
    let image = pattern(HD_BYTES);
    let tail = extract(&image, &request(Format::ADF, 1760, 3519)).unwrap();
    assert_eq!(tail.data, image[1760 * 512..].to_vec());
    let r = extract(&image, &request(Format::ADF, 0, 3520));
    assert_eq!(r.err(), Some(ExtractError::RangeOutOfBounds));
}

#[test]
fn end_sector_past_a_double_density_image_is_out_of_bounds() {
    let image = pattern(DD_BYTES);
    let r = extract(&image, &request(Format::ADF, 0, 3520));
    assert_eq!(r.err(), Some(ExtractError::RangeOutOfBounds));
    let r = extract(&image, &request(Format::ADF, 0, 1760));
    assert_eq!(r.err(), Some(ExtractError::RangeOutOfBounds));
    let r = extract(&image, &request(Format::ADF, 1760, 1760));
    assert_eq!(r.err(), Some(ExtractError::RangeOutOfBounds));
}

#[test]
fn stream_of_no_disk_length_is_invalid_data() {
    let short = pattern(DD_BYTES - 512);
    let r = extract(&short, &request(Format::ADF, 0, 0));
    assert_eq!(r.err(), Some(ExtractError::IOError(ReadFailure::InvalidData)));
    let r = extract_flat(&[], &request(Format::ADF, 0, 0));
    assert_eq!(r.err(), Some(ExtractError::IOError(ReadFailure::InvalidData)));
}

#[test]
fn cut_sectors_takes_the_inclusive_range() {
    let image = pattern(DD_BYTES);
    let cut = cut_sectors(&image, Density::Double, &request(Format::ADF, 10, 11)).unwrap();
    assert_eq!(cut, image[5120..6144].to_vec());
    let r = cut_sectors(&image, Density::Double, &request(Format::ADF, 10, 1760));
    assert_eq!(r.err(), Some(ExtractError::RangeOutOfBounds));
}

#[test]
fn adz_extraction_inflates_then_cuts() {
    let image = pattern(DD_BYTES);
    let wrapped = gzip(&image);
    assert_ne!(wrapped.len(), image.len());
    let part = extract(&wrapped, &request(Format::ADZ, 100, 102)).unwrap();
    assert_eq!(part.data, image[100 * 512..103 * 512].to_vec());
    assert!(part.corrupt_tracks.is_empty());
    let r = extract(&wrapped, &request(Format::ADZ, 0, 3520));
    assert_eq!(r.err(), Some(ExtractError::RangeOutOfBounds));
}

#[test]
fn adz_that_does_not_inflate_is_invalid_data() {
    let image = pattern(DD_BYTES);
    // A raw image is no gzip member.
    let r = extract(&image, &request(Format::ADZ, 0, 0));
    assert_eq!(r.err(), Some(ExtractError::IOError(ReadFailure::InvalidData)));
    // Neither is a member cut short.
    let wrapped = gzip(&image);
    let r = extract(&wrapped[..wrapped.len() / 2], &request(Format::ADZ, 0, 0));
    assert_eq!(r.err(), Some(ExtractError::IOError(ReadFailure::InvalidData)));
    // Nor one whose trailer does not match.
    let mut broken = wrapped.clone();
    let at = broken.len() - 6;
    broken[at] ^= 0xFF;
    let r = extract(&broken, &request(Format::ADZ, 0, 0));
    assert_eq!(r.err(), Some(ExtractError::IOError(ReadFailure::InvalidData)));
}

#[test]
fn adz_wrapping_something_else_than_an_image_is_invalid_data() {
    let wrapped = gzip(b"not a disk image");
    let r = extract(&wrapped, &request(Format::ADZ, 0, 0));
    assert_eq!(r.err(), Some(ExtractError::IOError(ReadFailure::InvalidData)));
}

#[test]
fn inflated_stream_is_read_as_a_linear_image() {
    let image = pattern(DD_BYTES);
    let got = extract_inflated(Some(image.clone()), &request(Format::ADZ, 7, 7)).unwrap();
    assert_eq!(got.data, image[7 * 512..8 * 512].to_vec());
    let r = extract_inflated(None, &request(Format::ADZ, 7, 7));
    assert_eq!(r.err(), Some(ExtractError::IOError(ReadFailure::InvalidData)));
    let r = extract_inflated(None, &request(Format::ADZ, 7, 6));
    assert_eq!(r.err(), Some(ExtractError::ArgumentConflict));
}

#[test]
fn extracting_twice_gives_the_same_bytes() {
    let image = pattern(DD_BYTES);
    let first = extract(&image, &request(Format::ADF, 40, 90)).unwrap();
    let second = extract(&image, &request(Format::ADF, 40, 90)).unwrap();
    assert_eq!(first.data, second.data);
    let wrapped = gzip(&image);
    let first = extract(&wrapped, &request(Format::ADZ, 40, 90)).unwrap();
    let second = extract(&wrapped, &request(Format::ADZ, 40, 90)).unwrap();
    assert_eq!(first.data, second.data);
}
