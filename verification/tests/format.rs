use amidisk::error::ExtractError;
use amidisk::format::{detect_format, has_suffix, Format, FormatOpt};

#[test]
fn explicit_choice_wins_over_extension() {
    assert_eq!(detect_format(Some(Format::DMS), b"image.adf"), Ok(Format::DMS));
    assert_eq!(detect_format(Some(Format::ADF), b"image.dms"), Ok(Format::ADF));
    assert_eq!(detect_format(Some(Format::ADZ), b"no extension"), Ok(Format::ADZ));
}

#[test]
fn extension_decides_without_explicit_choice() {
    assert_eq!(detect_format(None, b"image.dms"), Ok(Format::DMS));
    assert_eq!(detect_format(None, b"image.adz"), Ok(Format::ADZ));
    assert_eq!(detect_format(None, b"image.adf.gz"), Ok(Format::ADZ));
    assert_eq!(detect_format(None, b"image.adf"), Ok(Format::ADF));
    assert_eq!(detect_format(None, b".adf"), Ok(Format::ADF));
    assert_eq!(detect_format(None, b"dir.dms/image.adf"), Ok(Format::ADF));
}

#[test]
fn unknown_extension_is_unknown_format() {
    assert_eq!(detect_format(None, b"image.bin"), Err(ExtractError::UnknownFormat));
    assert_eq!(detect_format(None, b""), Err(ExtractError::UnknownFormat));
    assert_eq!(detect_format(None, b"adf"), Err(ExtractError::UnknownFormat));
    assert_eq!(detect_format(None, b"image.gz"), Err(ExtractError::UnknownFormat));
    assert_eq!(detect_format(None, b"image.ADF"), Err(ExtractError::UnknownFormat));
    assert_eq!(detect_format(None, b"image.adf "), Err(ExtractError::UnknownFormat));
}

#[test]
fn suffix_is_matched_at_the_end_only() {
    assert!(has_suffix(b"abc", b"bc"));
    assert!(has_suffix(b"abc", b"abc"));
    assert!(has_suffix(b"abc", b""));
    assert!(!has_suffix(b"abc", b"ab"));
    assert!(!has_suffix(b"bc", b"abc"));
}

#[test]
fn format_flags_collapse_to_one_choice() {
    let adf = FormatOpt { format: None, force_adf: true, force_adz: false, force_dms: false };
    let adz = FormatOpt { format: None, force_adf: false, force_adz: true, force_dms: false };
    let dms = FormatOpt { format: None, force_adf: false, force_adz: false, force_dms: true };
    let named =
        FormatOpt { format: Some(Format::DMS), force_adf: false, force_adz: false, force_dms: false };
    assert_eq!(adf.format(), Format::ADF);
    assert_eq!(adz.format(), Format::ADZ);
    assert_eq!(dms.format(), Format::DMS);
    assert_eq!(named.format(), Format::DMS);
}

#[test]
fn named_format_has_precedence_over_flags() {
    let both =
        FormatOpt { format: Some(Format::ADZ), force_adf: true, force_adz: false, force_dms: true };
    assert_eq!(both.format(), Format::ADZ);
    let flags = FormatOpt { format: None, force_adf: true, force_adz: true, force_dms: true };
    assert_eq!(flags.format(), Format::ADF);
}

#[test]
fn resolve_gives_no_override_without_switches() {
    let none = FormatOpt { format: None, force_adf: false, force_adz: false, force_dms: false };
    assert_eq!(none.resolve(), Ok(None));
}

#[test]
fn resolve_gives_the_single_choice() {
    let adz = FormatOpt { format: None, force_adf: false, force_adz: true, force_dms: false };
    assert_eq!(adz.resolve(), Ok(Some(Format::ADZ)));
    let named =
        FormatOpt { format: Some(Format::ADF), force_adf: false, force_adz: false, force_dms: false };
    assert_eq!(named.resolve(), Ok(Some(Format::ADF)));
}

#[test]
fn resolve_rejects_conflicting_switches() {
    let two = FormatOpt { format: None, force_adf: true, force_adz: false, force_dms: true };
    assert_eq!(two.resolve(), Err(ExtractError::ArgumentConflict));
    let named_and_flag =
        FormatOpt { format: Some(Format::ADF), force_adf: true, force_adz: false, force_dms: false };
    assert_eq!(named_and_flag.resolve(), Err(ExtractError::ArgumentConflict));
}
