//! Which container format applies to an input.

use vstd::prelude::*;
use crate::error::ExtractError;

verus! {

/// The container formats that can be read.
#[derive(Clone, Copy, Debug, PartialEq, Eq, Structural)]
pub enum Format {
    /// Raw sector dump.
    ADF,
    /// Gzip-wrapped raw sector dump.
    ADZ,
    /// DiskMasher container.
    DMS,
}

/// The format switches as they arrive from a command line: a named format
/// and one flag per format. They are meant to be mutually exclusive.
#[derive(Clone, Copy, Debug)]
pub struct FormatOpt {
    pub format: Option<Format>,
    pub force_adf: bool,
    pub force_adz: bool,
    pub force_dms: bool,
}

/// `name` ends in the bytes of `suffix`.
pub open spec fn ends_with(name: Seq<u8>, suffix: Seq<u8>) -> bool {
    name.len() >= suffix.len() && name.subrange(name.len() - suffix.len(), name.len() as int)
        == suffix
}

/// The bytes of `.dms`.
pub open spec fn ext_dms() -> Seq<u8> {
    seq![0x2Eu8, 0x64u8, 0x6Du8, 0x73u8]
}

/// The bytes of `.adz`.
pub open spec fn ext_adz() -> Seq<u8> {
    seq![0x2Eu8, 0x61u8, 0x64u8, 0x7Au8]
}

/// The bytes of `.adf.gz`.
pub open spec fn ext_adf_gz() -> Seq<u8> {
    seq![0x2Eu8, 0x61u8, 0x64u8, 0x66u8, 0x2Eu8, 0x67u8, 0x7Au8]
}

/// The bytes of `.adf`.
pub open spec fn ext_adf() -> Seq<u8> {
    seq![0x2Eu8, 0x61u8, 0x64u8, 0x66u8]
}

/// The format that the end of a file name stands for, if it stands for one.
pub open spec fn format_by_extension(name: Seq<u8>) -> Option<Format> {
    if ends_with(name, ext_dms()) {
        Some(Format::DMS)
    } else if ends_with(name, ext_adz()) || ends_with(name, ext_adf_gz()) {
        Some(Format::ADZ)
    } else if ends_with(name, ext_adf()) {
        Some(Format::ADF)
    } else {
        None
    }
}

/// The format that applies: an explicit choice always; without one, what
/// the file name's extension says; `UnknownFormat` where it says nothing.
pub open spec fn detected_format(explicit: Option<Format>, name: Seq<u8>) -> Result<
    Format,
    ExtractError,
> {
    match explicit {
        Some(chosen) => Ok(chosen),
        None => match format_by_extension(name) {
            Some(found) => Ok(found),
            None => Err(ExtractError::UnknownFormat),
        },
    }
}

/// Tells whether `name` ends in the bytes of `suffix`.
pub fn has_suffix(name: &[u8], suffix: &[u8]) -> (b: bool)
    ensures
        b == ends_with(name@, suffix@),
{
    let n = name.len();
    let m = suffix.len();
    if n < m {
        return false;
    }
    let from = n - m;
    let mut i: usize = 0;
    while i < m
        invariant
            n == name@.len(),
            m == suffix@.len(),
            from == n - m,
            i <= m,
            forall|j: int| 0 <= j < i ==> name@[from + j] == suffix@[j],
        decreases m - i,
    {
        if name[from + i] != suffix[i] {
            assert(name@.subrange(from as int, n as int)[i as int] != suffix@[i as int]);
            return false;
        }
        i += 1;
    }
    assert(name@.subrange(from as int, n as int) =~= suffix@);
    true
}

/// Resolves the format of an input from an optional explicit choice and the
/// name of the file, given as its bytes. The name is only looked at where
/// there is no explicit choice. Extensions are matched as they are written
/// here, in lower case: `.dms`; `.adz` or `.adf.gz`; `.adf`.
pub fn detect_format(explicit: Option<Format>, file_name: &[u8]) -> (r: Result<
    Format,
    ExtractError,
>)
    ensures
        r == detected_format(explicit, file_name@),
        explicit matches Some(chosen) ==> r == Ok::<Format, ExtractError>(chosen),
{
    match explicit {
        Some(chosen) => Ok(chosen),
        None => {
            let dms: [u8; 4] = [0x2E, 0x64, 0x6D, 0x73];
            let adz: [u8; 4] = [0x2E, 0x61, 0x64, 0x7A];
            let adf_gz: [u8; 7] = [0x2E, 0x61, 0x64, 0x66, 0x2E, 0x67, 0x7A];
            let adf: [u8; 4] = [0x2E, 0x61, 0x64, 0x66];
            assert(dms@ =~= ext_dms());
            assert(adz@ =~= ext_adz());
            assert(adf_gz@ =~= ext_adf_gz());
            assert(adf@ =~= ext_adf());
            if has_suffix(file_name, dms.as_slice()) {
                Ok(Format::DMS)
            } else if has_suffix(file_name, adz.as_slice()) || has_suffix(
                file_name,
                adf_gz.as_slice(),
            ) {
                Ok(Format::ADZ)
            } else if has_suffix(file_name, adf.as_slice()) {
                Ok(Format::ADF)
            } else {
                Err(ExtractError::UnknownFormat)
            }
        },
    }
}

impl FormatOpt {
    /// How many of the four switches are set.
    pub open spec fn selections(self) -> nat {
        let named: nat = if self.format is Some { 1 } else { 0 };
        let adf: nat = if self.force_adf { 1 } else { 0 };
        let adz: nat = if self.force_adz { 1 } else { 0 };
        let dms: nat = if self.force_dms { 1 } else { 0 };
        named + adf + adz + dms
    }

    /// The one logical choice the switches collapse to. The named format has
    /// precedence, then the flags in the order ADF, ADZ, DMS.
    pub open spec fn chosen(self) -> Format {
        match self.format {
            Some(f) => f,
            None => if self.force_adf {
                Format::ADF
            } else if self.force_adz {
                Format::ADZ
            } else {
                Format::DMS
            },
        }
    }

    /// Collapses the switches to the format they select. At least one of
    /// them has to be set.
    pub fn format(&self) -> (f: Format)
        requires
            self.selections() >= 1,
        ensures
            f == self.chosen(),
            self.format matches Some(named) ==> f == named,
            self.format is None && self.force_adf ==> f == Format::ADF,
            self.format is None && !self.force_adf && self.force_adz ==> f == Format::ADZ,
            self.format is None && !self.force_adf && !self.force_adz ==> f == Format::DMS,
    {
        match self.format {
            Some(named) => named,
            None => {
                if self.force_adf {
                    Format::ADF
                } else if self.force_adz {
                    Format::ADZ
                } else {
                    Format::DMS
                }
            },
        }
    }

    /// Resolves the switches once, rejecting a conflict: no switch gives no
    /// override, exactly one gives its format, more than one is an
    /// `ArgumentConflict`.
    pub fn resolve(&self) -> (r: Result<Option<Format>, ExtractError>)
        ensures
            self.selections() == 0 ==> r == Ok::<Option<Format>, ExtractError>(None),
            self.selections() == 1 ==> r == Ok::<Option<Format>, ExtractError>(
                Some(self.chosen()),
            ),
            self.selections() > 1 ==> r == Err::<Option<Format>, ExtractError>(
                ExtractError::ArgumentConflict,
            ),
    {
        let mut set: u8 = 0;
        if self.format.is_some() {
            set = set + 1;
        }
        if self.force_adf {
            set = set + 1;
        }
        if self.force_adz {
            set = set + 1;
        }
        if self.force_dms {
            set = set + 1;
        }
        if set == 0 {
            Ok(None)
        } else if set == 1 {
            Ok(Some(self.format()))
        } else {
            Err(ExtractError::ArgumentConflict)
        }
    }
}

} // verus!
