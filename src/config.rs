//! Options that steer how a file is read.
use vstd::prelude::*;

use crate::header::Version;
use crate::textbuf::str_eq;
use crate::values::Shortname;

verus! {

/// Signed corrections added to a segment's raw offsets.
#[derive(Clone, Copy, Debug, Default, PartialEq, Eq, Structural)]
pub struct OffsetCorrection {
    pub begin: i32,
    pub end: i32,
}

/// How to read the HEADER.
#[derive(Clone, Copy, Debug, Default)]
pub struct HeaderConfig {
    /// Take this version whatever the HEADER says.
    pub version_override: Option<Version>,
    /// Corrections for the primary TEXT segment.
    pub text: OffsetCorrection,
    /// Corrections for the DATA segment.
    pub data: OffsetCorrection,
    /// Corrections for the ANALYSIS segment.
    pub analysis: OffsetCorrection,
}

/// How to read the TEXT segment into key/value pairs.
#[derive(Clone, Debug, Default)]
pub struct RawTextReadConfig {
    pub header: HeaderConfig,
    /// Corrections for the supplemental TEXT segment.
    pub stext: OffsetCorrection,
    /// Treat every delimiter as a boundary; no doubled-delimiter escapes.
    pub no_delim_escape: bool,
    /// Reject a delimiter outside 1..=126.
    pub force_ascii_delim: bool,
    /// Fail when the last byte of TEXT is not the delimiter.
    pub enforce_final_delim: bool,
    /// Fail on a repeated key.
    pub enforce_unique: bool,
    /// Fail when the number of words is odd.
    pub enforce_even: bool,
    /// Fail on a blank value (only without escapes).
    pub enforce_nonempty: bool,
    /// Fail on a word that is not UTF-8 rather than dropping its pair.
    pub error_on_invalid_utf8: bool,
    /// Fail on a key that is not ASCII.
    pub enforce_keyword_ascii: bool,
    /// Fail when the supplemental TEXT offsets are missing.
    pub enforce_stext: bool,
    /// Replace leading spaces in offset values with zeros.
    pub repair_offset_spaces: bool,
    /// Another pattern by which `$DATE` may be written.
    pub date_pattern: Option<String>,
    /// Fail on deprecated keys or features.
    pub disallow_deprecated: bool,
}

/// How to check the time channel.
#[derive(Clone, Debug, Default)]
pub struct TimeConfig {
    /// The `$PnN` of the time channel, if it is to be checked.
    pub shortname: Option<String>,
    /// Require the time channel to be present.
    pub ensure: bool,
    /// Require `$TIMESTEP` when the time channel is present.
    pub ensure_timestep: bool,
    /// Require `$PnE` to be `0,0` for the time channel.
    pub ensure_linear: bool,
    /// Require `$PnG` to be absent for the time channel.
    pub ensure_nogain: bool,
}

/// How to read TEXT into standard keywords.
#[derive(Clone, Debug, Default)]
pub struct StdTextReadConfig {
    pub raw: RawTextReadConfig,
    pub time: TimeConfig,
    /// Fail on unknown keys that start with `$`.
    pub disallow_deviant: bool,
    /// Fail on deprecated keys or features.
    pub disallow_deprecated: bool,
    /// Fail on keys that do not start with `$`.
    pub disallow_nonstandard: bool,
    /// A pattern with a literal `%n`, used to group nonstandard keys under
    /// the measurement whose index replaces `%n`.
    pub nonstandard_measurement_pattern: Option<String>,
}

/// How to read DATA.
#[derive(Clone, Debug, Default)]
pub struct DataReadConfig {
    pub standard: StdTextReadConfig,
    /// Corrections for the DATA offsets given in TEXT.
    pub data: OffsetCorrection,
    /// Corrections for the ANALYSIS offsets given in TEXT.
    pub analysis: OffsetCorrection,
    /// Fail when the event width does not divide the DATA length.
    pub enfore_data_width_divisibility: bool,
    /// Fail when `$TOT` differs from the number of events computed.
    pub enfore_matching_tot: bool,
}

/// Options that fit nowhere else.
#[derive(Clone, Copy, Debug, Default)]
pub struct MiscReadConfig {
    /// Treat every warning as an error.
    pub warnings_are_errors: bool,
}

/// How to write a file.
#[derive(Clone, Copy, Debug, Default)]
pub struct WriteConfig {
    /// The TEXT delimiter.
    pub delim: u8,
    /// Refuse conversions that lose data.
    pub disallow_lossy_conversions: bool,
}

/// Corrections and checks for reading raw TEXT, as one flat record.
#[derive(Clone, Debug, Default)]
pub struct RawTextReader {
    pub starttext_delta: i32,
    pub endtext_delta: i32,
    pub startdata_delta: i32,
    pub enddata_delta: i32,
    pub start_stext_delta: i32,
    pub end_stext_delta: i32,
    pub start_analysis_delta: i32,
    pub end_analysis_delta: i32,
    pub warnings_are_errors: bool,
    pub no_delim_escape: bool,
    pub force_ascii_delim: bool,
    pub enforce_final_delim: bool,
    pub enforce_unique: bool,
    pub enforce_even: bool,
    pub enforce_nonempty: bool,
    pub error_on_invalid_utf8: bool,
    pub enfore_keyword_ascii: bool,
    pub enfore_data_width_divisibility: bool,
    pub enfore_matching_tot: bool,
    pub repair_offset_spaces: bool,
    pub date_pattern: Option<String>,
}

/// Checks for reading standard keywords, as one flat record.
#[derive(Clone, Debug, Default)]
pub struct StdTextReader {
    pub raw: RawTextReader,
    pub warnings_are_errors: bool,
    pub time_shortname: Option<String>,
    pub ensure_time: bool,
    pub ensure_time_timestep: bool,
    pub ensure_time_linear: bool,
    pub ensure_time_nogain: bool,
    pub disallow_deviant: bool,
    pub disallow_deprecated: bool,
    pub disallow_nonstandard: bool,
    pub nonstandard_measurement_pattern: Option<String>,
}

impl StdTextReader {
    /// Whether a short name is the configured time channel.
    pub fn time_name_matches(&self, name: &Shortname) -> (r: bool)
        ensures
            r == match self.time_shortname {
                Some(t) => t@ == name.0@,
                None => false,
            },
    {
        match &self.time_shortname {
            Some(t) => str_eq(t.as_str(), name.0.as_str()),
            None => false,
        }
    }
}

/// Corrections for reading DATA.
#[derive(Clone, Copy, Debug, Default)]
pub struct DataReader {
    pub datastart_delta: u32,
    pub dataend_delta: u32,
}

/// Everything that steers reading a file.
#[derive(Clone, Debug, Default)]
pub struct Reader {
    pub text: StdTextReader,
    pub data: DataReader,
}

} // verus!
