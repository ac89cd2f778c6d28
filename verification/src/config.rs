//! The descriptor of a sink: a line of fields between colons that names the
//! policy, its numbers and the path of the log file.
//!
//! `size:<max file size>:<max backups>:<path>`
//! `time:<interval>:<unit>:<zone>:<max backups>:<path>`

use crate::names::{is_log_path, names_file};
use crate::text::{number_of, parse_u32, parse_u64, same_text, split, split_fields, texts};
use crate::timed::{is_midnight, unit_known, unit_seconds};
use vstd::prelude::*;

verus! {

/// Why a descriptor was turned down.
#[derive(Clone, Copy, Debug, PartialEq, Eq, Structural)]
pub enum ConfigError {
    /// The first field is neither `size` nor `time`.
    UnknownType,
    /// The descriptor has fewer fields than its form asks for.
    MissingField,
    /// A field that holds a number does not write one that fits.
    BadNumber,
    /// The unit is none of `S`, `M`, `H`, `D`, `MIDNIGHT`.
    UnknownUnit,
    /// The interval is 0 for a unit that counts intervals.
    ZeroInterval,
    /// The path names no file.
    BadPath,
}

/// What a descriptor says.
pub enum Descriptor {
    Size { max_file_size: u64, max_backup: u32, path: String },
    /// `when` and `utc` hold the unit and the zone in upper case.
    Time { interval: u32, when: String, utc: String, max_backup: u32, path: String },
}

/// A `Descriptor` over texts.
pub enum DescriptorView {
    Size { max_file_size: u64, max_backup: u32, path: Seq<char> },
    Time { interval: u32, when: Seq<char>, utc: Seq<char>, max_backup: u32, path: Seq<char> },
}

impl View for Descriptor {
    type V = DescriptorView;

    open spec fn view(&self) -> DescriptorView {
        match *self {
            Descriptor::Size { max_file_size, max_backup, path } => DescriptorView::Size {
                max_file_size,
                max_backup,
                path: path@,
            },
            Descriptor::Time { interval, when, utc, max_backup, path } => DescriptorView::Time {
                interval,
                when: when@,
                utc: utc@,
                max_backup,
                path: path@,
            },
        }
    }
}

impl DescriptorView {
    /// The path names a file, the unit is known, and the interval is not 0
    /// where it counts.
    pub open spec fn wf(&self) -> bool {
        match *self {
            DescriptorView::Size { path, .. } => is_log_path(path),
            DescriptorView::Time { interval, when, path, .. } => {
                &&& is_log_path(path)
                &&& unit_seconds(when).is_some()
                &&& is_midnight(when) || interval >= 1
            },
        }
    }

    pub open spec fn path(&self) -> Seq<char> {
        match *self {
            DescriptorView::Size { path, .. } => path,
            DescriptorView::Time { path, .. } => path,
        }
    }
}

/// The upper case of a text, as `str::to_uppercase` gives it.
pub uninterp spec fn uppercase_of(s: Seq<char>) -> Seq<char>;

/// `str::to_uppercase`: the text in upper case, by the rules of Unicode.
/// Believed, not proved: the result depends on the text alone. It is named
/// `uppercase_of`, not spelled out.
#[verifier::external_body]
pub(crate) fn upper(s: &str) -> (r: String)
    ensures
        r@ == uppercase_of(s@),
{
    s.to_uppercase()
}

/// What the `size` form says, given the fields of the descriptor.
pub open spec fn size_descriptor(fields: Seq<Seq<char>>) -> Result<DescriptorView, ConfigError> {
    if fields.len() < 4 {
        Err(ConfigError::MissingField)
    } else if number_of(fields[1], u64::MAX as nat) is None || number_of(
        fields[2],
        u32::MAX as nat,
    ) is None {
        Err(ConfigError::BadNumber)
    } else if !is_log_path(fields[3]) {
        Err(ConfigError::BadPath)
    } else {
        Ok(
            DescriptorView::Size {
                max_file_size: number_of(fields[1], u64::MAX as nat).unwrap() as u64,
                max_backup: number_of(fields[2], u32::MAX as nat).unwrap() as u32,
                path: fields[3],
            },
        )
    }
}

/// What the `time` form says, given the numbers of the descriptor, its unit
/// and zone in upper case, and its path.
pub open spec fn time_descriptor(
    interval: Option<nat>,
    when: Seq<char>,
    utc: Seq<char>,
    max_backup: Option<nat>,
    path: Seq<char>,
) -> Result<DescriptorView, ConfigError> {
    if interval is None || max_backup is None {
        Err(ConfigError::BadNumber)
    } else if unit_seconds(when) is None {
        Err(ConfigError::UnknownUnit)
    } else if !is_midnight(when) && interval.unwrap() == 0 {
        Err(ConfigError::ZeroInterval)
    } else if !is_log_path(path) {
        Err(ConfigError::BadPath)
    } else {
        Ok(
            DescriptorView::Time {
                interval: interval.unwrap() as u32,
                when,
                utc,
                max_backup: max_backup.unwrap() as u32,
                path,
            },
        )
    }
}

/// What a descriptor says, or why it says nothing. The fields lie between
/// colons, so the path ends at the next colon; fields behind the path are
/// not looked at. Unit and zone count in upper case.
pub open spec fn descriptor_of(s: Seq<char>) -> Result<DescriptorView, ConfigError> {
    let fields = split(s, ':');
    if fields[0] == "size"@ {
        size_descriptor(fields)
    } else if fields[0] == "time"@ {
        if fields.len() < 6 {
            Err(ConfigError::MissingField)
        } else {
            time_descriptor(
                number_of(fields[1], u32::MAX as nat),
                uppercase_of(fields[2]),
                uppercase_of(fields[3]),
                number_of(fields[4], u32::MAX as nat),
                fields[5],
            )
        }
    } else {
        Err(ConfigError::UnknownType)
    }
}

/// Whether the result of parsing says what `expected` says.
pub open spec fn says(r: Result<Descriptor, ConfigError>, expected: Result<
    DescriptorView,
    ConfigError,
>) -> bool {
    match r {
        Ok(d) => expected == Ok::<DescriptorView, ConfigError>(d@),
        Err(e) => expected == Err::<DescriptorView, ConfigError>(e),
    }
}

impl ConfigError {
    /// The error in words.
    pub fn message(&self) -> (r: String)
        ensures
            r@ == (match *self {
                ConfigError::UnknownType => "unknown log type"@,
                ConfigError::MissingField => "missing field"@,
                ConfigError::BadNumber => "invalid number"@,
                ConfigError::UnknownUnit => "rotate unknown type"@,
                ConfigError::ZeroInterval => "interval is zero"@,
                ConfigError::BadPath => "path names no file"@,
            }),
    {
        match self {
            ConfigError::UnknownType => String::from_str("unknown log type"),
            ConfigError::MissingField => String::from_str("missing field"),
            ConfigError::BadNumber => String::from_str("invalid number"),
            ConfigError::UnknownUnit => String::from_str("rotate unknown type"),
            ConfigError::ZeroInterval => String::from_str("interval is zero"),
            ConfigError::BadPath => String::from_str("path names no file"),
        }
    }
}

impl Descriptor {
    /// The path of the log file.
    pub fn path(&self) -> (r: &String)
        ensures
            r@ == self@.path(),
    {
        match self {
            Descriptor::Size { path, .. } => path,
            Descriptor::Time { path, .. } => path,
        }
    }
}

/// A `time` descriptor from its parts: the numbers as they were read, unit
/// and zone in upper case, and the path.
pub fn time_descriptor_from(
    interval: Option<u32>,
    when: String,
    utc: String,
    max_backup: Option<u32>,
    path: String,
) -> (r: Result<Descriptor, ConfigError>)
    ensures
        says(
            r,
            time_descriptor(
                match interval {
                    Some(v) => Some(v as nat),
                    None => None,
                },
                when@,
                utc@,
                match max_backup {
                    Some(v) => Some(v as nat),
                    None => None,
                },
                path@,
            ),
        ),
{
    let interval = match interval {
        Some(v) => v,
        None => {
            return Err(ConfigError::BadNumber);
        },
    };
    let max_backup = match max_backup {
        Some(v) => v,
        None => {
            return Err(ConfigError::BadNumber);
        },
    };
    if !unit_known(when.as_str()) {
        return Err(ConfigError::UnknownUnit);
    }
    if !same_text(when.as_str(), "MIDNIGHT") && interval == 0 {
        return Err(ConfigError::ZeroInterval);
    }
    if !names_file(path.as_str()) {
        return Err(ConfigError::BadPath);
    }
    Ok(Descriptor::Time { interval, when, utc, max_backup, path })
}

/// Reads a descriptor.
pub fn parse_descriptor(s: &str) -> (r: Result<Descriptor, ConfigError>)
    ensures
        says(r, descriptor_of(s@)),
        r is Ok ==> r->Ok_0@.wf(),
{
    let fields = split_fields(s, ':');
    let ghost parts = split(s@, ':');
    assert(parts.len() >= 1) by {
        crate::text::lemma_split_len(s@, ':');
    }
    assert(forall|i: int| 0 <= i < fields.len() ==> (#[trigger] fields[i])@ == parts[i]);
    if same_text(fields[0].as_str(), "size") {
        if fields.len() < 4 {
            return Err(ConfigError::MissingField);
        }
        let max_file_size = match parse_u64(fields[1].as_str()) {
            Some(v) => v,
            None => {
                return Err(ConfigError::BadNumber);
            },
        };
        let max_backup = match parse_u32(fields[2].as_str()) {
            Some(v) => v,
            None => {
                return Err(ConfigError::BadNumber);
            },
        };
        if !names_file(fields[3].as_str()) {
            return Err(ConfigError::BadPath);
        }
        Ok(Descriptor::Size { max_file_size, max_backup, path: fields[3].clone() })
    } else if same_text(fields[0].as_str(), "time") {
        if fields.len() < 6 {
            return Err(ConfigError::MissingField);
        }
        let interval = parse_u32(fields[1].as_str());
        let max_backup = parse_u32(fields[4].as_str());
        let when = upper(fields[2].as_str());
        let utc = upper(fields[3].as_str());
        time_descriptor_from(interval, when, utc, max_backup, fields[5].clone())
    } else {
        Err(ConfigError::UnknownType)
    }
}

} // verus!
