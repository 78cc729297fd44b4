//! The version a preset is written for.
use crate::media::json::{read_json, Json};
use crate::text::{decimal_text, join, owned};
use vstd::prelude::*;

verus! {

/// Why a preset is not read any further.
#[derive(Clone, Copy, Debug, PartialEq, Eq, Structural)]
pub enum PresetError {
    /// Not JSON.
    Unreadable,
    /// Written for a later version.
    Version(u64),
}

impl PresetError {
    pub open spec fn text(self) -> Seq<char> {
        match self {
            PresetError::Unreadable => "not JSON"@,
            PresetError::Version(version) => "unsupported config version "@ + crate::text::decimal(
                version as nat,
            ),
        }
    }

    pub fn message(&self) -> (r: String)
        ensures
            r@ == self.text(),
    {
        match self {
            PresetError::Unreadable => owned("not JSON"),
            PresetError::Version(version) => join(
                "unsupported config version ",
                decimal_text(*version).as_str(),
            ),
        }
    }
}

/// What stops a preset from being read, if anything does. One without a version, as all were at
/// first, is read.
pub open spec fn version_fault(preset: crate::media::json::Tree) -> Option<PresetError> {
    match preset.member("version"@).unsigned() {
        Some(version) => if version == 1 {
            None
        } else {
            Some(PresetError::Version(version))
        },
        None => None,
    }
}

/// Checks the version of a preset.
pub fn check_version(preset: &Json) -> (r: Result<(), PresetError>)
    ensures
        r == match version_fault(crate::media::json::tree(*preset)) {
            Some(e) => Err::<(), PresetError>(e),
            None => Ok::<(), PresetError>(()),
        },
{
    match preset.get("version").as_unsigned() {
        Some(version) => if version == 1 {
            Ok(())
        } else {
            Err(PresetError::Version(version))
        },
        None => Ok(()),
    }
}

/// Checks the version of a preset in a file's bytes.
pub fn check_preset(bytes: &[u8]) -> (r: Result<(), PresetError>)
    ensures
        r == match crate::media::json::parsed(bytes@) {
            Some(preset) => match version_fault(preset) {
                Some(e) => Err::<(), PresetError>(e),
                None => Ok::<(), PresetError>(()),
            },
            None => Err::<(), PresetError>(PresetError::Unreadable),
        },
{
    match read_json(bytes) {
        Some(preset) => check_version(&preset),
        None => Err(PresetError::Unreadable),
    }
}

} // verus!
