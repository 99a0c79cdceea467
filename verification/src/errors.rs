//! The fatal error kinds of a reconciliation run. Any of them aborts the run
//! before anything is persisted.

use vstd::prelude::*;

verus! {

/// A fatal configuration error. No error is retried and none is swallowed:
/// each aborts the run it occurs in.
#[derive(Clone, Copy, Debug, PartialEq, Eq, Structural)]
pub enum ConfigError {
    /// The settings file could not be read or written.
    SettingsIo,
    /// The settings file content is not a JSON object.
    SettingsParse,
    /// A `hooks` value exists but does not have the two-level hook shape.
    SettingsSchema,
    /// The interactive input stream was closed or unreadable while an answer
    /// was still needed.
    PromptIo,
}

impl ConfigError {
    /// A descriptive message for the error, for the caller to surface.
    pub fn message(&self) -> (r: String)
        ensures
            (*self is SettingsIo) ==> r@ == "cannot read or write the settings file"@,
            (*self is SettingsParse) ==> r@ == "settings file content is not a JSON object"@,
            (*self is SettingsSchema) ==> r@ == "hooks entry does not have the expected shape"@,
            (*self is PromptIo) ==> r@ == "interactive input closed before an answer was given"@,
    {
        match self {
            ConfigError::SettingsIo => String::from_str("cannot read or write the settings file"),
            ConfigError::SettingsParse => String::from_str(
                "settings file content is not a JSON object",
            ),
            ConfigError::SettingsSchema => String::from_str(
                "hooks entry does not have the expected shape",
            ),
            ConfigError::PromptIo => String::from_str(
                "interactive input closed before an answer was given",
            ),
        }
    }
}

} // verus!
