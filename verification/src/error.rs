//! Error values of the library.
use vstd::prelude::*;

verus! {

/// Errors of the audio helpers.
#[derive(Debug, Clone, PartialEq, Eq)]
pub enum AudioError {
    DevicesNotFound,
    SetVolume(String),
    GetVolume(String),
    GetMute(String),
    SetMute(String),
    UnsupportedOS,
}

/// Errors of the power helpers.
#[derive(Debug, Clone, PartialEq, Eq)]
pub enum PowerError {
    UnsupportedOS,
    TimestampInPast,
}

/// Errors of the media helpers.
#[derive(Debug, Clone, PartialEq, Eq)]
pub enum MediaError {
    PlayerNotFound,
    UnsupportedOS,
}

/// Errors of the theme helpers.
#[derive(Debug, Clone, PartialEq, Eq)]
pub enum ThemeError {
    GsettingsExecute(String),
    GsettingsExitStatus,
    OsascriptExecute(String),
    OsascriptExitStatus,
    TaskJoin(String),
    Registry(String),
    UnsupportedOS,
}

/// The error instance.
#[derive(Debug, Clone, PartialEq, Eq)]
pub enum Error {
    Msg(String),
    AudioError(Box<AudioError>),
    PowerError(Box<PowerError>),
    MediaError(Box<MediaError>),
    ThemeError(Box<ThemeError>),
}

/// The platform whose conventions a helper follows.
#[derive(Debug, Clone, Copy, PartialEq, Eq, Structural)]
pub enum Platform {
    Linux,
    MacOs,
    Windows,
    Other,
}

} // verus!
