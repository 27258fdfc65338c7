//! Plain data exchanged between the viewers and the streaming core.

use vstd::prelude::*;
use vstd::string::StringExecFns;

verus! {

/// Status with which a refused request is answered.
pub const BAD_REQUEST: u16 = 400;

/// Keyboard layout used when a configuration names none.
pub fn default_layout() -> (s: String)
    ensures
        s@ == "qwerty"@,
{
    "qwerty".to_owned()
}

/// Colour theme used when a configuration names none.
pub fn default_theme() -> (s: String)
    ensures
        s@ == "Default"@,
{
    "Default".to_owned()
}

/// What a viewer may configure.
#[derive(Debug, Clone)]
pub struct AppConfig {
    pub layout: String,
    pub theme: String,
}

impl AppConfig {
    /// The configuration made of what was given, with the defaults in
    /// place of what was not.
    pub fn with_defaults(layout: Option<String>, theme: Option<String>) -> (config: AppConfig)
        ensures
            config.layout@ == match layout {
                Some(l) => l@,
                None => "qwerty"@,
            },
            config.theme@ == match theme {
                Some(t) => t@,
                None => "Default"@,
            },
    {
        let layout = match layout {
            Some(l) => l,
            None => default_layout(),
        };
        let theme = match theme {
            Some(t) => t,
            None => default_theme(),
        };
        AppConfig { layout, theme }
    }
}

/// Geometry of a viewer's terminal.
#[derive(Debug, Clone, Copy, PartialEq, Eq, Structural)]
pub struct Size {
    pub cols: u16,
    pub rows: u16,
}

/// A message from a viewer.
#[derive(Debug, Clone)]
#[allow(inconsistent_fields)]
pub enum ClientMsg {
    /// Keystrokes.
    Data { value: String },
    /// The viewer's terminal changed its geometry.
    Resize { value: Size },
    /// The viewer is alive.
    Heartbeat,
}

/// Why a request is refused.
#[derive(Debug, Clone)]
pub enum AppError {
    /// The request was malformed; the text says how.
    BadRequest(String),
}

impl AppError {
    /// The text shown for the error.
    pub fn message(&self) -> (text: String)
        ensures
            match self {
                AppError::BadRequest(cause) => text@ == "bad request: "@ + cause@,
            },
    {
        match self {
            AppError::BadRequest(cause) => "bad request: ".to_owned().concat(cause.as_str()),
        }
    }

    /// The status with which the error is answered.
    pub fn status(&self) -> (code: u16)
        ensures
            code == BAD_REQUEST,
    {
        BAD_REQUEST
    }
}

} // verus!
