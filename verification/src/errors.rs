//! The failure taxonomy of the command surface.  Every failure reaches the
//! UI as a single human-readable string; nothing is retried.

use vstd::prelude::*;
use vstd::string::StringExecFns;

verus! {

/// Why a command failed.
#[derive(Debug)]
pub enum AppError {
    /// The shared state container could not be used: a prior holder of its
    /// lock failed while holding it.
    StateUnavailable(String),
    /// Creating the config directory or reading or writing a config file
    /// failed.
    Io(String),
    /// A record could not be rendered as JSON text.
    Serialization(String),
    /// The window-chrome instruction could not be applied.
    WindowChrome(String),
}

impl AppError {
    /// The message the UI shows, with the failure class spelled out.
    pub open spec fn message_text(&self) -> Seq<char> {
        match self {
            AppError::StateUnavailable(m) => "state unavailable: "@ + m@,
            AppError::Io(m) => "io error: "@ + m@,
            AppError::Serialization(m) => "serialization error: "@ + m@,
            AppError::WindowChrome(m) => "window error: "@ + m@,
        }
    }

    /// Render the failure as the final user-visible string.
    pub fn message(&self) -> (r: String)
        ensures
            r@ == self.message_text(),
    {
        match self {
            AppError::StateUnavailable(m) => String::from_str("state unavailable: ").concat(
                m.as_str(),
            ),
            AppError::Io(m) => String::from_str("io error: ").concat(m.as_str()),
            AppError::Serialization(m) => String::from_str("serialization error: ").concat(
                m.as_str(),
            ),
            AppError::WindowChrome(m) => String::from_str("window error: ").concat(m.as_str()),
        }
    }
}

} // verus!
