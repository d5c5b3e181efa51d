//! The errors the desktop app hands to its settings window, sorted by where they came from.
use vstd::prelude::*;
use vstd::string::*;

verus! {

/// An error with its origin: the config, the engine, a device, or file access.
#[derive(Debug, Clone)]
pub enum AppError {
    Config(String),
    Engine(String),
    Device(String),
    Io(String),
}

/// The name of an error's origin, as the settings window receives it.
pub open spec fn kind_name(e: AppError) -> Seq<char> {
    match e {
        AppError::Config(_) => "config"@,
        AppError::Engine(_) => "engine"@,
        AppError::Device(_) => "device"@,
        AppError::Io(_) => "io"@,
    }
}

/// The message an error carries.
pub open spec fn message_of(e: AppError) -> Seq<char> {
    match e {
        AppError::Config(m) => m@,
        AppError::Engine(m) => m@,
        AppError::Device(m) => m@,
        AppError::Io(m) => m@,
    }
}

impl AppError {
    /// The name of the error's origin.
    pub fn kind(&self) -> (s: &'static str)
        ensures
            s@ == kind_name(*self),
    {
        match self {
            AppError::Config(_) => "config",
            AppError::Engine(_) => "engine",
            AppError::Device(_) => "device",
            AppError::Io(_) => "io",
        }
    }

    /// The error as its message alone reads.
    pub fn message(&self) -> (s: String)
        ensures
            s@ == message_of(*self),
    {
        match self {
            AppError::Config(m) => m.clone(),
            AppError::Engine(m) => m.clone(),
            AppError::Device(m) => m.clone(),
            AppError::Io(m) => m.clone(),
        }
    }
}

/// A config error, carrying its text: the error with its causes as `{:#}` writes it.
pub fn config_err(message: String) -> (r: AppError)
    ensures
        r is Config,
        message_of(r) == message@,
{
    AppError::Config(message)
}

/// An engine error, carrying its text: the error with its causes as `{:#}` writes it.
pub fn engine_err(message: String) -> (r: AppError)
    ensures
        r is Engine,
        message_of(r) == message@,
{
    AppError::Engine(message)
}

/// A device error, carrying its text: the error with its causes as `{:#}` writes it.
pub fn device_err(message: String) -> (r: AppError)
    ensures
        r is Device,
        message_of(r) == message@,
{
    AppError::Device(message)
}

/// A file access error, carrying its text: the error with its causes as `{:#}` writes it.
pub fn io_err(message: String) -> (r: AppError)
    ensures
        r is Io,
        message_of(r) == message@,
{
    AppError::Io(message)
}

} // verus!
