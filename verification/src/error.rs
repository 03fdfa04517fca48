//! The failures that the library reports.

use vstd::prelude::*;

verus! {

/// The part of a request that was malformed or missing.
#[derive(Debug, Clone, Copy, PartialEq, Eq, Structural)]
pub enum ConfigField {
    /// The host part of a target string is empty or holds whitespace.
    Host,
    /// The port part of a target string is not a number from 0 to 65535.
    Port,
    /// An operation that needs a target was requested without one.
    Target,
    /// More devices were named than local ports are left above the base.
    MonitorPorts,
}

/// A failure, as the library reports it to its caller.
#[derive(Debug, Clone, PartialEq, Eq)]
pub enum DutError {
    /// The named host could not be reached.
    Connectivity(String),
    /// The named host refused the credentials.
    Authentication(String),
    /// The query for the named attribute failed.
    Resolution(String),
    /// The registry holds no device of this identity.
    UnknownIdentifier(String),
    /// These requested actions are not in the action table.
    InvalidAction(Vec<String>),
    /// A request was malformed in the given part.
    Configuration(ConfigField),
    /// The registry was read before it was loaded or written.
    StoreUninitialized,
    /// A report could not be rendered as text.
    Encoding,
}

/// What a [`DutError`] holds, as mathematical values.
pub enum DutErrorView {
    Connectivity(Seq<char>),
    Authentication(Seq<char>),
    Resolution(Seq<char>),
    UnknownIdentifier(Seq<char>),
    InvalidAction(Seq<Seq<char>>),
    Configuration(ConfigField),
    StoreUninitialized,
    Encoding,
}

/// The character sequences of a sequence of strings.
pub open spec fn texts(v: Seq<String>) -> Seq<Seq<char>> {
    v.map_values(|s: String| s@)
}

impl View for DutError {
    type V = DutErrorView;

    open spec fn view(&self) -> DutErrorView {
        match *self {
            DutError::Connectivity(s) => DutErrorView::Connectivity(s@),
            DutError::Authentication(s) => DutErrorView::Authentication(s@),
            DutError::Resolution(s) => DutErrorView::Resolution(s@),
            DutError::UnknownIdentifier(s) => DutErrorView::UnknownIdentifier(s@),
            DutError::InvalidAction(v) => DutErrorView::InvalidAction(texts(v@)),
            DutError::Configuration(f) => DutErrorView::Configuration(f),
            DutError::StoreUninitialized => DutErrorView::StoreUninitialized,
            DutError::Encoding => DutErrorView::Encoding,
        }
    }
}

} // verus!
