use vstd::prelude::*;

verus! {

/// Failures of the geometric operations.
#[derive(Debug, Clone, Copy, PartialEq, Eq)]
pub enum GeometryError {
    /// Two intersections lie too far apart to be merged into one.
    TooFarApartToMerge,
}

impl GeometryError {
    /// The text of the error, as it is displayed.
    pub fn message(&self) -> (s: String)
        ensures
            s@ == "Points are too far apart to be merged!"@,
    {
        match self {
            GeometryError::TooFarApartToMerge => "Points are too far apart to be merged!".to_owned(),
        }
    }
}

/// A failure to compute an isovist, with its explanation.
#[derive(Debug)]
pub struct IsovistError {
    pub msg: String,
}

impl IsovistError {
    /// The error whose explanation is `msg`.
    pub fn new(msg: &str) -> (e: IsovistError)
        ensures
            e.msg@ == msg@,
    {
        IsovistError { msg: msg.to_owned() }
    }

    /// The text of the error, as it is displayed: its explanation.
    pub fn message(&self) -> (s: String)
        ensures
            s@ == self.msg@,
    {
        self.msg.clone()
    }
}

/// A failure to convert a drawing entity into a line.
#[derive(Debug, Clone, Copy, PartialEq, Eq)]
pub struct ConversionError;

impl ConversionError {
    /// The text of the error, as it is displayed.
    pub fn message(&self) -> (s: String)
        ensures
            s@ == "Conversion failed"@,
    {
        "Conversion failed".to_owned()
    }
}

} // verus!
