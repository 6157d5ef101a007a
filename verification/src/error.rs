use vstd::prelude::*;
use vstd::string::StringExecFns;

verus! {

/// Everything that can end the generation of an avatar.
#[derive(Debug, PartialEq, Eq)]
pub enum Error {
    /// A chunk of a digest is not a hexadecimal number that fits an index.
    ParseIntError,
    /// The catalog could not be read; the payload says what failed.
    IoError(String),
    /// The finished image could not be encoded; the payload says why.
    ImageProcessingError(String),
    /// An asset could not be decoded as an image; the payload says why.
    ImageOpenFailed(String),
    /// The index array, the set or the catalog root is empty, or the index
    /// array has no slot left for a category.
    RoboHashMissingRequiredData,
    Unknown,
}

impl Error {
    /// The text a host shows for an error.
    pub open spec fn message(self) -> Seq<char> {
        match self {
            Error::ParseIntError => "int parsing error"@,
            Error::IoError(_) => "io error"@,
            Error::ImageProcessingError(_) => "error processing image"@,
            Error::ImageOpenFailed(detail) => "unable to open image: "@ + detail@,
            Error::RoboHashMissingRequiredData => "robo hash is missing required data"@,
            Error::Unknown => "unknown error"@,
        }
    }

    pub fn to_string(&self) -> (text: String)
        ensures
            text@ == self.message(),
    {
        match self {
            Error::ParseIntError => String::from_str("int parsing error"),
            Error::IoError(_) => String::from_str("io error"),
            Error::ImageProcessingError(_) => String::from_str("error processing image"),
            Error::ImageOpenFailed(detail) => {
                String::from_str("unable to open image: ").concat(detail.as_str())
            },
            Error::RoboHashMissingRequiredData => {
                String::from_str("robo hash is missing required data")
            },
            Error::Unknown => String::from_str("unknown error"),
        }
    }
}

} // verus!
