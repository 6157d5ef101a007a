use robohash::error::Error;

#[test]
fn each_error_has_its_text() {
    assert_eq!(Error::ParseIntError.to_string(), "int parsing error");
    assert_eq!(Error::IoError(String::from("no such directory")).to_string(), "io error");
    assert_eq!(
        Error::ImageProcessingError(String::from("bad size")).to_string(),
        "error processing image"
    );
    assert_eq!(
        Error::ImageOpenFailed(String::from("not a PNG")).to_string(),
        "unable to open image: not a PNG"
    );
    assert_eq!(
        Error::RoboHashMissingRequiredData.to_string(),
        "robo hash is missing required data"
    );
    assert_eq!(Error::Unknown.to_string(), "unknown error");
}
