//! The errors a comparison can end in, and how they read.
//!
//! A file path is carried as its encoded bytes (`OsStr::as_encoded_bytes`),
//! which need not be UTF-8.

use vstd::prelude::*;
use vstd::utf8::{decode_utf8, encode_utf8, encode_utf8_decode_utf8, valid_utf8};

verus! {

/// Why a face could not be compared.
#[derive(Debug)]
pub enum FacecompError {
    /// The image at this path could not be read or processed.
    Image(Vec<u8>, String),
    /// A model could not be loaded.
    Model(String),
    /// No face was found in the image at this path.
    NoFaceDetected(Vec<u8>),
}

/// What `String::from_utf8_lossy` makes of a byte string: each invalid
/// sequence replaced by U+FFFD.
pub uninterp spec fn lossy_utf8(bytes: Seq<u8>) -> Seq<char>;

/// Calls std's `String::from_utf8_lossy`. Its result is named
/// `lossy_utf8`; std documents that valid UTF-8 comes back unchanged, which
/// the second clause states. On Unix, where a path's encoded bytes are its
/// raw bytes, this is also how `Path::display` shows a path; on Windows an
/// unpaired surrogate shows here as three U+FFFD where `Path::display`
/// prints one.
#[verifier::external_body]
fn display_bytes(bytes: &[u8]) -> (shown: String)
    ensures
        shown@ == lossy_utf8(bytes@),
        valid_utf8(bytes@) ==> encode_utf8(shown@) == bytes@,
{
    String::from_utf8_lossy(bytes).into_owned()
}

/// Calls std's `str::from_utf8`, which documents that it succeeds exactly
/// when the bytes are valid UTF-8 and then returns them as a `str`.
#[verifier::external_body]
fn utf8_str(bytes: &[u8]) -> (s: Option<&str>)
    ensures
        s is Some <==> valid_utf8(bytes@),
        s matches Some(t) ==> encode_utf8(t@) == bytes@,
{
    std::str::from_utf8(bytes).ok()
}

/// How a path is shown in a message.
pub open spec fn shown_path(path: Seq<u8>) -> Seq<char> {
    lossy_utf8(path)
}

/// The text of an error, as the command line prints it.
pub open spec fn error_message(e: FacecompError) -> Seq<char> {
    match e {
        FacecompError::Image(path, why) => "failed to read image "@ + shown_path(path@) + ": "@
            + why@,
        FacecompError::Model(why) => "failed to load model: "@ + why@,
        FacecompError::NoFaceDetected(path) => "no face detected in "@ + shown_path(path@),
    }
}

impl FacecompError {
    /// The text of this error, as the command line prints it.
    pub fn message(&self) -> (m: String)
        ensures
            m@ == error_message(*self),
            match *self {
                FacecompError::Image(p, _) => valid_utf8(p@) ==> shown_path(p@) == decode_utf8(p@),
                FacecompError::NoFaceDetected(p) => valid_utf8(p@) ==> shown_path(p@) == decode_utf8(
                    p@,
                ),
                FacecompError::Model(_) => true,
            },
    {
        match self {
            FacecompError::Image(path, why) => {
                let mut m = String::from_str("failed to read image ");
                let shown = display_bytes(path.as_slice());
                proof {
                    encode_utf8_decode_utf8(shown@);
                }
                m.append(shown.as_str());
                m.append(": ");
                m.append(why.as_str());
                m
            },
            FacecompError::Model(why) => {
                let mut m = String::from_str("failed to load model: ");
                m.append(why.as_str());
                m
            },
            FacecompError::NoFaceDetected(path) => {
                let mut m = String::from_str("no face detected in ");
                let shown = display_bytes(path.as_slice());
                proof {
                    encode_utf8_decode_utf8(shown@);
                }
                m.append(shown.as_str());
                m
            },
        }
    }
}

/// The message for a path that cannot be handed to OpenCV, which takes
/// UTF-8 strings.
pub open spec fn not_utf8_message(path: Seq<u8>) -> Seq<char> {
    shown_path(path) + ": path is not valid UTF-8"@
}

/// A path as the UTF-8 string OpenCV's loaders take, or a `Model` error
/// naming it when it is not valid UTF-8.
pub fn path_to_str(path: &[u8]) -> (r: Result<&str, FacecompError>)
    ensures
        valid_utf8(path@) <==> r is Ok,
        r matches Ok(s) ==> encode_utf8(s@) == path@ && s@ == decode_utf8(path@),
        r matches Err(e) ==> e matches FacecompError::Model(m) && m@ == not_utf8_message(path@),
{
    match utf8_str(path) {
        Some(s) => {
            proof {
                encode_utf8_decode_utf8(s@);
            }
            Ok(s)
        },
        None => {
            let mut m = display_bytes(path);
            m.append(": path is not valid UTF-8");
            Err(FacecompError::Model(m))
        },
    }
}

} // verus!
