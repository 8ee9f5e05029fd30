//! The recognition models a comparison can run with.

use vstd::prelude::*;

verus! {

/// Which recognition model turns an aligned face into an embedding.
///
/// SFace bundles its own alignment and similarity; ArcFace is a bare graph
/// that has to be fed a face aligned by this crate.
#[derive(Debug, Clone, Copy, PartialEq, Eq, Structural)]
pub enum Backend {
    /// OpenCV Zoo's `face_recognition_sface_2021dec.onnx`; 128-d embeddings.
    SFace,
    /// ONNX Model Zoo's `arcfaceresnet100-11-int8.onnx`; 512-d embeddings.
    ArcFace,
}

/// The lowercase name of a backend, as the command line and the JSON report
/// spell it.
pub open spec fn backend_name(b: Backend) -> Seq<char> {
    match b {
        Backend::SFace => "sface"@,
        Backend::ArcFace => "arcface"@,
    }
}

impl Backend {
    /// Lowercase name used by the CLI flag and in `--json` output.
    pub fn as_str(self) -> (name: &'static str)
        ensures
            name@ == backend_name(self),
    {
        match self {
            Backend::SFace => "sface",
            Backend::ArcFace => "arcface",
        }
    }
}

impl Default for Backend {
    /// SFace is the default model.
    fn default() -> (b: Self)
        ensures
            b == Backend::SFace,
    {
        Backend::SFace
    }
}

} // verus!
