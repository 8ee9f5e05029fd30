//! Decision logic of a face-comparison tool: which embedding model a run
//! uses, how command-line values are validated and resolved, how detection
//! rows are read, how results are picked, ranked and labelled, how errors
//! read, and how table cells are padded.
//!
//! Detection, alignment and embedding run in OpenCV and scores are floats;
//! both stay with the caller, which hands this crate plain values: rows as
//! slices, scores as `total_order_key`s, percentages as whole numbers.

pub mod backend;
pub mod cli;
pub mod detection;
pub mod error;
pub mod labels;
pub mod ranking;
pub mod slaves;
pub mod table;

pub use backend::Backend;
pub use cli::{
    encoder_model_var, is_glob_pattern, parse_backend, parse_max, resolve_encoder_model,
    resolve_threshold,
};
pub use detection::{box_size_from_row, landmarks_from_row, LANDMARK_COUNT};
pub use error::{path_to_str, FacecompError};
pub use labels::confidence_label;
pub use ranking::{last_max_index, rank_best_first, total_order_key};
pub use slaves::{select_slaves, Photo};
pub use table::{pad_to_printed_width, pad_to_width, PHOTO_COLUMN};
