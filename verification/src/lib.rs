//! Face-detection postprocessing in fixed-point arithmetic.
//!
//! The crate decodes the raw output tensors of a face-detection network into
//! a filtered, mutually non-overlapping list of scored bounding boxes. All
//! coordinates are relative to the frame and carried as fixed-point integers:
//! one full frame extent is [`SCALE`] units, so a coordinate models a value in
//! `[0, 1]`. Working on an integer grid keeps every step exact: the
//! intersection-over-union of two boxes is an exact rational, and the greedy
//! suppressor's accept/reject decisions are proved against a complete
//! mathematical model of the pipeline.
//!
//! Modules, leaves first:
//! - [`geometry`]: point and rectangle value types with normalization and area;
//! - [`iou`]: the pairwise overlap metric and its algebraic laws;
//! - [`suppression`]: confidence sorting and greedy non-maximum suppression;
//! - [`decode`]: tensor shape validation and the full detection decoder;
//! - [`model`]: static descriptions of the supported network variants.

pub mod decode;
pub mod geometry;
pub mod iou;
pub mod model;
pub mod suppression;

pub use decode::{detect, filter_by_confidence, DecodeError, Tensor};
pub use geometry::{partial_max, partial_min, Point, Rect, SCALE};
pub use iou::{bbox_area, iou, iou_exceeds_threshold, EPS_AREA};
pub use model::UltrafaceVariant;
pub use suppression::{non_maximum_suppression, sort_by_confidence, Detection};
