//! Face-comparison orchestration: given one target image and a list of named
//! candidate images, decide which candidates depict the same face as the
//! target and rank them by confidence.
//!
//! The expensive, stateful face-analysis engine, the image decoder and the
//! network live outside this crate; they feed the pipeline plain outcome
//! values (a similarity score, or one of several failure kinds). Everything
//! that turns those outcomes into a ranked response is verified here:
//! thresholding, the probability transform, the best-effort skipping of
//! failed candidates, and the descending stable sort of the result.

pub mod comparator;
pub mod models;
pub mod pipeline;
pub mod ranking;
