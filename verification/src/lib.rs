//! An adaptive pairwise-ranking engine: it picks which two items a human
//! should compare next, folds each answer into the items' skill ratings,
//! stops once every rating is confident enough, and groups the final
//! ordering into ordinal buckets.  Ratings and deviations are carried in
//! thousandths of a rating point, so every decision the engine makes is
//! an exact integer comparison; reading the store, asking the human and
//! running the rating formula belong to the surrounding program.

pub mod bucket;
pub mod convergence;
pub mod engine;
pub mod item;
pub mod oracle;
pub mod progress;
pub mod select;
pub mod sorting;
