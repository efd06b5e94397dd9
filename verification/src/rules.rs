//! From the rule texts of markets to propositions, and the confidence in
//! them.

pub mod proposition;
pub mod extract;
pub mod confidence;
pub mod constraints;
pub mod arb_detector;
pub mod review_queue;
pub mod ingest;
pub mod normalize;
