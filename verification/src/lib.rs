//! Compression-distance text classification.
//!
//! A query text is classified into a fixed set of categories by comparing it,
//! through a general-purpose compressor, against a frozen store of labeled
//! samples: the normalized compression distance (NCD) between the query and
//! every sample is computed, the samples are ranked by that distance, and a
//! majority vote among the closest `k` labels picks the category.

pub mod classifier;
pub mod compress;
pub mod dist;
pub mod ranking;
pub mod errors;
pub mod klass;
pub mod sample;
pub mod store;
