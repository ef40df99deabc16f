//! Retrieval pipeline for a scoped-crawl question-answering service: a
//! breadth-first crawler bounded by depth, page count and URL scope; a
//! segmenter that cuts normalized text into overlapping windows; an index
//! over chunks with term and document frequencies; query expansion and
//! heuristic scoring for hybrid reranking; and the deterministic parts of
//! the embedding and prompt plumbing.

use vstd::prelude::*;

pub mod crawl;
pub mod embed;
pub mod extract;
pub mod index;
pub mod params;
pub mod prompt;
pub mod query;
pub mod rank;
pub mod segment;
pub mod session;
pub mod terms;
pub mod text;
pub mod urls;

verus! {

} // verus!
