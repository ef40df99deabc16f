//! Defaults and bounds that the request handlers apply before a crawl or a
//! query is run.

use vstd::prelude::*;

verus! {

/// Default crawl depth when the request names none (or names 0).
pub const DEFAULT_CRAWL_DEPTH: usize = 3;

/// Default page budget when the request names none (or names 0).
pub const DEFAULT_MAX_PAGES: usize = 200;

/// How often a fetch is attempted before its failure is surfaced.
pub const FETCH_ATTEMPTS: u64 = 3;

/// The linearly growing pause before the next fetch attempt.
pub fn fetch_backoff_ms(attempt: u64) -> (ms: u64)
    requires
        attempt <= FETCH_ATTEMPTS,
    ensures
        ms == 180 * attempt,
{
    180 * attempt
}

/// The size ceiling for fetched PDF resources: larger payloads are
/// discarded unextracted.
pub fn pdf_size_ok(len: usize) -> (ok: bool)
    ensures
        ok == (len <= 12 * 1024 * 1024),
{
    len <= 12 * 1024 * 1024
}

/// Depth to use for a crawl request: the requested depth if it is positive,
/// else the default.
pub fn chosen_depth(requested: Option<usize>) -> (d: usize)
    ensures
        d == (match requested {
            Some(r) => if r > 0 { r } else { DEFAULT_CRAWL_DEPTH as usize },
            None => DEFAULT_CRAWL_DEPTH as usize,
        }),
{
    match requested {
        Some(r) => if r > 0 { r } else { DEFAULT_CRAWL_DEPTH },
        None => DEFAULT_CRAWL_DEPTH,
    }
}

/// Page budget to use for a crawl request: the requested budget if it is
/// positive, else the default.
pub fn chosen_max_pages(requested: Option<usize>) -> (m: usize)
    ensures
        m == (match requested {
            Some(r) => if r > 0 { r } else { DEFAULT_MAX_PAGES as usize },
            None => DEFAULT_MAX_PAGES as usize,
        }),
{
    match requested {
        Some(r) => if r > 0 { r } else { DEFAULT_MAX_PAGES },
        None => DEFAULT_MAX_PAGES,
    }
}

} // verus!
