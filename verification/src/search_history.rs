//! The record of a looked-up term and the candidates that were offered.

use vstd::prelude::*;

verus! {

/// One looked-up term with its candidate translations.
#[derive(Debug, Clone)]
pub struct SearchHistoryEntry {
    pub term: String,
    pub candidates: Vec<String>,
    pub updated_at: i64,
}

} // verus!
