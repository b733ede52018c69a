//! The settings of one translation service endpoint.

use vstd::prelude::*;

verus! {

/// One configured endpoint.
#[derive(Debug, Clone)]
pub struct ApiConfig {
    pub id: i64,
    pub name: String,
    pub endpoint: String,
    pub api_key: String,
    pub model_name: String,
    pub max_tokens: i32,
    pub is_active: bool,
    pub created_at: i64,
    pub updated_at: i64,
}

} // verus!
