//! The records of the translation table.

use vstd::prelude::*;

verus! {

/// One translated string of a plugin record.
#[derive(Debug, Clone)]
pub struct Translation {
    pub form_id: String,
    pub record_type: String,
    pub subrecord_type: String,
    pub index: u32,
    pub editor_id: Option<String>,
    pub original_text: String,
    pub translated_text: String,
    pub plugin_name: Option<String>,
    pub created_at: i64,
    pub updated_at: i64,
}

/// How many translations the table holds, in all and per plugin.
#[derive(Debug, Clone)]
pub struct TranslationStats {
    pub total_count: i64,
    pub plugin_counts: Vec<PluginCount>,
    pub last_updated: i64,
}

/// The number of translations of one plugin.
#[derive(Debug, Clone)]
pub struct PluginCount {
    pub plugin_name: String,
    pub count: i64,
}

/// What identifies a translated string.
#[derive(Debug, Clone)]
pub struct FormIdentifier {
    pub form_id: String,
    pub record_type: String,
    pub subrecord_type: String,
}

} // verus!
