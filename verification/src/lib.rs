//! Verified core of a translation workbench for game plugins: a dictionary of
//! atomic terms with an in-memory mirror and a multi-pattern matcher, and the
//! substitution engine that annotates recognised terms in free text.

pub mod api_manage;
pub mod atom;
pub mod atomic_db;
pub mod clock;
pub mod coverage;
pub mod dsd;
pub mod error;
pub mod extraction;
pub mod laws;
pub mod matcher;
pub mod name_order;
pub mod order;
pub mod paths;
pub mod plugin_session;
pub mod scanner;
pub mod search_history;
pub mod settings;
pub mod sql;
pub mod store;
pub mod substitute;
pub mod text;
pub mod translation;
