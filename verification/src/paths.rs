//! Where the application's databases lie below its data directory.

use vstd::prelude::*;
use vstd::string::*;

verus! {

/// The path of a file in a directory, as its two components.
pub open spec fn file_in(dir: Seq<char>, file_name: Seq<char>) -> Seq<Seq<char>> {
    seq![dir, file_name]
}

/// The texts of a list of strings.
pub open spec fn component_texts(parts: Seq<String>) -> Seq<Seq<char>> {
    parts.map_values(|s: String| s@)
}

fn in_dir(dir: &str, file_name: &str) -> (r: Vec<String>)
    ensures
        component_texts(r@) == file_in(dir@, file_name@),
{
    let mut parts: Vec<String> = Vec::new();
    parts.push(String::from_str(dir));
    parts.push(String::from_str(file_name));
    assert(component_texts(parts@) =~= file_in(dir@, file_name@));
    parts
}

/// The path of the translation database, as its components.
pub fn get_db_path(userdata_dir: &str) -> (r: Vec<String>)
    ensures
        component_texts(r@) == file_in(userdata_dir@, "translations.db"@),
{
    in_dir(userdata_dir, "translations.db")
}

/// The path of the atom database, as its components.
pub fn get_atomic_db_path(userdata_dir: &str) -> (r: Vec<String>)
    ensures
        component_texts(r@) == file_in(userdata_dir@, "atomic_translations.db"@),
{
    in_dir(userdata_dir, "atomic_translations.db")
}

/// The path of the endpoint database, as its components.
pub fn get_api_db_path(userdata_dir: &str) -> (r: Vec<String>)
    ensures
        component_texts(r@) == file_in(userdata_dir@, "api.db"@),
{
    in_dir(userdata_dir, "api.db")
}

/// The path of the search history database, as its components.
pub fn get_search_history_db_path(userdata_dir: &str) -> (r: Vec<String>)
    ensures
        component_texts(r@) == file_in(userdata_dir@, "search_history.db"@),
{
    in_dir(userdata_dir, "search_history.db")
}

} // verus!
