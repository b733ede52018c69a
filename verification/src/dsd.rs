//! String-override files: their entries, the key that identifies a record,
//! and where the file of a plugin lies.

use crate::text::{bytes_of, split_whitespace, whitespace_tokens};
use vstd::prelude::*;
use vstd::string::*;

verus! {

/// One entry of a string-override file.
#[derive(Debug, Clone)]
pub struct DsdEntry {
    pub form_id: String,
    /// The record type and the subrecord type, separated by white space.
    pub entry_type: String,
    pub string: String,
}

/// What is known of a plugin's path: its directory, its file name and the
/// file name without its extension, each where the path has one.
#[derive(Debug, Clone)]
pub struct PluginPath {
    pub parent: Option<String>,
    pub file_name: Option<String>,
    pub file_stem: Option<String>,
}

/// The key of a record: its three identifiers joined by bars.
pub open spec fn record_key(form_id: Seq<char>, record_type: Seq<char>, subrecord_type: Seq<char>) -> Seq<char> {
    form_id + "|"@ + record_type + "|"@ + subrecord_type
}

/// The key under which a record's override is kept.
pub fn make_record_key(form_id: &str, record_type: &str, subrecord_type: &str) -> (r: String)
    ensures
        r@ == record_key(form_id@, record_type@, subrecord_type@),
{
    let mut key = String::from_str(form_id);
    key.append("|");
    key.append(record_type);
    key.append("|");
    key.append(subrecord_type);
    key
}

/// The record type and the subrecord type of an entry: the first two pieces
/// of its type field. There is none when the field has fewer than two.
pub fn parse_entry_type(entry_type: &str) -> (r: Option<(String, String)>)
    ensures
        whitespace_tokens(entry_type@).len() < 2 <==> r is None,
        r matches Some(pair) ==> pair.0@ == whitespace_tokens(entry_type@)[0] && pair.1@
            == whitespace_tokens(entry_type@)[1],
{
    let parts = split_whitespace(entry_type);
    assert(parts@.map_values(|t: String| t@).len() == parts@.len());
    if parts.len() < 2 {
        return None;
    }
    assert(parts@.map_values(|t: String| t@)[0] == parts[0]@);
    assert(parts@.map_values(|t: String| t@)[1] == parts[1]@);
    Some((parts[0].clone(), parts[1].clone()))
}

/// The components of the override file's path below `base`, for a plugin
/// with this file name and stem.
pub open spec fn dsd_components(base: Seq<char>, file_name: Seq<char>, stem: Seq<char>) -> Seq<Seq<char>> {
    seq![base, "SKSE"@, "DynamicStringDistributor"@, file_name, stem + ".json"@]
}

/// The texts of a list of strings.
pub open spec fn texts(strings: Seq<String>) -> Seq<Seq<char>> {
    strings.map_values(|s: String| s@)
}

/// The path of a plugin's override file, as its components from the base
/// directory down. The base directory is the override where one is given,
/// else the plugin's own directory. It fails where the base directory, the
/// plugin's file name or its stem cannot be had, in this order.
pub fn build_dsd_json_path(plugin_path: &PluginPath, base_dir_override: Option<&str>) -> (r: Result<
    Vec<String>,
    String,
>)
    ensures
        match r {
            Ok(parts) => {
                &&& base_dir_override is Some || plugin_path.parent is Some
                &&& plugin_path.file_name is Some
                &&& plugin_path.file_stem is Some
                &&& texts(parts@) == dsd_components(
                    if base_dir_override is Some {
                        base_dir_override->0@
                    } else {
                        plugin_path.parent->0@
                    },
                    plugin_path.file_name->0@,
                    plugin_path.file_stem->0@,
                )
            },
            Err(message) => {
                if base_dir_override is None && plugin_path.parent is None {
                    message@ == "无法获取插件所在目录"@
                } else if plugin_path.file_name is None {
                    message@ == "无法获取插件文件名"@
                } else {
                    plugin_path.file_stem is None && message@ == "无法获取插件名称"@
                }
            },
        },
{
    let base = match base_dir_override {
        Some(dir) => String::from_str(dir),
        None => match &plugin_path.parent {
            Some(dir) => dir.clone(),
            None => {
                return Err(String::from_str("无法获取插件所在目录"));
            },
        },
    };
    let name = match &plugin_path.file_name {
        Some(name) => name.clone(),
        None => {
            return Err(String::from_str("无法获取插件文件名"));
        },
    };
    let mut file = match &plugin_path.file_stem {
        Some(stem) => stem.clone(),
        None => {
            return Err(String::from_str("无法获取插件名称"));
        },
    };
    file.append(".json");
    let mut parts: Vec<String> = Vec::new();
    parts.push(base);
    parts.push(String::from_str("SKSE"));
    parts.push(String::from_str("DynamicStringDistributor"));
    parts.push(name);
    parts.push(file);
    assert(texts(parts@) =~= dsd_components(
        if base_dir_override is Some {
            base_dir_override->0@
        } else {
            plugin_path.parent->0@
        },
        plugin_path.file_name->0@,
        plugin_path.file_stem->0@,
    ));
    Ok(parts)
}

/// The override that an entry stands for: its text under the key made of
/// its form identifier and the two types of its type field. An entry whose
/// type field has fewer than two pieces stands for none.
pub open spec fn override_of(form_id: Seq<char>, entry_type: Seq<char>, string: Seq<char>) -> Option<(Seq<char>, Seq<char>)> {
    let pieces = whitespace_tokens(entry_type);
    if pieces.len() < 2 {
        None
    } else {
        Some((record_key(form_id, pieces[0], pieces[1]), string))
    }
}

/// The overrides that the entries stand for, in their order.
pub open spec fn overrides_of(entries: Seq<DsdEntry>) -> Seq<(Seq<char>, Seq<char>)>
    decreases entries.len(),
{
    if entries.len() == 0 {
        Seq::empty()
    } else {
        let rest = overrides_of(entries.drop_last());
        let e = entries.last();
        match override_of(e.form_id@, e.entry_type@, e.string@) {
            Some(pair) => rest.push(pair),
            None => rest,
        }
    }
}

/// The texts of a list of pairs.
pub open spec fn override_texts(pairs: Seq<(String, String)>) -> Seq<(Seq<char>, Seq<char>)> {
    pairs.map_values(|p: (String, String)| (p.0@, p.1@))
}

/// Adds the overrides that the entries of one file stand for to those
/// collected so far. The result is the number of entries that stand for
/// none.
pub fn collect_overrides(entries: &Vec<DsdEntry>, overrides: &mut Vec<(String, String)>) -> (skipped: usize)
    ensures
        override_texts(final(overrides)@) == override_texts(old(overrides)@) + overrides_of(entries@),
        skipped == entries.len() - overrides_of(entries@).len(),
{
    let ghost start = override_texts(overrides@);
    let mut skipped: usize = 0;
    let mut i: usize = 0;
    assert(entries@.subrange(0, 0) =~= Seq::<DsdEntry>::empty());
    assert(start + Seq::<(Seq<char>, Seq<char>)>::empty() =~= start);
    while i < entries.len()
        invariant
            0 <= i <= entries.len(),
            start == override_texts(old(overrides)@),
            override_texts(overrides@) == start + overrides_of(entries@.subrange(0, i as int)),
            skipped == i - overrides_of(entries@.subrange(0, i as int)).len(),
        decreases entries.len() - i,
    {
        let entry = &entries[i];
        proof {
            let part = entries@.subrange(0, i + 1);
            assert(part.drop_last() =~= entries@.subrange(0, i as int));
            assert(part.last() == *entry);
        }
        let ghost sofar = overrides_of(entries@.subrange(0, i as int));
        match parse_entry_type(entry.entry_type.as_str()) {
            Some(pair) => {
                let key = make_record_key(entry.form_id.as_str(), pair.0.as_str(), pair.1.as_str());
                let ghost before = override_texts(overrides@);
                overrides.push((key, entry.string.clone()));
                assert(override_texts(overrides@) =~= before.push(
                    override_of(entry.form_id@, entry.entry_type@, entry.string@)->0,
                ));
                assert(before.push(override_of(entry.form_id@, entry.entry_type@, entry.string@)->0)
                    =~= start + sofar.push(
                    override_of(entry.form_id@, entry.entry_type@, entry.string@)->0,
                ));
            },
            None => {
                skipped += 1;
            },
        }
        i += 1;
    }
    assert(entries@.subrange(0, entries.len() as int) =~= entries@);
    skipped
}

/// A byte with an upper-case ASCII letter turned into its lower-case one.
pub open spec fn ascii_lower(b: u8) -> u8 {
    if 65 <= b <= 90 {
        (b + 32) as u8
    } else {
        b
    }
}

/// The bytes of the word `json`.
pub open spec fn json_bytes() -> Seq<u8> {
    seq![106u8, 115u8, 111u8, 110u8]
}

/// The extension is `json`, whatever the case of its letters.
pub open spec fn json_extension(extension: Seq<char>) -> bool {
    bytes_of(extension).map_values(|b: u8| ascii_lower(b)) == json_bytes()
}

/// Whether a file with this extension is an override file.
pub fn is_json_extension(extension: &str) -> (r: bool)
    ensures
        r == json_extension(extension@),
{
    let bytes = extension.as_bytes();
    let word: [u8; 4] = [106, 115, 111, 110];
    let ghost folded = bytes@.map_values(|b: u8| ascii_lower(b));
    assert(word@ =~= json_bytes());
    if bytes.len() != 4 {
        assert(folded.len() != json_bytes().len());
        return false;
    }
    let mut i: usize = 0;
    while i < 4
        invariant
            0 <= i <= 4,
            bytes.len() == 4,
            word@ == json_bytes(),
            bytes@ == bytes_of(extension@),
            folded == bytes@.map_values(|b: u8| ascii_lower(b)),
            forall|k: int| 0 <= k < i ==> folded[k] == json_bytes()[k],
        decreases 4 - i,
    {
        let b = bytes[i];
        let lower = if 65 <= b && b <= 90 {
            b + 32
        } else {
            b
        };
        if lower != word[i] {
            assert(folded[i as int] != json_bytes()[i as int]);
            return false;
        }
        i += 1;
    }
    assert(folded =~= json_bytes());
    true
}

} // verus!
