//! Recognising a game directory and its plugin files from what was read of
//! the file system.

use crate::name_order::{ascending_order, is_ascending_order, name_bytes};
use crate::text::{bytes_of, lines, lowercase_of, str_eq, text_lines, trimmed};
use vstd::prelude::*;
use vstd::string::*;

verus! {

/// A plugin file that was found.
#[derive(Debug, Clone)]
pub struct PluginInfo {
    /// The file name, without its directory.
    pub name: String,
    /// The full path.
    pub path: String,
}

/// One entry of a directory that was read.
#[derive(Debug, Clone)]
pub struct DirEntry {
    pub name: String,
    pub is_dir: bool,
    pub is_file: bool,
}

/// What was found at a path that the user gave.
#[derive(Debug, Clone)]
pub enum PathProbe {
    /// Nothing exists there.
    Missing,
    /// A file, with its extension where it has one.
    File { extension: Option<String> },
    /// Anything else; where it is a directory with a data directory in it,
    /// the entries of that data directory.
    Directory { data_entries: Option<Vec<DirEntry>> },
}

/// The extension is that of a plugin file, whatever its case.
pub open spec fn plugin_extension(extension: Seq<char>) -> bool {
    let lower = lowercase_of(extension);
    lower == "esp"@ || lower == "esm"@ || lower == "esl"@
}

/// Whether the extension is that of a plugin file.
pub fn is_plugin_extension(extension: &str) -> (r: bool)
    ensures
        r == plugin_extension(extension@),
{
    let lower = extension.to_lowercase();
    str_eq(lower.as_str(), "esp") || str_eq(lower.as_str(), "esm") || str_eq(lower.as_str(), "esl")
}

/// Entry `i` is the first directory of the listing that is named `data`,
/// whatever its case.
pub open spec fn is_data_dir(entries: Seq<DirEntry>, i: int) -> bool {
    &&& 0 <= i < entries.len()
    &&& entries[i].is_dir
    &&& lowercase_of(entries[i].name@) == "data"@
    &&& forall|j: int|
        0 <= j < i ==> !((#[trigger] entries[j]).is_dir && lowercase_of(entries[j].name@) == "data"@)
}

/// The position of the data directory in a listing of the game directory.
pub fn find_data_dir(entries: &Vec<DirEntry>) -> (r: Option<usize>)
    ensures
        r matches Some(i) ==> is_data_dir(entries@, i as int),
        r is None ==> forall|j: int|
            0 <= j < entries.len() ==> !((#[trigger] entries[j]).is_dir && lowercase_of(
                entries[j].name@,
            ) == "data"@),
{
    let mut i: usize = 0;
    while i < entries.len()
        invariant
            0 <= i <= entries.len(),
            forall|j: int|
                0 <= j < i ==> !((#[trigger] entries[j]).is_dir && lowercase_of(entries[j].name@)
                    == "data"@),
        decreases entries.len() - i,
    {
        if entries[i].is_dir {
            let lower = entries[i].name.as_str().to_lowercase();
            if str_eq(lower.as_str(), "data") {
                return Some(i);
            }
        }
        i += 1;
    }
    None
}

/// Entry `i` is the first file of the listing whose name is `file_name`,
/// whatever the case of either.
pub open spec fn is_named_file(entries: Seq<DirEntry>, file_name: Seq<char>, i: int) -> bool {
    &&& 0 <= i < entries.len()
    &&& entries[i].is_file
    &&& lowercase_of(entries[i].name@) == lowercase_of(file_name)
    &&& forall|j: int|
        0 <= j < i ==> !((#[trigger] entries[j]).is_file && lowercase_of(entries[j].name@)
            == lowercase_of(file_name))
}

/// Some file of the listing is named `file_name`, whatever the case.
pub open spec fn has_named_file(entries: Seq<DirEntry>, file_name: Seq<char>) -> bool {
    exists|i: int| is_named_file(entries, file_name, i)
}

/// The position of the file with this name in a listing, whatever the case
/// of the names.
pub fn find_file_case_insensitive(entries: &Vec<DirEntry>, file_name: &str) -> (r: Option<usize>)
    ensures
        r is Some <==> has_named_file(entries@, file_name@),
        r matches Some(i) ==> is_named_file(entries@, file_name@, i as int),
{
    let wanted = file_name.to_lowercase();
    let mut i: usize = 0;
    while i < entries.len()
        invariant
            0 <= i <= entries.len(),
            wanted@ == lowercase_of(file_name@),
            forall|j: int|
                0 <= j < i ==> !((#[trigger] entries[j]).is_file && lowercase_of(entries[j].name@)
                    == lowercase_of(file_name@)),
        decreases entries.len() - i,
    {
        if entries[i].is_file {
            let lower = entries[i].name.as_str().to_lowercase();
            if str_eq(lower.as_str(), wanted.as_str()) {
                assert(is_named_file(entries@, file_name@, i as int));
                return Some(i);
            }
        }
        i += 1;
    }
    proof {
        if has_named_file(entries@, file_name@) {
            let c = choose|c: int| is_named_file(entries@, file_name@, c);
            assert(entries[c].is_file);
        }
    }
    None
}

/// The edition of the game that a listing of its directory shows: the
/// special edition where its program is there, else the VR edition where
/// that one's is.
pub fn detect_skyrim_version(entries: &Vec<DirEntry>) -> (r: Option<&'static str>)
    ensures
        has_named_file(entries@, "SkyrimSE.exe"@) ==> r is Some && r->0@
            == "Skyrim Special Edition"@,
        !has_named_file(entries@, "SkyrimSE.exe"@) && has_named_file(entries@, "SkyrimVR.exe"@)
            ==> r is Some && r->0@ == "Skyrim VR"@,
        !has_named_file(entries@, "SkyrimSE.exe"@) && !has_named_file(entries@, "SkyrimVR.exe"@)
            ==> r is None,
{
    if find_file_case_insensitive(entries, "SkyrimSE.exe").is_some() {
        return Some("Skyrim Special Edition");
    }
    if find_file_case_insensitive(entries, "SkyrimVR.exe").is_some() {
        return Some("Skyrim VR");
    }
    None
}

/// The path is a game directory or a plugin file: a file counts when it has
/// a plugin's extension, a directory when its data directory holds the
/// game's master file.
pub open spec fn valid_game_path(probe: PathProbe) -> bool {
    match probe {
        PathProbe::Missing => false,
        PathProbe::File { extension } => extension is Some && plugin_extension(extension->0@),
        PathProbe::Directory { data_entries } => data_entries is Some && has_named_file(
            data_entries->0@,
            "Skyrim.esm"@,
        ),
    }
}

/// Whether what was found at a path is a game directory or a plugin file.
pub fn validate_game_path(probe: &PathProbe) -> (r: bool)
    ensures
        r == valid_game_path(*probe),
{
    match probe {
        PathProbe::Missing => false,
        PathProbe::File { extension } => match extension {
            Some(ext) => is_plugin_extension(ext.as_str()),
            None => false,
        },
        PathProbe::Directory { data_entries } => match data_entries {
            Some(entries) => find_file_case_insensitive(entries, "Skyrim.esm").is_some(),
            None => false,
        },
    }
}

/// The byte of the number sign, which starts a comment line.
pub const NUMBER_SIGN: u8 = 35;

/// The plugin that a line of a load order names: the line without the
/// white space at its ends, unless nothing is left of it or it is a
/// comment.
pub open spec fn named_on_line(line: Seq<char>) -> Option<Seq<char>> {
    let name = trimmed(line);
    if name.len() == 0 || (bytes_of(name).len() > 0 && bytes_of(name)[0] == NUMBER_SIGN) {
        None
    } else {
        Some(name)
    }
}

/// The plugins that the lines of a load order name, in their order.
pub open spec fn named_on_lines(lines: Seq<Seq<char>>) -> Seq<Seq<char>>
    decreases lines.len(),
{
    if lines.len() == 0 {
        Seq::empty()
    } else {
        let rest = named_on_lines(lines.drop_last());
        match named_on_line(lines.last()) {
            Some(name) => rest.push(name),
            None => rest,
        }
    }
}

/// The plugin names of a load order file, in load order. Empty lines and
/// comment lines name nothing.
pub fn parse_loadorder(content: &str) -> (r: Vec<String>)
    ensures
        r@.map_values(|s: String| s@) == named_on_lines(text_lines(content@)),
{
    let all = lines(content);
    let ghost texts = all@.map_values(|t: String| t@);
    let mut out: Vec<String> = Vec::new();
    let mut i: usize = 0;
    assert(texts.subrange(0, 0) =~= Seq::<Seq<char>>::empty());
    assert(out@.map_values(|s: String| s@) =~= Seq::<Seq<char>>::empty());
    while i < all.len()
        invariant
            0 <= i <= all.len(),
            texts == all@.map_values(|t: String| t@),
            out@.map_values(|s: String| s@) == named_on_lines(texts.subrange(0, i as int)),
        decreases all.len() - i,
    {
        proof {
            let part = texts.subrange(0, i + 1);
            assert(part.drop_last() =~= texts.subrange(0, i as int));
            assert(part.last() == all[i as int]@);
        }
        let name = all[i].as_str().trim();
        let bytes = name.as_bytes();
        if !name.is_empty() && !(bytes.len() > 0 && bytes[0] == NUMBER_SIGN) {
            let ghost before = out@.map_values(|s: String| s@);
            out.push(String::from_str(name));
            assert(out@.map_values(|s: String| s@) =~= before.push(name@));
        }
        i += 1;
    }
    assert(texts.subrange(0, all.len() as int) =~= texts);
    out
}

/// The name and the path of a plugin.
pub open spec fn plugin_view(p: PluginInfo) -> (Seq<char>, Seq<char>) {
    (p.name@, p.path@)
}

/// The plugins of a list, each as its name and path.
pub open spec fn plugin_views(plugins: Seq<PluginInfo>) -> Seq<(Seq<char>, Seq<char>)> {
    plugins.map_values(|p: PluginInfo| plugin_view(p))
}

/// The position of the plugin that stands for a name among those found:
/// the last one with the name.
pub open spec fn last_named(found: Seq<PluginInfo>, name: Seq<char>) -> Option<int>
    decreases found.len(),
{
    if found.len() == 0 {
        None
    } else if found.last().name@ == name {
        Some(found.len() - 1)
    } else {
        last_named(found.drop_last(), name)
    }
}

/// The positions of the plugins found that the load order names, in load
/// order.
pub open spec fn listed(found: Seq<PluginInfo>, loadorder: Seq<Seq<char>>) -> Seq<int>
    decreases loadorder.len(),
{
    if loadorder.len() == 0 {
        Seq::empty()
    } else {
        let rest = listed(found, loadorder.drop_last());
        match last_named(found, loadorder.last()) {
            Some(i) => rest.push(i),
            None => rest,
        }
    }
}

/// No plugin found after position `i` has the name of the one at `i`.
pub open spec fn is_last_of_name(found: Seq<PluginInfo>, i: int) -> bool {
    forall|j: int| i < j < found.len() ==> (#[trigger] found[j]).name@ != found[i].name@
}

/// Of the first `upto` plugins found, the positions of those that stand
/// for their name and that the load order does not name.
pub open spec fn unlisted(found: Seq<PluginInfo>, loadorder: Seq<Seq<char>>, upto: int) -> Seq<int>
    decreases upto,
{
    if upto <= 0 {
        Seq::empty()
    } else {
        let rest = unlisted(found, loadorder, upto - 1);
        let i = upto - 1;
        if is_last_of_name(found, i) && !loadorder.contains(found[i].name@) {
            rest.push(i)
        } else {
            rest
        }
    }
}

/// The names by which the plugins outside the load order are sorted: their
/// names in lower case, as bytes.
pub open spec fn sort_names(found: Seq<PluginInfo>, positions: Seq<int>) -> Seq<Seq<u8>> {
    positions.map_values(|i: int| bytes_of(lowercase_of(found[i].name@)))
}

/// `out` is the plugins found, put in order: first those that the load
/// order names, in load order, then the others by their lower-cased names,
/// plugins with equal such names in the order found. Of several plugins
/// found under one name the last stands for the name.
pub open spec fn is_plugin_order(found: Seq<PluginInfo>, loadorder: Seq<Seq<char>>, out: Seq<(Seq<char>, Seq<char>)>) -> bool {
    let head = listed(found, loadorder);
    let tail = unlisted(found, loadorder, found.len() as int);
    exists|perm: Seq<usize>|
        {
            &&& is_ascending_order(sort_names(found, tail), perm)
            &&& out == head.map_values(|i: int| plugin_view(found[i])) + Seq::new(
                tail.len(),
                |k: int| plugin_view(found[tail[perm[k] as int]]),
            )
        }
}

/// The names of a load order, where there is one.
pub open spec fn load_order_names(loadorder: Option<Vec<String>>) -> Seq<Seq<char>> {
    match loadorder {
        Some(names) => names@.map_values(|s: String| s@),
        None => Seq::empty(),
    }
}

fn find_last_named(found: &Vec<PluginInfo>, name: &str) -> (r: Option<usize>)
    ensures
        match last_named(found@, name@) {
            Some(i) => r == Some(i as usize) && 0 <= i < found.len(),
            None => r is None,
        },
{
    let mut i: usize = found.len();
    assert(found@.subrange(0, i as int) =~= found@);
    while i > 0
        invariant
            0 <= i <= found.len(),
            last_named(found@, name@) == last_named(found@.subrange(0, i as int), name@),
        decreases i,
    {
        proof {
            let part = found@.subrange(0, i as int);
            assert(part.drop_last() =~= found@.subrange(0, i - 1));
            assert(part.last() == found[i - 1]);
        }
        if str_eq(found[i - 1].name.as_str(), name) {
            return Some(i - 1);
        }
        i -= 1;
    }
    None
}

fn named_later(found: &Vec<PluginInfo>, at: usize) -> (r: bool)
    requires
        at < found.len(),
    ensures
        r == !is_last_of_name(found@, at as int),
{
    let mut j: usize = at + 1;
    while j < found.len()
        invariant
            at < j <= found.len(),
            forall|k: int| at < k < j ==> (#[trigger] found[k]).name@ != found[at as int].name@,
        decreases found.len() - j,
    {
        if str_eq(found[j].name.as_str(), found[at].name.as_str()) {
            return true;
        }
        j += 1;
    }
    false
}

fn names_contain(names: &Vec<String>, name: &str) -> (r: bool)
    ensures
        r == names@.map_values(|s: String| s@).contains(name@),
{
    let ghost texts = names@.map_values(|s: String| s@);
    let mut i: usize = 0;
    while i < names.len()
        invariant
            0 <= i <= names.len(),
            texts == names@.map_values(|s: String| s@),
            forall|k: int| 0 <= k < i ==> texts[k] != name@,
        decreases names.len() - i,
    {
        if str_eq(names[i].as_str(), name) {
            assert(texts[i as int] == name@);
            return true;
        }
        i += 1;
    }
    false
}

fn copy_plugin(p: &PluginInfo) -> (r: PluginInfo)
    ensures
        plugin_view(r) == plugin_view(*p),
{
    PluginInfo { name: p.name.clone(), path: p.path.clone() }
}

/// Puts the plugins found into order: first those that the load order
/// names, in load order, then the others by name.
pub fn order_plugins(found: &Vec<PluginInfo>, loadorder: &Option<Vec<String>>) -> (r: Vec<PluginInfo>)
    ensures
        is_plugin_order(found@, load_order_names(*loadorder), plugin_views(r@)),
{
    let ghost names = load_order_names(*loadorder);
    let mut out: Vec<PluginInfo> = Vec::new();
    let ghost mut head: Seq<int> = Seq::empty();
    assert(plugin_views(out@) =~= head.map_values(|i: int| plugin_view(found@[i])));
    match loadorder {
        Some(order) => {
            let mut i: usize = 0;
            assert(names.subrange(0, 0) =~= Seq::<Seq<char>>::empty());
            while i < order.len()
                invariant
                    0 <= i <= order.len(),
                    names == order@.map_values(|s: String| s@),
                    head == listed(found@, names.subrange(0, i as int)),
                    plugin_views(out@) == head.map_values(|i: int| plugin_view(found@[i])),
                decreases order.len() - i,
            {
                proof {
                    let part = names.subrange(0, i + 1);
                    assert(part.drop_last() =~= names.subrange(0, i as int));
                    assert(part.last() == order[i as int]@);
                }
                match find_last_named(found, order[i].as_str()) {
                    Some(at) => {
                        let ghost before = plugin_views(out@);
                        out.push(copy_plugin(&found[at]));
                        proof {
                            let old_head = head;
                            head = head.push(at as int);
                            assert(plugin_views(out@) =~= before.push(plugin_view(found@[at as int])));
                            assert(head.map_values(|i: int| plugin_view(found@[i]))
                                =~= old_head.map_values(|i: int| plugin_view(found@[i])).push(
                                plugin_view(found@[at as int]),
                            ));
                        }
                    },
                    None => {},
                }
                i += 1;
            }
            assert(names.subrange(0, order.len() as int) =~= names);
        },
        None => {},
    }
    assert(head == listed(found@, names));
    let mut rest: Vec<usize> = Vec::new();
    let mut keys: Vec<Vec<u8>> = Vec::new();
    let ghost mut tail: Seq<int> = Seq::empty();
    let mut k: usize = 0;
    assert(name_bytes(keys@) =~= sort_names(found@, tail));
    while k < found.len()
        invariant
            0 <= k <= found.len(),
            names == load_order_names(*loadorder),
            tail == unlisted(found@, names, k as int),
            rest.len() == tail.len(),
            keys.len() == tail.len(),
            forall|a: int| 0 <= a < rest.len() ==> (#[trigger] rest[a]) == tail[a] && rest[a] < found.len(),
            name_bytes(keys@) == sort_names(found@, tail),
        decreases found.len() - k,
    {
        let listed_already = match loadorder {
            Some(order) => names_contain(order, found[k].name.as_str()),
            None => false,
        };
        if !named_later(found, k) && !listed_already {
            let lowered = found[k].name.as_str().to_lowercase();
            let ghost old_keys = name_bytes(keys@);
            rest.push(k);
            keys.push(lowered.as_str().as_bytes_vec());
            proof {
                let old_tail = tail;
                tail = tail.push(k as int);
                assert(name_bytes(keys@) =~= old_keys.push(bytes_of(lowercase_of(found@[k as int].name@))));
                assert(sort_names(found@, tail) =~= sort_names(found@, old_tail).push(
                    bytes_of(lowercase_of(found@[k as int].name@)),
                ));
            }
        }
        k += 1;
    }
    let perm = ascending_order(&keys);
    let ghost sorted_from = out@.len();
    let ghost front = plugin_views(out@);
    let mut n: usize = 0;
    assert(front + Seq::new(0, |k: int| plugin_view(found@[tail[perm@[k] as int]])) =~= front);
    while n < perm.len()
        invariant
            0 <= n <= perm.len(),
            perm.len() == tail.len(),
            rest.len() == tail.len(),
            forall|a: int| 0 <= a < perm.len() ==> (#[trigger] perm[a]) < tail.len(),
            forall|a: int| 0 <= a < rest.len() ==> (#[trigger] rest[a]) == tail[a] && rest[a] < found.len(),
            plugin_views(out@) == front + Seq::new(
                n as nat,
                |k: int| plugin_view(found@[tail[perm@[k] as int]]),
            ),
        decreases perm.len() - n,
    {
        let at = rest[perm[n]];
        let ghost before = plugin_views(out@);
        out.push(copy_plugin(&found[at]));
        assert(plugin_views(out@) =~= before.push(plugin_view(found@[at as int])));
        assert(front + Seq::new((n + 1) as nat, |k: int| plugin_view(found@[tail[perm@[k] as int]]))
            =~= (front + Seq::new(n as nat, |k: int| plugin_view(found@[tail[perm@[k] as int]]))).push(
            plugin_view(found@[at as int]),
        ));
        n += 1;
    }
    out
}

} // verus!
