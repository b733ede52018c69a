//! How the plugins on disk cover each other's strings: the records kept
//! per load order, the comparison of a stored load order with the current
//! one, and overrides applied to extracted strings.

use crate::dsd::{make_record_key, record_key};
use crate::scanner::PluginInfo;
use crate::text::str_eq;
use crate::translation::Translation;
use vstd::prelude::*;
use vstd::string::*;

verus! {

/// The string that wins for one record, and the plugin it comes from.
#[derive(Debug, Clone)]
pub struct CoverageEntry {
    pub form_id: String,
    pub record_type: String,
    pub subrecord_type: String,
    pub index: u32,
    pub text: String,
    pub source_mod: String,
    pub load_order_pos: i64,
    pub extracted_at: i64,
}

/// One plugin of a stored load order.
#[derive(Debug, Clone)]
pub struct LoadOrderEntry {
    pub position: i64,
    pub plugin_name: String,
    pub plugin_path: Option<String>,
    pub checksum: Option<String>,
    pub extracted_at: i64,
}

/// A plugin that only one of the two load orders has.
#[derive(Debug, Clone)]
pub struct LoadOrderDiffItem {
    pub plugin_name: String,
    pub snapshot_position: Option<i64>,
    pub current_position: Option<usize>,
    pub plugin_path: Option<String>,
}

/// The stored load order compared with the current one.
#[derive(Debug, Clone)]
pub struct CoverageStatus {
    pub has_snapshot: bool,
    pub load_order_available: bool,
    pub in_sync: bool,
    pub snapshot_timestamp: Option<i64>,
    pub snapshot_count: usize,
    pub current_count: usize,
    /// Stored, but no longer on disk.
    pub missing_plugins: Vec<LoadOrderDiffItem>,
    /// On disk, but not stored.
    pub extra_plugins: Vec<LoadOrderDiffItem>,
}

/// How far an extraction has come.
#[derive(Debug, Clone)]
pub struct CoverageProgressPayload {
    pub current_mod: String,
    pub current_progress: usize,
    pub total: usize,
}

/// How an extraction ended.
#[derive(Debug, Clone)]
pub struct CoverageCompletePayload {
    pub success: bool,
    pub stats: Option<CoverageExtractionStats>,
    pub error: Option<String>,
}

/// The outcome of extracting a load order.
#[derive(Debug, Clone)]
pub struct CoverageExtractionStats {
    pub total_plugins: usize,
    pub processed_plugins: usize,
    pub failed_plugins: usize,
    pub total_records: usize,
    pub errors: Vec<String>,
}

impl CoverageExtractionStats {
    /// The statistics before any of the `total_plugins` plugins was tried.
    pub fn new(total_plugins: usize) -> (r: CoverageExtractionStats)
        ensures
            r.total_plugins == total_plugins,
            r.processed_plugins == 0,
            r.failed_plugins == 0,
            r.total_records == 0,
            r.errors@.len() == 0,
    {
        CoverageExtractionStats {
            total_plugins,
            processed_plugins: 0,
            failed_plugins: 0,
            total_records: 0,
            errors: Vec::new(),
        }
    }
}

/// The plugin that an extraction is at.
#[derive(Debug, Clone)]
pub struct CoverageProgressUpdate {
    pub current_mod: String,
    pub current_progress: usize,
    pub total: usize,
}

/// The text of an optional string.
pub open spec fn opt_text(s: Option<String>) -> Option<Seq<char>> {
    match s {
        Some(t) => Some(t@),
        None => None,
    }
}

/// What a difference item holds, as plain values.
pub struct DiffView {
    pub plugin_name: Seq<char>,
    pub snapshot_position: Option<i64>,
    pub current_position: Option<usize>,
    pub plugin_path: Option<Seq<char>>,
}

/// The items of a list, each as plain values.
pub open spec fn diff_views(items: Seq<LoadOrderDiffItem>) -> Seq<DiffView> {
    items.map_values(
        |d: LoadOrderDiffItem|
            DiffView {
                plugin_name: d.plugin_name@,
                snapshot_position: d.snapshot_position,
                current_position: d.current_position,
                plugin_path: opt_text(d.plugin_path),
            },
    )
}

/// Some plugin from position `from` on has this name.
pub open spec fn current_has(current: Seq<PluginInfo>, name: Seq<char>, from: int) -> bool {
    exists|i: int| from <= i < current.len() && 0 <= i && (#[trigger] current[i]).name@ == name
}

/// Some stored plugin has this name.
pub open spec fn snapshot_has(snapshot: Seq<LoadOrderEntry>, name: Seq<char>) -> bool {
    exists|i: int| 0 <= i < snapshot.len() && (#[trigger] snapshot[i]).plugin_name@ == name
}

/// The item for a stored plugin that is no longer on disk.
pub open spec fn missing_item(e: LoadOrderEntry) -> DiffView {
    DiffView {
        plugin_name: e.plugin_name@,
        snapshot_position: Some(e.position),
        current_position: None,
        plugin_path: opt_text(e.plugin_path),
    }
}

/// The item for the plugin at position `i` on disk that is not stored.
pub open spec fn extra_item(p: PluginInfo, i: int) -> DiffView {
    DiffView {
        plugin_name: p.name@,
        snapshot_position: None,
        current_position: Some(i as usize),
        plugin_path: Some(p.path@),
    }
}

/// The stored plugins, in stored order, whose name no plugin on disk has.
pub open spec fn missing_plugins(snapshot: Seq<LoadOrderEntry>, current: Seq<PluginInfo>) -> Seq<DiffView>
    decreases snapshot.len(),
{
    if snapshot.len() == 0 {
        Seq::empty()
    } else {
        let rest = missing_plugins(snapshot.drop_last(), current);
        if current_has(current, snapshot.last().plugin_name@, 0) {
            rest
        } else {
            rest.push(missing_item(snapshot.last()))
        }
    }
}

/// Of the first `upto` plugins on disk, in their order, those whose name is
/// not stored; a name that occurs again later is listed at its last place
/// only.
pub open spec fn extra_plugins(snapshot: Seq<LoadOrderEntry>, current: Seq<PluginInfo>, upto: int) -> Seq<DiffView>
    decreases upto,
{
    if upto <= 0 {
        Seq::empty()
    } else {
        let rest = extra_plugins(snapshot, current, upto - 1);
        let i = upto - 1;
        if !snapshot_has(snapshot, current[i].name@) && !current_has(current, current[i].name@, i + 1) {
            rest.push(extra_item(current[i], i))
        } else {
            rest
        }
    }
}

fn plugins_have(current: &Vec<PluginInfo>, name: &str, from: usize) -> (r: bool)
    ensures
        r == current_has(current@, name@, from as int),
{
    let mut i: usize = from;
    while i < current.len()
        invariant
            from <= i,
            forall|j: int| from <= j < i && j < current.len() ==> (#[trigger] current[j]).name@ != name@,
        decreases current.len() - i,
    {
        if str_eq(current[i].name.as_str(), name) {
            return true;
        }
        i += 1;
    }
    false
}

fn stored_has(snapshot: &Vec<LoadOrderEntry>, name: &str) -> (r: bool)
    ensures
        r == snapshot_has(snapshot@, name@),
{
    let mut i: usize = 0;
    while i < snapshot.len()
        invariant
            0 <= i <= snapshot.len(),
            forall|j: int| 0 <= j < i ==> (#[trigger] snapshot[j]).plugin_name@ != name@,
        decreases snapshot.len() - i,
    {
        if str_eq(snapshot[i].plugin_name.as_str(), name) {
            return true;
        }
        i += 1;
    }
    false
}

/// A copy of an optional string.
pub fn copy_opt(s: &Option<String>) -> (r: Option<String>)
    ensures
        r == *s,
{
    match s {
        Some(t) => Some(t.clone()),
        None => None,
    }
}

/// Compares the stored load order with the plugins on disk. The two are in
/// step when there is a stored order, neither side has a plugin that the
/// other lacks, and both have the same number of plugins.
pub fn get_coverage_status(
    snapshot: &Vec<LoadOrderEntry>,
    current: &Vec<PluginInfo>,
    load_order_available: bool,
    snapshot_timestamp: Option<i64>,
) -> (r: CoverageStatus)
    ensures
        r.has_snapshot == (snapshot.len() > 0),
        r.load_order_available == load_order_available,
        r.snapshot_timestamp == snapshot_timestamp,
        r.snapshot_count == snapshot.len(),
        r.current_count == current.len(),
        diff_views(r.missing_plugins@) == missing_plugins(snapshot@, current@),
        diff_views(r.extra_plugins@) == extra_plugins(snapshot@, current@, current.len() as int),
        r.in_sync == (snapshot.len() > 0 && r.missing_plugins.len() == 0 && r.extra_plugins.len()
            == 0 && snapshot.len() == current.len()),
{
    let mut missing: Vec<LoadOrderDiffItem> = Vec::new();
    let mut i: usize = 0;
    assert(snapshot@.subrange(0, 0) =~= Seq::<LoadOrderEntry>::empty());
    assert(diff_views(missing@) =~= Seq::<DiffView>::empty());
    while i < snapshot.len()
        invariant
            0 <= i <= snapshot.len(),
            diff_views(missing@) == missing_plugins(snapshot@.subrange(0, i as int), current@),
        decreases snapshot.len() - i,
    {
        let entry = &snapshot[i];
        proof {
            let part = snapshot@.subrange(0, i + 1);
            assert(part.drop_last() =~= snapshot@.subrange(0, i as int));
            assert(part.last() == *entry);
        }
        if !plugins_have(current, entry.plugin_name.as_str(), 0) {
            let ghost before = diff_views(missing@);
            missing.push(
                LoadOrderDiffItem {
                    plugin_name: entry.plugin_name.clone(),
                    snapshot_position: Some(entry.position),
                    current_position: None,
                    plugin_path: copy_opt(&entry.plugin_path),
                },
            );
            assert(diff_views(missing@) =~= before.push(missing_item(*entry)));
        }
        i += 1;
    }
    assert(snapshot@.subrange(0, snapshot.len() as int) =~= snapshot@);
    let mut extra: Vec<LoadOrderDiffItem> = Vec::new();
    let mut k: usize = 0;
    assert(diff_views(extra@) =~= Seq::<DiffView>::empty());
    while k < current.len()
        invariant
            0 <= k <= current.len(),
            diff_views(extra@) == extra_plugins(snapshot@, current@, k as int),
        decreases current.len() - k,
    {
        let plugin = &current[k];
        if !stored_has(snapshot, plugin.name.as_str()) && !plugins_have(
            current,
            plugin.name.as_str(),
            k + 1,
        ) {
            let ghost before = diff_views(extra@);
            extra.push(
                LoadOrderDiffItem {
                    plugin_name: plugin.name.clone(),
                    snapshot_position: None,
                    current_position: Some(k),
                    plugin_path: Some(plugin.path.clone()),
                },
            );
            assert(diff_views(extra@) =~= before.push(extra_item(*plugin, k as int)));
        }
        k += 1;
    }
    let has_snapshot = snapshot.len() > 0;
    let in_sync = has_snapshot && missing.len() == 0 && extra.len() == 0 && snapshot.len()
        == current.len();
    CoverageStatus {
        has_snapshot,
        load_order_available,
        in_sync,
        snapshot_timestamp,
        snapshot_count: snapshot.len(),
        current_count: current.len(),
        missing_plugins: missing,
        extra_plugins: extra,
    }
}

/// The text that the overrides hold for a key: that of the last pair with
/// the key.
pub open spec fn override_for(overrides: Seq<(String, String)>, key: Seq<char>) -> Option<Seq<char>>
    decreases overrides.len(),
{
    if overrides.len() == 0 {
        None
    } else if overrides.last().0@ == key {
        Some(overrides.last().1@)
    } else {
        override_for(overrides.drop_last(), key)
    }
}

/// The translated text of a record once the overrides are applied.
pub open spec fn overridden_text(t: Translation, overrides: Seq<(String, String)>) -> Seq<char> {
    match override_for(overrides, record_key(t.form_id@, t.record_type@, t.subrecord_type@)) {
        Some(text) => text,
        None => t.translated_text@,
    }
}

/// The number of records whose translated text the overrides change.
pub open spec fn changed_count(ts: Seq<Translation>, overrides: Seq<(String, String)>) -> int
    decreases ts.len(),
{
    if ts.len() == 0 {
        0
    } else {
        changed_count(ts.drop_last(), overrides) + if overridden_text(ts.last(), overrides)
            != ts.last().translated_text@ {
            1int
        } else {
            0int
        }
    }
}

/// The position of the pair that decides for a key: the last one with it.
pub fn find_override(overrides: &Vec<(String, String)>, key: &str) -> (r: Option<usize>)
    ensures
        r is Some <==> override_for(overrides@, key@) is Some,
        r matches Some(i) ==> i < overrides.len() && override_for(overrides@, key@) == Some(
            overrides[i as int].1@,
        ),
{
    let mut i: usize = overrides.len();
    assert(overrides@.subrange(0, i as int) =~= overrides@);
    while i > 0
        invariant
            0 <= i <= overrides.len(),
            override_for(overrides@, key@) == override_for(overrides@.subrange(0, i as int), key@),
        decreases i,
    {
        proof {
            let part = overrides@.subrange(0, i as int);
            assert(part.drop_last() =~= overrides@.subrange(0, i - 1));
            assert(part.last() == overrides[i - 1]);
        }
        if str_eq(overrides[i - 1].0.as_str(), key) {
            return Some(i - 1);
        }
        i -= 1;
    }
    None
}

/// Applies the overrides to the extracted strings: a record whose key has
/// an override with another text gets that text. The result is the number
/// of records changed.
pub fn apply_dsd_overrides_to_translations(translations: &mut Vec<Translation>, overrides: &Vec<(String, String)>) -> (applied: usize)
    ensures
        final(translations).len() == old(translations).len(),
        forall|i: int|
            0 <= i < old(translations).len() ==> #[trigger] final(translations)[i] == (Translation {
                translated_text: final(translations)[i].translated_text,
                ..old(translations)[i]
            }) && final(translations)[i].translated_text@ == overridden_text(
                old(translations)[i],
                overrides@,
            ),
        applied == changed_count(old(translations)@, overrides@),
{
    let ghost before = translations@;
    let mut applied: usize = 0;
    let mut i: usize = 0;
    assert(before.subrange(0, 0) =~= Seq::<Translation>::empty());
    while i < translations.len()
        invariant
            0 <= i <= translations.len(),
            translations.len() == before.len(),
            before == old(translations)@,
            applied == changed_count(before.subrange(0, i as int), overrides@),
            applied <= i,
            forall|k: int|
                0 <= k < i ==> #[trigger] translations[k] == (Translation {
                    translated_text: translations[k].translated_text,
                    ..before[k]
                }) && translations[k].translated_text@ == overridden_text(before[k], overrides@),
            forall|k: int| i <= k < before.len() ==> #[trigger] translations[k] == before[k],
        decreases translations.len() - i,
    {
        proof {
            let part = before.subrange(0, i + 1);
            assert(part.drop_last() =~= before.subrange(0, i as int));
            assert(part.last() == before[i as int]);
            assert(translations[i as int] == before[i as int]);
        }
        let key = make_record_key(
            translations[i].form_id.as_str(),
            translations[i].record_type.as_str(),
            translations[i].subrecord_type.as_str(),
        );
        match find_override(overrides, key.as_str()) {
            Some(at) => {
                if !str_eq(translations[i].translated_text.as_str(), overrides[at].1.as_str()) {
                    let changed = Translation {
                        form_id: translations[i].form_id.clone(),
                        record_type: translations[i].record_type.clone(),
                        subrecord_type: translations[i].subrecord_type.clone(),
                        index: translations[i].index,
                        editor_id: copy_opt(&translations[i].editor_id),
                        original_text: translations[i].original_text.clone(),
                        translated_text: overrides[at].1.clone(),
                        plugin_name: copy_opt(&translations[i].plugin_name),
                        created_at: translations[i].created_at,
                        updated_at: translations[i].updated_at,
                    };
                    translations[i] = changed;
                    applied += 1;
                }
            },
            None => {},
        }
        i += 1;
    }
    assert(before.subrange(0, before.len() as int) =~= before);
    applied
}

impl CoverageExtractionStats {
    /// Counts a plugin from which `count` records were stored. A counter
    /// that is at its maximum stays there.
    pub fn record_processed(&mut self, count: usize)
        ensures
            final(self).processed_plugins == if old(self).processed_plugins < usize::MAX {
                old(self).processed_plugins + 1
            } else {
                usize::MAX as int
            },
            final(self).total_records == if old(self).total_records + count <= usize::MAX {
                old(self).total_records + count
            } else {
                usize::MAX as int
            },
            final(self).total_plugins == old(self).total_plugins,
            final(self).failed_plugins == old(self).failed_plugins,
            final(self).errors == old(self).errors,
    {
        if self.processed_plugins < usize::MAX {
            self.processed_plugins = self.processed_plugins + 1;
        }
        if count <= usize::MAX - self.total_records {
            self.total_records = self.total_records + count;
        } else {
            self.total_records = usize::MAX;
        }
    }

    /// Counts a plugin that could not be extracted, and keeps the reason
    /// under the plugin's name.
    pub fn record_failed(&mut self, plugin_name: &str, reason: &str)
        ensures
            final(self).failed_plugins == if old(self).failed_plugins < usize::MAX {
                old(self).failed_plugins + 1
            } else {
                usize::MAX as int
            },
            final(self).errors@.len() == old(self).errors@.len() + 1,
            final(self).errors@.last()@ == plugin_name@ + ": "@ + reason@,
            final(self).errors@.drop_last() == old(self).errors@,
            final(self).total_plugins == old(self).total_plugins,
            final(self).processed_plugins == old(self).processed_plugins,
            final(self).total_records == old(self).total_records,
    {
        if self.failed_plugins < usize::MAX {
            self.failed_plugins = self.failed_plugins + 1;
        }
        let mut message = String::from_str(plugin_name);
        message.append(": ");
        message.append(reason);
        let ghost before = self.errors@;
        self.errors.push(message);
        assert(self.errors@.drop_last() =~= before);
    }
}

/// The progress report for the plugin at position `position` of `total`.
pub fn progress_update(plugin_name: &str, position: usize, total: usize) -> (r: CoverageProgressUpdate)
    requires
        position < total,
    ensures
        r.current_mod@ == plugin_name@,
        r.current_progress == position + 1,
        r.total == total,
{
    CoverageProgressUpdate {
        current_mod: String::from_str(plugin_name),
        current_progress: position + 1,
        total,
    }
}

/// The number of entries that a search returns at most: what was asked
/// for, 200 where nothing was, and never fewer than one.
pub fn effective_limit(limit: Option<u32>) -> (r: u32)
    ensures
        r == match limit {
            Some(n) => if n < 1 {
                1u32
            } else {
                n
            },
            None => 200u32,
        },
{
    match limit {
        Some(n) => if n < 1 {
            1
        } else {
            n
        },
        None => 200,
    }
}

/// What a coverage entry holds, as plain values.
pub struct CoverageView {
    pub form_id: Seq<char>,
    pub record_type: Seq<char>,
    pub subrecord_type: Seq<char>,
    pub index: u32,
    pub text: Seq<char>,
    pub source_mod: Seq<char>,
    pub load_order_pos: i64,
    pub extracted_at: i64,
}

/// The entries of a list, each as plain values.
pub open spec fn coverage_views(entries: Seq<CoverageEntry>) -> Seq<CoverageView> {
    entries.map_values(
        |e: CoverageEntry|
            CoverageView {
                form_id: e.form_id@,
                record_type: e.record_type@,
                subrecord_type: e.subrecord_type@,
                index: e.index,
                text: e.text@,
                source_mod: e.source_mod@,
                load_order_pos: e.load_order_pos,
                extracted_at: e.extracted_at,
            },
    )
}

/// The coverage entry of a translation: its translated text, credited to
/// the plugin it names or else to `plugin_name`.
pub open spec fn coverage_of(t: Translation, plugin_name: Seq<char>, load_order_pos: i64, extracted_at: i64) -> CoverageView {
    CoverageView {
        form_id: t.form_id@,
        record_type: t.record_type@,
        subrecord_type: t.subrecord_type@,
        index: t.index,
        text: t.translated_text@,
        source_mod: match t.plugin_name {
            Some(name) => name@,
            None => plugin_name,
        },
        load_order_pos,
        extracted_at,
    }
}

/// The coverage entries of the translations of one plugin, one for each,
/// in their order.
pub fn coverage_entries_of(translations: &Vec<Translation>, plugin_name: &str, load_order_pos: i64, extracted_at: i64) -> (r: Vec<CoverageEntry>)
    ensures
        coverage_views(r@) == translations@.map_values(
            |t: Translation| coverage_of(t, plugin_name@, load_order_pos, extracted_at),
        ),
{
    let mut out: Vec<CoverageEntry> = Vec::new();
    let mut i: usize = 0;
    while i < translations.len()
        invariant
            0 <= i <= translations.len(),
            out.len() == i,
            forall|k: int|
                0 <= k < i ==> #[trigger] coverage_views(out@)[k] == coverage_of(
                    translations[k],
                    plugin_name@,
                    load_order_pos,
                    extracted_at,
                ),
        decreases translations.len() - i,
    {
        let t = &translations[i];
        let source_mod = match &t.plugin_name {
            Some(name) => name.clone(),
            None => String::from_str(plugin_name),
        };
        let ghost before = coverage_views(out@);
        out.push(
            CoverageEntry {
                form_id: t.form_id.clone(),
                record_type: t.record_type.clone(),
                subrecord_type: t.subrecord_type.clone(),
                index: t.index,
                text: t.translated_text.clone(),
                source_mod,
                load_order_pos,
                extracted_at,
            },
        );
        assert(coverage_views(out@) =~= before.push(
            coverage_of(*t, plugin_name@, load_order_pos, extracted_at),
        ));
        i += 1;
    }
    assert(coverage_views(out@) =~= translations@.map_values(
        |t: Translation| coverage_of(t, plugin_name@, load_order_pos, extracted_at),
    ));
    out
}

/// The stored load order of the plugins on disk: one entry for each, at
/// its position, with its path and no checksum.
pub fn snapshot_entries(plugins: &Vec<PluginInfo>, extracted_at: i64) -> (r: Vec<LoadOrderEntry>)
    ensures
        r.len() == plugins.len(),
        forall|k: int|
            0 <= k < r.len() ==> {
                &&& (#[trigger] r[k]).position == k as i64
                &&& r[k].plugin_name@ == plugins[k].name@
                &&& opt_text(r[k].plugin_path) == Some(plugins[k].path@)
                &&& r[k].checksum is None
                &&& r[k].extracted_at == extracted_at
            },
{
    let mut out: Vec<LoadOrderEntry> = Vec::new();
    let mut i: usize = 0;
    while i < plugins.len()
        invariant
            0 <= i <= plugins.len(),
            out.len() == i,
            forall|k: int|
                0 <= k < i ==> {
                    &&& (#[trigger] out[k]).position == k as i64
                    &&& out[k].plugin_name@ == plugins[k].name@
                    &&& opt_text(out[k].plugin_path) == Some(plugins[k].path@)
                    &&& out[k].checksum is None
                    &&& out[k].extracted_at == extracted_at
                },
        decreases plugins.len() - i,
    {
        out.push(
            LoadOrderEntry {
                position: #[verifier::truncate]
                (i as i64),
                plugin_name: plugins[i].name.clone(),
                plugin_path: Some(plugins[i].path.clone()),
                checksum: None,
                extracted_at,
            },
        );
        i += 1;
    }
    out
}

} // verus!
