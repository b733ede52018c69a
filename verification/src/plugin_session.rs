//! The strings of a loaded plugin as the editor shows them, what is made of
//! them (keys, override entries, the strings written back), and the
//! sessions that keep loaded plugins at hand.

use crate::coverage::{copy_opt, find_override, opt_text, override_for};
use crate::dsd::{make_record_key, record_key, DsdEntry, PluginPath};
use crate::text::{decimal, decimal_string, str_eq};
use std::time::Duration;
use std::time::Instant;
use vstd::prelude::*;
use vstd::string::*;

verus! {

/// One string of a plugin, as it was extracted or as it is to be written.
#[derive(Debug, Clone)]
pub struct ExtractedText {
    pub editor_id: Option<String>,
    pub form_id: String,
    pub text: String,
    pub record_type: String,
    pub subrecord_type: String,
    /// The position among the subrecords of this type in the record.
    pub index: i32,
}

/// What an extracted string holds, as plain values.
pub struct ExtractedView {
    pub editor_id: Option<Seq<char>>,
    pub form_id: Seq<char>,
    pub text: Seq<char>,
    pub record_type: Seq<char>,
    pub subrecord_type: Seq<char>,
    pub index: i32,
}

impl View for ExtractedText {
    type V = ExtractedView;

    open spec fn view(&self) -> ExtractedView {
        ExtractedView {
            editor_id: opt_text(self.editor_id),
            form_id: self.form_id@,
            text: self.text@,
            record_type: self.record_type@,
            subrecord_type: self.subrecord_type@,
            index: self.index,
        }
    }
}

/// One string of a plugin in the editor.
#[derive(Debug, Clone)]
pub struct StringRecord {
    pub form_id: String,
    pub editor_id: Option<String>,
    pub record_type: String,
    pub subrecord_type: String,
    pub index: u32,
    pub original_text: String,
    /// Starts as a copy of the original text.
    pub translated_text: String,
    /// One of `untranslated`, `manual` and `ai`.
    pub translation_status: String,
}

/// What a string record holds, as plain values.
pub struct RecordView {
    pub form_id: Seq<char>,
    pub editor_id: Option<Seq<char>>,
    pub record_type: Seq<char>,
    pub subrecord_type: Seq<char>,
    pub index: u32,
    pub original_text: Seq<char>,
    pub translated_text: Seq<char>,
    pub translation_status: Seq<char>,
}

impl View for StringRecord {
    type V = RecordView;

    open spec fn view(&self) -> RecordView {
        RecordView {
            form_id: self.form_id@,
            editor_id: opt_text(self.editor_id),
            record_type: self.record_type@,
            subrecord_type: self.subrecord_type@,
            index: self.index,
            original_text: self.original_text@,
            translated_text: self.translated_text@,
            translation_status: self.translation_status@,
        }
    }
}

/// The records of a list, each as plain values.
pub open spec fn record_views(records: Seq<StringRecord>) -> Seq<RecordView> {
    records.map_values(|r: StringRecord| r@)
}

/// The strings of a list, each as plain values.
pub open spec fn extracted_views(strings: Seq<ExtractedText>) -> Seq<ExtractedView> {
    strings.map_values(|e: ExtractedText| e@)
}

/// A loaded plugin, as a list entry.
#[derive(Debug, Clone)]
pub struct SessionInfo {
    pub session_id: String,
    pub plugin_name: String,
    pub string_count: usize,
    /// Seconds since the plugin was loaded.
    pub loaded_at: u64,
}

/// The strings of a plugin that was asked for.
#[derive(Debug, Clone)]
pub struct PluginStringsResponse {
    pub session_id: String,
    pub plugin_name: String,
    pub plugin_path: String,
    pub strings: Vec<StringRecord>,
    pub total_count: usize,
    pub has_dsd_overrides: bool,
}

/// The status of a string that nobody has translated yet.
pub fn default_translation_status() -> (r: String)
    ensures
        r@ == "untranslated"@,
{
    String::from_str("untranslated")
}

/// The key of a string: its three identifiers and its index, joined by
/// bars.
pub open spec fn indexed_key(form_id: Seq<char>, record_type: Seq<char>, subrecord_type: Seq<char>, index: int) -> Seq<char> {
    form_id + "|"@ + record_type + "|"@ + subrecord_type + "|"@ + decimal(index)
}

/// The key that identifies a string among all strings of a plugin.
pub fn string_key(form_id: &str, record_type: &str, subrecord_type: &str, index: i64) -> (r: String)
    ensures
        r@ == indexed_key(form_id@, record_type@, subrecord_type@, index as int),
{
    let mut key = make_record_key(form_id, record_type, subrecord_type);
    key.append("|");
    let digits = decimal_string(index);
    key.append(digits.as_str());
    key
}

/// The record that the editor starts from for an extracted string.
pub open spec fn fresh_record(e: ExtractedView) -> RecordView {
    RecordView {
        form_id: e.form_id,
        editor_id: e.editor_id,
        record_type: e.record_type,
        subrecord_type: e.subrecord_type,
        index: e.index as u32,
        original_text: e.text,
        translated_text: e.text,
        translation_status: "untranslated"@,
    }
}

/// The record that the editor starts from for an extracted string: not
/// translated, its translation a copy of the text.
pub fn string_record_of(e: &ExtractedText) -> (r: StringRecord)
    ensures
        r@ == fresh_record(e@),
{
    StringRecord {
        form_id: e.form_id.clone(),
        editor_id: copy_opt(&e.editor_id),
        record_type: e.record_type.clone(),
        subrecord_type: e.subrecord_type.clone(),
        index: #[verifier::truncate]
        (e.index as u32),
        original_text: e.text.clone(),
        translated_text: e.text.clone(),
        translation_status: default_translation_status(),
    }
}

/// The records that the editor starts from for the strings of a plugin.
pub fn string_records_of(extracted: &Vec<ExtractedText>) -> (r: Vec<StringRecord>)
    ensures
        record_views(r@) == extracted_views(extracted@).map_values(|e: ExtractedView| fresh_record(e)),
{
    let mut out: Vec<StringRecord> = Vec::new();
    let mut i: usize = 0;
    while i < extracted.len()
        invariant
            0 <= i <= extracted.len(),
            out.len() == i,
            forall|k: int| 0 <= k < i ==> (#[trigger] out[k])@ == fresh_record(extracted[k]@),
        decreases extracted.len() - i,
    {
        out.push(string_record_of(&extracted[i]));
        i += 1;
    }
    assert(record_views(out@) =~= extracted_views(extracted@).map_values(
        |e: ExtractedView| fresh_record(e),
    ));
    out
}

/// The string that is written back for a record: its translated text under
/// the record's identifiers.
pub open spec fn written_back(r: RecordView) -> ExtractedView {
    ExtractedView {
        editor_id: r.editor_id,
        form_id: r.form_id,
        text: r.translated_text,
        record_type: r.record_type,
        subrecord_type: r.subrecord_type,
        index: r.index as i32,
    }
}

/// The string that is written back for a record.
pub fn extracted_text_of(r: &StringRecord) -> (e: ExtractedText)
    ensures
        e@ == written_back(r@),
{
    ExtractedText {
        editor_id: copy_opt(&r.editor_id),
        form_id: r.form_id.clone(),
        text: r.translated_text.clone(),
        record_type: r.record_type.clone(),
        subrecord_type: r.subrecord_type.clone(),
        index: #[verifier::truncate]
        (r.index as i32),
    }
}

/// The strings that are written back for the records.
pub fn extracted_texts_of(records: &Vec<StringRecord>) -> (r: Vec<ExtractedText>)
    ensures
        extracted_views(r@) == record_views(records@).map_values(|v: RecordView| written_back(v)),
{
    let mut out: Vec<ExtractedText> = Vec::new();
    let mut i: usize = 0;
    while i < records.len()
        invariant
            0 <= i <= records.len(),
            out.len() == i,
            forall|k: int| 0 <= k < i ==> (#[trigger] out[k])@ == written_back(records[k]@),
        decreases records.len() - i,
    {
        out.push(extracted_text_of(&records[i]));
        i += 1;
    }
    assert(extracted_views(out@) =~= record_views(records@).map_values(
        |v: RecordView| written_back(v),
    ));
    out
}

/// What an override entry holds, as plain values.
pub struct EntryView {
    pub form_id: Seq<char>,
    pub entry_type: Seq<char>,
    pub string: Seq<char>,
}

/// The entries of a list, each as plain values.
pub open spec fn entry_views(entries: Seq<DsdEntry>) -> Seq<EntryView> {
    entries.map_values(
        |d: DsdEntry| EntryView { form_id: d.form_id@, entry_type: d.entry_type@, string: d.string@ },
    )
}

/// The override entry of a record: its translated text under its form
/// identifier and its two types, separated by a blank.
pub open spec fn override_entry(r: RecordView) -> EntryView {
    EntryView {
        form_id: r.form_id,
        entry_type: r.record_type + " "@ + r.subrecord_type,
        string: r.translated_text,
    }
}

/// The override entries of the records, one for each, in their order.
pub fn dsd_entries_of(records: &Vec<StringRecord>) -> (r: Vec<DsdEntry>)
    ensures
        entry_views(r@) == record_views(records@).map_values(|v: RecordView| override_entry(v)),
{
    let mut out: Vec<DsdEntry> = Vec::new();
    let mut i: usize = 0;
    while i < records.len()
        invariant
            0 <= i <= records.len(),
            out.len() == i,
            forall|k: int|
                0 <= k < i ==> #[trigger] entry_views(out@)[k] == override_entry(records[k]@),
        decreases records.len() - i,
    {
        let record = &records[i];
        let mut entry_type = record.record_type.clone();
        entry_type.append(" ");
        entry_type.append(record.subrecord_type.as_str());
        let ghost before = entry_views(out@);
        out.push(
            DsdEntry {
                form_id: record.form_id.clone(),
                entry_type,
                string: record.translated_text.clone(),
            },
        );
        assert(entry_views(out@) =~= before.push(override_entry(record@)));
        i += 1;
    }
    assert(entry_views(out@) =~= record_views(records@).map_values(
        |v: RecordView| override_entry(v),
    ));
    out
}

/// The texts of a list of pairs.
pub open spec fn pair_texts(pairs: Seq<(String, String)>) -> Seq<(Seq<char>, Seq<char>)> {
    pairs.map_values(|p: (String, String)| (p.0@, p.1@))
}

/// The key of a record and its original text.
pub open spec fn original_pair(r: RecordView) -> (Seq<char>, Seq<char>) {
    (indexed_key(r.form_id, r.record_type, r.subrecord_type, r.index as int), r.original_text)
}

/// The original text of every record under the record's key, in the order
/// of the records.
pub fn original_string_pairs(records: &Vec<StringRecord>) -> (r: Vec<(String, String)>)
    ensures
        pair_texts(r@) == record_views(records@).map_values(|v: RecordView| original_pair(v)),
{
    let mut out: Vec<(String, String)> = Vec::new();
    let mut i: usize = 0;
    while i < records.len()
        invariant
            0 <= i <= records.len(),
            out.len() == i,
            forall|k: int| 0 <= k < i ==> #[trigger] pair_texts(out@)[k] == original_pair(records[k]@),
        decreases records.len() - i,
    {
        let record = &records[i];
        let key = string_key(
            record.form_id.as_str(),
            record.record_type.as_str(),
            record.subrecord_type.as_str(),
            record.index as i64,
        );
        let ghost before = pair_texts(out@);
        out.push((key, record.original_text.clone()));
        assert(pair_texts(out@) =~= before.push(original_pair(record@)));
        i += 1;
    }
    assert(pair_texts(out@) =~= record_views(records@).map_values(|v: RecordView| original_pair(v)));
    out
}

/// A record once the overrides are applied: where the overrides hold
/// another text for its key, that text, marked as translated by hand.
pub open spec fn overridden_record(r: RecordView, overrides: Seq<(String, String)>) -> RecordView {
    match override_for(overrides, record_key(r.form_id, r.record_type, r.subrecord_type)) {
        Some(text) => if text != r.translated_text {
            RecordView { translated_text: text, translation_status: "manual"@, ..r }
        } else {
            r
        },
        None => r,
    }
}

/// The number of records that the overrides change.
pub open spec fn overridden_count(records: Seq<RecordView>, overrides: Seq<(String, String)>) -> int
    decreases records.len(),
{
    if records.len() == 0 {
        0
    } else {
        overridden_count(records.drop_last(), overrides) + if overridden_record(
            records.last(),
            overrides,
        ) != records.last() {
            1int
        } else {
            0int
        }
    }
}

/// Applies the overrides to the records of a plugin. The result is the
/// number of records changed.
pub fn apply_dsd_overrides_to_records(records: &mut Vec<StringRecord>, overrides: &Vec<(String, String)>) -> (applied: usize)
    ensures
        record_views(final(records)@) == record_views(old(records)@).map_values(
            |v: RecordView| overridden_record(v, overrides@),
        ),
        applied == overridden_count(record_views(old(records)@), overrides@),
{
    let ghost before = record_views(records@);
    let mut applied: usize = 0;
    let mut i: usize = 0;
    assert(before.subrange(0, 0) =~= Seq::<RecordView>::empty());
    while i < records.len()
        invariant
            0 <= i <= records.len(),
            records.len() == before.len(),
            before == record_views(old(records)@),
            applied == overridden_count(before.subrange(0, i as int), overrides@),
            applied <= i,
            forall|k: int|
                0 <= k < i ==> (#[trigger] records[k])@ == overridden_record(before[k], overrides@),
            forall|k: int| i <= k < before.len() ==> (#[trigger] records[k])@ == before[k],
        decreases records.len() - i,
    {
        proof {
            let part = before.subrange(0, i + 1);
            assert(part.drop_last() =~= before.subrange(0, i as int));
            assert(part.last() == before[i as int]);
            assert(records[i as int]@ == before[i as int]);
        }
        let key = make_record_key(
            records[i].form_id.as_str(),
            records[i].record_type.as_str(),
            records[i].subrecord_type.as_str(),
        );
        match find_override(overrides, key.as_str()) {
            Some(at) => {
                if !str_eq(records[i].translated_text.as_str(), overrides[at].1.as_str()) {
                    let changed = StringRecord {
                        form_id: records[i].form_id.clone(),
                        editor_id: copy_opt(&records[i].editor_id),
                        record_type: records[i].record_type.clone(),
                        subrecord_type: records[i].subrecord_type.clone(),
                        index: records[i].index,
                        original_text: records[i].original_text.clone(),
                        translated_text: overrides[at].1.clone(),
                        translation_status: String::from_str("manual"),
                    };
                    records[i] = changed;
                    applied += 1;
                    assert(overridden_record(before[i as int], overrides@) != before[i as int]);
                }
            },
            None => {},
        }
        i += 1;
    }
    assert(before.subrange(0, before.len() as int) =~= before);
    assert(record_views(records@) =~= before.map_values(
        |v: RecordView| overridden_record(v, overrides@),
    ));
    applied
}

/// `LoadedPlugin` of esp_extractor: a plugin as it was read from its file,
/// carried as it is.
#[verifier::external_type_specification]
#[verifier::external_body]
pub struct ExLoadedPlugin(esp_extractor::LoadedPlugin);

/// `Instant` of the standard library: a point in time, carried as it is.
#[verifier::external_type_specification]
#[verifier::external_body]
pub struct ExInstant(Instant);

/// The strings that a loaded plugin holds, in the order in which it hands
/// them out.
pub uninterp spec fn plugin_strings(plugin: esp_extractor::LoadedPlugin) -> Seq<ExtractedView>;

/// Whether the path that a loaded plugin was read from ends in a file name
/// that is text: a last component that is there and is valid UTF-8.
pub uninterp spec fn plugin_name_is_text(plugin: esp_extractor::LoadedPlugin) -> bool;

/// `LoadedPlugin::plugin` of esp_extractor and the field `path` of the
/// `Plugin` that it gives: whether the path has a file name that is valid
/// UTF-8. The contract names the answer and claims nothing else of it.
#[verifier::external_body]
pub(crate) fn name_is_text(plugin: &esp_extractor::LoadedPlugin) -> (r: bool)
    ensures
        r == plugin_name_is_text(*plugin),
{
    plugin.plugin().path.file_name().and_then(|name| name.to_str()).is_some()
}

/// `LoadedPlugin::extract_strings` of esp_extractor, each string handed out
/// field by field. The contract names the list and claims nothing else of
/// it. The call writes the plugin's file name into the form identifiers of
/// the plugin's own records and does not return where that name is no
/// text, so such a plugin is left out.
#[verifier::external_body]
pub(crate) fn extract_strings(plugin: &esp_extractor::LoadedPlugin) -> (r: Vec<ExtractedText>)
    requires
        plugin_name_is_text(*plugin),
    ensures
        extracted_views(r@) == plugin_strings(*plugin),
{
    plugin.extract_strings().into_iter().map(
        |s| ExtractedText {
            editor_id: s.editor_id,
            form_id: s.form_id,
            text: s.text,
            record_type: s.record_type,
            subrecord_type: s.subrecord_type,
            index: s.index,
        },
    ).collect()
}

/// `Instant::elapsed` of the standard library: the time since the instant.
/// Nothing is claimed of it.
pub assume_specification[ Instant::elapsed ](instant: &Instant) -> (r: Duration)
;

/// A plugin that is kept loaded.
pub struct PluginSession {
    pub plugin_name: String,
    pub plugin_path: String,
    pub strings: Vec<StringRecord>,
    pub loaded_at: Instant,
    pub has_dsd_overrides: bool,
    /// The plugin as it was read; gone once translations were written from
    /// it.
    pub loaded_plugin: Option<esp_extractor::LoadedPlugin>,
}

/// What a session holds, as plain values.
pub struct SessionView {
    pub plugin_name: Seq<char>,
    pub plugin_path: Seq<char>,
    pub strings: Seq<RecordView>,
    pub has_dsd_overrides: bool,
    pub loaded_plugin: Option<esp_extractor::LoadedPlugin>,
}

impl View for PluginSession {
    type V = SessionView;

    open spec fn view(&self) -> SessionView {
        SessionView {
            plugin_name: self.plugin_name@,
            plugin_path: self.plugin_path@,
            strings: record_views(self.strings@),
            has_dsd_overrides: self.has_dsd_overrides,
            loaded_plugin: self.loaded_plugin,
        }
    }
}

/// The sessions of a list, each as plain values.
pub open spec fn session_views(sessions: Seq<PluginSession>) -> Seq<SessionView> {
    sessions.map_values(|s: PluginSession| s@)
}

/// Some session is that of the plugin with this name.
pub open spec fn has_session(sessions: Seq<SessionView>, name: Seq<char>) -> bool {
    exists|i: int| 0 <= i < sessions.len() && (#[trigger] sessions[i]).plugin_name == name
}

/// The position of the session of the plugin with this name.
pub open spec fn session_index(sessions: Seq<SessionView>, name: Seq<char>) -> int {
    choose|i: int| 0 <= i < sessions.len() && (#[trigger] sessions[i]).plugin_name == name
}

/// No two sessions are of the same plugin.
pub open spec fn sessions_unique(sessions: Seq<SessionView>) -> bool {
    forall|i: int, j: int|
        0 <= i < sessions.len() && 0 <= j < sessions.len() && (#[trigger] sessions[i]).plugin_name == (
        #[trigger] sessions[j]).plugin_name ==> i == j
}

/// The message for a plugin path without a file name that is text.
pub open spec fn invalid_path_message() -> Seq<char> {
    "无效的插件路径"@
}

/// The message for a session that is not there.
pub open spec fn no_session_message(session_id: Seq<char>) -> Seq<char> {
    "Session "@ + session_id + " 不存在"@
}

/// The strings of a session as they are handed to the editor, under the
/// path that was asked for.
pub open spec fn is_response_of(r: PluginStringsResponse, s: SessionView, plugin_path: Seq<char>) -> bool {
    &&& r.session_id@ == s.plugin_name
    &&& r.plugin_name@ == s.plugin_name
    &&& r.plugin_path@ == plugin_path
    &&& record_views(r.strings@) == s.strings
    &&& r.total_count == s.strings.len()
    &&& r.has_dsd_overrides == s.has_dsd_overrides
}

/// The strings of a plugin that was just read, with the overrides found
/// for it applied.
pub open spec fn loaded_strings(plugin: esp_extractor::LoadedPlugin, overrides: Option<Vec<(String, String)>>) -> Seq<RecordView> {
    let fresh = plugin_strings(plugin).map_values(|e: ExtractedView| fresh_record(e));
    match overrides {
        Some(pairs) => fresh.map_values(|v: RecordView| overridden_record(v, pairs@)),
        None => fresh,
    }
}

/// Whether the overrides found for a plugin that was just read change any
/// of its strings.
pub open spec fn loaded_with_overrides(plugin: esp_extractor::LoadedPlugin, overrides: Option<Vec<(String, String)>>) -> bool {
    match overrides {
        Some(pairs) => overridden_count(
            plugin_strings(plugin).map_values(|e: ExtractedView| fresh_record(e)),
            pairs@,
        ) > 0,
        None => false,
    }
}

/// A copy of a list of records.
pub fn duplicate_records(records: &Vec<StringRecord>) -> (r: Vec<StringRecord>)
    ensures
        record_views(r@) == record_views(records@),
{
    let mut out: Vec<StringRecord> = Vec::new();
    let mut i: usize = 0;
    while i < records.len()
        invariant
            0 <= i <= records.len(),
            out.len() == i,
            forall|k: int| 0 <= k < i ==> (#[trigger] out[k])@ == records[k]@,
        decreases records.len() - i,
    {
        let r = &records[i];
        out.push(
            StringRecord {
                form_id: r.form_id.clone(),
                editor_id: copy_opt(&r.editor_id),
                record_type: r.record_type.clone(),
                subrecord_type: r.subrecord_type.clone(),
                index: r.index,
                original_text: r.original_text.clone(),
                translated_text: r.translated_text.clone(),
                translation_status: r.translation_status.clone(),
            },
        );
        i += 1;
    }
    assert(record_views(out@) =~= record_views(records@));
    out
}

/// The sessions of the plugins that are kept loaded, one for each plugin
/// name.
pub struct PluginSessionManager {
    sessions: Vec<PluginSession>,
}

impl View for PluginSessionManager {
    type V = Seq<SessionView>;

    closed spec fn view(&self) -> Seq<SessionView> {
        session_views(self.sessions@)
    }
}

impl PluginSessionManager {
    /// The invariant: one session for each plugin name.
    pub open spec fn wf(&self) -> bool {
        sessions_unique(self@)
    }

    /// A manager without sessions.
    pub fn new() -> (r: PluginSessionManager)
        ensures
            r.wf(),
            r@.len() == 0,
    {
        PluginSessionManager { sessions: Vec::new() }
    }

    fn position(&self, session_id: &str) -> (r: Option<usize>)
        requires
            self.wf(),
        ensures
            r is Some <==> has_session(self@, session_id@),
            r matches Some(i) ==> i < self@.len() && i == session_index(self@, session_id@)
                && self@[i as int].plugin_name == session_id@,
    {
        let mut i: usize = 0;
        while i < self.sessions.len()
            invariant
                self.wf(),
                0 <= i <= self.sessions.len(),
                forall|k: int| 0 <= k < i ==> (#[trigger] self@[k]).plugin_name != session_id@,
            decreases self.sessions.len() - i,
        {
            if str_eq(self.sessions[i].plugin_name.as_str(), session_id) {
                assert(self@[i as int].plugin_name == session_id@);
                assert(has_session(self@, session_id@));
                assert(self@[session_index(self@, session_id@)].plugin_name == session_id@);
                return Some(i);
            }
            i += 1;
        }
        None
    }

    fn response(session: &PluginSession, plugin_path: &str) -> (r: PluginStringsResponse)
        ensures
            is_response_of(r, session@, plugin_path@),
    {
        PluginStringsResponse {
            session_id: session.plugin_name.clone(),
            plugin_name: session.plugin_name.clone(),
            plugin_path: String::from_str(plugin_path),
            strings: duplicate_records(&session.strings),
            total_count: session.strings.len(),
            has_dsd_overrides: session.has_dsd_overrides,
        }
    }

    /// The strings of the plugin with this name, where it is kept loaded.
    pub fn cached(&self, plugin_name: &str, plugin_path: &str) -> (r: Option<PluginStringsResponse>)
        requires
            self.wf(),
        ensures
            r is Some <==> has_session(self@, plugin_name@),
            r matches Some(response) ==> is_response_of(
                response,
                self@[session_index(self@, plugin_name@)],
                plugin_path@,
            ),
    {
        match self.position(plugin_name) {
            Some(i) => Some(Self::response(&self.sessions[i], plugin_path)),
            None => None,
        }
    }

    /// The strings of the plugin with this name. A plugin that was read
    /// from a path without a file name that is text is refused, and
    /// nothing changes. Where the plugin is kept loaded the strings come
    /// from its session and nothing changes. Otherwise a session is opened
    /// for the plugin that was just read: its strings are extracted, the
    /// overrides found for it are applied, and it is kept from now on.
    pub fn get_or_load(
        &mut self,
        plugin_name: &str,
        plugin_path: &str,
        loaded: esp_extractor::LoadedPlugin,
        overrides: Option<Vec<(String, String)>>,
        loaded_at: Instant,
    ) -> (r: Result<PluginStringsResponse, String>)
        requires
            old(self).wf(),
        ensures
            final(self).wf(),
            r is Ok <==> plugin_name_is_text(loaded),
            r matches Err(message) ==> message@ == invalid_path_message() && final(self)@ == old(
                self,
            )@,
            r matches Ok(response) ==> if has_session(old(self)@, plugin_name@) {
                final(self)@ == old(self)@ && is_response_of(
                    response,
                    old(self)@[session_index(old(self)@, plugin_name@)],
                    plugin_path@,
                )
            } else {
                final(self)@ == old(self)@.push(
                    SessionView {
                        plugin_name: plugin_name@,
                        plugin_path: plugin_path@,
                        strings: loaded_strings(loaded, overrides),
                        has_dsd_overrides: loaded_with_overrides(loaded, overrides),
                        loaded_plugin: Some(loaded),
                    },
                ) && is_response_of(response, final(self)@.last(), plugin_path@)
            },
    {
        if !name_is_text(&loaded) {
            return Err(String::from_str("无效的插件路径"));
        }
        match self.position(plugin_name) {
            Some(i) => Ok(Self::response(&self.sessions[i], plugin_path)),
            None => {
                let extracted = extract_strings(&loaded);
                let mut strings = string_records_of(&extracted);
                let mut has_dsd_overrides = false;
                match &overrides {
                    Some(pairs) => {
                        let applied = apply_dsd_overrides_to_records(&mut strings, pairs);
                        has_dsd_overrides = applied > 0;
                    },
                    None => {},
                }
                let session = PluginSession {
                    plugin_name: String::from_str(plugin_name),
                    plugin_path: String::from_str(plugin_path),
                    strings,
                    loaded_at,
                    has_dsd_overrides,
                    loaded_plugin: Some(loaded),
                };
                let response = Self::response(&session, plugin_path);
                let ghost before = self@;
                let ghost added = session@;
                self.sessions.push(session);
                proof {
                    assert(self@ =~= before.push(added));
                    assert forall|a: int, b: int|
                        0 <= a < self@.len() && 0 <= b < self@.len() && (#[trigger] self@[a]).plugin_name == (
                        #[trigger] self@[b]).plugin_name implies a == b by {
                        if a < before.len() {
                            assert(self@[a] == before[a]);
                        }
                        if b < before.len() {
                            assert(self@[b] == before[b]);
                        }
                    }
                }
                Ok(response)
            },
        }
    }

    /// Closes the session of the plugin with this name. It fails when there
    /// is none.
    pub fn close(&mut self, session_id: &str) -> (r: Result<(), String>)
        requires
            old(self).wf(),
        ensures
            final(self).wf(),
            has_session(old(self)@, session_id@) ==> r is Ok && final(self)@ == old(self)@.remove(
                session_index(old(self)@, session_id@),
            ) && !has_session(final(self)@, session_id@),
            !has_session(old(self)@, session_id@) ==> final(self)@ == old(self)@ && r is Err
                && r->Err_0@ == no_session_message(session_id@),
    {
        match self.position(session_id) {
            Some(i) => {
                let ghost before = self@;
                self.sessions.remove(i);
                proof {
                    let after = self@;
                    assert(after =~= before.remove(i as int));
                    assert forall|k: int| 0 <= k < after.len() implies #[trigger] after[k]
                        == before[if k < i { k } else { k + 1 }] by {}
                    assert forall|a: int, b: int|
                        0 <= a < after.len() && 0 <= b < after.len() && (#[trigger] after[a]).plugin_name == (
                        #[trigger] after[b]).plugin_name implies a == b by {
                        let a0 = if a < i { a } else { a + 1 };
                        let b0 = if b < i { b } else { b + 1 };
                        assert(before[a0].plugin_name == before[b0].plugin_name);
                    }
                    assert forall|k: int| 0 <= k < after.len() implies (#[trigger] after[k]).plugin_name
                        != session_id@ by {
                        let k0 = if k < i { k } else { k + 1 };
                        assert(before[k0].plugin_name == after[k].plugin_name);
                    }
                }
                Ok(())
            },
            None => Err(no_session(session_id)),
        }
    }

    /// The sessions, in the order in which they were opened.
    pub fn list_sessions(&self) -> (r: Vec<SessionInfo>)
        ensures
            r.len() == self@.len(),
            forall|k: int|
                0 <= k < r.len() ==> (#[trigger] r[k]).session_id@ == self@[k].plugin_name
                    && r[k].plugin_name@ == self@[k].plugin_name && r[k].string_count
                    == self@[k].strings.len(),
    {
        let mut out: Vec<SessionInfo> = Vec::new();
        let mut i: usize = 0;
        while i < self.sessions.len()
            invariant
                0 <= i <= self.sessions.len(),
                out.len() == i,
                forall|k: int|
                    0 <= k < i ==> (#[trigger] out[k]).session_id@ == self@[k].plugin_name
                        && out[k].plugin_name@ == self@[k].plugin_name && out[k].string_count
                        == self@[k].strings.len(),
            decreases self.sessions.len() - i,
        {
            let session = &self.sessions[i];
            assert(self@[i as int] == session@);
            let elapsed = session.loaded_at.elapsed();
            out.push(
                SessionInfo {
                    session_id: session.plugin_name.clone(),
                    plugin_name: session.plugin_name.clone(),
                    string_count: session.strings.len(),
                    loaded_at: elapsed.as_secs(),
                },
            );
            i += 1;
        }
        out
    }

    /// The original text of every string of a session under the string's
    /// key. There is none when the session is not there.
    pub fn get_original_string_map(&self, session_id: &str) -> (r: Option<Vec<(String, String)>>)
        requires
            self.wf(),
        ensures
            r is Some <==> has_session(self@, session_id@),
            r matches Some(pairs) ==> pair_texts(pairs@) == self@[session_index(
                self@,
                session_id@,
            )].strings.map_values(|v: RecordView| original_pair(v)),
    {
        match self.position(session_id) {
            Some(i) => {
                assert(self@[i as int] == self.sessions[i as int]@);
                Some(original_string_pairs(&self.sessions[i].strings))
            },
            None => None,
        }
    }

    /// The path of the plugin of a session. It fails when the session is
    /// not there.
    pub fn session_path(&self, session_id: &str) -> (r: Result<String, String>)
        requires
            self.wf(),
        ensures
            !has_session(self@, session_id@) ==> r is Err && r->Err_0@ == no_session_message(
                session_id@,
            ),
            has_session(self@, session_id@) ==> r is Ok && r->Ok_0@ == self@[session_index(
                self@,
                session_id@,
            )].plugin_path,
    {
        match self.position(session_id) {
            Some(i) => {
                assert(self@[i as int] == self.sessions[i as int]@);
                Ok(self.sessions[i].plugin_path.clone())
            },
            None => Err(no_session(session_id)),
        }
    }

    /// What writing translations into the plugin of a session needs: the
    /// plugin's path, the strings to write, and the plugin as it was read,
    /// which leaves the session with this call so that a later call finds
    /// none. It fails, and changes nothing, when the session is not there.
    pub fn apply_translations(&mut self, session_id: &str, translations: &Vec<StringRecord>) -> (r: Result<
        (String, Vec<ExtractedText>, Option<esp_extractor::LoadedPlugin>),
        String,
    >)
        requires
            old(self).wf(),
        ensures
            final(self).wf(),
            !has_session(old(self)@, session_id@) ==> final(self)@ == old(self)@ && r is Err
                && r->Err_0@ == no_session_message(session_id@),
            has_session(old(self)@, session_id@) ==> {
                let i = session_index(old(self)@, session_id@);
                &&& r is Ok
                &&& r->Ok_0.0@ == old(self)@[i].plugin_path
                &&& extracted_views(r->Ok_0.1@) == record_views(translations@).map_values(
                    |v: RecordView| written_back(v),
                )
                &&& r->Ok_0.2 == old(self)@[i].loaded_plugin
                &&& final(self)@ == old(self)@.update(
                    i,
                    SessionView { loaded_plugin: None, ..old(self)@[i] },
                )
            },
    {
        match self.position(session_id) {
            Some(i) => {
                let ghost before = self@;
                let mut session = self.sessions.remove(i);
                let plugin = session.loaded_plugin.take();
                let path = session.plugin_path.clone();
                let ghost changed = session@;
                self.sessions.insert(i, session);
                proof {
                    assert(self@ =~= before.update(i as int, changed));
                    assert forall|a: int, b: int|
                        0 <= a < self@.len() && 0 <= b < self@.len() && (#[trigger] self@[a]).plugin_name == (
                        #[trigger] self@[b]).plugin_name implies a == b by {
                        assert(self@[a].plugin_name == before[a].plugin_name);
                        assert(self@[b].plugin_name == before[b].plugin_name);
                    }
                }
                Ok((path, extracted_texts_of(translations), plugin))
            },
            None => Err(no_session(session_id)),
        }
    }

    /// What exporting the overrides of a session needs: the plugin's path
    /// and one override entry for each record. It fails when the session is
    /// not there.
    pub fn export_dsd(&self, session_id: &str, records: &Vec<StringRecord>) -> (r: Result<
        (String, Vec<DsdEntry>),
        String,
    >)
        requires
            self.wf(),
        ensures
            !has_session(self@, session_id@) ==> r is Err && r->Err_0@ == no_session_message(
                session_id@,
            ),
            has_session(self@, session_id@) ==> r is Ok && r->Ok_0.0@ == self@[session_index(
                self@,
                session_id@,
            )].plugin_path && entry_views(r->Ok_0.1@) == record_views(records@).map_values(
                |v: RecordView| override_entry(v),
            ),
    {
        match self.position(session_id) {
            Some(i) => {
                assert(self@[i as int] == self.sessions[i as int]@);
                Ok((self.sessions[i].plugin_path.clone(), dsd_entries_of(records)))
            },
            None => Err(no_session(session_id)),
        }
    }
}

/// The name of the copy that is kept of a plugin file before it is
/// overwritten: the file's path, the time of the copy and `bak`, joined by
/// dots.
pub fn backup_file_name(plugin_path: &str, timestamp: &str) -> (r: String)
    ensures
        r@ == plugin_path@ + "."@ + timestamp@ + ".bak"@,
{
    let mut name = String::from_str(plugin_path);
    name.append(".");
    name.append(timestamp);
    name.append(".bak");
    name
}

/// The name under which the session of a plugin is kept: the file name of
/// the plugin's path. A path without a file name that is text has none.
pub fn session_id_of(plugin_path: &PluginPath) -> (r: Result<String, String>)
    ensures
        match plugin_path.file_name {
            Some(name) => r is Ok && r->Ok_0@ == name@,
            None => r is Err && r->Err_0@ == invalid_path_message(),
        },
{
    match &plugin_path.file_name {
        Some(name) => Ok(name.clone()),
        None => Err(String::from_str("无效的插件路径")),
    }
}

/// The message for a session that is not there.
pub fn no_session(session_id: &str) -> (r: String)
    ensures
        r@ == no_session_message(session_id@),
{
    let mut message = String::from_str("Session ");
    message.append(session_id);
    message.append(" 不存在");
    message
}

} // verus!
