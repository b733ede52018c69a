//! Extraction of strings from plugins: the plugins of the base game, the
//! statistics of a run, and the records of a reference plugin.

use crate::coverage::copy_opt;
use crate::plugin_session::{extracted_views, indexed_key, string_key, ExtractedText, ExtractedView};
use crate::text::str_eq;
use crate::translation::Translation;
use vstd::prelude::*;
use vstd::string::*;

verus! {

/// The outcome of extracting a set of plugin files.
#[derive(Debug, Clone)]
pub struct ExtractionStats {
    pub total_files: usize,
    pub successful_files: usize,
    pub failed_files: usize,
    pub total_strings: usize,
    /// The files that were not found.
    pub skipped_files: Vec<String>,
    pub errors: Vec<String>,
}

impl ExtractionStats {
    /// The statistics before any of the `total_files` files was tried.
    pub fn new(total_files: usize) -> (r: ExtractionStats)
        ensures
            r.total_files == total_files,
            r.successful_files == 0,
            r.failed_files == 0,
            r.total_strings == 0,
            r.skipped_files@.len() == 0,
            r.errors@.len() == 0,
    {
        ExtractionStats {
            total_files,
            successful_files: 0,
            failed_files: 0,
            total_strings: 0,
            skipped_files: Vec::new(),
            errors: Vec::new(),
        }
    }
}

impl ExtractionStats {
    /// Counts a file from which `count` strings were extracted. A counter
    /// that is at its maximum stays there.
    pub fn record_success(&mut self, count: usize)
        ensures
            final(self).successful_files == if old(self).successful_files < usize::MAX {
                old(self).successful_files + 1
            } else {
                usize::MAX as int
            },
            final(self).total_strings == if old(self).total_strings + count <= usize::MAX {
                old(self).total_strings + count
            } else {
                usize::MAX as int
            },
            final(self).total_files == old(self).total_files,
            final(self).failed_files == old(self).failed_files,
            final(self).skipped_files == old(self).skipped_files,
            final(self).errors == old(self).errors,
    {
        if self.successful_files < usize::MAX {
            self.successful_files = self.successful_files + 1;
        }
        if count <= usize::MAX - self.total_strings {
            self.total_strings = self.total_strings + count;
        } else {
            self.total_strings = usize::MAX;
        }
    }

    /// Counts a file that could not be extracted, and keeps the reason
    /// under the file's name.
    pub fn record_failure(&mut self, plugin_name: &str, reason: &str)
        ensures
            final(self).failed_files == if old(self).failed_files < usize::MAX {
                old(self).failed_files + 1
            } else {
                usize::MAX as int
            },
            final(self).errors@.len() == old(self).errors@.len() + 1,
            final(self).errors@.last()@ == plugin_name@ + ": "@ + reason@,
            final(self).errors@.drop_last() == old(self).errors@,
            final(self).total_files == old(self).total_files,
            final(self).successful_files == old(self).successful_files,
            final(self).total_strings == old(self).total_strings,
            final(self).skipped_files == old(self).skipped_files,
    {
        if self.failed_files < usize::MAX {
            self.failed_files = self.failed_files + 1;
        }
        let mut message = String::from_str(plugin_name);
        message.append(": ");
        message.append(reason);
        let ghost before = self.errors@;
        self.errors.push(message);
        assert(self.errors@.drop_last() =~= before);
    }

    /// Notes a file that was not found.
    pub fn record_skipped(&mut self, plugin_name: &str)
        ensures
            final(self).skipped_files@.len() == old(self).skipped_files@.len() + 1,
            final(self).skipped_files@.last()@ == plugin_name@,
            final(self).skipped_files@.drop_last() == old(self).skipped_files@,
            final(self).total_files == old(self).total_files,
            final(self).successful_files == old(self).successful_files,
            final(self).failed_files == old(self).failed_files,
            final(self).total_strings == old(self).total_strings,
            final(self).errors == old(self).errors,
    {
        let ghost before = self.skipped_files@;
        self.skipped_files.push(String::from_str(plugin_name));
        assert(self.skipped_files@.drop_last() =~= before);
    }
}

/// The key of an extracted string.
pub open spec fn key_of(e: ExtractedView) -> Seq<char> {
    indexed_key(e.form_id, e.record_type, e.subrecord_type, e.index as int)
}

/// The text of the last string of the list that has this key.
pub open spec fn text_under(strings: Seq<ExtractedView>, key: Seq<char>) -> Option<Seq<char>>
    decreases strings.len(),
{
    if strings.len() == 0 {
        None
    } else if key_of(strings.last()) == key {
        Some(strings.last().text)
    } else {
        text_under(strings.drop_last(), key)
    }
}

/// The text of the last string of the list that has this key.
pub fn find_text<'a>(strings: &'a Vec<ExtractedText>, key: &str) -> (r: Option<&'a String>)
    ensures
        match text_under(extracted_views(strings@), key@) {
            Some(text) => r is Some && r->0@ == text,
            None => r is None,
        },
{
    let ghost all = extracted_views(strings@);
    let mut i: usize = strings.len();
    assert(all.subrange(0, i as int) =~= all);
    while i > 0
        invariant
            0 <= i <= strings.len(),
            all == extracted_views(strings@),
            text_under(all, key@) == text_under(all.subrange(0, i as int), key@),
        decreases i,
    {
        proof {
            let part = all.subrange(0, i as int);
            assert(part.drop_last() =~= all.subrange(0, i - 1));
            assert(part.last() == strings[i - 1]@);
        }
        let s = &strings[i - 1];
        let candidate = string_key(
            s.form_id.as_str(),
            s.record_type.as_str(),
            s.subrecord_type.as_str(),
            s.index as i64,
        );
        if str_eq(candidate.as_str(), key) {
            return Some(&s.text);
        }
        i -= 1;
    }
    None
}

/// What a translation holds, as plain values.
pub struct TranslationView {
    pub form_id: Seq<char>,
    pub record_type: Seq<char>,
    pub subrecord_type: Seq<char>,
    pub index: u32,
    pub editor_id: Option<Seq<char>>,
    pub original_text: Seq<char>,
    pub translated_text: Seq<char>,
    pub plugin_name: Option<Seq<char>>,
    pub created_at: i64,
    pub updated_at: i64,
}

/// The translations of a list, each as plain values.
pub open spec fn translation_views(ts: Seq<Translation>) -> Seq<TranslationView> {
    ts.map_values(
        |t: Translation|
            TranslationView {
                form_id: t.form_id@,
                record_type: t.record_type@,
                subrecord_type: t.subrecord_type@,
                index: t.index,
                editor_id: crate::coverage::opt_text(t.editor_id),
                original_text: t.original_text@,
                translated_text: t.translated_text@,
                plugin_name: crate::coverage::opt_text(t.plugin_name),
                created_at: t.created_at,
                updated_at: t.updated_at,
            },
    )
}

/// The translation of an English string: the text of the Chinese string
/// with the same key, or the English text itself where there is none.
pub open spec fn paired(e: ExtractedView, chinese: Seq<ExtractedView>, plugin_name: Option<Seq<char>>, now: i64) -> TranslationView {
    TranslationView {
        form_id: e.form_id,
        record_type: e.record_type,
        subrecord_type: e.subrecord_type,
        index: e.index as u32,
        editor_id: e.editor_id,
        original_text: e.text,
        translated_text: match text_under(chinese, key_of(e)) {
            Some(text) => text,
            None => e.text,
        },
        plugin_name,
        created_at: now,
        updated_at: now,
    }
}

/// Pairs the English strings of a plugin with its Chinese ones: one
/// translation for each English string, in their order, stamped `now`.
pub fn pair_translations(
    english: &Vec<ExtractedText>,
    chinese: &Vec<ExtractedText>,
    plugin_name: &Option<String>,
    now: i64,
) -> (r: Vec<Translation>)
    ensures
        translation_views(r@) == extracted_views(english@).map_values(
            |e: ExtractedView|
                paired(e, extracted_views(chinese@), crate::coverage::opt_text(*plugin_name), now),
        ),
{
    let mut out: Vec<Translation> = Vec::new();
    let mut i: usize = 0;
    while i < english.len()
        invariant
            0 <= i <= english.len(),
            out.len() == i,
            forall|k: int|
                0 <= k < i ==> #[trigger] translation_views(out@)[k] == paired(
                    english[k]@,
                    extracted_views(chinese@),
                    crate::coverage::opt_text(*plugin_name),
                    now,
                ),
        decreases english.len() - i,
    {
        let e = &english[i];
        let key = string_key(
            e.form_id.as_str(),
            e.record_type.as_str(),
            e.subrecord_type.as_str(),
            e.index as i64,
        );
        let translated_text = match find_text(chinese, key.as_str()) {
            Some(text) => text.clone(),
            None => e.text.clone(),
        };
        let ghost before = translation_views(out@);
        out.push(
            Translation {
                form_id: e.form_id.clone(),
                record_type: e.record_type.clone(),
                subrecord_type: e.subrecord_type.clone(),
                index: #[verifier::truncate]
                (e.index as u32),
                editor_id: copy_opt(&e.editor_id),
                original_text: e.text.clone(),
                translated_text,
                plugin_name: copy_opt(plugin_name),
                created_at: now,
                updated_at: now,
            },
        );
        assert(translation_views(out@) =~= before.push(
            paired(e@, extracted_views(chinese@), crate::coverage::opt_text(*plugin_name), now),
        ));
        i += 1;
    }
    assert(translation_views(out@) =~= extracted_views(english@).map_values(
        |e: ExtractedView|
            paired(e, extracted_views(chinese@), crate::coverage::opt_text(*plugin_name), now),
    ));
    out
}

/// The number of translations whose text differs from the original.
pub open spec fn differing(ts: Seq<TranslationView>) -> int
    decreases ts.len(),
{
    if ts.len() == 0 {
        0
    } else {
        differing(ts.drop_last()) + if ts.last().original_text != ts.last().translated_text {
            1int
        } else {
            0int
        }
    }
}

/// The number of translations whose text differs from the original.
pub fn matched_count(translations: &Vec<Translation>) -> (r: usize)
    ensures
        r == differing(translation_views(translations@)),
{
    let ghost all = translation_views(translations@);
    let mut count: usize = 0;
    let mut i: usize = 0;
    assert(all.subrange(0, 0) =~= Seq::<TranslationView>::empty());
    while i < translations.len()
        invariant
            0 <= i <= translations.len(),
            all == translation_views(translations@),
            count == differing(all.subrange(0, i as int)),
            count <= i,
        decreases translations.len() - i,
    {
        proof {
            let part = all.subrange(0, i + 1);
            assert(part.drop_last() =~= all.subrange(0, i as int));
            assert(part.last() == all[i as int]);
        }
        if !str_eq(
            translations[i].original_text.as_str(),
            translations[i].translated_text.as_str(),
        ) {
            count += 1;
        }
        i += 1;
    }
    assert(all.subrange(0, translations.len() as int) =~= all);
    count
}

/// The file names of the base game's plugins.
pub open spec fn base_plugin_names() -> Seq<Seq<char>> {
    seq![
        "Skyrim.esm"@,
        "Update.esm"@,
        "HearthFires.esm"@,
        "Dragonborn.esm"@,
        "Dawnguard.esm"@,
        "ccQDRSSE001-SurvivalMode.esl"@,
        "ccBGSSSE037-Curios.esl"@,
        "ccBGSSSE025-AdvDSGS.esm"@,
        "ccBGSSSE001-Fish.esm"@,
    ]
}

/// The file names of the base game's plugins.
pub fn get_base_plugins() -> (r: Vec<String>)
    ensures
        r@.map_values(|s: String| s@) == base_plugin_names(),
{
    let mut names: Vec<String> = Vec::new();
    names.push(String::from_str("Skyrim.esm"));
    names.push(String::from_str("Update.esm"));
    names.push(String::from_str("HearthFires.esm"));
    names.push(String::from_str("Dragonborn.esm"));
    names.push(String::from_str("Dawnguard.esm"));
    names.push(String::from_str("ccQDRSSE001-SurvivalMode.esl"));
    names.push(String::from_str("ccBGSSSE037-Curios.esl"));
    names.push(String::from_str("ccBGSSSE025-AdvDSGS.esm"));
    names.push(String::from_str("ccBGSSSE001-Fish.esm"));
    assert(names@.map_values(|s: String| s@) =~= base_plugin_names());
    names
}

/// One translated string of a reference plugin.
#[derive(Debug, Clone)]
pub struct ReferenceRecord {
    pub form_id: String,
    pub record_type: String,
    pub subrecord_type: String,
    pub index: i32,
    pub original_text: String,
    pub translated_text: String,
}

/// What loading a reference plugin found.
#[derive(Debug, Clone)]
pub struct EspReferencePayload {
    pub session_id: String,
    pub source_plugin_name: String,
    pub total_count: usize,
    pub matched_count: usize,
    pub records: Vec<ReferenceRecord>,
}

/// Why loading a reference plugin failed.
#[derive(Debug, Clone)]
pub struct EspReferenceErrorPayload {
    pub session_id: String,
    pub error: String,
}

/// What a reference record holds, as plain values.
pub struct ReferenceView {
    pub form_id: Seq<char>,
    pub record_type: Seq<char>,
    pub subrecord_type: Seq<char>,
    pub index: i32,
    pub original_text: Seq<char>,
    pub translated_text: Seq<char>,
}

/// The records of a list, each as plain values.
pub open spec fn reference_views(records: Seq<ReferenceRecord>) -> Seq<ReferenceView> {
    records.map_values(
        |r: ReferenceRecord|
            ReferenceView {
                form_id: r.form_id@,
                record_type: r.record_type@,
                subrecord_type: r.subrecord_type@,
                index: r.index,
                original_text: r.original_text@,
                translated_text: r.translated_text@,
            },
    )
}

/// The English text that a Chinese string translates: that of the English
/// string with the same key, where it is not empty and differs from the
/// Chinese text.
pub open spec fn translated_from(c: ExtractedView, english: Seq<ExtractedView>) -> Option<Seq<char>> {
    match text_under(english, key_of(c)) {
        Some(text) => if text.len() > 0 && c.text != text {
            Some(text)
        } else {
            None
        },
        None => None,
    }
}

/// The reference records of a translated plugin: one for each Chinese
/// string that translates an English one, in the order of the Chinese
/// strings.
pub open spec fn references(chinese: Seq<ExtractedView>, english: Seq<ExtractedView>) -> Seq<ReferenceView>
    decreases chinese.len(),
{
    if chinese.len() == 0 {
        Seq::empty()
    } else {
        let rest = references(chinese.drop_last(), english);
        let c = chinese.last();
        match translated_from(c, english) {
            Some(original) => rest.push(
                ReferenceView {
                    form_id: c.form_id,
                    record_type: c.record_type,
                    subrecord_type: c.subrecord_type,
                    index: c.index,
                    original_text: original,
                    translated_text: c.text,
                },
            ),
            None => rest,
        }
    }
}

/// The reference records of a translated plugin, from its English and its
/// Chinese strings.
pub fn reference_records(english: &Vec<ExtractedText>, chinese: &Vec<ExtractedText>) -> (r: Vec<ReferenceRecord>)
    ensures
        reference_views(r@) == references(extracted_views(chinese@), extracted_views(english@)),
{
    let ghost all = extracted_views(chinese@);
    let ghost en = extracted_views(english@);
    let mut out: Vec<ReferenceRecord> = Vec::new();
    let mut i: usize = 0;
    assert(all.subrange(0, 0) =~= Seq::<ExtractedView>::empty());
    assert(reference_views(out@) =~= Seq::<ReferenceView>::empty());
    while i < chinese.len()
        invariant
            0 <= i <= chinese.len(),
            all == extracted_views(chinese@),
            en == extracted_views(english@),
            reference_views(out@) == references(all.subrange(0, i as int), en),
        decreases chinese.len() - i,
    {
        let c = &chinese[i];
        proof {
            let part = all.subrange(0, i + 1);
            assert(part.drop_last() =~= all.subrange(0, i as int));
            assert(part.last() == c@);
        }
        let key = string_key(
            c.form_id.as_str(),
            c.record_type.as_str(),
            c.subrecord_type.as_str(),
            c.index as i64,
        );
        match find_text(english, key.as_str()) {
            Some(original) => {
                if !original.as_str().is_empty() && !str_eq(c.text.as_str(), original.as_str()) {
                    let ghost before = reference_views(out@);
                    out.push(
                        ReferenceRecord {
                            form_id: c.form_id.clone(),
                            record_type: c.record_type.clone(),
                            subrecord_type: c.subrecord_type.clone(),
                            index: c.index,
                            original_text: original.clone(),
                            translated_text: c.text.clone(),
                        },
                    );
                    assert(reference_views(out@) =~= before.push(
                        ReferenceView {
                            form_id: c@.form_id,
                            record_type: c@.record_type,
                            subrecord_type: c@.subrecord_type,
                            index: c@.index,
                            original_text: original@,
                            translated_text: c@.text,
                        },
                    ));
                }
            },
            None => {},
        }
        i += 1;
    }
    assert(all.subrange(0, chinese.len() as int) =~= all);
    out
}

} // verus!
