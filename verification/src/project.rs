//! Project files and their automatic history: which documents may be saved, opened or
//! restored, how history snapshots are named, listed and pruned, and sorted text listings.

use vstd::prelude::*;
use vstd::slice::slice_subrange;

use crate::order::{
    by_text_key, lemma_by_text_key_strict_weak, lemma_insert_stable_at,
    lemma_reversed_strict_weak, lemma_stable_sort_multiset, lemma_stable_sort_ordered, ordered_by,
    reversed, stable_sort, text_bytes, text_less,
};
use crate::codec::{begins_with, concat_error, eq_ignore_ascii_case, eq_ignore_ascii_case_spec};
use crate::text::{decimal, push_decimal};
use crate::windows::{trim_text, trimmed};

verus! {

// ---------------------------------------------------------------- documents

/// A project `version` this tool reads: 1 to 4.
pub open spec fn version_supported(version: Option<u64>) -> bool {
    version matches Some(v) && 1 <= v <= 4
}

/// A project document: a supported `version` (read as an unsigned integer) and an `objects`
/// array. `objects_is_array` is `None` when the document has no `objects` member.
pub open spec fn document_valid(version: Option<u64>, objects_is_array: Option<bool>) -> bool {
    version_supported(version) && objects_is_array == Some(true)
}

fn supported(version: Option<u64>) -> (ok: bool)
    ensures
        ok == version_supported(version),
{
    match version {
        Some(v) => 1 <= v && v <= 4,
        None => false,
    }
}

/// Checks a project document before it is saved.
pub fn check_saved_document(version: Option<u64>, objects_is_array: Option<bool>) -> (res: Result<(), String>)
    ensures
        res is Ok <==> document_valid(version, objects_is_array),
        !version_supported(version) ==> (res matches Err(t) && t@ == "E4002: 项目 version 必须是受支持的 1～4"@),
        version_supported(version) && objects_is_array != Some(true) ==> (res matches Err(t) && t@
            == "E4002: 项目 objects 必须是数组"@),
{
    if !supported(version) {
        return Err(String::from_str("E4002: 项目 version 必须是受支持的 1～4"));
    }
    if objects_is_array != Some(true) {
        return Err(String::from_str("E4002: 项目 objects 必须是数组"));
    }
    Ok(())
}

/// Checks a project document that was opened.
pub fn check_opened_document(version: Option<u64>, objects_is_array: Option<bool>) -> (res: Result<(), String>)
    ensures
        res is Ok <==> document_valid(version, objects_is_array),
        res matches Err(t) ==> t@ == "E4103: 不是有效的 ImageSitter 项目文件"@,
{
    if !supported(version) || objects_is_array != Some(true) {
        return Err(String::from_str("E4103: 不是有效的 ImageSitter 项目文件"));
    }
    Ok(())
}

/// Checks a history snapshot before it is handed out for restoring.
pub fn check_snapshot_document(version: Option<u64>, objects_is_array: Option<bool>) -> (res: Result<(), String>)
    ensures
        res is Ok <==> document_valid(version, objects_is_array),
        res matches Err(t) ==> t@ == "E4454: 历史快照不是有效项目"@,
{
    if !supported(version) || objects_is_array != Some(true) {
        return Err(String::from_str("E4454: 历史快照不是有效项目"));
    }
    Ok(())
}

/// The file a save replaces goes into the history only when it parses as JSON with an
/// `objects` array, so that a damaged file never enters the history.
pub fn snapshot_worth_keeping(parsed: bool, objects_is_array: Option<bool>) -> (keep: bool)
    ensures
        keep == (parsed && objects_is_array == Some(true)),
{
    parsed && objects_is_array == Some(true)
}

// ---------------------------------------------------------------- document text

/// `serde_json`'s error.
#[verifier::external_type_specification]
#[verifier::external_body]
pub struct ExJsonError(serde_json::Error);

/// What `serde_json` reads of a document's text: the top-level `version` as an unsigned
/// integer (`None` when it is missing or is no such number) and whether `objects` is an array
/// (`None` when it is missing); `None` when the text is not JSON.
pub uninterp spec fn json_document_shape(text: Seq<u8>) -> Option<(Option<u64>, Option<bool>)>;

/// `serde_json::from_slice::<serde_json::Value>`, then `get("version")` with `as_u64` and
/// `get("objects")` with `is_array`: the shape of the document, or the parser's error. The
/// result is the named shape of the bytes.
#[verifier::external_body]
fn document_shape(content: &[u8]) -> (res: Result<(Option<u64>, Option<bool>), serde_json::Error>)
    ensures
        res is Ok <==> json_document_shape(content@) is Some,
        res matches Ok(shape) ==> Some(shape) == json_document_shape(content@),
{
    match serde_json::from_slice::<serde_json::Value>(content) {
        Ok(value) => Ok((
            value.get("version").and_then(serde_json::Value::as_u64),
            value.get("objects").map(serde_json::Value::is_array),
        )),
        Err(error) => Err(error),
    }
}

/// The display text of a `serde_json` error (its `Display` impl); nothing is claimed of it.
#[verifier::external_body]
fn json_error_text(e: &serde_json::Error) -> String {
    format!("{e}")
}

/// Checks the text of a project document before it is saved: it must be JSON, and then pass
/// `check_saved_document`.
pub fn check_saved_content(content: &[u8]) -> (res: Result<(), String>)
    ensures
        json_document_shape(content@) is None ==> (res matches Err(t) && begins_with(
            t@,
            "E4001: 项目内容不是合法 JSON："@,
        )),
        json_document_shape(content@) matches Some((version, objects)) ==> {
            &&& res is Ok <==> document_valid(version, objects)
            &&& !version_supported(version) ==> (res matches Err(t) && t@ == "E4002: 项目 version 必须是受支持的 1～4"@)
            &&& version_supported(version) && objects != Some(true) ==> (res matches Err(t) && t@
                == "E4002: 项目 objects 必须是数组"@)
        },
{
    match document_shape(content) {
        Ok((version, objects)) => check_saved_document(version, objects),
        Err(error) => Err(concat_error("E4001: 项目内容不是合法 JSON：", json_error_text(&error))),
    }
}

/// Checks the text of a project document that was opened: it must be JSON, and then pass
/// `check_opened_document`.
pub fn check_opened_content(content: &[u8]) -> (res: Result<(), String>)
    ensures
        json_document_shape(content@) is None ==> (res matches Err(t) && begins_with(
            t@,
            "E4102: 文件不是合法 JSON："@,
        )),
        json_document_shape(content@) matches Some((version, objects)) ==> {
            &&& res is Ok <==> document_valid(version, objects)
            &&& res matches Err(t) ==> t@ == "E4103: 不是有效的 ImageSitter 项目文件"@
        },
{
    match document_shape(content) {
        Ok((version, objects)) => check_opened_document(version, objects),
        Err(error) => Err(concat_error("E4102: 文件不是合法 JSON：", json_error_text(&error))),
    }
}

/// Checks the text of a history snapshot before it is handed out: it must be JSON, and then
/// pass `check_snapshot_document`.
pub fn check_snapshot_content(content: &[u8]) -> (res: Result<(), String>)
    ensures
        json_document_shape(content@) is None ==> (res matches Err(t) && begins_with(
            t@,
            "E4454: 历史快照已损坏："@,
        )),
        json_document_shape(content@) matches Some((version, objects)) ==> {
            &&& res is Ok <==> document_valid(version, objects)
            &&& res matches Err(t) ==> t@ == "E4454: 历史快照不是有效项目"@
        },
{
    match document_shape(content) {
        Ok((version, objects)) => check_snapshot_document(version, objects),
        Err(error) => Err(concat_error("E4454: 历史快照已损坏：", json_error_text(&error))),
    }
}

/// Whether the file that a save replaces goes into the history: its text must be JSON with an
/// `objects` array (`snapshot_worth_keeping`).
pub fn replaced_file_worth_keeping(content: &[u8]) -> (keep: bool)
    ensures
        keep == (json_document_shape(content@) matches Some((_, objects)) && objects == Some(true)),
{
    match document_shape(content) {
        Ok((_, objects)) => snapshot_worth_keeping(true, objects),
        Err(_) => snapshot_worth_keeping(false, None),
    }
}

/// A text report is saved only up to 64 MiB.
pub fn check_report_size(len: usize) -> (res: Result<(), String>)
    ensures
        res is Ok <==> len <= 64 * 1024 * 1024,
        res matches Err(t) ==> t@ == "E4420: 报告超过 64 MiB 上限"@,
{
    if len > 64 * 1024 * 1024 {
        Err(String::from_str("E4420: 报告超过 64 MiB 上限"))
    } else {
        Ok(())
    }
}

// ---------------------------------------------------------------- snapshot names

pub open spec fn has_byte(s: Seq<u8>, b: u8) -> bool {
    exists|i: int| 0 <= i < s.len() && s[i] == b
}

/// The bytes of ".json".
pub open spec fn json_suffix() -> Seq<u8> {
    seq![46u8, 106u8, 115u8, 111u8, 110u8]
}

pub open spec fn ends_with_bytes(s: Seq<u8>, suffix: Seq<u8>) -> bool {
    suffix.len() <= s.len() && s.skip(s.len() - suffix.len()) == suffix
}

/// A snapshot name that may be read back: a plain `*.json` file name, without path separators.
pub open spec fn snapshot_name_ok(name: Seq<char>) -> bool {
    let b = text_bytes(name);
    &&& b.len() > 0
    &&& !has_byte(b, 47)
    &&& !has_byte(b, 92)
    &&& ends_with_bytes(b, json_suffix())
}

fn json_suffix_bytes() -> (b: [u8; 5])
    ensures
        b@ == json_suffix(),
{
    let b = [46u8, 106u8, 115u8, 111u8, 110u8];
    assert(b@ =~= json_suffix());
    b
}

fn ends_with_json(b: &[u8]) -> (yes: bool)
    ensures
        yes == ends_with_bytes(b@, json_suffix()),
{
    let suffix = json_suffix_bytes();
    if b.len() < 5 {
        return false;
    }
    let n: usize = b.len();
    let start: usize = n - 5;
    let mut i: usize = 0;
    while i < 5
        invariant
            start == b@.len() - 5,
            start + 5 == b@.len(),
            b@.len() <= usize::MAX,
            suffix@ == json_suffix(),
            i <= 5,
            forall|k: int| 0 <= k < i ==> b@[start + k] == suffix@[k],
        decreases 5 - i,
    {
        if b[start + i] != suffix[i] {
            assert(b@.skip(start as int)[i as int] != json_suffix()[i as int]);
            return false;
        }
        i = i + 1;
    }
    assert(b@.skip(start as int) =~= json_suffix());
    true
}

fn find_byte(b: &[u8], target: u8) -> (found: bool)
    ensures
        found == has_byte(b@, target),
{
    let mut i: usize = 0;
    while i < b.len()
        invariant
            i <= b@.len(),
            forall|k: int| 0 <= k < i ==> b@[k] != target,
        decreases b@.len() - i,
    {
        if b[i] == target {
            return true;
        }
        i = i + 1;
    }
    false
}

/// A snapshot is read back only by a plain `*.json` name (no directories can be reached).
pub fn check_snapshot_name(file_name: &str) -> (res: Result<(), String>)
    ensures
        res is Ok <==> snapshot_name_ok(file_name@),
        res matches Err(t) ==> t@ == "E4452: 历史快照名无效"@,
{
    let b = file_name.as_bytes();
    if b.len() == 0 || find_byte(b, 47) || find_byte(b, 92) || !ends_with_json(b) {
        return Err(String::from_str("E4452: 历史快照名无效"));
    }
    Ok(())
}

/// The name of a snapshot taken at `millis` milliseconds since the Unix epoch.
pub fn snapshot_file_name(millis: u128) -> (name: String)
    ensures
        name@ == decimal(millis as nat) + ".json"@,
{
    let mut s = String::new();
    push_decimal(&mut s, millis);
    s.append(".json");
    s
}

// ---------------------------------------------------------------- decimal numbers

pub open spec fn is_digit(b: u8) -> bool {
    48 <= b <= 57
}

pub open spec fn digits_value(d: Seq<u8>) -> int
    decreases d.len(),
{
    if d.len() == 0 {
        0
    } else {
        digits_value(d.drop_last()) * 10 + (d.last() - 48)
    }
}

pub open spec fn all_digits(d: Seq<u8>) -> bool {
    forall|i: int| 0 <= i < d.len() ==> is_digit(#[trigger] d[i])
}

/// The bytes after an optional leading `+`.
pub open spec fn unsigned_digits(s: Seq<u8>) -> Seq<u8> {
    if s.len() > 0 && s[0] == 43 {
        s.drop_first()
    } else {
        s
    }
}

/// What `str::parse::<u64>` gives for these bytes: an optional `+`, then one or more decimal
/// digits whose value fits in 64 bits.
pub open spec fn parsed_u64(s: Seq<u8>) -> Option<u64> {
    let d = unsigned_digits(s);
    if d.len() > 0 && all_digits(d) && digits_value(d) <= u64::MAX {
        Some(digits_value(d) as u64)
    } else {
        None
    }
}

proof fn lemma_digits_value_grows(d: Seq<u8>, i: int)
    requires
        0 <= i <= d.len(),
        forall|k: int| 0 <= k < d.len() ==> is_digit(#[trigger] d[k]),
    ensures
        0 <= digits_value(d.take(i)) <= digits_value(d),
    decreases d.len() - i,
{
    if i < d.len() {
        lemma_digits_value_grows(d, i + 1);
        assert(d.take(i + 1).drop_last() =~= d.take(i));
        assert(d.take(i + 1).last() == d[i]);
    } else {
        assert(d.take(i) =~= d);
    }
    lemma_digits_value_nonneg(d.take(i));
}

proof fn lemma_digits_value_nonneg(d: Seq<u8>)
    requires
        forall|k: int| 0 <= k < d.len() ==> is_digit(#[trigger] d[k]),
    ensures
        0 <= digits_value(d),
    decreases d.len(),
{
    if d.len() > 0 {
        lemma_digits_value_nonneg(d.drop_last());
        assert(is_digit(d[d.len() - 1]));
    }
}

/// Parses an unsigned 64-bit decimal number as `str::parse::<u64>` does.
pub fn parse_u64(s: &[u8]) -> (v: Option<u64>)
    ensures
        v == parsed_u64(s@),
{
    let start: usize = if s.len() > 0 && s[0] == 43 { 1 } else { 0 };
    let ghost d = s@.skip(start as int);
    assert(d =~= unsigned_digits(s@));
    if start == s.len() {
        return None;
    }
    let mut value: u64 = 0;
    let mut i: usize = start;
    while i < s.len()
        invariant
            start <= i <= s@.len(),
            d == s@.skip(start as int),
            d == unsigned_digits(s@),
            value == digits_value(d.take(i - start)),
            forall|k: int| 0 <= k < i - start ==> is_digit(#[trigger] d[k]),
        decreases s@.len() - i,
    {
        let c = s[i];
        proof {
            assert(d.take(i - start + 1).drop_last() =~= d.take(i - start));
            assert(d[i - start] == c);
        }
        if c < 48 || c > 57 {
            assert(!is_digit(d[i - start]));
            return None;
        }
        let next = match value.checked_mul(10) {
            Some(t) => t.checked_add((c - 48) as u64),
            None => None,
        };
        match next {
            Some(n) => {
                value = n;
            },
            None => {
                proof {
                    if all_digits(d) {
                        lemma_digits_value_grows(d, i - start + 1);
                    }
                }
                return None;
            },
        }
        i = i + 1;
    }
    assert(d.take(i - start) =~= d);
    Some(value)
}

// ---------------------------------------------------------------- history listing

/// One automatic history snapshot of a project.
#[derive(Debug)]
pub struct ProjectHistoryEntry {
    pub file_name: String,
    /// When it was taken (milliseconds since the Unix epoch), read from its name; 0 when the
    /// name holds no such number.
    pub saved_at: u64,
    pub size: u64,
}

pub ghost struct HistoryEntryView {
    pub file_name: Seq<char>,
    pub saved_at: u64,
    pub size: u64,
}

impl View for ProjectHistoryEntry {
    type V = HistoryEntryView;

    open spec fn view(&self) -> HistoryEntryView {
        HistoryEntryView { file_name: self.file_name@, saved_at: self.saved_at, size: self.size }
    }
}

pub open spec fn history_views(s: Seq<ProjectHistoryEntry>) -> Seq<HistoryEntryView> {
    s.map_values(|e: ProjectHistoryEntry| e@)
}

/// The time a snapshot name records: `<millis>.json`, else 0.
pub open spec fn saved_at_spec(name: Seq<char>) -> u64 {
    let b = text_bytes(name);
    if ends_with_bytes(b, json_suffix()) {
        match parsed_u64(b.take(b.len() - 5)) {
            Some(v) => v,
            None => 0,
        }
    } else {
        0
    }
}

/// The history entry for a snapshot file of `size` bytes.
pub fn history_entry(file_name: String, size: u64) -> (e: ProjectHistoryEntry)
    ensures
        e@ == (HistoryEntryView { file_name: file_name@, saved_at: saved_at_spec(file_name@), size }),
{
    let b = file_name.as_str().as_bytes();
    let saved_at: u64 = if ends_with_json(b) {
        let stem = slice_subrange(b, 0, b.len() - 5);
        assert(stem@ =~= b@.take(b@.len() - 5));
        match parse_u64(stem) {
            Some(v) => v,
            None => 0,
        }
    } else {
        0
    };
    ProjectHistoryEntry { file_name, saved_at, size }
}

/// Newer snapshots come first.
pub open spec fn newest_first() -> spec_fn(HistoryEntryView, HistoryEntryView) -> bool {
    |a: HistoryEntryView, b: HistoryEntryView| a.saved_at > b.saved_at
}

/// The history as listed: newest first (snapshots taken at the same time keep their order),
/// at most 30 entries.
pub open spec fn history_listing(entries: Seq<HistoryEntryView>) -> Seq<HistoryEntryView> {
    let sorted = stable_sort(entries, newest_first());
    if sorted.len() > 30 {
        sorted.take(30)
    } else {
        sorted
    }
}

fn copy_entry(e: &ProjectHistoryEntry) -> (c: ProjectHistoryEntry)
    ensures
        c@ == e@,
{
    ProjectHistoryEntry { file_name: e.file_name.clone(), saved_at: e.saved_at, size: e.size }
}

/// Orders history entries newest first and keeps the 30 newest.
pub fn order_history(entries: &Vec<ProjectHistoryEntry>) -> (listed: Vec<ProjectHistoryEntry>)
    ensures
        history_views(listed@) == history_listing(history_views(entries@)),
        ordered_by(history_views(listed@), newest_first()),
        listed@.len() <= 30,
{
    let ghost all = history_views(entries@);
    let ghost before = newest_first();
    let mut out: Vec<ProjectHistoryEntry> = Vec::new();
    let mut i: usize = 0;
    while i < entries.len()
        invariant
            all == history_views(entries@),
            before == newest_first(),
            i <= entries@.len(),
            history_views(out@) == stable_sort(all.take(i as int), before),
            out@.len() == i,
        decreases entries@.len() - i,
    {
        let x = copy_entry(&entries[i]);
        let ghost s = history_views(out@);
        let mut j: usize = out.len();
        while j > 0 && x.saved_at > out[j - 1].saved_at
            invariant
                s == history_views(out@),
                before == newest_first(),
                j <= out@.len(),
                forall|k: int| j <= k < s.len() ==> #[trigger] before(x@, s[k]),
            decreases j,
        {
            assert(s[j - 1] == out@[j - 1]@);
            j = j - 1;
        }
        proof {
            if j > 0 {
                assert(s[j - 1] == out@[j - 1]@);
            }
            lemma_insert_stable_at(s, x@, before, j as int);
            assert(all.take(i + 1).drop_last() =~= all.take(i as int));
            assert(all.take(i + 1).last() == x@);
        }
        out.insert(j, x);
        proof {
            assert(history_views(out@) =~= s.insert(j as int, x@));
        }
        i = i + 1;
    }
    assert(all.take(entries@.len() as int) =~= all);
    proof {
        assert(strict_weak_newest()) by {
            lemma_newest_first_strict_weak();
        }
        lemma_stable_sort_ordered(all, newest_first());
    }
    if out.len() > 30 {
        out.truncate(30);
        assert(history_views(out@) =~= stable_sort(all, newest_first()).take(30));
    }
    out
}

pub open spec fn strict_weak_newest() -> bool {
    crate::order::strict_weak(newest_first())
}

proof fn lemma_newest_first_strict_weak()
    ensures
        strict_weak_newest(),
{
}

// ---------------------------------------------------------------- sorted text listings

/// Text order, ascending or descending.
pub open spec fn text_order(descending: bool) -> spec_fn(Seq<char>, Seq<char>) -> bool {
    if descending {
        reversed(by_text_key(|t: Seq<char>| t))
    } else {
        by_text_key(|t: Seq<char>| t)
    }
}

pub open spec fn text_views(s: Seq<String>) -> Seq<Seq<char>> {
    s.map_values(|t: String| t@)
}

fn precedes(descending: bool, a: &str, b: &str) -> (p: bool)
    ensures
        p == text_order(descending)(a@, b@),
{
    if descending {
        text_less(b, a)
    } else {
        text_less(a, b)
    }
}

/// Sorts texts by their bytes, ascending or descending.
pub fn sort_texts(texts: &Vec<String>, descending: bool) -> (sorted: Vec<String>)
    ensures
        text_views(sorted@) == stable_sort(text_views(texts@), text_order(descending)),
        ordered_by(text_views(sorted@), text_order(descending)),
        text_views(sorted@).to_multiset() == text_views(texts@).to_multiset(),
{
    let ghost all = text_views(texts@);
    let ghost before = text_order(descending);
    let mut out: Vec<String> = Vec::new();
    let mut i: usize = 0;
    while i < texts.len()
        invariant
            all == text_views(texts@),
            before == text_order(descending),
            i <= texts@.len(),
            text_views(out@) == stable_sort(all.take(i as int), before),
            out@.len() == i,
        decreases texts@.len() - i,
    {
        let x = texts[i].clone();
        let ghost s = text_views(out@);
        let mut j: usize = out.len();
        while j > 0 && precedes(descending, x.as_str(), out[j - 1].as_str())
            invariant
                s == text_views(out@),
                before == text_order(descending),
                j <= out@.len(),
                forall|k: int| j <= k < s.len() ==> #[trigger] before(x@, s[k]),
            decreases j,
        {
            assert(s[j - 1] == out@[j - 1]@);
            j = j - 1;
        }
        proof {
            if j > 0 {
                assert(s[j - 1] == out@[j - 1]@);
            }
            lemma_insert_stable_at(s, x@, before, j as int);
            assert(all.take(i + 1).drop_last() =~= all.take(i as int));
            assert(all.take(i + 1).last() == x@);
        }
        out.insert(j, x);
        proof {
            assert(text_views(out@) =~= s.insert(j as int, x@));
        }
        i = i + 1;
    }
    assert(all.take(texts@.len() as int) =~= all);
    proof {
        lemma_by_text_key_strict_weak(|t: Seq<char>| t);
        lemma_reversed_strict_weak(by_text_key(|t: Seq<char>| t));
        lemma_stable_sort_ordered(all, before);
        lemma_stable_sort_multiset(all, before);
    }
    out
}

/// The snapshots a new snapshot displaces: all but the 30 with the greatest names.
pub open spec fn pruned_snapshots(names: Seq<Seq<char>>) -> Seq<Seq<char>> {
    let sorted = stable_sort(names, text_order(true));
    if sorted.len() > 30 {
        sorted.skip(30)
    } else {
        Seq::empty()
    }
}

/// The snapshot files to delete after a new snapshot: the history keeps the 30 newest, by name
/// (names are the snapshot times).
pub fn snapshots_to_prune(names: &Vec<String>) -> (pruned: Vec<String>)
    ensures
        text_views(pruned@) == pruned_snapshots(text_views(names@)),
{
    let sorted = sort_texts(names, true);
    let mut out: Vec<String> = Vec::new();
    if sorted.len() <= 30 {
        assert(text_views(out@) =~= Seq::<Seq<char>>::empty());
        return out;
    }
    let mut i: usize = 30;
    while i < sorted.len()
        invariant
            30 <= i <= sorted@.len(),
            text_views(out@) == text_views(sorted@).subrange(30, i as int),
        decreases sorted@.len() - i,
    {
        let ghost prev = out@;
        let c = sorted[i].clone();
        assert(c@ == sorted@[i as int]@);
        out.push(c);
        assert(out@ == prev.push(c));
        assert(text_views(out@) =~= text_views(prev).push(c@));
        assert(text_views(out@) =~= text_views(sorted@).subrange(30, i + 1));
        i = i + 1;
    }
    assert(text_views(out@) =~= text_views(sorted@).skip(30));
    out
}

// ---------------------------------------------------------------- paths and listings

/// A project path given for its history must not be blank; the trimmed path is used.
pub fn check_project_path(path: &str) -> (res: Result<String, String>)
    ensures
        res is Ok <==> trimmed(path@).len() > 0,
        res matches Ok(p) ==> p@ == trimmed(path@),
        res matches Err(t) ==> t@ == "E4450: 项目路径为空"@,
{
    let t = trim_text(path);
    if t.as_str().is_empty() {
        Err(String::from_str("E4450: 项目路径为空"))
    } else {
        Ok(t)
    }
}

/// A path chosen for writing must not be blank; the trimmed path is used.
pub fn trimmed_target_path(raw: &str) -> (res: Result<String, String>)
    ensures
        res is Ok <==> trimmed(raw@).len() > 0,
        res matches Ok(p) ==> p@ == trimmed(raw@),
        res matches Err(t) ==> t@ == "E4201: 路径为空"@,
{
    let t = trim_text(raw);
    if t.as_str().is_empty() {
        Err(String::from_str("E4201: 路径为空"))
    } else {
        Ok(t)
    }
}

/// What a file may be written to: a path whose parent (shown as `parent`; `None` when the path
/// has no parent) is an existing directory, that is not itself a directory, and that has an
/// extension.
pub fn check_write_target(
    parent: &Option<String>,
    parent_exists: bool,
    parent_is_dir: bool,
    is_dir: bool,
    has_extension: bool,
) -> (res: Result<(), String>)
    ensures
        res is Ok <==> (parent is Some && parent->0@.len() > 0 && parent_exists && parent_is_dir && !is_dir
            && has_extension),
        (parent is None || parent->0@.len() == 0) ==> (res matches Err(t) && t@ == "E4202: 路径缺少父目录"@),
        parent is Some && parent->0@.len() > 0 ==> {
            &&& !parent_exists ==> (res matches Err(t) && t@ == "E4203: 目录不存在："@ + parent->0@)
            &&& parent_exists && !parent_is_dir ==> (res matches Err(t) && t@ == "E4203: 父路径不是目录："@
                + parent->0@)
            &&& parent_exists && parent_is_dir && is_dir ==> (res matches Err(t) && t@
                == "E4205: 目标路径是目录，不能作为文件写入"@)
            &&& parent_exists && parent_is_dir && !is_dir && !has_extension ==> (res matches Err(t) && t@
                == "E4204: 请为文件指定扩展名（建议 .json）"@)
        },
{
    let shown = match parent {
        Some(p) => {
            if p.as_str().is_empty() {
                return Err(String::from_str("E4202: 路径缺少父目录"));
            }
            p
        },
        None => {
            return Err(String::from_str("E4202: 路径缺少父目录"));
        },
    };
    if !parent_exists {
        let mut s = String::from_str("E4203: 目录不存在：");
        s.append(shown.as_str());
        return Err(s);
    }
    if !parent_is_dir {
        let mut s = String::from_str("E4203: 父路径不是目录：");
        s.append(shown.as_str());
        return Err(s);
    }
    if is_dir {
        return Err(String::from_str("E4205: 目标路径是目录，不能作为文件写入"));
    }
    if !has_extension {
        return Err(String::from_str("E4204: 请为文件指定扩展名（建议 .json）"));
    }
    Ok(())
}

/// A file extension that marks a PNG (`png` in any letter case).
pub fn is_png_extension(extension: &Option<String>) -> (png: bool)
    ensures
        png == (extension matches Some(e) && eq_ignore_ascii_case_spec(e@, "png"@)),
{
    match extension {
        Some(e) => eq_ignore_ascii_case(e.as_str(), "png"),
        None => false,
    }
}

/// A PNG listing for batch import: the first 2000 files found, sorted.
pub open spec fn png_listing_spec(found: Seq<Seq<char>>) -> Seq<Seq<char>> {
    stable_sort(if found.len() > 2000 { found.take(2000) } else { found }, text_order(false))
}

/// Sorts the PNG files found in a folder, keeping at most the first 2000 found.
pub fn png_listing(found: &Vec<String>) -> (listing: Vec<String>)
    ensures
        text_views(listing@) == png_listing_spec(text_views(found@)),
{
    let mut kept: Vec<String> = Vec::new();
    let mut i: usize = 0;
    while i < found.len() && i < 2000
        invariant
            i <= found@.len(),
            i <= 2000,
            text_views(kept@) == text_views(found@).take(i as int),
        decreases found@.len() - i,
    {
        let c = found[i].clone();
        assert(c@ == found@[i as int]@);
        let ghost prev = kept@;
        kept.push(c);
        assert(kept@ == prev.push(c));
        assert(text_views(kept@) =~= text_views(prev).push(c@));
        assert(text_views(kept@) =~= text_views(found@).take(i + 1));
        i = i + 1;
    }
    if found.len() > 2000 {
        assert(text_views(kept@) =~= text_views(found@).take(2000));
    } else {
        assert(text_views(kept@) =~= text_views(found@));
    }
    sort_texts(&kept, false)
}

/// A privacy-minded summary of the running environment (no screenshots, project contents or
/// credentials).
#[derive(Debug)]
pub struct RuntimeDiagnostics {
    pub app_version: String,
    pub operating_system: String,
    pub architecture: String,
    pub winsitter_dll_present: bool,
    /// When the summary was made (milliseconds since the Unix epoch, cut to 64 bits).
    pub generated_at: u64,
}

/// Assembles the environment summary; the time is cut to 64 bits.
pub fn runtime_diagnostics(
    app_version: String,
    operating_system: String,
    architecture: String,
    winsitter_dll_present: bool,
    millis: u128,
) -> (d: RuntimeDiagnostics)
    ensures
        d.app_version == app_version,
        d.operating_system == operating_system,
        d.architecture == architecture,
        d.winsitter_dll_present == winsitter_dll_present,
        d.generated_at == millis as u64,
{
    RuntimeDiagnostics {
        app_version,
        operating_system,
        architecture,
        winsitter_dll_present,
        generated_at: #[verifier::truncate] (millis as u64),
    }
}

} // verus!
