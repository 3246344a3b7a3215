//! Window discovery: which windows found by the capture SDK are offered as targets, and in
//! which order.

use vstd::prelude::*;
use vstd::slice::{slice_subrange, slice_to_vec};
use vstd::string::StrSliceExecFns;
use vstd::utf8::is_char_boundary;

use crate::order::{
    by_text_key, lemma_by_text_key_strict_weak, lemma_insert_stable_at,
    lemma_stable_sort_multiset, lemma_stable_sort_ordered, ordered_by, stable_sort, text_bytes,
    text_less,
};
use crate::text::{push_signed_decimal, signed_decimal};

verus! {

/// Capacity of the SDK's title buffer, terminator included.
pub const WINDOW_FIND_TITLE_CAPACITY: usize = 512;
/// Title matches as a substring.
pub const WINDOW_FIND_TITLE_CONTAINS: u32 = 1;
/// Title matching ignores case.
pub const WINDOW_FIND_CASE_INSENSITIVE: u32 = 4;
/// Only visible windows.
pub const WINDOW_FIND_VISIBLE_ONLY: u32 = 8;
/// Leave out cloaked windows (newer SDKs only).
pub const WINDOW_FIND_EXCLUDE_CLOAKED: u32 = 64;
/// Leave out owned pop-ups (newer SDKs only).
pub const WINDOW_FIND_EXCLUDE_OWNED: u32 = 128;
/// Window flag: cloaked (another virtual desktop, hidden UWP window).
pub const WINDOW_INFO_CLOAKED: u32 = 32;
/// SDK status: an argument was not understood (older SDKs reject the newer flags so).
pub const WINSITTER_ERR_INVALID_ARGUMENT: i32 = -1001;

/// One window as the SDK reports it; the text buffers hold `*_length` meaningful bytes.
#[derive(Clone, Debug)]
pub struct WindowFindResult {
    pub window_handle: usize,
    pub parent_handle: usize,
    pub owner_handle: usize,
    pub process_id: u32,
    pub thread_id: u32,
    pub state: u32,
    pub flags: u32,
    pub title_length: u32,
    pub class_name_length: u32,
    pub dpi: u32,
    pub title_utf8: Vec<u8>,
    pub class_name_utf8: Vec<u8>,
}

/// A window offered to the user as a capture target.
#[derive(Debug)]
pub struct WindowItem {
    pub hwnd: usize,
    pub title: String,
    pub class_name: String,
    pub process_id: u32,
    pub state: u32,
    pub dpi: u32,
}

pub ghost struct WindowItemView {
    pub hwnd: usize,
    pub title: Seq<char>,
    pub class_name: Seq<char>,
    pub process_id: u32,
    pub state: u32,
    pub dpi: u32,
}

impl View for WindowItem {
    type V = WindowItemView;

    open spec fn view(&self) -> WindowItemView {
        WindowItemView {
            hwnd: self.hwnd,
            title: self.title@,
            class_name: self.class_name@,
            process_id: self.process_id,
            state: self.state,
            dpi: self.dpi,
        }
    }
}

pub open spec fn item_views(s: Seq<WindowItem>) -> Seq<WindowItemView> {
    s.map_values(|w: WindowItem| w@)
}

/// What `String::from_utf8_lossy` gives for some bytes (invalid sequences become U+FFFD).
pub uninterp spec fn utf8_lossy(bytes: Seq<u8>) -> Seq<char>;

/// Calls `String::from_utf8_lossy`; its result is named `utf8_lossy` of the bytes.
#[verifier::external_body]
fn decode_lossy(bytes: &[u8]) -> (text: String)
    ensures
        text@ == utf8_lossy(bytes@),
{
    String::from_utf8_lossy(bytes).into_owned()
}

/// The Unicode `White_Space` characters, which `str::trim` removes.
pub open spec fn is_white_space(c: char) -> bool {
    let v = c as u32;
    ||| 9 <= v <= 13
    ||| v == 32
    ||| v == 0x85
    ||| v == 0xa0
    ||| v == 0x1680
    ||| 0x2000 <= v <= 0x200a
    ||| v == 0x2028
    ||| v == 0x2029
    ||| v == 0x202f
    ||| v == 0x205f
    ||| v == 0x3000
}

pub open spec fn trim_start(t: Seq<char>) -> Seq<char>
    decreases t.len(),
{
    if t.len() > 0 && is_white_space(t[0]) {
        trim_start(t.drop_first())
    } else {
        t
    }
}

pub open spec fn trim_end(t: Seq<char>) -> Seq<char>
    decreases t.len(),
{
    if t.len() > 0 && is_white_space(t.last()) {
        trim_end(t.drop_last())
    } else {
        t
    }
}

/// `t` without leading and trailing white space.
pub open spec fn trimmed(t: Seq<char>) -> Seq<char> {
    trim_end(trim_start(t))
}

/// Whether a character is Unicode `White_Space`.
fn white_space(c: char) -> (ws: bool)
    ensures
        ws == is_white_space(c),
{
    let v = c as u32;
    (9 <= v && v <= 13) || v == 32 || v == 0x85 || v == 0xa0 || v == 0x1680 || (0x2000 <= v && v <= 0x200a)
        || v == 0x2028 || v == 0x2029 || v == 0x202f || v == 0x205f || v == 0x3000
}

/// `s` without leading and trailing white space (what `str::trim` returns).
pub(crate) fn trim_text(s: &str) -> (t: String)
    ensures
        t@ == trimmed(s@),
{
    let n = s.unicode_len();
    let mut start: usize = 0;
    assert(s@.subrange(0, n as int) =~= s@);
    while start < n && white_space(s.get_char(start))
        invariant
            n == s@.len(),
            start <= n,
            trim_start(s@) == trim_start(s@.subrange(start as int, n as int)),
        decreases n - start,
    {
        assert(s@.subrange(start as int, n as int).drop_first() =~= s@.subrange(start + 1, n as int));
        start = start + 1;
    }
    let ghost front = s@.subrange(start as int, n as int);
    assert(trim_start(s@) == front) by {
        if start == n {
            assert(front.len() == 0);
        }
    }
    let mut end: usize = n;
    while end > start && white_space(s.get_char(end - 1))
        invariant
            n == s@.len(),
            start <= end <= n,
            front == s@.subrange(start as int, n as int),
            trim_end(front) == trim_end(s@.subrange(start as int, end as int)),
        decreases end - start,
    {
        assert(s@.subrange(start as int, end as int).drop_last() =~= s@.subrange(start as int, end - 1));
        end = end - 1;
    }
    let kept = s.substring_char(start, end);
    assert(trim_end(front) == kept@) by {
        if end == start {
            assert(kept@.len() == 0);
        }
    }
    String::from_str(kept)
}

/// The class names of shell and system windows that are never capture targets, and this
/// tool's own window.
pub open spec fn noise_classes() -> Seq<Seq<char>> {
    seq![
        "Shell_TrayWnd"@,
        "Shell_SecondaryTrayWnd"@,
        "Shell_CharmWindow"@,
        "Progman"@,
        "WorkerW"@,
        "tooltips_class32"@,
        "DV2ControlHost"@,
        "MultitaskingViewFrame"@,
        "TaskListThumbnailWnd"@,
        "ForegroundStaging"@,
        "XamlExplorerHostIslandWindow"@,
        "NativeHWNDHost"@,
        "Windows.UI.Core.CoreWindow"@,
        "ImageSitter"@,
    ]
}

/// The first `n` bytes of a buffer, or all of it when it is shorter.
pub open spec fn bytes_upto(v: Seq<u8>, n: u32) -> Seq<u8> {
    if n < v.len() {
        v.take(n as int)
    } else {
        v
    }
}

pub open spec fn result_title(r: WindowFindResult) -> Seq<char> {
    trimmed(utf8_lossy(bytes_upto(r.title_utf8@, r.title_length)))
}

pub open spec fn result_class(r: WindowFindResult) -> Seq<char> {
    utf8_lossy(bytes_upto(r.class_name_utf8@, r.class_name_length))
}

/// A window is offered when it has a title, is no shell or system window, is not cloaked and
/// has no owner.
pub open spec fn listable(r: WindowFindResult) -> bool {
    &&& result_title(r).len() > 0
    &&& !noise_classes().contains(result_class(r))
    &&& r.flags & WINDOW_INFO_CLOAKED == 0
    &&& r.owner_handle == 0
}

pub open spec fn result_item(r: WindowFindResult) -> WindowItemView {
    WindowItemView {
        hwnd: r.window_handle,
        title: result_title(r),
        class_name: result_class(r),
        process_id: r.process_id,
        state: r.state,
        dpi: r.dpi,
    }
}

/// The offered windows, in the SDK's order.
pub open spec fn listed(results: Seq<WindowFindResult>) -> Seq<WindowItemView>
    decreases results.len(),
{
    if results.len() == 0 {
        Seq::empty()
    } else {
        let r = results.last();
        listed(results.drop_last()) + if listable(r) {
            seq![result_item(r)]
        } else {
            Seq::empty()
        }
    }
}

/// Windows sort by title (byte order).
pub open spec fn title_order() -> spec_fn(WindowItemView, WindowItemView) -> bool {
    by_text_key(|v: WindowItemView| v.title)
}

/// The offered windows sorted by title; windows with equal titles keep the SDK's order.
pub open spec fn window_listing(results: Seq<WindowFindResult>) -> Seq<WindowItemView> {
    stable_sort(listed(results), title_order())
}

fn noise_names() -> (names: Vec<String>)
    ensures
        names@.map_values(|s: String| s@) == noise_classes(),
{
    let names = vec![
        String::from_str("Shell_TrayWnd"),
        String::from_str("Shell_SecondaryTrayWnd"),
        String::from_str("Shell_CharmWindow"),
        String::from_str("Progman"),
        String::from_str("WorkerW"),
        String::from_str("tooltips_class32"),
        String::from_str("DV2ControlHost"),
        String::from_str("MultitaskingViewFrame"),
        String::from_str("TaskListThumbnailWnd"),
        String::from_str("ForegroundStaging"),
        String::from_str("XamlExplorerHostIslandWindow"),
        String::from_str("NativeHWNDHost"),
        String::from_str("Windows.UI.Core.CoreWindow"),
        String::from_str("ImageSitter"),
    ];
    assert(names@.map_values(|s: String| s@) =~= noise_classes());
    names
}

/// Whether a class name belongs to a shell or system window, or to this tool.
pub fn is_noise_class(class_name: &String) -> (noise: bool)
    ensures
        noise == noise_classes().contains(class_name@),
{
    let names = noise_names();
    let ghost views = names@.map_values(|s: String| s@);
    let mut i: usize = 0;
    while i < names.len()
        invariant
            views == names@.map_values(|s: String| s@),
            views == noise_classes(),
            i <= names@.len(),
            forall|k: int| 0 <= k < i ==> views[k] != class_name@,
        decreases names@.len() - i,
    {
        if names[i] == *class_name {
            assert(views[i as int] == class_name@);
            return true;
        }
        i = i + 1;
    }
    false
}

fn text_upto(buffer: &Vec<u8>, length: u32) -> (text: String)
    ensures
        text@ == utf8_lossy(bytes_upto(buffer@, length)),
{
    let end: usize = if (length as usize) < buffer.len() { length as usize } else { buffer.len() };
    let part = slice_subrange(buffer.as_slice(), 0, end);
    assert(part@ =~= bytes_upto(buffer@, length));
    decode_lossy(part)
}

/// The target a found window becomes, or `None` when it is not offered.
pub fn window_item_from(r: &WindowFindResult) -> (item: Option<WindowItem>)
    ensures
        listable(*r) <==> item is Some,
        item matches Some(w) ==> w@ == result_item(*r),
{
    let raw_title = text_upto(&r.title_utf8, r.title_length);
    let title = trim_text(raw_title.as_str());
    let class_name = text_upto(&r.class_name_utf8, r.class_name_length);
    if title.as_str().is_empty() || is_noise_class(&class_name) {
        return None;
    }
    if r.flags & WINDOW_INFO_CLOAKED != 0 {
        return None;
    }
    if r.owner_handle != 0 {
        return None;
    }
    Some(WindowItem {
        hwnd: r.window_handle,
        title,
        class_name,
        process_id: r.process_id,
        state: r.state,
        dpi: r.dpi,
    })
}

fn copy_item(w: &WindowItem) -> (c: WindowItem)
    ensures
        c@ == w@,
{
    WindowItem {
        hwnd: w.hwnd,
        title: w.title.clone(),
        class_name: w.class_name.clone(),
        process_id: w.process_id,
        state: w.state,
        dpi: w.dpi,
    }
}

/// Sorts windows by title, keeping the order of windows with equal titles.
pub fn sort_by_title(items: &Vec<WindowItem>) -> (sorted: Vec<WindowItem>)
    ensures
        item_views(sorted@) == stable_sort(item_views(items@), title_order()),
{
    let ghost all = item_views(items@);
    let ghost before = title_order();
    let mut out: Vec<WindowItem> = Vec::new();
    let mut i: usize = 0;
    while i < items.len()
        invariant
            all == item_views(items@),
            before == title_order(),
            i <= items@.len(),
            item_views(out@) == stable_sort(all.take(i as int), before),
            out@.len() == i,
        decreases items@.len() - i,
    {
        let x = copy_item(&items[i]);
        let ghost s = item_views(out@);
        let mut j: usize = out.len();
        while j > 0 && text_less(x.title.as_str(), out[j - 1].title.as_str())
            invariant
                s == item_views(out@),
                before == title_order(),
                j <= out@.len(),
                forall|k: int| j <= k < s.len() ==> #[trigger] before(x@, s[k]),
            decreases j,
        {
            assert(s[j - 1] == out@[j - 1]@);
            j = j - 1;
        }
        proof {
            if j > 0 {
                assert(s[j - 1] == out@[j - 1]@);
            }
            lemma_insert_stable_at(s, x@, before, j as int);
            assert(all.take(i + 1).drop_last() =~= all.take(i as int));
            assert(all.take(i + 1).last() == x@);
        }
        out.insert(j, x);
        proof {
            assert(item_views(out@) =~= s.insert(j as int, x@));
        }
        i = i + 1;
    }
    assert(all.take(items@.len() as int) =~= all);
    out
}

/// The targets offered from the SDK's list of windows: titled, non-system, uncloaked,
/// unowned windows, sorted by title.
pub fn list_window_items(results: &Vec<WindowFindResult>) -> (items: Vec<WindowItem>)
    ensures
        item_views(items@) == window_listing(results@),
        ordered_by(item_views(items@), title_order()),
        item_views(items@).to_multiset() == listed(results@).to_multiset(),
{
    let mut kept: Vec<WindowItem> = Vec::new();
    let mut i: usize = 0;
    while i < results.len()
        invariant
            i <= results@.len(),
            item_views(kept@) == listed(results@.take(i as int)),
        decreases results@.len() - i,
    {
        let ghost before = item_views(kept@);
        proof {
            assert(results@.take(i + 1).drop_last() =~= results@.take(i as int));
            assert(results@.take(i + 1).last() == results@[i as int]);
        }
        match window_item_from(&results[i]) {
            Some(w) => {
                kept.push(w);
                assert(item_views(kept@) =~= before + seq![result_item(results@[i as int])]);
            },
            None => {
                assert(item_views(kept@) =~= before + Seq::<WindowItemView>::empty());
            },
        }
        i = i + 1;
    }
    assert(results@.take(results@.len() as int) =~= results@);
    let items = sort_by_title(&kept);
    proof {
        lemma_by_text_key_strict_weak(|v: WindowItemView| v.title);
        lemma_stable_sort_ordered(listed(results@), title_order());
        lemma_stable_sort_multiset(listed(results@), title_order());
    }
    items
}

/// The longest prefix of `bytes`, at most `limit` long, that ends on a character boundary.
pub open spec fn boundary_cut(bytes: Seq<u8>, limit: int) -> int
    decreases limit,
{
    if limit <= 0 {
        0
    } else if is_char_boundary(bytes, limit) {
        limit
    } else {
        boundary_cut(bytes, limit - 1)
    }
}

/// The bytes of a title filter as they fit the SDK's title buffer: at most 511 bytes (one is
/// kept for the terminator), cut back to the last whole character.
pub fn title_filter_bytes(filter: &str) -> (bytes: Vec<u8>)
    ensures
        bytes@ == text_bytes(filter@).take(
            boundary_cut(
                text_bytes(filter@),
                if text_bytes(filter@).len() < 511 { text_bytes(filter@).len() as int } else { 511 },
            ),
        ),
{
    let all = filter.as_bytes();
    let capacity: usize = WINDOW_FIND_TITLE_CAPACITY - 1;
    let mut length: usize = if all.len() < capacity { all.len() } else { capacity };
    let ghost limit = length as int;
    while length > 0 && !filter.is_char_boundary(length)
        invariant
            length <= all@.len(),
            all@ == text_bytes(filter@),
            boundary_cut(all@, limit) == boundary_cut(all@, length as int),
        decreases length,
    {
        length = length - 1;
    }
    slice_to_vec(slice_subrange(all, 0, length))
}

/// The discovery flags: visible windows whose title contains the filter, ignoring case, without
/// cloaked windows and owned pop-ups.
pub fn window_find_flags() -> (flags: u32)
    ensures
        flags == WINDOW_FIND_VISIBLE_ONLY | WINDOW_FIND_TITLE_CONTAINS | WINDOW_FIND_CASE_INSENSITIVE
            | WINDOW_FIND_EXCLUDE_CLOAKED | WINDOW_FIND_EXCLUDE_OWNED,
{
    WINDOW_FIND_VISIBLE_ONLY | WINDOW_FIND_TITLE_CONTAINS | WINDOW_FIND_CASE_INSENSITIVE
        | WINDOW_FIND_EXCLUDE_CLOAKED | WINDOW_FIND_EXCLUDE_OWNED
}

/// What to do when a window search fails.
pub enum FindFailure {
    /// Search again without the flags that older SDKs reject, with these flags.
    RetryWith(u32),
    /// Give up with this message.
    Fail(String),
}

pub open spec fn enumeration_message(code: i32) -> Seq<char> {
    "E1001: 窗口枚举失败（winsitter 错误码 "@ + signed_decimal(code as int) + "）"@
}

/// The message for a window search that failed with an SDK status.
pub fn enumeration_failed(code: i32) -> (text: String)
    ensures
        text@ == enumeration_message(code),
{
    let mut s = String::from_str("E1001: 窗口枚举失败（winsitter 错误码 ");
    push_signed_decimal(&mut s, code as i64);
    s.append("）");
    s
}

/// A first search that older SDKs reject for its flags is retried without the cloaked and
/// owned exclusions (the listing filters those windows itself); any other failure is final.
pub fn first_search_failed(flags: u32, code: i32) -> (next: FindFailure)
    ensures
        code == WINSITTER_ERR_INVALID_ARGUMENT ==> next == FindFailure::RetryWith(
            flags & !(WINDOW_FIND_EXCLUDE_CLOAKED | WINDOW_FIND_EXCLUDE_OWNED),
        ),
        code != WINSITTER_ERR_INVALID_ARGUMENT ==> (next matches FindFailure::Fail(t) && t@
            == enumeration_message(code)),
{
    if code == WINSITTER_ERR_INVALID_ARGUMENT {
        FindFailure::RetryWith(flags & !(WINDOW_FIND_EXCLUDE_CLOAKED | WINDOW_FIND_EXCLUDE_OWNED))
    } else {
        FindFailure::Fail(enumeration_failed(code))
    }
}

} // verus!
