//! Sample images of a project: embedded as data URLs or stored as managed files in a
//! `<project>.samples` folder beside the project, named by their SHA-256 fingerprint; paths
//! that could leave that folder are refused, and an audit finds missing, changed and
//! unreferenced files.

use vstd::prelude::*;
use vstd::utf8::is_ascii_chars;

use crate::codec::{
    base64_decode, base64_decoded, begins_with, concat_error, decode_error_text, eq_ignore_ascii_case,
    eq_ignore_ascii_case_spec, hex_lower_spec, inspect_png, is_png, max_encoded_bytes,
    max_pixels, png_area_of, png_data_url, png_decoded, png_signature, png_size_of, sha256_digest,
    sha256_hex, starts_with, strip_data_url_prefix, base64_encoded, data_url_prefix, lemma_hex_shape,
};
use crate::order::text_bytes;
use crate::project::{sort_texts, text_order, text_views};
use crate::order::stable_sort;
use crate::text::push_char;
use crate::windows::{trim_text, trimmed};

verus! {

// ---------------------------------------------------------------- paths

/// One component of a path, as `std::path::Path::components` splits it.
#[derive(Debug)]
pub enum PathPart {
    /// A Windows drive or UNC prefix.
    Prefix,
    /// The root separator.
    RootDir,
    /// `.`
    CurDir,
    /// `..`
    ParentDir,
    /// A plain name.
    Normal(String),
}

/// The `/`-separated pieces of a text, in order (a text without `/` is one piece).
pub open spec fn split_slash(p: Seq<char>) -> Seq<Seq<char>>
    decreases p.len(),
{
    if p.len() == 0 {
        seq![Seq::<char>::empty()]
    } else {
        let rest = split_slash(p.drop_last());
        if p.last() == '/' {
            rest.push(Seq::<char>::empty())
        } else {
            rest.update(rest.len() - 1, rest.last().push(p.last()))
        }
    }
}

pub open spec fn has_char(p: Seq<char>, c: char) -> bool {
    exists|k: int| 0 <= k < p.len() && p[k] == c
}

/// A name that every platform reads as one plain path component: not empty, not `.` or `..`,
/// and free of `/`, `\` and `:` (the separators and the drive marker).
pub open spec fn plain_name(s: Seq<char>) -> bool {
    &&& s.len() > 0
    &&& s != "."@
    &&& s != ".."@
    &&& !has_char(s, '/')
    &&& !has_char(s, '\\')
    &&& !has_char(s, ':')
}

/// Plain names joined by single `/`: a relative path that splits the same way on every platform.
pub open spec fn plain_path(p: Seq<char>) -> bool {
    forall|i: int| 0 <= i < split_slash(p).len() ==> plain_name(#[trigger] split_slash(p)[i])
}

/// A path, free of `\` and `:`, that starts at the root or holds a `..` piece: on every platform
/// it has a root, drive or parent component.
pub open spec fn climbs_out(p: Seq<char>) -> bool {
    &&& !has_char(p, '\\')
    &&& !has_char(p, ':')
    &&& ((p.len() > 0 && p[0] == '/') || split_slash(p).contains(".."@))
}

/// `std::path::Path::components` of a path, each component converted one for one. How a path
/// splits depends on the platform's path syntax; what is claimed holds on every platform, as the
/// documentation gives it (`/` separates on all platforms, `\` also on Windows, a prefix needs
/// `:` or a leading separator, a path beginning with a separator has a root or a prefix, and `..`
/// is a parent component): plain names joined by `/` come out as those names, and a path that
/// starts at the root or holds `..` yields a root, prefix or parent component.
#[verifier::external_body]
fn path_parts(path: &str) -> (parts: Vec<PathPart>)
    ensures
        plain_path(path@) ==> parts@.len() == split_slash(path@).len(),
        plain_path(path@) ==> forall|i: int|
            0 <= i < parts@.len() ==> ((#[trigger] parts@[i]) matches PathPart::Normal(n) && n@ == split_slash(
                path@,
            )[i]),
        climbs_out(path@) ==> exists|i: int| 0 <= i < parts@.len() && leaves_folder(#[trigger] parts@[i]),
{
    std::path::Path::new(path).components().map(|c| match c {
        std::path::Component::Prefix(_) => PathPart::Prefix,
        std::path::Component::RootDir => PathPart::RootDir,
        std::path::Component::CurDir => PathPart::CurDir,
        std::path::Component::ParentDir => PathPart::ParentDir,
        std::path::Component::Normal(name) => PathPart::Normal(name.to_string_lossy().into_owned()),
    }).collect()
}

/// `std::path::Path::is_absolute`, which depends on the platform's path syntax. Claimed only
/// what holds on every platform as documented (an absolute path starts with the root on Unix and
/// has a prefix on Windows): plain names joined by `/` are not absolute.
#[verifier::external_body]
fn path_is_absolute(path: &str) -> (absolute: bool)
    ensures
        plain_path(path@) ==> !absolute,
{
    std::path::Path::new(path).is_absolute()
}

pub open spec fn leaves_folder(p: PathPart) -> bool {
    p is ParentDir || p is RootDir || p is Prefix
}

/// A relative path that stays below its base: not absolute, no `..`, root or drive.
pub open spec fn stays_below(absolute: bool, parts: Seq<PathPart>) -> bool {
    !absolute && forall|i: int| 0 <= i < parts.len() ==> !leaves_folder(#[trigger] parts[i])
}

/// Judges a split path: it must stay below the folder it is resolved against.
pub fn stays_below_folder(absolute: bool, parts: &Vec<PathPart>) -> (ok: bool)
    ensures
        ok == stays_below(absolute, parts@),
{
    if absolute {
        return false;
    }
    let mut i: usize = 0;
    while i < parts.len()
        invariant
            i <= parts@.len(),
            forall|k: int| 0 <= k < i ==> !leaves_folder(#[trigger] parts@[k]),
        decreases parts@.len() - i,
    {
        match &parts[i] {
            PathPart::ParentDir | PathPart::RootDir | PathPart::Prefix => {
                return false;
            },
            _ => {},
        }
        i = i + 1;
    }
    true
}

/// Whether a stored sample path is a safe relative path (it is split by the platform's rules):
/// plain names joined by `/` are safe, and a path that starts at the root or climbs with `..`
/// is not.
pub fn sample_path_is_safe(relative_path: &str) -> (safe: bool)
    ensures
        plain_path(relative_path@) ==> safe,
        climbs_out(relative_path@) ==> !safe,
{
    let absolute = path_is_absolute(relative_path);
    let parts = path_parts(relative_path);
    stays_below_folder(absolute, &parts)
}

/// A stored sample path must be a safe relative path.
pub fn check_sample_path(relative_path: &str) -> (res: Result<(), String>)
    ensures
        plain_path(relative_path@) ==> res is Ok,
        climbs_out(relative_path@) ==> res is Err,
        res matches Err(t) ==> t@ == "E4410: 外部样本路径必须是安全的相对路径"@,
{
    if sample_path_is_safe(relative_path) {
        Ok(())
    } else {
        Err(String::from_str("E4410: 外部样本路径必须是安全的相对路径"))
    }
}

/// A managed sample path: exactly `<folder>/<name>`.
pub open spec fn managed_parts(parts: Seq<PathPart>, folder: Seq<char>) -> bool {
    &&& parts.len() == 2
    &&& parts[0] matches PathPart::Normal(f) && f@ == folder
    &&& parts[1] is Normal
}

/// Judges a split path: it must name a file directly inside the managed folder.
pub fn is_managed_parts(parts: &Vec<PathPart>, folder: &str) -> (ok: bool)
    ensures
        ok == managed_parts(parts@, folder@),
{
    if parts.len() != 2 {
        return false;
    }
    let first_ok = match &parts[0] {
        PathPart::Normal(f) => *f == String::from_str(folder),
        _ => false,
    };
    let second_ok = match &parts[1] {
        PathPart::Normal(_) => true,
        _ => false,
    };
    first_ok && second_ok
}

/// A sample path handed in for audit or clean-up must lie directly in the project's managed
/// sample folder (it is split by the platform's rules).
pub fn check_managed_sample(relative_path: &str, folder: &str) -> (res: Result<(), String>)
    ensures
        plain_path(relative_path@) ==> (res is Ok <==> split_slash(relative_path@).len() == 2 && split_slash(
            relative_path@,
        )[0] == folder@),
        climbs_out(relative_path@) ==> res is Err,
        res matches Err(t) ==> t@ == "E4471: 样本不在当前项目的受管目录中"@,
{
    let parts = path_parts(relative_path);
    if is_managed_parts(&parts, folder) {
        Ok(())
    } else {
        Err(String::from_str("E4471: 样本不在当前项目的受管目录中"))
    }
}

// ---------------------------------------------------------------- names

/// The project stem used when the project path has none.
pub open spec fn default_stem() -> Seq<char> {
    "imagesitter-project"@
}

pub open spec fn stem_or_default(stem: Option<String>) -> Seq<char> {
    match stem {
        Some(s) => s@,
        None => default_stem(),
    }
}

fn stem_text(stem: &Option<String>) -> (s: String)
    ensures
        s@ == stem_or_default(*stem),
{
    match stem {
        Some(s) => s.clone(),
        None => String::from_str("imagesitter-project"),
    }
}

/// The managed sample folder beside a project: `<stem>.samples`.
pub fn samples_folder_name(stem: &Option<String>) -> (name: String)
    ensures
        name@ == stem_or_default(*stem) + ".samples"@,
{
    let mut s = stem_text(stem);
    s.append(".samples");
    s
}

/// The history folder beside a project: `<stem>.history`.
pub fn history_folder_name(stem: &Option<String>) -> (name: String)
    ensures
        name@ == stem_or_default(*stem) + ".history"@,
{
    let mut s = stem_text(stem);
    s.append(".history");
    s
}

/// Characters kept in a managed file name: ASCII letters and digits, `.`, `-` and `_`.
pub open spec fn name_char_kept(c: char) -> bool {
    ('a' <= c <= 'z') || ('A' <= c <= 'Z') || ('0' <= c <= '9') || c == '.' || c == '-' || c == '_'
}

pub open spec fn safe_name_spec(name: Seq<char>) -> Seq<char> {
    name.map_values(|c: char| if name_char_kept(c) { c } else { '_' })
}

/// A file name reduced to safe characters: every other character becomes `_`.
pub fn safe_file_name(name: &str) -> (safe: String)
    ensures
        safe@ == safe_name_spec(name@),
{
    let n = name.unicode_len();
    let mut s = String::new();
    let mut i: usize = 0;
    while i < n
        invariant
            n == name@.len(),
            i <= n,
            s@ == safe_name_spec(name@).take(i as int),
        decreases n - i,
    {
        let c = name.get_char(i);
        let kept = ('a' <= c && c <= 'z') || ('A' <= c && c <= 'Z') || ('0' <= c && c <= '9') || c == '.'
            || c == '-' || c == '_';
        push_char(&mut s, if kept { c } else { '_' });
        assert(s@ =~= safe_name_spec(name@).take(i + 1));
        i = i + 1;
    }
    assert(safe_name_spec(name@).take(n as int) =~= safe_name_spec(name@));
    s
}

/// The first 12 characters of a fingerprint, which prefix managed file names.
fn fingerprint_prefix(sha256: &str) -> (p: String)
    requires
        is_ascii_chars(sha256@),
        sha256@.len() >= 12,
    ensures
        p@ == sha256@.take(12),
{
    let part = sha256.substring_char(0, 12);
    String::from_str(part)
}

/// The managed file name of an imported sample: `<fingerprint[..12]>-<safe name>`.
pub open spec fn imported_name_spec(sha256: Seq<char>, source_name: Seq<char>) -> Seq<char> {
    sha256.take(12) + "-"@ + safe_name_spec(source_name)
}

/// The managed file name of a captured sample: `<fingerprint[..12]>-capture.png`.
pub open spec fn captured_name_spec(sha256: Seq<char>) -> Seq<char> {
    sha256.take(12) + "-capture.png"@
}

// ---------------------------------------------------------------- samples

/// A sample image as handed to the project: an embedded data URL, or a managed file given by
/// its path relative to the project's folder.
#[derive(Debug)]
pub struct ImportedSample {
    pub png_data_url: String,
    pub relative_path: String,
    pub width: u32,
    pub height: u32,
    pub sha256: String,
}

/// An import: the sample, and for a managed file where to store its bytes (the managed folder
/// and the file name in it; a file already there is kept).
#[derive(Debug)]
pub struct SampleImport {
    pub sample: ImportedSample,
    pub managed_file: Option<(String, String)>,
}

/// Where a sample is kept.
#[derive(Clone, Copy, Debug, PartialEq, Eq, Structural)]
pub enum SampleStorage {
    Embedded,
    External,
}

pub open spec fn storage_spec(storage: Seq<char>) -> Option<SampleStorage> {
    if storage == "embedded"@ {
        Some(SampleStorage::Embedded)
    } else if storage == "external"@ {
        Some(SampleStorage::External)
    } else {
        None
    }
}

/// Reads the storage kind: `embedded` or `external`.
pub fn sample_storage(storage: &str) -> (res: Result<SampleStorage, String>)
    ensures
        match storage_spec(storage@) {
            Some(k) => res == Ok::<SampleStorage, String>(k),
            None => res matches Err(t) && t@ == "E4406: storage 必须为 embedded 或 external"@,
        },
{
    let given = String::from_str(storage);
    if given == String::from_str("embedded") {
        Ok(SampleStorage::Embedded)
    } else if given == String::from_str("external") {
        Ok(SampleStorage::External)
    } else {
        Err(String::from_str("E4406: storage 必须为 embedded 或 external"))
    }
}

/// A managed sample needs a saved project: a path that is not blank.
pub open spec fn project_saved(project_path: Option<String>) -> bool {
    project_path matches Some(p) && trimmed(p@).len() > 0
}

/// The project path an external sample is stored beside.
pub fn require_saved_project(project_path: &Option<String>) -> (res: Result<String, String>)
    ensures
        res is Ok <==> project_saved(*project_path),
        res matches Ok(p) ==> p@ == project_path->0@,
        res matches Err(t) ==> t@ == "E4407: 外部样本要求先保存项目"@,
{
    match project_path {
        Some(p) => {
            if trim_text(p.as_str()).as_str().is_empty() {
                Err(String::from_str("E4407: 外部样本要求先保存项目"))
            } else {
                Ok(p.clone())
            }
        },
        None => Err(String::from_str("E4407: 外部样本要求先保存项目")),
    }
}

/// What is known of a sample that passed inspection: its size and fingerprint.
pub open spec fn inspected(bytes: Seq<u8>, width: u32, height: u32, sha256: Seq<char>) -> bool {
    &&& png_size_of(png_decoded(bytes)) == (width, height)
    &&& sha256 == hex_lower_spec(sha256_digest(bytes))
}

/// The bytes pass inspection: a PNG within the size limits.
pub open spec fn acceptable_png(bytes: Seq<u8>) -> bool {
    let image = png_decoded(bytes);
    starts_with(bytes, png_signature()) && bytes.len() <= max_encoded_bytes() && image is Some
        && png_area_of(image) <= max_pixels()
}

fn managed_import(
    width: u32,
    height: u32,
    sha256: String,
    project_stem: &Option<String>,
    file_name: String,
) -> (import: SampleImport)
    ensures
        import.sample.png_data_url@ == Seq::<char>::empty(),
        import.sample.relative_path@ == stem_or_default(*project_stem) + ".samples"@ + "/"@ + file_name@,
        import.sample.width == width,
        import.sample.height == height,
        import.sample.sha256 == sha256,
        import.managed_file matches Some(m) && m.0@ == stem_or_default(*project_stem) + ".samples"@ && m.1@
            == file_name@,
{
    let folder = samples_folder_name(project_stem);
    let mut relative = folder.clone();
    relative.append("/");
    relative.append(file_name.as_str());
    SampleImport {
        sample: ImportedSample { png_data_url: String::new(), relative_path: relative, width, height, sha256 },
        managed_file: Some((folder, file_name)),
    }
}

/// Imports sample bytes read from a file: checks them, and embeds them as a data URL or plans a
/// managed copy named after their fingerprint and the source file name (`sample.png` when the
/// source path has no usable name).
pub fn import_sample_png(
    bytes: &[u8],
    storage: &str,
    project_path: &Option<String>,
    project_stem: &Option<String>,
    source_name: &Option<String>,
) -> (res: Result<SampleImport, String>)
    ensures
        !acceptable_png(bytes@) ==> res is Err,
        acceptable_png(bytes@) && storage_spec(storage@) is None ==> (res matches Err(t) && t@
            == "E4406: storage 必须为 embedded 或 external"@),
        acceptable_png(bytes@) && storage_spec(storage@) == Some(SampleStorage::External) && !project_saved(
            *project_path,
        ) ==> (res matches Err(t) && t@ == "E4407: 外部样本要求先保存项目"@),
        res is Ok <==> acceptable_png(bytes@) && (storage_spec(storage@) == Some(SampleStorage::Embedded) || (
        storage_spec(storage@) == Some(SampleStorage::External) && project_saved(*project_path))),
        res matches Ok(i) ==> inspected(bytes@, i.sample.width, i.sample.height, i.sample.sha256@),
        res is Ok && storage_spec(storage@) == Some(SampleStorage::Embedded) ==> {
                let i = res->Ok_0;
            &&& i.sample.png_data_url@ == "data:image/png;base64,"@ + base64_encoded(bytes@)
            &&& i.sample.relative_path@ == Seq::<char>::empty()
            &&& i.managed_file is None
        },
        res is Ok && storage_spec(storage@) == Some(SampleStorage::External) ==> {
                let i = res->Ok_0;
            let name = imported_name_spec(
                i.sample.sha256@,
                match source_name {
                    Some(n) => n@,
                    None => "sample.png"@,
                },
            );
            &&& i.sample.png_data_url@ == Seq::<char>::empty()
            &&& i.sample.relative_path@ == stem_or_default(*project_stem) + ".samples"@ + "/"@ + name
            &&& i.managed_file matches Some(m) && m.0@ == stem_or_default(*project_stem) + ".samples"@ && m.1@
                == name
        },
{
    let (width, height, sha256) = match inspect_png(bytes) {
        Ok(info) => info,
        Err(e) => {
            return Err(e);
        },
    };
    let kind = match sample_storage(storage) {
        Ok(k) => k,
        Err(e) => {
            return Err(e);
        },
    };
    if kind == SampleStorage::Embedded {
        return Ok(SampleImport {
            sample: ImportedSample {
                png_data_url: png_data_url(bytes),
                relative_path: String::new(),
                width,
                height,
                sha256,
            },
            managed_file: None,
        });
    }
    match require_saved_project(project_path) {
        Ok(_) => {},
        Err(e) => {
            return Err(e);
        },
    }
    let original = match source_name {
        Some(n) => n.clone(),
        None => String::from_str("sample.png"),
    };
    proof {
        lemma_hex_shape(sha256_digest(bytes@));
    }
    let mut file_name = fingerprint_prefix(sha256.as_str());
    file_name.append("-");
    let safe = safe_file_name(original.as_str());
    file_name.append(safe.as_str());
    let import = managed_import(width, height, sha256, project_stem, file_name);
    assert(import.sample.relative_path@ =~= stem_or_default(*project_stem) + ".samples"@ + "/"@ + imported_name_spec(
        import.sample.sha256@,
        original@,
    ));
    Ok(import)
}

/// Stores a sample captured live, given as a PNG data URL: checks it, and keeps it embedded or
/// plans a managed copy named `<fingerprint[..12]>-capture.png`; the decoded PNG bytes come
/// back too, for that copy.
pub fn store_sample_png_data(
    png_data_url: String,
    storage: &str,
    project_path: &Option<String>,
    project_stem: &Option<String>,
) -> (res: Result<(SampleImport, Vec<u8>), String>)
    ensures
        ({
            let url = text_bytes(png_data_url@);
            let decoded = base64_decoded(url.skip(22));
            &&& !starts_with(url, data_url_prefix()) ==> (res matches Err(t) && t@
                == "E4430: 捕获样本不是 PNG Data URL"@)
            &&& starts_with(url, data_url_prefix()) && decoded is None ==> (res matches Err(t) && begins_with(
                t@,
                "E4430: 捕获样本 Base64 无效："@,
            ))
            &&& res is Ok <==> starts_with(url, data_url_prefix()) && decoded is Some && acceptable_png(
                decoded->0,
            ) && (storage_spec(storage@) == Some(SampleStorage::Embedded) || (storage_spec(storage@)
                == Some(SampleStorage::External) && project_saved(*project_path)))
            &&& res matches Ok(i) ==> inspected(decoded->0, i.0.sample.width, i.0.sample.height, i.0.sample.sha256@) && i.1@
                == decoded->0
            &&& res is Ok && storage_spec(storage@) == Some(SampleStorage::Embedded) ==> {
                let i = res->Ok_0.0;
                &&& i.sample.png_data_url@ == png_data_url@
                &&& i.sample.relative_path@ == Seq::<char>::empty()
                &&& i.managed_file is None
            }
            &&& res is Ok && storage_spec(storage@) == Some(SampleStorage::External) ==> {
                let i = res->Ok_0.0;
                let name = captured_name_spec(i.sample.sha256@);
                &&& i.sample.png_data_url@ == Seq::<char>::empty()
                &&& i.sample.relative_path@ == stem_or_default(*project_stem) + ".samples"@ + "/"@ + name
                &&& i.managed_file matches Some(m) && m.0@ == stem_or_default(*project_stem) + ".samples"@
                    && m.1@ == name
            }
        }),
{
    let bytes = {
        let payload = match strip_data_url_prefix(png_data_url.as_str()) {
            Some(p) => p,
            None => {
                return Err(String::from_str("E4430: 捕获样本不是 PNG Data URL"));
            },
        };
        match base64_decode(payload) {
            Ok(b) => b,
            Err(error) => {
                return Err(concat_error("E4430: 捕获样本 Base64 无效：", decode_error_text(&error)));
            },
        }
    };
    let (width, height, sha256) = match inspect_png(bytes.as_slice()) {
        Ok(info) => info,
        Err(e) => {
            return Err(e);
        },
    };
    let kind = match sample_storage(storage) {
        Ok(k) => k,
        Err(e) => {
            return Err(e);
        },
    };
    if kind == SampleStorage::Embedded {
        return Ok((
            SampleImport {
                sample: ImportedSample { png_data_url, relative_path: String::new(), width, height, sha256 },
                managed_file: None,
            },
            bytes,
        ));
    }
    match require_saved_project(project_path) {
        Ok(_) => {},
        Err(e) => {
            return Err(e);
        },
    }
    proof {
        lemma_hex_shape(sha256_digest(bytes@));
    }
    let mut file_name = fingerprint_prefix(sha256.as_str());
    file_name.append("-capture.png");
    let import = managed_import(width, height, sha256, project_stem, file_name);
    Ok((import, bytes))
}

/// Loads a managed sample's bytes for the project: checks them and, when a fingerprint is
/// recorded, that they still match it (ignoring letter case).
pub fn load_sample_png(bytes: &[u8], relative_path: String, expected_sha256: &str) -> (res: Result<
    ImportedSample,
    String,
>)
    ensures
        res is Ok <==> acceptable_png(bytes@) && (expected_sha256@.len() == 0 || eq_ignore_ascii_case_spec(
            hex_lower_spec(sha256_digest(bytes@)),
            expected_sha256@,
        )),
        acceptable_png(bytes@) && res is Err ==> (res matches Err(t) && t@
            == "E4413: 外部样本内容已变化（SHA-256 不一致）"@),
        res matches Ok(i) ==> {
            &&& inspected(bytes@, i.width, i.height, i.sha256@)
            &&& i.png_data_url@ == "data:image/png;base64,"@ + base64_encoded(bytes@)
            &&& i.relative_path@ == relative_path@
        },
{
    let (width, height, sha256) = match inspect_png(bytes) {
        Ok(info) => info,
        Err(e) => {
            return Err(e);
        },
    };
    if !expected_sha256.is_empty() && !eq_ignore_ascii_case(sha256.as_str(), expected_sha256) {
        return Err(String::from_str("E4413: 外部样本内容已变化（SHA-256 不一致）"));
    }
    Ok(ImportedSample { png_data_url: png_data_url(bytes), relative_path, width, height, sha256 })
}

/// Decodes an image handed in as Base64 for saving; it must be a PNG.
pub fn decode_png_upload(png_base64: &str) -> (res: Result<Vec<u8>, String>)
    ensures
        ({
            let decoded = base64_decoded(text_bytes(png_base64@));
            &&& decoded is None ==> (res matches Err(t) && begins_with(t@, "E4301: 图像数据不是合法 Base64："@))
            &&& decoded is Some && !starts_with(decoded->0, png_signature()) ==> (res matches Err(t) && t@
                == "E4302: 图像数据不是 PNG 格式"@)
            &&& res is Ok <==> decoded is Some && starts_with(decoded->0, png_signature())
            &&& res matches Ok(b) ==> b@ == decoded->0
        }),
{
    let bytes = match base64_decode(png_base64.as_bytes()) {
        Ok(b) => b,
        Err(error) => {
            return Err(concat_error("E4301: 图像数据不是合法 Base64：", decode_error_text(&error)));
        },
    };
    if !is_png(bytes.as_slice()) {
        return Err(String::from_str("E4302: 图像数据不是 PNG 格式"));
    }
    Ok(bytes)
}

// ---------------------------------------------------------------- audit

/// A managed sample a project refers to, with the fingerprint it recorded (empty when none).
#[derive(Debug)]
pub struct SampleReference {
    pub relative_path: String,
    pub sha256: String,
}

/// The outcome of a sample audit, each list sorted.
#[derive(Debug)]
pub struct SampleAudit {
    /// Referenced samples whose file could not be read.
    pub missing: Vec<String>,
    /// Referenced samples whose bytes no longer match the recorded fingerprint.
    pub modified: Vec<String>,
    /// Files in the managed folder that no sample refers to.
    pub orphaned: Vec<String>,
}

/// A recorded fingerprint that the bytes no longer match (ignoring letter case); an empty
/// fingerprint is not checked.
pub open spec fn modified_spec(bytes: Seq<u8>, expected: Seq<char>) -> bool {
    expected.len() > 0 && !eq_ignore_ascii_case_spec(hex_lower_spec(sha256_digest(bytes)), expected)
}

/// Whether sample bytes no longer match their recorded fingerprint.
pub fn sample_modified(bytes: &[u8], expected_sha256: &str) -> (modified: bool)
    ensures
        modified == modified_spec(bytes@, expected_sha256@),
{
    if expected_sha256.is_empty() {
        return false;
    }
    let actual = sha256_hex(bytes);
    !eq_ignore_ascii_case(actual.as_str(), expected_sha256)
}

/// A path with backslashes turned into slashes.
pub open spec fn slashed(path: Seq<char>) -> Seq<char> {
    path.map_values(|c: char| if c == '\\' { '/' } else { c })
}

/// Turns backslashes into slashes, so that references compare with folder listings.
pub fn slashed_path(path: &str) -> (s: String)
    ensures
        s@ == slashed(path@),
{
    let n = path.unicode_len();
    let mut s = String::new();
    let mut i: usize = 0;
    while i < n
        invariant
            n == path@.len(),
            i <= n,
            s@ == slashed(path@).take(i as int),
        decreases n - i,
    {
        let c = path.get_char(i);
        push_char(&mut s, if c == '\\' { '/' } else { c });
        assert(s@ =~= slashed(path@).take(i + 1));
        i = i + 1;
    }
    assert(slashed(path@).take(n as int) =~= slashed(path@));
    s
}

pub open spec fn missing_upto(refs: Seq<SampleReference>, contents: Seq<Option<Vec<u8>>>, n: int) -> Seq<Seq<char>>
    decreases n,
{
    if n <= 0 {
        Seq::empty()
    } else {
        missing_upto(refs, contents, n - 1) + if contents[n - 1] is None {
            seq![refs[n - 1].relative_path@]
        } else {
            Seq::empty()
        }
    }
}

pub open spec fn modified_upto(refs: Seq<SampleReference>, contents: Seq<Option<Vec<u8>>>, n: int) -> Seq<Seq<char>>
    decreases n,
{
    if n <= 0 {
        Seq::empty()
    } else {
        modified_upto(refs, contents, n - 1) + if contents[n - 1] matches Some(b) && modified_spec(
            b@,
            refs[n - 1].sha256@,
        ) {
            seq![refs[n - 1].relative_path@]
        } else {
            Seq::empty()
        }
    }
}

/// A folder file is referenced when some reference, with slashes, names `<folder>/<file>`.
pub open spec fn referenced(refs: Seq<SampleReference>, folder: Seq<char>, file: Seq<char>) -> bool {
    exists|i: int| 0 <= i < refs.len() && slashed(#[trigger] refs[i].relative_path@) == folder + "/"@ + file
}

pub open spec fn orphans_upto(refs: Seq<SampleReference>, folder: Seq<char>, files: Seq<String>, n: int) -> Seq<
    Seq<char>,
>
    decreases n,
{
    if n <= 0 {
        Seq::empty()
    } else {
        orphans_upto(refs, folder, files, n - 1) + if !referenced(refs, folder, files[n - 1]@) {
            seq![folder + "/"@ + files[n - 1]@]
        } else {
            Seq::empty()
        }
    }
}

fn is_referenced(slashed_refs: &Vec<String>, candidate: &String) -> (found: bool)
    ensures
        found == exists|i: int| 0 <= i < slashed_refs@.len() && #[trigger] slashed_refs@[i]@ == candidate@,
{
    let mut i: usize = 0;
    while i < slashed_refs.len()
        invariant
            i <= slashed_refs@.len(),
            forall|k: int| 0 <= k < i ==> #[trigger] slashed_refs@[k]@ != candidate@,
        decreases slashed_refs@.len() - i,
    {
        if slashed_refs[i] == *candidate {
            return true;
        }
        i = i + 1;
    }
    false
}

/// Classifies a project's managed samples from what was read: `contents[i]` holds the bytes of
/// reference `i`, or `None` when its file could not be read; `folder_files` are the file names
/// in the managed folder `folder`. Each list comes out sorted.
pub fn audit_samples(
    references: &Vec<SampleReference>,
    contents: &Vec<Option<Vec<u8>>>,
    folder: &str,
    folder_files: &Vec<String>,
) -> (audit: SampleAudit)
    requires
        contents@.len() == references@.len(),
    ensures
        text_views(audit.missing@) == stable_sort(
            missing_upto(references@, contents@, references@.len() as int),
            text_order(false),
        ),
        text_views(audit.modified@) == stable_sort(
            modified_upto(references@, contents@, references@.len() as int),
            text_order(false),
        ),
        text_views(audit.orphaned@) == stable_sort(
            orphans_upto(references@, folder@, folder_files@, folder_files@.len() as int),
            text_order(false),
        ),
{
    let mut missing: Vec<String> = Vec::new();
    let mut modified: Vec<String> = Vec::new();
    let mut slashed_refs: Vec<String> = Vec::new();
    let mut i: usize = 0;
    while i < references.len()
        invariant
            contents@.len() == references@.len(),
            i <= references@.len(),
            text_views(missing@) == missing_upto(references@, contents@, i as int),
            text_views(modified@) == modified_upto(references@, contents@, i as int),
            slashed_refs@.len() == i,
            forall|k: int| 0 <= k < i ==> #[trigger] slashed_refs@[k]@ == slashed(references@[k].relative_path@),
        decreases references@.len() - i,
    {
        let reference = &references[i];
        slashed_refs.push(slashed_path(reference.relative_path.as_str()));
        match &contents[i] {
            None => {
                missing.push(reference.relative_path.clone());
                assert(text_views(missing@) =~= missing_upto(references@, contents@, i + 1));
                assert(text_views(modified@) =~= modified_upto(references@, contents@, i + 1));
            },
            Some(bytes) => {
                if sample_modified(bytes.as_slice(), reference.sha256.as_str()) {
                    modified.push(reference.relative_path.clone());
                }
                assert(text_views(missing@) =~= missing_upto(references@, contents@, i + 1));
                assert(text_views(modified@) =~= modified_upto(references@, contents@, i + 1));
            },
        }
        i = i + 1;
    }
    let mut orphaned: Vec<String> = Vec::new();
    let mut j: usize = 0;
    while j < folder_files.len()
        invariant
            slashed_refs@.len() == references@.len(),
            forall|k: int| 0 <= k < references@.len() ==> #[trigger] slashed_refs@[k]@ == slashed(references@[k].relative_path@),
            j <= folder_files@.len(),
            text_views(orphaned@) == orphans_upto(references@, folder@, folder_files@, j as int),
        decreases folder_files@.len() - j,
    {
        let mut candidate = String::from_str(folder);
        candidate.append("/");
        candidate.append(folder_files[j].as_str());
        let found = is_referenced(&slashed_refs, &candidate);
        proof {
            if found {
                let k = choose|k: int| 0 <= k < slashed_refs@.len() && #[trigger] slashed_refs@[k]@ == candidate@;
                assert(slashed(references@[k].relative_path@) == folder@ + "/"@ + folder_files@[j as int]@);
                assert(referenced(references@, folder@, folder_files@[j as int]@));
            } else {
                assert forall|k: int| 0 <= k < references@.len() implies slashed(
                    #[trigger] references@[k].relative_path@,
                ) != folder@ + "/"@ + folder_files@[j as int]@ by {
                    assert(slashed_refs@[k]@ != candidate@);
                }
            }
        }
        if !found {
            orphaned.push(candidate);
        }
        assert(text_views(orphaned@) =~= orphans_upto(references@, folder@, folder_files@, j + 1));
        j = j + 1;
    }
    SampleAudit {
        missing: sort_texts(&missing, false),
        modified: sort_texts(&modified, false),
        orphaned: sort_texts(&orphaned, false),
    }
}

} // verus!
