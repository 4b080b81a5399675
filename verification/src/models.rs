//! The catalog of downloadable Whisper models, where they are fetched from
//! and where they are kept.
use vstd::prelude::*;

use crate::paths::{joined, models_whisper_dir, path_join};
use crate::text::{
    chars_of, is_empty_text, push_str, scan_back_exec, str_eq, string_of_range, trim, trim_class_end, trim_string,
    CharClass,
};

verus! {

pub const DEFAULT_DOWNLOAD_BASE: &'static str = "https://huggingface.co/ggerganov/whisper.cpp/resolve/main";

/// A model the application knows how to download.
#[derive(Debug, Clone, Copy)]
pub struct CatalogEntry {
    pub id: &'static str,
    pub file_name: &'static str,
    pub size_bytes_estimate: u64,
}

/// An entry as the contracts see it: id, file name and estimated size.
pub open spec fn entry_view(e: CatalogEntry) -> (Seq<char>, Seq<char>, int) {
    (e.id@, e.file_name@, e.size_bytes_estimate as int)
}

/// The catalog, in the order it is listed.
pub open spec fn catalog_view() -> Seq<(Seq<char>, Seq<char>, int)> {
    seq![
        ("tiny"@, "ggml-tiny.bin"@, 78int * 1024 * 1024),
        ("base"@, "ggml-base.bin"@, 148int * 1024 * 1024),
        ("small"@, "ggml-small.bin"@, 488int * 1024 * 1024),
        ("medium"@, "ggml-medium.bin"@, 1570int * 1024 * 1024),
        ("large-v3"@, "ggml-large-v3.bin"@, 3200int * 1024 * 1024),
    ]
}

pub fn catalog() -> (r: Vec<CatalogEntry>)
    ensures
        r@.len() == catalog_view().len(),
        forall|i: int| 0 <= i < r@.len() ==> entry_view(#[trigger] r@[i]) == catalog_view()[i],
{
    let r = vec![
        CatalogEntry { id: "tiny", file_name: "ggml-tiny.bin", size_bytes_estimate: 78 * 1024 * 1024 },
        CatalogEntry { id: "base", file_name: "ggml-base.bin", size_bytes_estimate: 148 * 1024 * 1024 },
        CatalogEntry { id: "small", file_name: "ggml-small.bin", size_bytes_estimate: 488 * 1024 * 1024 },
        CatalogEntry { id: "medium", file_name: "ggml-medium.bin", size_bytes_estimate: 1570 * 1024 * 1024 },
        CatalogEntry { id: "large-v3", file_name: "ggml-large-v3.bin", size_bytes_estimate: 3200 * 1024 * 1024 },
    ];
    assert(forall|i: int| 0 <= i < r@.len() ==> entry_view(#[trigger] r@[i]) == catalog_view()[i]);
    r
}

/// Looks a model up by its id.
pub fn entry_for_id(id: &str) -> (r: Option<CatalogEntry>)
    ensures
        match r {
            Some(e) => exists|i: int|
                0 <= i < catalog_view().len() && #[trigger] catalog_view()[i] == entry_view(e)
                    && catalog_view()[i].0 == id@,
            None => forall|i: int| 0 <= i < catalog_view().len() ==> (#[trigger] catalog_view()[i]).0 != id@,
        },
{
    let cat = catalog();
    let mut i: usize = 0;
    while i < cat.len()
        invariant
            i <= cat@.len(),
            cat@.len() == catalog_view().len(),
            forall|k: int| 0 <= k < cat@.len() ==> entry_view(#[trigger] cat@[k]) == catalog_view()[k],
            forall|k: int| 0 <= k < i ==> (#[trigger] catalog_view()[k]).0 != id@,
        decreases cat.len() - i,
    {
        let e = cat[i];
        if str_eq(e.id, id) {
            assert(catalog_view()[i as int] == entry_view(e));
            return Some(e);
        }
        assert(entry_view(cat@[i as int]) == catalog_view()[i as int]);
        i += 1;
    }
    None
}

/// Where models are downloaded from: the mirror when preferred and set,
/// else the download URL when set, else the mirror when set, else the
/// default; trailing slashes dropped.
pub open spec fn download_base(mirror_url: Seq<char>, prefer_mirror: bool, download_url: Seq<char>) -> Seq<char> {
    let m = trim(mirror_url);
    let d = trim(download_url);
    let base = if prefer_mirror && m.len() > 0 {
        m
    } else if d.len() > 0 {
        d
    } else if m.len() > 0 {
        m
    } else {
        DEFAULT_DOWNLOAD_BASE@
    };
    trim_class_end(base, CharClass::Slash)
}

fn without_trailing_slashes(s: &str) -> (r: String)
    ensures
        r@ == trim_class_end(s@, CharClass::Slash),
{
    let v = chars_of(s);
    let b = scan_back_exec(&v, CharClass::Slash, 0, v.len());
    string_of_range(&v, 0, b)
}

pub fn resolve_download_base(mirror_url: &str, prefer_mirror: bool, download_url: &str) -> (r: String)
    ensures
        r@ == download_base(mirror_url@, prefer_mirror, download_url@),
{
    let m = trim_string(mirror_url);
    let d = trim_string(download_url);
    let m_empty = is_empty_text(m.as_str());
    let d_empty = is_empty_text(d.as_str());
    if prefer_mirror && !m_empty {
        without_trailing_slashes(m.as_str())
    } else if !d_empty {
        without_trailing_slashes(d.as_str())
    } else if !m_empty {
        without_trailing_slashes(m.as_str())
    } else {
        without_trailing_slashes(DEFAULT_DOWNLOAD_BASE)
    }
}

pub open spec fn file_url(base: Seq<char>, file_name: Seq<char>) -> Seq<char> {
    trim_class_end(base, CharClass::Slash) + "/"@ + file_name
}

pub fn build_file_url(base: &str, file_name: &str) -> (r: String)
    ensures
        r@ == file_url(base@, file_name@),
{
    let mut out = without_trailing_slashes(base);
    push_str(&mut out, "/");
    push_str(&mut out, file_name);
    out
}

/// The weights file of a catalog model under the application directory, or
/// the message for an unknown id.
pub fn model_file_path(app_dir: &str, id: &str) -> (r: Result<String, String>)
    ensures
        match r {
            Ok(p) => exists|i: int|
                0 <= i < catalog_view().len() && (#[trigger] catalog_view()[i]).0 == id@ && p@ == joined(
                    joined(joined(app_dir@, "models"@), "whisper"@),
                    catalog_view()[i].1,
                ),
            Err(e) => e@ == "未知模型: "@ + id@ && forall|i: int|
                0 <= i < catalog_view().len() ==> (#[trigger] catalog_view()[i]).0 != id@,
        },
{
    match entry_for_id(id) {
        None => {
            let mut e = "未知模型: ".to_string();
            push_str(&mut e, id);
            Err(e)
        },
        Some(ent) => {
            let dir = models_whisper_dir(app_dir);
            Ok(path_join(dir.as_str(), ent.file_name))
        },
    }
}

/// One catalog model as listed for the user.
#[derive(Debug)]
pub struct WhisperModelRowDto {
    pub id: String,
    pub file_name: String,
    pub size_bytes_estimate: u64,
    pub downloaded: bool,
    pub local_size_bytes: Option<u64>,
}

/// The model list: every catalog model, where they are kept, and the
/// download base in use.
#[derive(Debug)]
pub struct WhisperModelsListDto {
    pub models: Vec<WhisperModelRowDto>,
    pub models_dir: String,
    pub download_base_used: String,
}

/// What the listing says of catalog model `i`, given what was found on disk
/// for it (`Some(size)` where the file exists).
pub open spec fn row_matches(
    row: WhisperModelRowDto,
    i: int,
    found: Option<Option<u64>>,
) -> bool {
    &&& row.id@ == catalog_view()[i].0
    &&& row.file_name@ == catalog_view()[i].1
    &&& row.size_bytes_estimate == catalog_view()[i].2
    &&& row.downloaded == found is Some
    &&& row.local_size_bytes == match found {
        Some(s) => s,
        None => None,
    }
}

/// Lists the catalog. `found[i]` is what was seen on disk for catalog model
/// `i`: `None` where its file is missing, `Some(size)` where it exists, the
/// size being `None` where it could not be read. Positions past the end of
/// `found` count as missing.
pub fn list_catalog(
    app_dir: &str,
    mirror_url: &str,
    prefer_mirror: bool,
    download_url: &str,
    found: &Vec<Option<Option<u64>>>,
) -> (r: WhisperModelsListDto)
    ensures
        r.models_dir@ == joined(joined(app_dir@, "models"@), "whisper"@),
        r.download_base_used@ == download_base(mirror_url@, prefer_mirror, download_url@),
        r.models@.len() == catalog_view().len(),
        forall|i: int|
            0 <= i < r.models@.len() ==> row_matches(
                #[trigger] r.models@[i],
                i,
                if i < found@.len() {
                    found@[i]
                } else {
                    None
                },
            ),
{
    let dir = models_whisper_dir(app_dir);
    let base = resolve_download_base(mirror_url, prefer_mirror, download_url);
    let cat = catalog();
    let mut models: Vec<WhisperModelRowDto> = Vec::new();
    let mut i: usize = 0;
    while i < cat.len()
        invariant
            i <= cat@.len(),
            cat@.len() == catalog_view().len(),
            forall|k: int| 0 <= k < cat@.len() ==> entry_view(#[trigger] cat@[k]) == catalog_view()[k],
            models@.len() == i,
            forall|k: int|
                0 <= k < i ==> row_matches(
                    #[trigger] models@[k],
                    k,
                    if k < found@.len() {
                        found@[k]
                    } else {
                        None
                    },
                ),
        decreases cat.len() - i,
    {
        let e = cat[i];
        let f: Option<Option<u64>> = if i < found.len() {
            found[i]
        } else {
            None
        };
        let (downloaded, local) = match f {
            Some(s) => (true, s),
            None => (false, None),
        };
        let row = WhisperModelRowDto {
            id: e.id.to_string(),
            file_name: e.file_name.to_string(),
            size_bytes_estimate: e.size_bytes_estimate,
            downloaded,
            local_size_bytes: local,
        };
        assert(entry_view(cat@[i as int]) == catalog_view()[i as int]);
        models.push(row);
        i += 1;
    }
    WhisperModelsListDto { models, models_dir: dir, download_base_used: base }
}

} // verus!
