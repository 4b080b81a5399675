//! The portable directory layout, output file names for subtitles, and the
//! stable short hashes that keep names apart. Paths are held as strings;
//! `std::path` joins and splits them.
use vstd::prelude::*;

use crate::text::{chars_of, is_blank, push_str, str_eq, string_of, trim, trim_string};

verus! {

/// What `Path::new(base).join(part)` gives, as a string.
pub uninterp spec fn joined(base: Seq<char>, part: Seq<char>) -> Seq<char>;

/// What `Path::file_stem` gives for a path, as a string.
pub uninterp spec fn file_stem_of(path: Seq<char>) -> Option<Seq<char>>;

/// What `Path::parent` gives for a path, as a string.
pub uninterp spec fn parent_of(path: Seq<char>) -> Option<Seq<char>>;

/// What `Path::extension` gives for a path, as a string.
pub uninterp spec fn extension_of(path: Seq<char>) -> Option<Seq<char>>;

/// The SHA-256 digest of a byte string.
pub uninterp spec fn sha256_of(bytes: Seq<u8>) -> Seq<u8>;

/// Joins two path pieces with `std::path::Path::join` (the second replaces
/// the first where it is absolute); the result is named `joined`.
#[verifier::external_body]
pub(crate) fn path_join(base: &str, part: &str) -> (r: String)
    ensures
        r@ == joined(base@, part@),
{
    std::path::Path::new(base).join(part).to_string_lossy().to_string()
}

/// The file name without its extension, by `std::path::Path::file_stem`;
/// named `file_stem_of`.
#[verifier::external_body]
pub(crate) fn path_file_stem(path: &str) -> (r: Option<String>)
    ensures
        match r {
            Some(s) => file_stem_of(path@) == Some(s@),
            None => file_stem_of(path@) is None,
        },
{
    std::path::Path::new(path).file_stem().map(|s| s.to_string_lossy().to_string())
}

/// The directory part of a path, by `std::path::Path::parent`; named
/// `parent_of`.
#[verifier::external_body]
pub(crate) fn path_parent(path: &str) -> (r: Option<String>)
    ensures
        match r {
            Some(s) => parent_of(path@) == Some(s@),
            None => parent_of(path@) is None,
        },
{
    std::path::Path::new(path).parent().map(|p| p.to_string_lossy().to_string())
}

/// The extension of a path, by `std::path::Path::extension`; named
/// `extension_of`.
#[verifier::external_body]
pub(crate) fn path_extension(path: &str) -> (r: Option<String>)
    ensures
        match r {
            Some(s) => extension_of(path@) == Some(s@),
            None => extension_of(path@) is None,
        },
{
    std::path::Path::new(path).extension().map(|e| e.to_string_lossy().to_string())
}

/// The SHA-256 digest of bytes, by `sha2::Sha256::digest`: 32 bytes, named
/// `sha256_of`.
#[verifier::external_body]
pub(crate) fn sha256(bytes: &[u8]) -> (r: Vec<u8>)
    ensures
        r@ == sha256_of(bytes@),
        r@.len() == 32,
{
    <sha2::Sha256 as sha2::Digest>::digest(bytes).to_vec()
}

// ---------------------------------------------------------------------------
// Directory layout
// ---------------------------------------------------------------------------

pub fn config_dir(app_dir: &str) -> (r: String)
    ensures
        r@ == joined(app_dir@, "config"@),
{
    path_join(app_dir, "config")
}

pub fn bin_dir(app_dir: &str) -> (r: String)
    ensures
        r@ == joined(app_dir@, "bin"@),
{
    path_join(app_dir, "bin")
}

pub fn data_dir(app_dir: &str) -> (r: String)
    ensures
        r@ == joined(app_dir@, "data"@),
{
    path_join(app_dir, "data")
}

pub fn models_whisper_dir(app_dir: &str) -> (r: String)
    ensures
        r@ == joined(joined(app_dir@, "models"@), "whisper"@),
{
    let m = path_join(app_dir, "models");
    path_join(m.as_str(), "whisper")
}

pub fn logs_dir(app_dir: &str) -> (r: String)
    ensures
        r@ == joined(app_dir@, "logs"@),
{
    path_join(app_dir, "logs")
}

pub fn temp_dir(app_dir: &str) -> (r: String)
    ensures
        r@ == joined(app_dir@, "temp"@),
{
    path_join(app_dir, "temp")
}

pub fn app_config_path(app_dir: &str) -> (r: String)
    ensures
        r@ == joined(joined(app_dir@, "config"@), "app-config.json"@),
{
    let d = config_dir(app_dir);
    path_join(d.as_str(), "app-config.json")
}

pub fn secrets_path(app_dir: &str) -> (r: String)
    ensures
        r@ == joined(joined(app_dir@, "config"@), "secrets.enc.json"@),
{
    let d = config_dir(app_dir);
    path_join(d.as_str(), "secrets.enc.json")
}

pub fn vault_key_path(app_dir: &str) -> (r: String)
    ensures
        r@ == joined(joined(app_dir@, "config"@), "vault.key"@),
{
    let d = config_dir(app_dir);
    path_join(d.as_str(), "vault.key")
}

pub fn tasks_cache_path(app_dir: &str) -> (r: String)
    ensures
        r@ == joined(joined(app_dir@, "data"@), "tasks-cache.json"@),
{
    let d = data_dir(app_dir);
    path_join(d.as_str(), "tasks-cache.json")
}

// ---------------------------------------------------------------------------
// Hex digests
// ---------------------------------------------------------------------------

pub open spec fn hex_digit(d: int) -> char {
    if d < 10 {
        (('0' as int) + d) as char
    } else {
        (('a' as int) + d - 10) as char
    }
}

/// A byte as two lowercase hex digits (`{:02x}`).
pub open spec fn hex_byte(b: u8) -> Seq<char> {
    seq![hex_digit(b as int / 16), hex_digit(b as int % 16)]
}

/// The first `n` bytes in hex.
pub open spec fn hex_prefix(bytes: Seq<u8>, n: int) -> Seq<char>
    decreases n,
{
    if n <= 0 || n > bytes.len() {
        seq![]
    } else {
        hex_prefix(bytes, n - 1) + hex_byte(bytes[n - 1])
    }
}

pub proof fn lemma_hex_prefix_len(bytes: Seq<u8>, n: int)
    requires
        0 <= n <= bytes.len(),
    ensures
        hex_prefix(bytes, n).len() == 2 * n,
    decreases n,
{
    if n > 0 {
        lemma_hex_prefix_len(bytes, n - 1);
    }
}

fn hex_digit_exec(d: u8) -> (r: char)
    requires
        d < 16,
    ensures
        r == hex_digit(d as int),
{
    if d < 10 {
        (48 + d) as char
    } else {
        (97 + d - 10) as char
    }
}

fn push_hex(out: &mut String, bytes: &Vec<u8>, n: usize)
    requires
        n <= bytes.len(),
    ensures
        final(out)@ == old(out)@ + hex_prefix(bytes@, n as int),
{
    let mut i: usize = 0;
    while i < n
        invariant
            i <= n <= bytes.len(),
            out@ == old(out)@ + hex_prefix(bytes@, i as int),
        decreases n - i,
    {
        let b = bytes[i];
        crate::text::push_char(out, hex_digit_exec(b / 16));
        crate::text::push_char(out, hex_digit_exec(b % 16));
        i += 1;
    }
}

/// A stable short hash of a video path: the first four SHA-256 bytes of its
/// UTF-8 text, in hex.
pub open spec fn path_hash(path: Seq<char>) -> Seq<char> {
    hex_prefix(sha256_of(vstd::utf8::encode_utf8(path)), 4)
}

pub fn stable_path_hash(path_str: &str) -> (r: String)
    ensures
        r@ == path_hash(path_str@),
        r@.len() == 8,
{
    let digest = sha256(path_str.as_bytes());
    let mut out = String::new();
    push_hex(&mut out, &digest, 4);
    assert(out@ =~= hex_prefix(digest@, 4));
    proof {
        lemma_hex_prefix_len(digest@, 4);
    }
    out
}

// ---------------------------------------------------------------------------
// Subtitle output paths
// ---------------------------------------------------------------------------

pub open spec fn lang_char(c: char) -> bool {
    crate::text::ascii_alphanumeric(c) || c == '_' || c == '-'
}

/// The language characters of `s[..i]`, at most `limit` of them.
pub open spec fn lang_chars(s: Seq<char>, i: int, limit: int) -> Seq<char>
    decreases i,
{
    if i <= 0 || i > s.len() {
        seq![]
    } else {
        let prev = lang_chars(s, i - 1, limit);
        if lang_char(s[i - 1]) && prev.len() < limit {
            prev.push(s[i - 1])
        } else {
            prev
        }
    }
}

/// A language code fit for a file name: `und` for blank or `auto`, else its
/// first 16 ASCII letters, digits, `_` or `-`, lowercased.
pub open spec fn lang_code(raw: Seq<char>) -> Seq<char> {
    let t = trim(raw);
    if t.len() == 0 || crate::text::lower_seq(t) == "auto"@ {
        "und"@
    } else {
        crate::text::lower_seq(lang_chars(t, t.len() as int, 16))
    }
}

pub fn sanitize_lang_code(raw: &str) -> (r: String)
    ensures
        r@ == lang_code(raw@),
{
    let t = trim_string(raw);
    let tv = chars_of(t.as_str());
    let lower = crate::text::lower_vec(&tv);
    let auto = chars_of("auto");
    if tv.len() == 0 || crate::text::eq_chars(&lower, &auto) {
        return "und".to_string();
    }
    let mut kept: Vec<char> = Vec::new();
    let mut i: usize = 0;
    while i < tv.len()
        invariant
            i <= tv.len(),
            kept@ == lang_chars(tv@, i as int, 16),
        decreases tv.len() - i,
    {
        let c = tv[i];
        if (crate::text::is_ascii_alphanumeric(c) || c == '_' || c == '-') && kept.len() < 16 {
            kept.push(c);
        }
        i += 1;
    }
    let low = crate::text::lower_vec(&kept);
    string_of(&low)
}

/// The directory for a subtitle and whether its name carries the path hash:
/// the trimmed custom directory (hashed), or the video's directory.
pub open spec fn output_dir(video_path: Seq<char>, output_dir_mode: Seq<char>, custom_output_dir: Seq<char>) -> Result<
    (Seq<char>, bool),
    Seq<char>,
> {
    if output_dir_mode == "custom"@ {
        let d = trim(custom_output_dir);
        if d.len() == 0 {
            Err("自定义输出目录为空"@)
        } else {
            Ok((d, true))
        }
    } else {
        match parent_of(video_path) {
            Some(p) => Ok((p, false)),
            None => Err("无法解析视频所在目录"@),
        }
    }
}

pub open spec fn stem_or_default(video_path: Seq<char>) -> Seq<char> {
    match file_stem_of(video_path) {
        Some(s) => s,
        None => "subtitle"@,
    }
}

/// `{stem}_{lang}.srt` next to the video, `{stem}_{hash}_{lang}.srt` in a
/// custom directory.
pub open spec fn original_srt_path(
    video_path: Seq<char>,
    key: Seq<char>,
    output_dir_mode: Seq<char>,
    custom_output_dir: Seq<char>,
    lang: Seq<char>,
) -> Result<Seq<char>, Seq<char>> {
    match output_dir(video_path, output_dir_mode, custom_output_dir) {
        Err(e) => Err(e),
        Ok((dir, use_hash)) => {
            let stem = stem_or_default(video_path);
            let name = if use_hash {
                stem + "_"@ + path_hash(key) + "_"@ + lang_code(lang) + ".srt"@
            } else {
                stem + "_"@ + lang_code(lang) + ".srt"@
            };
            Ok(joined(dir, name))
        },
    }
}

/// `{stem}.srt` next to the video, `{stem}_{hash}.srt` in a custom
/// directory.
pub open spec fn bilingual_srt_path(
    video_path: Seq<char>,
    key: Seq<char>,
    output_dir_mode: Seq<char>,
    custom_output_dir: Seq<char>,
) -> Result<Seq<char>, Seq<char>> {
    match output_dir(video_path, output_dir_mode, custom_output_dir) {
        Err(e) => Err(e),
        Ok((dir, use_hash)) => {
            let stem = stem_or_default(video_path);
            let name = if use_hash {
                stem + "_"@ + path_hash(key) + ".srt"@
            } else {
                stem + ".srt"@
            };
            Ok(joined(dir, name))
        },
    }
}

fn output_dir_exec(video_path: &str, output_dir_mode: &str, custom_output_dir: &str) -> (r: Result<(String, bool), String>)
    ensures
        match r {
            Ok((d, h)) => output_dir(video_path@, output_dir_mode@, custom_output_dir@) == Ok::<
                (Seq<char>, bool),
                Seq<char>,
            >((d@, h)),
            Err(e) => output_dir(video_path@, output_dir_mode@, custom_output_dir@) == Err::<(Seq<char>, bool), Seq<char>>(
                e@,
            ),
        },
{
    if str_eq(output_dir_mode, "custom") {
        let d = trim_string(custom_output_dir);
        if is_blank(custom_output_dir) {
            return Err("自定义输出目录为空".to_string());
        }
        Ok((d, true))
    } else {
        match path_parent(video_path) {
            Some(p) => Ok((p, false)),
            None => Err("无法解析视频所在目录".to_string()),
        }
    }
}

fn stem_exec(video_path: &str) -> (r: String)
    ensures
        r@ == stem_or_default(video_path@),
{
    match path_file_stem(video_path) {
        Some(s) => s,
        None => "subtitle".to_string(),
    }
}

pub fn resolve_original_srt_path(
    video_path: &str,
    video_path_key: &str,
    output_dir_mode: &str,
    custom_output_dir: &str,
    lang_code: &str,
) -> (r: Result<String, String>)
    ensures
        match r {
            Ok(p) => original_srt_path(video_path@, video_path_key@, output_dir_mode@, custom_output_dir@, lang_code@)
                == Ok::<Seq<char>, Seq<char>>(p@),
            Err(e) => original_srt_path(video_path@, video_path_key@, output_dir_mode@, custom_output_dir@, lang_code@)
                == Err::<Seq<char>, Seq<char>>(e@),
        },
{
    let stem = stem_exec(video_path);
    let lang = sanitize_lang_code(lang_code);
    let (dir, use_hash) = match output_dir_exec(video_path, output_dir_mode, custom_output_dir) {
        Ok(x) => x,
        Err(e) => return Err(e),
    };
    let mut name = stem;
    push_str(&mut name, "_");
    if use_hash {
        let h = stable_path_hash(video_path_key);
        push_str(&mut name, h.as_str());
        push_str(&mut name, "_");
    }
    push_str(&mut name, lang.as_str());
    push_str(&mut name, ".srt");
    Ok(path_join(dir.as_str(), name.as_str()))
}

pub fn resolve_bilingual_srt_path(
    video_path: &str,
    video_path_key: &str,
    output_dir_mode: &str,
    custom_output_dir: &str,
) -> (r: Result<String, String>)
    ensures
        match r {
            Ok(p) => bilingual_srt_path(video_path@, video_path_key@, output_dir_mode@, custom_output_dir@) == Ok::<
                Seq<char>,
                Seq<char>,
            >(p@),
            Err(e) => bilingual_srt_path(video_path@, video_path_key@, output_dir_mode@, custom_output_dir@) == Err::<
                Seq<char>,
                Seq<char>,
            >(e@),
        },
{
    let stem = stem_exec(video_path);
    let (dir, use_hash) = match output_dir_exec(video_path, output_dir_mode, custom_output_dir) {
        Ok(x) => x,
        Err(e) => return Err(e),
    };
    let mut name = stem;
    if use_hash {
        push_str(&mut name, "_");
        let h = stable_path_hash(video_path_key);
        push_str(&mut name, h.as_str());
    }
    push_str(&mut name, ".srt");
    Ok(path_join(dir.as_str(), name.as_str()))
}

/// Whether a path names a video the pipeline takes (by its extension,
/// ignoring case).
pub open spec fn video_extension(path: Seq<char>) -> bool {
    match extension_of(path) {
        Some(e) => {
            let l = crate::text::lower_seq(e);
            l == "mp4"@ || l == "mkv"@ || l == "mov"@ || l == "avi"@ || l == "webm"@
        },
        None => false,
    }
}

pub fn video_extension_ok(path: &str) -> (r: bool)
    ensures
        r == video_extension(path@),
{
    match path_extension(path) {
        Some(e) => {
            let ev = chars_of(e.as_str());
            let l = crate::text::lower_vec(&ev);
            let ls = string_of(&l);
            let s = ls.as_str();
            str_eq(s, "mp4") || str_eq(s, "mkv") || str_eq(s, "mov") || str_eq(s, "avi") || str_eq(s, "webm")
        },
        None => false,
    }
}

} // verus!
