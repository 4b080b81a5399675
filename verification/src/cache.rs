//! The per-task cache: a directory per video (`{stem}_{hash8}`) whose
//! manifest stamps each finished stage with a hash of its inputs, so that an
//! interrupted task resumes from the last valid stage. The library decides
//! the stamps and which files a change makes stale; the caller reads and
//! writes the files.
use vstd::prelude::*;

use crate::srt::strings_view;

use crate::paths::{joined, path_hash, path_join, sha256, sha256_of, file_stem_of, path_file_stem, stable_path_hash, hex_prefix};
use crate::text::{chars_of, push_str, str_eq, string_of};

verus! {

/// The stage stamps and the video's metadata.
pub const MANIFEST_FILE: &'static str = "stage_stamps.json";

pub const AUDIO_FILE: &'static str = "audio.wav";

pub const W_SRT_FILE: &'static str = "w.srt";

pub const W_JSON_FILE: &'static str = "w.json";

pub const CUES_FILE: &'static str = "cues.json";

pub const PARTIAL_TRANSLATIONS_FILE: &'static str = "translations.partial.json";

pub const FALLBACK_INDICES_FILE: &'static str = "translations.fallback.json";

/// The stamp of one stage: the hash of its inputs and whether it finished.
pub struct StageStamp {
    pub hash: String,
    pub done: bool,
}

impl Default for StageStamp {
    fn default() -> (r: Self)
        ensures
            r.hash@.len() == 0 && !r.done,
    {
        StageStamp { hash: String::new(), done: false }
    }
}

/// The video a cache belongs to and the stamps of its stages.
pub struct CacheManifest {
    pub video_path: String,
    pub video_size: u64,
    pub video_mtime_ms: i64,
    pub audio: StageStamp,
    pub whisper: StageStamp,
    pub segment: StageStamp,
    pub translate: StageStamp,
}

impl Default for CacheManifest {
    fn default() -> (r: Self)
        ensures
            r.video_path@.len() == 0 && r.video_size == 0 && r.video_mtime_ms == 0,
            is_reset(r.audio) && is_reset(r.whisper) && is_reset(r.segment) && is_reset(r.translate),
    {
        CacheManifest {
            video_path: String::new(),
            video_size: 0,
            video_mtime_ms: 0,
            audio: StageStamp::default(),
            whisper: StageStamp::default(),
            segment: StageStamp::default(),
            translate: StageStamp::default(),
        }
    }
}

/// The cache directory of one task and its manifest.
pub struct TaskCache {
    dir: String,
    manifest: CacheManifest,
}

pub open spec fn is_reset(s: StageStamp) -> bool {
    s.hash@.len() == 0 && !s.done
}

pub open spec fn stamped(s: StageStamp, hash: Seq<char>, done: bool) -> bool {
    s.hash@ == hash && s.done == done
}

pub fn cache_root(app_dir: &str) -> (r: String)
    ensures
        r@ == joined(app_dir@, "cache"@),
{
    path_join(app_dir, "cache")
}

pub open spec fn stem_char(c: char) -> char {
    if crate::text::ascii_alphanumeric(c) || c == '_' || c == '-' {
        c
    } else {
        '_'
    }
}

/// A name safe for a directory: each character outside ASCII letters,
/// digits, `_` and `-` becomes `_`, at most 80 of them, underscores trimmed
/// at both ends; `video` where nothing is left.
pub open spec fn safe_stem(s: Seq<char>) -> Seq<char> {
    let n = if s.len() < 80 {
        s.len() as int
    } else {
        80
    };
    let cleaned = s.take(n).map_values(|c: char| stem_char(c));
    let t = crate::text::trim_class(cleaned, crate::text::CharClass::Underscore);
    if t.len() == 0 {
        "video"@
    } else {
        t
    }
}

pub fn sanitize_stem(s: &str) -> (r: String)
    ensures
        r@ == safe_stem(s@),
{
    let v = chars_of(s);
    let n = if v.len() < 80 {
        v.len()
    } else {
        80
    };
    let mut cleaned: Vec<char> = Vec::new();
    let mut i: usize = 0;
    while i < n
        invariant
            i <= n <= v.len(),
            cleaned@ == v@.take(i as int).map_values(|c: char| stem_char(c)),
        decreases n - i,
    {
        let c = v[i];
        let d = if crate::text::is_ascii_alphanumeric(c) || c == '_' || c == '-' {
            c
        } else {
            '_'
        };
        cleaned.push(d);
        assert(v@.take(i + 1).map_values(|c: char| stem_char(c)) =~= v@.take(i as int).map_values(
            |c: char| stem_char(c),
        ).push(stem_char(v@[i as int])));
        i += 1;
    }
    let t = crate::text::trim_vec(&cleaned, crate::text::CharClass::Underscore);
    if t.len() == 0 {
        "video".to_string()
    } else {
        string_of(&t)
    }
}

/// `{safe stem}_{path hash}` for a video path.
pub open spec fn cache_key(video_path: Seq<char>) -> Seq<char> {
    let stem = match file_stem_of(video_path) {
        Some(s) => s,
        None => "video"@,
    };
    safe_stem(stem) + "_"@ + path_hash(video_path)
}

pub fn derive_cache_key(video_path: &str) -> (r: String)
    ensures
        r@ == cache_key(video_path@),
{
    let stem = match path_file_stem(video_path) {
        Some(s) => s,
        None => "video".to_string(),
    };
    let mut out = sanitize_stem(stem.as_str());
    push_str(&mut out, "_");
    let h = stable_path_hash(video_path);
    push_str(&mut out, h.as_str());
    out
}

/// The bytes hashed for a list of parts: each part's UTF-8 bytes followed
/// by the unit separator 0x1F.
pub open spec fn parts_bytes(parts: Seq<Seq<char>>) -> Seq<u8>
    decreases parts.len(),
{
    if parts.len() == 0 {
        seq![]
    } else {
        parts_bytes(parts.drop_last()) + vstd::utf8::encode_utf8(parts.last()) + seq![0x1fu8]
    }
}

/// The first eight digest bytes of the parts, in hex.
pub open spec fn parts_hash(parts: Seq<Seq<char>>) -> Seq<char> {
    hex_prefix(sha256_of(parts_bytes(parts)), 8)
}

pub open spec fn strs_view(v: Seq<&str>) -> Seq<Seq<char>> {
    v.map_values(|s: &str| s@)
}

pub fn hash_parts(parts: &[&str]) -> (r: String)
    ensures
        r@ == parts_hash(strs_view(parts@)),
{
    let ghost pv = strs_view(parts@);
    let mut bytes: Vec<u8> = Vec::new();
    let mut i: usize = 0;
    while i < parts.len()
        invariant
            i <= parts.len(),
            pv == strs_view(parts@),
            bytes@ == parts_bytes(pv.take(i as int)),
        decreases parts.len() - i,
    {
        let b = parts[i].as_bytes();
        let ghost before = bytes@;
        let mut j: usize = 0;
        while j < b.len()
            invariant
                j <= b.len(),
                bytes@ == before + b@.take(j as int),
            decreases b.len() - j,
        {
            bytes.push(b[j]);
            assert(b@.take(j + 1) =~= b@.take(j as int).push(b@[j as int]));
            j += 1;
        }
        bytes.push(0x1f);
        assert(pv.take(i + 1).drop_last() =~= pv.take(i as int));
        assert(pv.take(i + 1).last() == parts@[i as int]@);
        assert(b@.take(b.len() as int) =~= b@);
        assert(bytes@ =~= parts_bytes(pv.take(i + 1)));
        i += 1;
    }
    assert(pv.take(parts.len() as int) =~= pv);
    let digest = sha256(bytes.as_slice());
    let mut out = String::new();
    let mut k: usize = 0;
    while k < 8
        invariant
            k <= 8,
            digest@.len() == 32,
            out@ == hex_prefix(digest@, k as int),
        decreases 8 - k,
    {
        let byte = digest[k];
        let mut one = String::new();
        crate::text::push_char(&mut one, hex_nibble(byte / 16));
        crate::text::push_char(&mut one, hex_nibble(byte % 16));
        push_str(&mut out, one.as_str());
        assert(one@ =~= crate::paths::hex_byte(byte));
        k += 1;
    }
    out
}

fn hex_nibble(d: u8) -> (r: char)
    requires
        d < 16,
    ensures
        r == crate::paths::hex_digit(d as int),
{
    if d < 10 {
        (48 + d) as char
    } else {
        (97 + d - 10) as char
    }
}

pub open spec fn all_files(dir: Seq<char>) -> Seq<Seq<char>> {
    seq![
        joined(dir, AUDIO_FILE@),
        joined(dir, W_SRT_FILE@),
        joined(dir, W_JSON_FILE@),
        joined(dir, CUES_FILE@),
        joined(dir, PARTIAL_TRANSLATIONS_FILE@),
        joined(dir, FALLBACK_INDICES_FILE@),
    ]
}

/// The files stale once the translation stage is invalid.
pub open spec fn translate_files(dir: Seq<char>) -> Seq<Seq<char>> {
    seq![joined(dir, PARTIAL_TRANSLATIONS_FILE@), joined(dir, FALLBACK_INDICES_FILE@)]
}

/// The files stale once the segmentation stage is invalid.
pub open spec fn segment_files(dir: Seq<char>) -> Seq<Seq<char>> {
    translate_files(dir).push(joined(dir, CUES_FILE@))
}

/// The files stale once the recognition stage is invalid.
pub open spec fn whisper_files(dir: Seq<char>) -> Seq<Seq<char>> {
    segment_files(dir).push(joined(dir, W_SRT_FILE@)).push(joined(dir, W_JSON_FILE@))
}

pub open spec fn video_changed(m: CacheManifest, video_path: Seq<char>, size: u64, mtime: i64) -> bool {
    m.video_path@ != video_path || m.video_size != size || m.video_mtime_ms != mtime
}

fn files_in(dir: &String, names: &Vec<&str>) -> (r: Vec<String>)
    ensures
        strings_view(r@) == names@.map_values(|n: &str| joined(dir@, n@)),
{
    let mut out: Vec<String> = Vec::new();
    let mut i: usize = 0;
    while i < names.len()
        invariant
            i <= names.len(),
            strings_view(out@) == names@.take(i as int).map_values(|n: &str| joined(dir@, n@)),
        decreases names.len() - i,
    {
        let ghost before = strings_view(out@);
        out.push(path_join(dir.as_str(), names[i]));
        assert(strings_view(out@) =~= before.push(joined(dir@, names@[i as int]@)));
        assert(names@.take(i + 1).map_values(|n: &str| joined(dir@, n@)) =~= names@.take(i as int).map_values(
            |n: &str| joined(dir@, n@),
        ).push(joined(dir@, names@[i as int]@)));
        i += 1;
    }
    assert(names@.take(names.len() as int) =~= names@);
    out
}


impl TaskCache {
    pub closed spec fn dir_view(&self) -> Seq<char> {
        self.dir@
    }

    pub closed spec fn manifest_view(&self) -> CacheManifest {
        self.manifest
    }

    /// The cache of a video in `{app_dir}/cache/{key}` with the manifest read
    /// from it (if any): a manifest for another video, size or modification
    /// time is replaced by a fresh one, and every stage file is then stale.
    /// Returns the cache and the files to remove.
    pub fn open(app_dir: &str, video_path: &str, video_size: u64, video_mtime_ms: i64, loaded: Option<CacheManifest>) -> (r: (
        TaskCache,
        Vec<String>,
    ))
        ensures
            r.0.dir_view() == joined(joined(app_dir@, "cache"@), cache_key(video_path@)),
            match loaded {
                Some(m) => !video_changed(m, video_path@, video_size, video_mtime_ms),
                None => false,
            } ==> r.0.manifest_view() == loaded->Some_0 && r.1@.len() == 0,
            !match loaded {
                Some(m) => !video_changed(m, video_path@, video_size, video_mtime_ms),
                None => false,
            } ==> {
                &&& r.0.manifest_view().video_path@ == video_path@
                &&& r.0.manifest_view().video_size == video_size
                &&& r.0.manifest_view().video_mtime_ms == video_mtime_ms
                &&& is_reset(r.0.manifest_view().audio) && is_reset(r.0.manifest_view().whisper)
                &&& is_reset(r.0.manifest_view().segment) && is_reset(r.0.manifest_view().translate)
                &&& strings_view(r.1@) == all_files(r.0.dir_view())
            },
    {
        let root = cache_root(app_dir);
        let key = derive_cache_key(video_path);
        let dir = path_join(root.as_str(), key.as_str());
        let keep = match &loaded {
            Some(m) => str_eq(m.video_path.as_str(), video_path) && m.video_size == video_size && m.video_mtime_ms
                == video_mtime_ms,
            None => false,
        };
        if keep {
            match loaded {
                Some(m) => {
                    let c = TaskCache { dir, manifest: m };
                    return (c, Vec::new());
                },
                None => {
                    assert(false);
                    return (TaskCache { dir, manifest: CacheManifest::default() }, Vec::new());
                },
            }
        }
        let manifest = CacheManifest {
            video_path: video_path.to_string(),
            video_size,
            video_mtime_ms,
            audio: StageStamp::default(),
            whisper: StageStamp::default(),
            segment: StageStamp::default(),
            translate: StageStamp::default(),
        };
        let names = vec![AUDIO_FILE, W_SRT_FILE, W_JSON_FILE, CUES_FILE, PARTIAL_TRANSLATIONS_FILE, FALLBACK_INDICES_FILE];
        let removed = files_in(&dir, &names);
        assert(strings_view(removed@) =~= all_files(dir@));
        (TaskCache { dir, manifest }, removed)
    }

    pub fn dir(&self) -> (r: &str)
        ensures
            r@ == self.dir_view(),
    {
        self.dir.as_str()
    }

    pub fn manifest(&self) -> (r: &CacheManifest)
        ensures
            *r == self.manifest_view(),
    {
        &self.manifest
    }

    pub fn manifest_path(&self) -> (r: String)
        ensures
            r@ == joined(self.dir_view(), MANIFEST_FILE@),
    {
        path_join(self.dir.as_str(), MANIFEST_FILE)
    }

    pub fn audio_path(&self) -> (r: String)
        ensures
            r@ == joined(self.dir_view(), AUDIO_FILE@),
    {
        path_join(self.dir.as_str(), AUDIO_FILE)
    }

    pub fn w_srt_path(&self) -> (r: String)
        ensures
            r@ == joined(self.dir_view(), W_SRT_FILE@),
    {
        path_join(self.dir.as_str(), W_SRT_FILE)
    }

    pub fn w_json_path(&self) -> (r: String)
        ensures
            r@ == joined(self.dir_view(), W_JSON_FILE@),
    {
        path_join(self.dir.as_str(), W_JSON_FILE)
    }

    pub fn w_prefix(&self) -> (r: String)
        ensures
            r@ == joined(self.dir_view(), "w"@),
    {
        path_join(self.dir.as_str(), "w")
    }

    pub fn cues_path(&self) -> (r: String)
        ensures
            r@ == joined(self.dir_view(), CUES_FILE@),
    {
        path_join(self.dir.as_str(), CUES_FILE)
    }

    pub fn partial_translations_path(&self) -> (r: String)
        ensures
            r@ == joined(self.dir_view(), PARTIAL_TRANSLATIONS_FILE@),
    {
        path_join(self.dir.as_str(), PARTIAL_TRANSLATIONS_FILE)
    }

    pub fn fallback_indices_path(&self) -> (r: String)
        ensures
            r@ == joined(self.dir_view(), FALLBACK_INDICES_FILE@),
    {
        path_join(self.dir.as_str(), FALLBACK_INDICES_FILE)
    }

    /// The audio is reusable: stamped done with this hash, and the file is
    /// there (`audio_is_file`).
    pub fn audio_valid(&self, expected_hash: &str, audio_is_file: bool) -> (r: bool)
        ensures
            r == (stamped(self.manifest_view().audio, expected_hash@, true) && audio_is_file),
    {
        self.manifest.audio.done && str_eq(self.manifest.audio.hash.as_str(), expected_hash) && audio_is_file
    }

    pub fn whisper_valid(&self, expected_hash: &str, srt_is_file: bool, json_is_file: bool) -> (r: bool)
        ensures
            r == (stamped(self.manifest_view().whisper, expected_hash@, true) && srt_is_file && json_is_file),
    {
        self.manifest.whisper.done && str_eq(self.manifest.whisper.hash.as_str(), expected_hash) && srt_is_file
            && json_is_file
    }

    pub fn segment_valid(&self, expected_hash: &str, cues_is_file: bool) -> (r: bool)
        ensures
            r == (stamped(self.manifest_view().segment, expected_hash@, true) && cues_is_file),
    {
        self.manifest.segment.done && str_eq(self.manifest.segment.hash.as_str(), expected_hash) && cues_is_file
    }

    fn invalidate_from_translate(&mut self) -> (r: Vec<String>)
        ensures
            final(self).dir == old(self).dir,
            final(self).manifest.video_path == old(self).manifest.video_path,
            final(self).manifest.video_size == old(self).manifest.video_size,
            final(self).manifest.video_mtime_ms == old(self).manifest.video_mtime_ms,
            final(self).manifest.audio == old(self).manifest.audio,
            final(self).manifest.whisper == old(self).manifest.whisper,
            final(self).manifest.segment == old(self).manifest.segment,
            is_reset(final(self).manifest.translate),
            strings_view(r@) == translate_files(old(self).dir@),
    {
        self.manifest.translate = StageStamp::default();
        let names = vec![PARTIAL_TRANSLATIONS_FILE, FALLBACK_INDICES_FILE];
        let r = files_in(&self.dir, &names);
        assert(strings_view(r@) =~= translate_files(self.dir@));
        r
    }

    fn invalidate_from_segment(&mut self) -> (r: Vec<String>)
        ensures
            final(self).dir == old(self).dir,
            final(self).manifest.video_path == old(self).manifest.video_path,
            final(self).manifest.video_size == old(self).manifest.video_size,
            final(self).manifest.video_mtime_ms == old(self).manifest.video_mtime_ms,
            final(self).manifest.audio == old(self).manifest.audio,
            final(self).manifest.whisper == old(self).manifest.whisper,
            is_reset(final(self).manifest.segment) && is_reset(final(self).manifest.translate),
            strings_view(r@) == segment_files(old(self).dir@),
    {
        self.manifest.segment = StageStamp::default();
        let mut r = self.invalidate_from_translate();
        let ghost before = strings_view(r@);
        r.push(self.cues_path());
        assert(strings_view(r@) =~= before.push(joined(self.dir@, CUES_FILE@)));
        r
    }

    fn invalidate_from_whisper(&mut self) -> (r: Vec<String>)
        ensures
            final(self).dir == old(self).dir,
            final(self).manifest.video_path == old(self).manifest.video_path,
            final(self).manifest.video_size == old(self).manifest.video_size,
            final(self).manifest.video_mtime_ms == old(self).manifest.video_mtime_ms,
            final(self).manifest.audio == old(self).manifest.audio,
            is_reset(final(self).manifest.whisper) && is_reset(final(self).manifest.segment) && is_reset(
                final(self).manifest.translate,
            ),
            strings_view(r@) == whisper_files(old(self).dir@),
    {
        self.manifest.whisper = StageStamp::default();
        let mut r = self.invalidate_from_segment();
        let ghost before = strings_view(r@);
        r.push(self.w_srt_path());
        r.push(self.w_json_path());
        assert(strings_view(r@) =~= before.push(joined(self.dir@, W_SRT_FILE@)).push(joined(self.dir@, W_JSON_FILE@)));
        r
    }

    /// Stamps the audio stage done; where its hash changed (or it was not
    /// done), every later stage is reset and its files are returned for
    /// removal.
    pub fn mark_audio_done(&mut self, hash: &str) -> (r: Vec<String>)
        ensures
            final(self).dir_view() == old(self).dir_view(),
            stamped(final(self).manifest_view().audio, hash@, true),
            final(self).manifest_view().video_path == old(self).manifest_view().video_path,
            final(self).manifest_view().video_size == old(self).manifest_view().video_size,
            final(self).manifest_view().video_mtime_ms == old(self).manifest_view().video_mtime_ms,
            if stamped(old(self).manifest_view().audio, hash@, true) {
                &&& final(self).manifest_view().whisper == old(self).manifest_view().whisper
                &&& final(self).manifest_view().segment == old(self).manifest_view().segment
                &&& final(self).manifest_view().translate == old(self).manifest_view().translate
                &&& r@.len() == 0
            } else {
                &&& is_reset(final(self).manifest_view().whisper) && is_reset(final(self).manifest_view().segment)
                &&& is_reset(final(self).manifest_view().translate)
                &&& strings_view(r@) == whisper_files(old(self).dir_view())
            },
    {
        let same = self.manifest.audio.done && str_eq(self.manifest.audio.hash.as_str(), hash);
        let r = if !same {
            self.invalidate_from_whisper()
        } else {
            Vec::new()
        };
        self.manifest.audio = StageStamp { hash: hash.to_string(), done: true };
        r
    }

    pub fn mark_whisper_done(&mut self, hash: &str) -> (r: Vec<String>)
        ensures
            final(self).dir_view() == old(self).dir_view(),
            stamped(final(self).manifest_view().whisper, hash@, true),
            final(self).manifest_view().video_path == old(self).manifest_view().video_path,
            final(self).manifest_view().video_size == old(self).manifest_view().video_size,
            final(self).manifest_view().video_mtime_ms == old(self).manifest_view().video_mtime_ms,
            final(self).manifest_view().audio == old(self).manifest_view().audio,
            if stamped(old(self).manifest_view().whisper, hash@, true) {
                &&& final(self).manifest_view().segment == old(self).manifest_view().segment
                &&& final(self).manifest_view().translate == old(self).manifest_view().translate
                &&& r@.len() == 0
            } else {
                &&& is_reset(final(self).manifest_view().segment) && is_reset(final(self).manifest_view().translate)
                &&& strings_view(r@) == segment_files(old(self).dir_view())
            },
    {
        let same = self.manifest.whisper.done && str_eq(self.manifest.whisper.hash.as_str(), hash);
        let r = if !same {
            self.invalidate_from_segment()
        } else {
            Vec::new()
        };
        self.manifest.whisper = StageStamp { hash: hash.to_string(), done: true };
        r
    }

    pub fn mark_segment_done(&mut self, hash: &str) -> (r: Vec<String>)
        ensures
            final(self).dir_view() == old(self).dir_view(),
            stamped(final(self).manifest_view().segment, hash@, true),
            final(self).manifest_view().video_path == old(self).manifest_view().video_path,
            final(self).manifest_view().video_size == old(self).manifest_view().video_size,
            final(self).manifest_view().video_mtime_ms == old(self).manifest_view().video_mtime_ms,
            final(self).manifest_view().audio == old(self).manifest_view().audio,
            final(self).manifest_view().whisper == old(self).manifest_view().whisper,
            if stamped(old(self).manifest_view().segment, hash@, true) {
                &&& final(self).manifest_view().translate == old(self).manifest_view().translate
                &&& r@.len() == 0
            } else {
                &&& is_reset(final(self).manifest_view().translate)
                &&& strings_view(r@) == translate_files(old(self).dir_view())
            },
    {
        let same = self.manifest.segment.done && str_eq(self.manifest.segment.hash.as_str(), hash);
        let r = if !same {
            self.invalidate_from_translate()
        } else {
            Vec::new()
        };
        self.manifest.segment = StageStamp { hash: hash.to_string(), done: true };
        r
    }

    /// Starts the translation stage: partial results stay where its hash is
    /// unchanged (so work resumes), and are returned for removal otherwise.
    pub fn begin_translate(&mut self, hash: &str) -> (r: Vec<String>)
        ensures
            final(self).dir_view() == old(self).dir_view(),
            stamped(final(self).manifest_view().translate, hash@, false),
            final(self).manifest_view().video_path == old(self).manifest_view().video_path,
            final(self).manifest_view().video_size == old(self).manifest_view().video_size,
            final(self).manifest_view().video_mtime_ms == old(self).manifest_view().video_mtime_ms,
            final(self).manifest_view().audio == old(self).manifest_view().audio,
            final(self).manifest_view().whisper == old(self).manifest_view().whisper,
            final(self).manifest_view().segment == old(self).manifest_view().segment,
            if old(self).manifest_view().translate.hash@ == hash@ {
                r@.len() == 0
            } else {
                strings_view(r@) == translate_files(old(self).dir_view())
            },
    {
        let same = str_eq(self.manifest.translate.hash.as_str(), hash);
        let r = if !same {
            self.invalidate_from_translate()
        } else {
            Vec::new()
        };
        self.manifest.translate = StageStamp { hash: hash.to_string(), done: false };
        r
    }

    pub fn mark_translate_done(&mut self, hash: &str)
        ensures
            final(self).dir_view() == old(self).dir_view(),
            stamped(final(self).manifest_view().translate, hash@, true),
            final(self).manifest_view().video_path == old(self).manifest_view().video_path,
            final(self).manifest_view().video_size == old(self).manifest_view().video_size,
            final(self).manifest_view().video_mtime_ms == old(self).manifest_view().video_mtime_ms,
            final(self).manifest_view().audio == old(self).manifest_view().audio,
            final(self).manifest_view().whisper == old(self).manifest_view().whisper,
            final(self).manifest_view().segment == old(self).manifest_view().segment,
    {
        self.manifest.translate = StageStamp { hash: hash.to_string(), done: true };
    }
}

/// Stored fallback indices, sorted and without repeats.
pub fn normalize_fallback_indices(v: &Vec<usize>) -> (r: Vec<usize>)
    ensures
        r@ == crate::segmentation::sorted_set(v@, v.len() as int),
        crate::segmentation::increasing(r@),
        forall|y: usize| r@.contains(y) <==> v@.contains(y),
{
    crate::segmentation::sort_dedup(v)
}

} // verus!
