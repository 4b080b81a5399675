//! Running whisper.cpp: where the managed runtime lives, which executable is
//! used, the arguments it is given, how its progress lines and its JSON are
//! read, and the decisions taken while the runtime is downloaded.
use vstd::prelude::*;

use crate::json::{as_str, as_str_exec, get_index_exec, get_key, get_key_exec, parse_json, json_of_text, Json};
use crate::paths::{bin_dir, joined, lang_code, path_extension, path_file_stem, path_join, sanitize_lang_code, extension_of, file_stem_of};
use crate::text::{
    chars_of, dec, dec_padded, dec_u64, find_char_from, find_char_from_exec, find_from, find_from_exec,
    lower_seq, lower_vec, parse_u32, parse_unsigned, push_str, str_eq, string_of, string_of_range, trim,
    trim_start, trim_start_vec, trim_string, zero_pad, ascii_digit, is_ascii_digit, CharClass, is_blank,
};

verus! {

/// The operating system the program runs on, as far as file names go.
#[derive(Debug, Clone, Copy, PartialEq, Eq, Structural)]
pub enum Platform {
    Windows,
    Other,
}

// ---------------------------------------------------------------------------
// Where the executable is
// ---------------------------------------------------------------------------

pub fn managed_whisper_dir(app_dir: &str) -> (r: String)
    ensures
        r@ == joined(joined(app_dir@, "bin"@), "whispercpp"@),
{
    let b = bin_dir(app_dir);
    path_join(b.as_str(), "whispercpp")
}

pub open spec fn cli_file_name(platform: Platform) -> Seq<char> {
    if platform == Platform::Windows {
        "whisper-cli.exe"@
    } else {
        "whisper-cli"@
    }
}

pub fn whisper_cli_file_name(platform: Platform) -> (r: &'static str)
    ensures
        r@ == cli_file_name(platform),
{
    if platform == Platform::Windows {
        "whisper-cli.exe"
    } else {
        "whisper-cli"
    }
}

pub fn managed_whisper_cli_path(app_dir: &str, platform: Platform) -> (r: String)
    ensures
        r@ == joined(joined(joined(app_dir@, "bin"@), "whispercpp"@), cli_file_name(platform)),
{
    let d = managed_whisper_dir(app_dir);
    path_join(d.as_str(), whisper_cli_file_name(platform))
}

/// The executables looked for in the managed directory, in order.
pub open spec fn bundled_candidates(app_dir: Seq<char>, platform: Platform) -> Seq<Seq<char>> {
    let dir = joined(joined(app_dir, "bin"@), "whispercpp"@);
    if platform == Platform::Windows {
        seq![joined(dir, "whisper-cli.exe"@), joined(dir, "main.exe"@)]
    } else {
        seq![joined(dir, "whisper-cli"@), joined(dir, "main"@)]
    }
}

pub fn bundled_whisper_candidates(app_dir: &str, platform: Platform) -> (r: Vec<String>)
    ensures
        r@.len() == 2,
        r@[0]@ == bundled_candidates(app_dir@, platform)[0],
        r@[1]@ == bundled_candidates(app_dir@, platform)[1],
{
    let dir = managed_whisper_dir(app_dir);
    if platform == Platform::Windows {
        vec![path_join(dir.as_str(), "whisper-cli.exe"), path_join(dir.as_str(), "main.exe")]
    } else {
        vec![path_join(dir.as_str(), "whisper-cli"), path_join(dir.as_str(), "main")]
    }
}

/// The names searched for on `PATH`, in order.
pub open spec fn search_names(platform: Platform) -> Seq<Seq<char>> {
    if platform == Platform::Windows {
        seq!["whisper-cli.exe"@, "main.exe"@, "whisper.exe"@]
    } else {
        seq!["whisper-cli"@, "main"@, "whisper"@]
    }
}

pub fn path_search_names(platform: Platform) -> (r: Vec<&'static str>)
    ensures
        r@.len() == 3,
        forall|i: int| 0 <= i < 3 ==> (#[trigger] r@[i])@ == search_names(platform)[i],
{
    if platform == Platform::Windows {
        vec!["whisper-cli.exe", "main.exe", "whisper.exe"]
    } else {
        vec!["whisper-cli", "main", "whisper"]
    }
}

/// A file stem that names a whisper.cpp executable.
pub open spec fn whisper_stem(stem: Seq<char>) -> bool {
    stem == "whisper-cli"@ || stem == "main"@ || stem == "whisper"@
}

/// A file found on `PATH` is taken where it is a file whose stem,
/// lowercased, names whisper.cpp, with the extension `exe` on Windows.
pub open spec fn valid_candidate(path: Seq<char>, is_file: bool, platform: Platform) -> bool {
    let stem = match file_stem_of(path) {
        Some(s) => lower_seq(s),
        None => seq![],
    };
    let ext = match extension_of(path) {
        Some(e) => lower_seq(e),
        None => seq![],
    };
    is_file && whisper_stem(stem) && (platform == Platform::Windows ==> ext == "exe"@)
}

fn lowered_or_empty(s: Option<String>) -> (r: Vec<char>)
    ensures
        r@ == match s {
            Some(t) => lower_seq(t@),
            None => seq![],
        },
{
    match s {
        Some(t) => lower_vec(&chars_of(t.as_str())),
        None => Vec::new(),
    }
}

fn chars_are(v: &Vec<char>, s: &str) -> (r: bool)
    ensures
        r == (v@ == s@),
{
    crate::text::eq_chars(v, &chars_of(s))
}

pub fn is_valid_whisper_candidate(path: &str, is_file: bool, platform: Platform) -> (r: bool)
    ensures
        r == valid_candidate(path@, is_file, platform),
{
    if !is_file {
        return false;
    }
    let stem = lowered_or_empty(path_file_stem(path));
    let stem_ok = chars_are(&stem, "whisper-cli") || chars_are(&stem, "main") || chars_are(&stem, "whisper");
    if platform == Platform::Windows {
        let ext = lowered_or_empty(path_extension(path));
        chars_are(&ext, "exe") && stem_ok
    } else {
        stem_ok
    }
}

/// Looks an executable name up on `PATH` with `which::which`. What it finds
/// depends on the environment and the disk, so nothing is stated of it.
#[verifier::external_body]
pub(crate) fn which_path(name: &str) -> (r: Option<String>) {
    which::which(name).ok().map(|p| p.to_string_lossy().to_string())
}

pub const WHISPER_NOT_FOUND: &'static str = "未找到 whisper.cpp 可执行文件（请在配置中填写 whisper-cli / main 的路径）";

/// Finds the whisper.cpp executable: the configured path where one is set
/// (it must be a file), else the first managed executable that is a file,
/// else the first executable found on `PATH` that `valid_candidate`
/// accepts. `is_file` tells whether a path is a regular file.
pub fn resolve_whisper_cli<F: Fn(&String) -> bool>(
    app_dir: &str,
    preferred: &str,
    platform: Platform,
    is_file: &F,
) -> (r: Result<String, String>)
    requires
        forall|p: &String| is_file.requires((p,)),
    ensures
        trim(preferred@).len() > 0 ==> match r {
            Ok(p) => p@ == trim(preferred@) && is_file.ensures((&p,), true),
            Err(e) => e@ == "Whisper 可执行文件不存在: "@ + trim(preferred@),
        },
        trim(preferred@).len() == 0 ==> match r {
            Ok(p) => is_file.ensures((&p,), true) && (p@ == bundled_candidates(app_dir@, platform)[0]
                || p@ == bundled_candidates(app_dir@, platform)[1] || valid_candidate(p@, true, platform)),
            Err(e) => e@ == WHISPER_NOT_FOUND@,
        },
{
    let p = trim_string(preferred);
    if !is_blank(preferred) {
        if is_file(&p) {
            return Ok(p);
        }
        let mut e = "Whisper 可执行文件不存在: ".to_string();
        push_str(&mut e, p.as_str());
        return Err(e);
    }
    let cands = bundled_whisper_candidates(app_dir, platform);
    let mut i: usize = 0;
    while i < cands.len()
        invariant
            i <= cands@.len(),
            cands@.len() == 2,
            cands@[0]@ == bundled_candidates(app_dir@, platform)[0],
            cands@[1]@ == bundled_candidates(app_dir@, platform)[1],
            forall|p: &String| is_file.requires((p,)),
            trim(preferred@).len() == 0,
        decreases cands.len() - i,
    {
        let c = &cands[i];
        if is_file(c) {
            let out = c.clone();
            return Ok(out);
        }
        i += 1;
    }
    let names = path_search_names(platform);
    let mut j: usize = 0;
    while j < names.len()
        invariant
            j <= names@.len(),
            forall|p: &String| is_file.requires((p,)),
            trim(preferred@).len() == 0,
        decreases names.len() - j,
    {
        match which_path(names[j]) {
            Some(found) => {
                let f = is_file(&found);
                if is_valid_whisper_candidate(found.as_str(), f, platform) {
                    return Ok(found);
                }
            },
            None => {},
        }
        j += 1;
    }
    Err(WHISPER_NOT_FOUND.to_string())
}

/// The files whisper.cpp writes for an output prefix: the SRT and the JSON.
pub fn expected_whisper_sidecar_paths(prefix: &str) -> (r: (String, String))
    ensures
        r.0@ == prefix@ + ".srt"@,
        r.1@ == prefix@ + ".json"@,
{
    let mut srt = prefix.to_string();
    push_str(&mut srt, ".srt");
    let mut json = prefix.to_string();
    push_str(&mut json, ".json");
    (srt, json)
}

// ---------------------------------------------------------------------------
// Progress lines
// ---------------------------------------------------------------------------

/// The first position at or after `i` that is not an ASCII digit.
pub open spec fn digit_run_end(s: Seq<char>, i: int) -> int
    decreases s.len() - i,
{
    if 0 <= i < s.len() && ascii_digit(s[i]) {
        digit_run_end(s, i + 1)
    } else {
        i
    }
}

/// The percentage in a progress line such as
/// `whisper_print_progress_callback: progress = 50%`: after the first
/// `progress`, the first `=`, spaces, then a run of digits, capped at 100.
pub open spec fn progress_percent(line: Seq<char>) -> Option<u8> {
    let idx = find_from(line, "progress"@, 0);
    if idx < 0 {
        None
    } else {
        let after = line.skip(idx + 8);
        let eq = find_char_from(after, '=', 0);
        if eq >= after.len() {
            None
        } else {
            let tail = trim_start(after.skip(eq + 1));
            let digits = tail.take(digit_run_end(tail, 0));
            if digits.len() == 0 {
                None
            } else {
                match parse_unsigned(digits, u32::MAX as int) {
                    Some(n) => Some(
                        if n > 100 {
                            100u8
                        } else {
                            n as u8
                        },
                    ),
                    None => None,
                }
            }
        }
    }
}

pub proof fn lemma_digit_run_end(s: Seq<char>, i: int)
    requires
        0 <= i <= s.len(),
    ensures
        i <= digit_run_end(s, i) <= s.len(),
        forall|j: int| i <= j < digit_run_end(s, i) ==> ascii_digit(#[trigger] s[j]),
    decreases s.len() - i,
{
    if i < s.len() && ascii_digit(s[i]) {
        lemma_digit_run_end(s, i + 1);
    }
}

pub fn parse_progress_line(line: &str) -> (r: Option<u8>)
    ensures
        r == progress_percent(line@),
{
    let v = chars_of(line);
    let key = chars_of("progress");
    proof {
        reveal_strlit("progress");
    }
    let idx = match find_from_exec(&v, &key, 0) {
        Some(k) => k,
        None => return None,
    };
    proof {
        crate::text::lemma_find_from(v@, key@, 0);
    }
    let after = crate::text::sub_vec(&v, idx + 8, v.len());
    assert(after@ =~= line@.skip(idx + 8));
    let eq = find_char_from_exec(&after, '=', 0);
    if eq >= after.len() {
        return None;
    }
    let rest = crate::text::sub_vec(&after, eq + 1, after.len());
    assert(rest@ =~= after@.skip(eq + 1));
    let tail = trim_start_vec(&rest, CharClass::Whitespace);
    let mut k: usize = 0;
    assert(digit_run_end(tail@, 0) == digit_run_end(tail@, k as int));
    while k < tail.len() && is_ascii_digit(tail[k])
        invariant
            k <= tail@.len(),
            digit_run_end(tail@, 0) == digit_run_end(tail@, k as int),
        decreases tail.len() - k,
    {
        k += 1;
    }
    if k == 0 {
        return None;
    }
    let digits = string_of_range(&tail, 0, k);
    assert(digits@ =~= tail@.take(k as int));
    match parse_u32(digits.as_str()) {
        Some(n) => Some(
            if n > 100 {
                100u8
            } else {
                n as u8
            },
        ),
        None => None,
    }
}

/// A run's progress mapped into its share of the whole: `base` plus `pct`
/// percent of `span`, at most `base + span` (each sum kept within `u8`).
pub open spec fn mapped_progress(pct: u8, base: u8, span: u8) -> u8 {
    let part = (pct as int * span as int) / 100;
    let part8 = (part % 256) as u8;
    let raised = if base as int + part8 as int > 255 {
        255u8
    } else {
        (base + part8) as u8
    };
    let top = if base as int + span as int > 255 {
        255u8
    } else {
        (base + span) as u8
    };
    if raised < top {
        raised
    } else {
        top
    }
}

pub fn map_progress(pct: u8, base: u8, span: u8) -> (r: u8)
    ensures
        r == mapped_progress(pct, base, span),
{
    let p32: u32 = pct as u32;
    let s32: u32 = span as u32;
    assert(p32 * s32 <= 255 * 255) by (nonlinear_arith)
        requires
            p32 <= 255,
            s32 <= 255,
    ;
    let part: u32 = (p32 * s32) / 100u32;
    let part8: u8 = (part % 256) as u8;
    let raised = base.saturating_add(part8);
    let top = base.saturating_add(span);
    if raised < top {
        raised
    } else {
        top
    }
}

/// The progress reported when a run ends well: its whole share, at most 100.
pub fn finished_progress(base: u8, span: u8) -> (r: u8)
    ensures
        r == if base as int + span as int >= 100 {
            100
        } else {
            base as int + span as int
        },
{
    let s = base.saturating_add(span);
    if s > 100 {
        100
    } else {
        s
    }
}

// ---------------------------------------------------------------------------
// Arguments
// ---------------------------------------------------------------------------

/// The voice activity detection settings as passed on the command line;
/// `threshold` is already written with two decimals.
pub struct VadArgs {
    pub model_path: String,
    pub threshold: String,
    pub min_speech_ms: u32,
    pub min_silence_ms: u32,
    pub max_segment_ms: u32,
}

/// `ms / 1000` written with three decimals.
pub open spec fn seconds_text(ms: u32) -> Seq<char> {
    dec((ms / 1000) as nat) + "."@ + zero_pad(dec((ms % 1000) as nat), 3)
}

pub fn seconds_with_millis(ms: u32) -> (r: String)
    ensures
        r@ == seconds_text(ms),
{
    let mut out = string_of(&dec_u64((ms / 1000) as u64));
    push_str(&mut out, ".");
    let frac = string_of(&dec_padded((ms % 1000) as u64, 3));
    push_str(&mut out, frac.as_str());
    out
}

/// The recognition language argument: the trimmed language, or `auto`.
pub open spec fn lang_arg(lang: Seq<char>) -> Seq<char> {
    if trim(lang).len() == 0 {
        "auto"@
    } else {
        trim(lang)
    }
}

/// The arguments of one whisper.cpp run: model, input, language and
/// threads; `-ngl 0` on the CPU; the VAD options; `--print-progress` when
/// progress is followed; the trimmed prompt where not blank; then SRT
/// output, or word-level JSON output, under the given prefix.
pub open spec fn whisper_args(
    model: Seq<char>,
    wav: Seq<char>,
    lang: Seq<char>,
    threads: u32,
    force_cpu: bool,
    vad: Option<(Seq<char>, Seq<char>, u32, u32, u32)>,
    print_progress: bool,
    prompt: Option<Seq<char>>,
    json: bool,
    prefix_name: Seq<char>,
) -> Seq<Seq<char>> {
    let base = seq!["-m"@, model, "-f"@, wav, "-l"@, lang_arg(lang), "-t"@, dec(threads as nat)];
    let cpu = if force_cpu {
        seq!["-ngl"@, "0"@]
    } else {
        seq![]
    };
    let v = match vad {
        Some((path, threshold, speech, silence, max_seg)) => seq![
            "--vad"@,
            "-vm"@,
            path,
            "-vt"@,
            threshold,
            "-vspd"@,
            dec(speech as nat),
            "-vsd"@,
            dec(silence as nat),
            "-vmsd"@,
            seconds_text(max_seg),
        ],
        None => seq![],
    };
    let pr = if print_progress {
        seq!["--print-progress"@]
    } else {
        seq![]
    };
    let pm = match prompt {
        Some(p) => if trim(p).len() > 0 {
            seq!["--prompt"@, trim(p)]
        } else {
            seq![]
        },
        None => seq![],
    };
    let out = if json {
        seq!["-ml"@, "1"@, "-sow"@, "-ojf"@, "-of"@, prefix_name]
    } else {
        seq!["-osrt"@, "-of"@, prefix_name]
    };
    base + cpu + v + pr + pm + out
}

pub open spec fn vad_view(v: Option<VadArgs>) -> Option<(Seq<char>, Seq<char>, u32, u32, u32)> {
    match v {
        Some(a) => Some((a.model_path@, a.threshold@, a.min_speech_ms, a.min_silence_ms, a.max_segment_ms)),
        None => None,
    }
}

pub open spec fn opt_view(p: Option<String>) -> Option<Seq<char>> {
    match p {
        Some(s) => Some(s@),
        None => None,
    }
}

fn push_all(out: &mut Vec<String>, items: Vec<String>)
    ensures
        crate::srt::strings_view(final(out)@) == crate::srt::strings_view(old(out)@) + crate::srt::strings_view(
            items@,
        ),
{
    let mut i: usize = 0;
    let ghost start = out@;
    while i < items.len()
        invariant
            i <= items@.len(),
            crate::srt::strings_view(out@) == crate::srt::strings_view(start) + crate::srt::strings_view(
                items@.subrange(0, i as int),
            ),
        decreases items.len() - i,
    {
        let ghost before = out@;
        out.push(items[i].clone());
        assert(crate::srt::strings_view(out@) =~= crate::srt::strings_view(before).push(items@[i as int]@));
        assert(crate::srt::strings_view(items@.subrange(0, i + 1)) =~= crate::srt::strings_view(
            items@.subrange(0, i as int),
        ).push(items@[i as int]@));
        assert(crate::srt::strings_view(out@) =~= crate::srt::strings_view(start) + crate::srt::strings_view(
            items@.subrange(0, i + 1),
        ));
        i += 1;
    }
    assert(items@.subrange(0, items@.len() as int) =~= items@);
}

pub fn build_whisper_args(
    model: &str,
    wav: &str,
    lang: &str,
    threads: u32,
    force_cpu: bool,
    vad: &Option<VadArgs>,
    print_progress: bool,
    prompt: &Option<String>,
    json: bool,
    prefix_name: &str,
) -> (r: Vec<String>)
    ensures
        crate::srt::strings_view(r@) == whisper_args(
            model@,
            wav@,
            lang@,
            threads,
            force_cpu,
            vad_view(*vad),
            print_progress,
            opt_view(*prompt),
            json,
            prefix_name@,
        ),
{
    let t = trim_string(lang);
    let la = if is_blank(lang) {
        "auto".to_string()
    } else {
        t
    };
    let mut out: Vec<String> = Vec::new();
    push_all(
        &mut out,
        vec![
            "-m".to_string(),
            model.to_string(),
            "-f".to_string(),
            wav.to_string(),
            "-l".to_string(),
            la,
            "-t".to_string(),
            string_of(&dec_u64(threads as u64)),
        ],
    );
    if force_cpu {
        push_all(&mut out, vec!["-ngl".to_string(), "0".to_string()]);
    }
    match vad {
        Some(a) => {
            push_all(
                &mut out,
                vec![
                    "--vad".to_string(),
                    "-vm".to_string(),
                    a.model_path.clone(),
                    "-vt".to_string(),
                    a.threshold.clone(),
                    "-vspd".to_string(),
                    string_of(&dec_u64(a.min_speech_ms as u64)),
                    "-vsd".to_string(),
                    string_of(&dec_u64(a.min_silence_ms as u64)),
                    "-vmsd".to_string(),
                    seconds_with_millis(a.max_segment_ms),
                ],
            );
        },
        None => {},
    }
    if print_progress {
        push_all(&mut out, vec!["--print-progress".to_string()]);
    }
    match prompt {
        Some(p) => {
            if !is_blank(p.as_str()) {
                push_all(&mut out, vec!["--prompt".to_string(), trim_string(p.as_str())]);
            }
        },
        None => {},
    }
    if json {
        push_all(
            &mut out,
            vec![
                "-ml".to_string(),
                "1".to_string(),
                "-sow".to_string(),
                "-ojf".to_string(),
                "-of".to_string(),
                prefix_name.to_string(),
            ],
        );
    } else {
        push_all(&mut out, vec!["-osrt".to_string(), "-of".to_string(), prefix_name.to_string()]);
    }
    let ghost m = model@;
    assert(crate::srt::strings_view(out@) =~= whisper_args(
        model@,
        wav@,
        lang@,
        threads,
        force_cpu,
        vad_view(*vad),
        print_progress,
        opt_view(*prompt),
        json,
        prefix_name@,
    ));
    out
}

/// The message for a failed run: the error output, or the standard output
/// where the error output is blank, cut to 4000 characters.
pub open spec fn failure_text(stderr: Seq<char>, stdout: Seq<char>) -> Seq<char> {
    let msg = if trim(stderr).len() == 0 {
        stdout
    } else {
        stderr
    };
    "Whisper 识别失败: "@ + msg.take(if msg.len() < 4000 {
        msg.len() as int
    } else {
        4000
    })
}

pub fn whisper_failure_message(stderr: &str, stdout: &str) -> (r: String)
    ensures
        r@ == failure_text(stderr@, stdout@),
{
    let msg = if is_blank(stderr) {
        chars_of(stdout)
    } else {
        chars_of(stderr)
    };
    let n = if msg.len() < 4000 {
        msg.len()
    } else {
        4000
    };
    let cut = string_of_range(&msg, 0, n);
    let mut out = "Whisper 识别失败: ".to_string();
    push_str(&mut out, cut.as_str());
    assert(cut@ =~= (if trim(stderr@).len() == 0 {
        stdout@
    } else {
        stderr@
    }).take(n as int));
    out
}

// ---------------------------------------------------------------------------
// The language whisper.cpp detected
// ---------------------------------------------------------------------------

/// A language token as used in file names; see `lang_code`.
pub fn normalize_lang_token(s: &str) -> (r: String)
    ensures
        r@ == lang_code(s@),
{
    sanitize_lang_code(s)
}

/// The language of a whisper.cpp JSON result: its `language`, or where
/// there is none, `result.language`; normalized, or the fallback
/// normalized where the text is missing, is not JSON, or names no language.
pub open spec fn detected_language(raw: Option<Seq<char>>, fallback: Seq<char>) -> Seq<char> {
    match raw {
        None => lang_code(fallback),
        Some(text) => match json_of_text(text) {
            None => lang_code(fallback),
            Some(v) => {
                let found = match get_key(v, "language"@) {
                    Some(x) => Some(x),
                    None => match get_key(v, "result"@) {
                        Some(res) => get_key(res, "language"@),
                        None => None,
                    },
                };
                match found {
                    Some(x) => match as_str(x) {
                        Some(s) => lang_code(s),
                        None => lang_code(fallback),
                    },
                    None => lang_code(fallback),
                }
            },
        },
    }
}

/// `raw` is the text of the JSON file, where it could be read.
pub fn language_from_whisper_json(raw: Option<&str>, fallback: &str) -> (r: String)
    ensures
        r@ == detected_language(
            match raw {
                Some(t) => Some(t@),
                None => None,
            },
            fallback@,
        ),
{
    let text = match raw {
        Some(t) => t,
        None => return normalize_lang_token(fallback),
    };
    let v = match parse_json(text) {
        Ok(v) => v,
        Err(_) => return normalize_lang_token(fallback),
    };
    let found: Option<&Json> = match get_key_exec(&v, "language") {
        Some(x) => Some(x),
        None => match get_key_exec(&v, "result") {
            Some(res) => get_key_exec(res, "language"),
            None => None,
        },
    };
    match found {
        Some(x) => match as_str_exec(x) {
            Some(s) => normalize_lang_token(s.as_str()),
            None => normalize_lang_token(fallback),
        },
        None => normalize_lang_token(fallback),
    }
}

// ---------------------------------------------------------------------------
// Downloading the runtime
// ---------------------------------------------------------------------------

pub const LATEST_RELEASE_API: &'static str = "https://api.github.com/repos/ggml-org/whisper.cpp/releases/latest";

/// A step of preparing the runtime, as reported to the user.
#[derive(Debug, Clone)]
pub struct WhisperRuntimeProgress {
    pub phase: String,
    pub message: String,
    pub percent: u32,
    pub bytes_received: u64,
    pub bytes_total: Option<u64>,
}

/// The release package for the processor: 32-bit or 64-bit Windows.
pub fn release_asset_name(x86: bool) -> (r: &'static str)
    ensures
        r@ == if x86 {
            "whisper-bin-Win32.zip"@
        } else {
            "whisper-bin-x64.zip"@
        },
{
    if x86 {
        "whisper-bin-Win32.zip"
    } else {
        "whisper-bin-x64.zip"
    }
}

/// The download URL of an asset where it has the given name.
pub open spec fn asset_url(asset: Json, name: Seq<char>) -> Option<Seq<char>> {
    match get_key(asset, "name"@) {
        Some(n) => if as_str(n) == Some(name) {
            match get_key(asset, "browser_download_url"@) {
                Some(u) => as_str(u),
                None => None,
            }
        } else {
            None
        },
        None => None,
    }
}

/// The first asset, from position `i` on, with this name and a URL.
pub open spec fn first_asset_url(assets: Seq<Json>, i: int, name: Seq<char>) -> Option<Seq<char>>
    decreases assets.len() - i,
{
    if i < 0 || i >= assets.len() {
        None
    } else {
        match asset_url(assets[i], name) {
            Some(u) => Some(u),
            None => first_asset_url(assets, i + 1, name),
        }
    }
}

/// The URL of the named asset of a release description, or the message
/// that no such package exists.
pub open spec fn release_url(release: Json, name: Seq<char>) -> Result<Seq<char>, Seq<char>> {
    let found = match get_key(release, "assets"@) {
        Some(Json::Array(a)) => first_asset_url(a@, 0, name),
        _ => None,
    };
    match found {
        Some(u) => Ok(u),
        None => Err("未找到适用于当前系统的 whisper.cpp 包: "@ + name),
    }
}

fn asset_url_exec(asset: &Json, name: &str) -> (r: Option<String>)
    ensures
        match r {
            Some(u) => asset_url(*asset, name@) == Some(u@),
            None => asset_url(*asset, name@) is None,
        },
{
    match get_key_exec(asset, "name") {
        Some(n) => match as_str_exec(n) {
            Some(s) => if str_eq(s.as_str(), name) {
                match get_key_exec(asset, "browser_download_url") {
                    Some(u) => match as_str_exec(u) {
                        Some(us) => Some(us.clone()),
                        None => None,
                    },
                    None => None,
                }
            } else {
                None
            },
            None => None,
        },
        None => None,
    }
}

pub fn release_asset_url(release: &Json, asset_name: &str) -> (r: Result<String, String>)
    ensures
        match r {
            Ok(u) => release_url(*release, asset_name@) == Ok::<Seq<char>, Seq<char>>(u@),
            Err(e) => release_url(*release, asset_name@) == Err::<Seq<char>, Seq<char>>(e@),
        },
{
    let not_found = {
        let mut e = "未找到适用于当前系统的 whisper.cpp 包: ".to_string();
        push_str(&mut e, asset_name);
        e
    };
    let assets = match get_key_exec(release, "assets") {
        Some(a) => a,
        None => return Err(not_found),
    };
    match assets {
        Json::Array(items) => {
            let mut i: usize = 0;
            while i < items.len()
                invariant
                    i <= items@.len(),
                    get_key(*release, "assets"@) == Some(Json::Array(*items)),
                    first_asset_url(items@, 0, asset_name@) == first_asset_url(items@, i as int, asset_name@),
                decreases items.len() - i,
            {
                match asset_url_exec(&items[i], asset_name) {
                    Some(u) => {
                        assert(asset_url(items@[i as int], asset_name@) == Some(u@));
                        return Ok(u);
                    },
                    None => {
                        assert(asset_url(items@[i as int], asset_name@) is None);
                    },
                }
                i += 1;
            }
            Err(not_found)
        },
        _ => Err(not_found),
    }
}

/// The URL of the named asset in the text of a release description; a
/// text that is not JSON is refused with the parser's message.
pub fn release_asset_url_from_text(text: &str, asset_name: &str) -> (r: Result<String, String>)
    ensures
        match json_of_text(text@) {
            None => r matches Err(e) && crate::text::starts_with(e@, "解析 whisper.cpp 发布信息失败: "@),
            Some(v) => match r {
                Ok(u) => release_url(v, asset_name@) == Ok::<Seq<char>, Seq<char>>(u@),
                Err(e) => release_url(v, asset_name@) == Err::<Seq<char>, Seq<char>>(e@),
            },
        },
{
    match parse_json(text) {
        Ok(v) => release_asset_url(&v, asset_name),
        Err(e) => {
            let mut m = "解析 whisper.cpp 发布信息失败: ".to_string();
            let ghost head = m@;
            push_str(&mut m, crate::json::json_error_text(&e).as_str());
            assert(m@.take(head.len() as int) =~= head);
            Err(m)
        },
    }
}

/// The percentage shown while the package downloads: 2 to 90 as the bytes
/// arrive, 0 where the size is unknown or zero.
pub open spec fn runtime_percent(received: u64, total: Option<u64>) -> int {
    match total {
        Some(t) => if t == 0 {
            0
        } else {
            let p = (received as int * 88) / t as int;
            (if p > 88 {
                88
            } else {
                p
            }) + 2
        },
        None => 0,
    }
}

pub fn runtime_download_percent(received: u64, total: Option<u64>) -> (r: u32)
    ensures
        r == runtime_percent(received, total),
{
    match total {
        Some(t) => if t == 0 {
            0
        } else {
            let p: u128 = (received as u128 * 88) / t as u128;
            let c: u32 = if p > 88 {
                88
            } else {
                p as u32
            };
            c + 2
        },
        None => 0,
    }
}

/// Progress is reported when it moved by two points or the last byte came.
pub fn should_report_progress(pct: u32, last_pct: u32, total: Option<u64>, received: u64) -> (r: bool)
    ensures
        r == (pct >= (if last_pct as int + 2 > u32::MAX {
            u32::MAX as int
        } else {
            last_pct as int + 2
        }) || total == Some(received)),
{
    pct >= last_pct.saturating_add(2) || total == Some(received)
}

/// Where an entry of the release package is installed, relative to the
/// runtime directory: entries under `Release/` lose that first component;
/// every other entry is skipped.
pub open spec fn release_entry(parts: Seq<Seq<char>>) -> Option<Seq<Seq<char>>> {
    if parts.len() == 0 || parts[0] != "Release"@ || parts.len() == 1 {
        None
    } else {
        Some(parts.drop_first())
    }
}

pub fn release_entry_path(parts: &Vec<String>) -> (r: Option<Vec<String>>)
    ensures
        match r {
            Some(v) => release_entry(crate::srt::strings_view(parts@)) == Some(crate::srt::strings_view(v@)),
            None => release_entry(crate::srt::strings_view(parts@)) is None,
        },
{
    if parts.len() <= 1 || !str_eq(parts[0].as_str(), "Release") {
        return None;
    }
    let mut out: Vec<String> = Vec::new();
    let mut i: usize = 1;
    while i < parts.len()
        invariant
            1 <= i <= parts@.len(),
            crate::srt::strings_view(out@) == crate::srt::strings_view(parts@.subrange(1, i as int)),
        decreases parts.len() - i,
    {
        let ghost before = out@;
        out.push(parts[i].clone());
        assert(crate::srt::strings_view(out@) =~= crate::srt::strings_view(before).push(parts@[i as int]@));
        assert(parts@.subrange(1, i + 1) =~= parts@.subrange(1, i as int).push(parts@[i as int]));
        assert(crate::srt::strings_view(out@) =~= crate::srt::strings_view(parts@.subrange(1, i + 1)));
        i += 1;
    }
    assert(crate::srt::strings_view(parts@).drop_first() =~= crate::srt::strings_view(
        parts@.subrange(1, parts@.len() as int),
    ));
    Some(out)
}

} // verus!
