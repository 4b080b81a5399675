//! The check of what transcription needs: ffmpeg, the whisper.cpp
//! executable, the VAD model and the Whisper model, each with what the
//! user is told. Running the tools is the caller's part.
use vstd::prelude::*;

use crate::models::{catalog_view, model_file_path};
use crate::paths::joined;
use crate::text::{chars_of, dec, dec_u64, is_blank, push_str, string_of, string_of_range, trim, trim_string};

verus! {

/// Where each dependency stands and what the user is told of it.
#[derive(Debug)]
pub struct TranscribeDepsCheck {
    pub ffmpeg_resolved: Option<String>,
    pub ffmpeg_ok: bool,
    pub ffmpeg_detail: String,
    pub whisper_resolved: Option<String>,
    pub whisper_ok: bool,
    pub whisper_detail: String,
    pub vad_enabled: bool,
    pub vad_model_path: Option<String>,
    pub vad_ok: bool,
    pub vad_detail: String,
    pub model_path: Option<String>,
    pub model_ok: bool,
    pub model_detail: String,
}

pub const FFMPEG_NOT_FOUND: &'static str = "未找到 ffmpeg（请安装并加入 PATH，或在配置中填写可执行文件路径）";

/// Finds ffmpeg: the configured path where one is set (it must exist),
/// else `ffmpeg` or `ffmpeg.exe` on `PATH`. `path_exists` tells whether a path
/// exists.
pub fn resolve_ffmpeg<F: Fn(&String) -> bool>(preferred: &str, path_exists: &F) -> (r: Result<String, String>)
    requires
        forall|p: &String| path_exists.requires((p,)),
    ensures
        trim(preferred@).len() > 0 ==> match r {
            Ok(p) => p@ == trim(preferred@) && path_exists.ensures((&p,), true),
            Err(e) => e@ == "ffmpeg 路径不存在: "@ + trim(preferred@),
        },
        trim(preferred@).len() == 0 ==> (r matches Err(e) ==> e@ == FFMPEG_NOT_FOUND@),
{
    let p = trim_string(preferred);
    if !is_blank(preferred) {
        if path_exists(&p) {
            return Ok(p);
        }
        let mut e = "ffmpeg 路径不存在: ".to_string();
        push_str(&mut e, p.as_str());
        return Err(e);
    }
    match crate::whisper::which_path("ffmpeg") {
        Some(found) => Ok(found),
        None => match crate::whisper::which_path("ffmpeg.exe") {
            Some(found) => Ok(found),
            None => Err(FFMPEG_NOT_FOUND.to_string()),
        },
    }
}

/// How running a tool went: it exited with success, it exited otherwise
/// (with its exit code where it has one, whether its standard output was
/// empty, and its error output), or it could not be started.
#[derive(Debug)]
pub enum ToolRun {
    Succeeded,
    Failed { exit_code: Option<i32>, stdout_empty: bool, stderr: String },
    NotStarted(String),
}

pub open spec fn cut(s: Seq<char>, n: int) -> Seq<char> {
    s.take(if s.len() < n {
        s.len() as int
    } else {
        n
    })
}

fn cut_text(s: &str, n: usize) -> (r: String)
    ensures
        r@ == cut(s@, n as int),
{
    let v = chars_of(s);
    let k = if v.len() < n {
        v.len()
    } else {
        n
    };
    string_of_range(&v, 0, k)
}

fn with_prefix(prefix: &str, s: &str) -> (r: String)
    ensures
        r@ == prefix@ + s@,
{
    let mut out = prefix.to_string();
    push_str(&mut out, s);
    out
}

/// The ffmpeg part of the check: the path found, and for it, whether
/// `ffmpeg -version` ran.
pub fn ffmpeg_status(resolved: Result<String, String>, run: ToolRun) -> (r: (Option<String>, bool, String))
    ensures
        match resolved {
            Err(e) => r.0 is None && !r.1 && r.2@ == e@,
            Ok(p) => r.0 == Some(p) && match run {
                ToolRun::Succeeded => r.1 && r.2@ == "ffmpeg 可执行"@,
                ToolRun::Failed { stderr, .. } => !r.1 && r.2@ == "执行失败: "@ + cut(stderr@, 500),
                ToolRun::NotStarted(e) => !r.1 && r.2@ == "无法运行: "@ + e@,
            },
        },
{
    match resolved {
        Err(e) => (None, false, e),
        Ok(p) => match run {
            ToolRun::Succeeded => (Some(p), true, "ffmpeg 可执行".to_string()),
            ToolRun::Failed { stderr, .. } => (Some(p), false, with_prefix("执行失败: ", cut_text(stderr.as_str(), 500).as_str())),
            ToolRun::NotStarted(e) => (Some(p), false, with_prefix("无法运行: ", e.as_str())),
        },
    }
}

/// `{:?}` of an exit code: `Some(n)` or `None`.
pub open spec fn exit_code_text(code: Option<i32>) -> Seq<char> {
    match code {
        Some(n) => "Some("@ + (if n < 0 {
            "-"@ + dec((-n) as nat)
        } else {
            dec(n as nat)
        }) + ")"@,
        None => "None"@,
    }
}

fn exit_code_string(code: Option<i32>) -> (r: String)
    ensures
        r@ == exit_code_text(code),
{
    match code {
        Some(n) => {
            let mut s = "Some(".to_string();
            if n < 0 {
                push_str(&mut s, "-");
                let m: u64 = (-(n as i64)) as u64;
                push_str(&mut s, string_of(&dec_u64(m)).as_str());
            } else {
                push_str(&mut s, string_of(&dec_u64(n as u64)).as_str());
            }
            push_str(&mut s, ")");
            s
        },
        None => "None".to_string(),
    }
}

/// The whisper.cpp part of the check: the executable found, and for it,
/// whether `-h` ran (any output counts, as the help exits with an error
/// code on some builds); where none was found, the error, after the
/// failure to install the managed runtime where there was one.
pub fn whisper_status(resolved: Result<String, String>, run: ToolRun, runtime_error: Option<String>) -> (r: (
    Option<String>,
    bool,
    String,
))
    ensures
        match resolved {
            Err(e) => r.0 is None && !r.1 && r.2@ == match runtime_error {
                Some(rt) => "Whisper CLI 自动安装失败: "@ + rt@ + "；"@ + e@,
                None => e@,
            },
            Ok(p) => r.0 == Some(p) && match run {
                ToolRun::Succeeded => r.1 && r.2@ == "Whisper CLI 可执行"@,
                ToolRun::Failed { exit_code, stdout_empty, stderr } => if !stdout_empty || stderr@.len() > 0 {
                    r.1 && r.2@ == "Whisper CLI 可执行"@
                } else {
                    !r.1 && r.2@ == "退出码 "@ + exit_code_text(exit_code) + "，stderr: "@ + cut(stderr@, 400)
                },
                ToolRun::NotStarted(e) => !r.1 && r.2@ == "无法运行: "@ + e@,
            },
        },
{
    match resolved {
        Err(e) => match runtime_error {
            Some(rt) => {
                let mut d = with_prefix("Whisper CLI 自动安装失败: ", rt.as_str());
                push_str(&mut d, "；");
                push_str(&mut d, e.as_str());
                (None, false, d)
            },
            None => (None, false, e),
        },
        Ok(p) => match run {
            ToolRun::Succeeded => (Some(p), true, "Whisper CLI 可执行".to_string()),
            ToolRun::Failed { exit_code, stdout_empty, stderr } => {
                if !stdout_empty || !crate::text::is_empty_text(stderr.as_str()) {
                    (Some(p), true, "Whisper CLI 可执行".to_string())
                } else {
                    let mut d = with_prefix("退出码 ", exit_code_string(exit_code).as_str());
                    push_str(&mut d, "，stderr: ");
                    push_str(&mut d, cut_text(stderr.as_str(), 400).as_str());
                    (Some(p), false, d)
                }
            },
            ToolRun::NotStarted(e) => (Some(p), false, with_prefix("无法运行: ", e.as_str())),
        },
    }
}

/// The VAD part of the check. `prepared` is, where VAD is on, the model
/// path prepared and whether the file exists, or the preparation's error.
pub fn vad_status(enabled: bool, prepared: Option<Result<(String, bool), String>>) -> (r: (Option<String>, bool, String))
    ensures
        !enabled ==> r.0 is None && r.1 && r.2@ == "VAD 已关闭（按当前配置跳过）"@,
        enabled ==> match prepared {
            Some(Ok((p, present))) => r.0 == Some(p) && r.1 == present && r.2@ == if present {
                "Whisper VAD 模型已就绪"@
            } else {
                "Whisper VAD 模型未找到"@
            },
            Some(Err(e)) => r.0 is None && !r.1 && r.2@ == "Whisper VAD 准备失败: "@ + e@,
            None => r.0 is None && !r.1 && r.2@ == "Whisper VAD 准备失败: "@,
        },
{
    if !enabled {
        return (None, true, "VAD 已关闭（按当前配置跳过）".to_string());
    }
    match prepared {
        Some(Ok((p, present))) => if present {
            (Some(p), true, "Whisper VAD 模型已就绪".to_string())
        } else {
            (Some(p), false, "Whisper VAD 模型未找到".to_string())
        },
        Some(Err(e)) => (None, false, with_prefix("Whisper VAD 准备失败: ", e.as_str())),
        None => (None, false, "Whisper VAD 准备失败: ".to_string()),
    }
}

/// The model part of the check: the weights file of the configured model
/// (trimmed) and whether it is there. `path_exists` tells whether a file exists.
pub fn model_status<F: Fn(&String) -> bool>(app_dir: &str, model: &str, path_exists: &F) -> (r: (Option<String>, bool, String))
    requires
        forall|p: &String| path_exists.requires((p,)),
    ensures
        match r.0 {
            Some(p) => (exists|i: int|
                0 <= i < catalog_view().len() && (#[trigger] catalog_view()[i]).0 == trim(model@) && p@ == joined(
                    joined(joined(app_dir@, "models"@), "whisper"@),
                    catalog_view()[i].1,
                )) && if r.1 {
                path_exists.ensures((&p,), true) && r.2@ == "模型文件已就绪"@
            } else {
                r.2@ == "模型文件尚未下载，请先下载对应 ggml 权重"@
            },
            None => !r.1 && r.2@ == "未知模型: "@ + trim(model@),
        },
{
    let id = trim_string(model);
    match model_file_path(app_dir, id.as_str()) {
        Ok(p) => if path_exists(&p) {
            (Some(p), true, "模型文件已就绪".to_string())
        } else {
            (Some(p), false, "模型文件尚未下载，请先下载对应 ggml 权重".to_string())
        },
        Err(e) => (None, false, e),
    }
}

} // verus!
