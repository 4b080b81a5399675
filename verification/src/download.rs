//! The decisions of a Whisper model download: the progress shown, the total
//! size read from the response headers, when a broken stream is resumed,
//! and when the download is given up. The requests and the file are the
//! caller's part.
use vstd::prelude::*;

use crate::text::{chars_of, parse_u64, parse_unsigned, push_str, rfind_char_below, rfind_char_exec, str_eq, string_of_range};
use crate::whisper::WhisperRuntimeProgress;

verus! {

pub const MAX_DOWNLOAD_RETRIES: u32 = 3;

/// A step of a model download, as reported to the user.
#[derive(Debug, Clone)]
pub struct WhisperDownloadProgress {
    pub model_id: String,
    pub percent: u32,
    pub bytes_received: u64,
    pub bytes_total: Option<u64>,
    pub phase: String,
    pub message: String,
}

/// The percentage of a download: 14 to 99 as the bytes arrive against the
/// total (the product kept within `u64`), 14 where the total is unknown or
/// zero.
pub open spec fn download_percent(received: u64, total: Option<u64>) -> int {
    match total {
        Some(t) => if t == 0 {
            14
        } else {
            let prod = if received as int * 85 > u64::MAX {
                u64::MAX as int
            } else {
                received as int * 85
            };
            let p = prod / t as int;
            (if p > 85 {
                85
            } else {
                p
            }) + 14
        },
        None => 14,
    }
}

pub fn compute_progress(received: u64, total: Option<u64>) -> (r: u32)
    ensures
        r == download_percent(received, total),
        14 <= r <= 99,
{
    match total {
        Some(t) => if t == 0 {
            14
        } else {
            let wide: u128 = received as u128 * 85;
            let prod: u64 = if wide > u64::MAX as u128 {
                u64::MAX
            } else {
                wide as u64
            };
            let p = prod / t;
            let c: u32 = if p > 85 {
                85
            } else {
                p as u32
            };
            c + 14
        },
        None => 14,
    }
}

/// The total size of the file: the number after the last `/` of the
/// `Content-Range` header where it is one, else the body length plus the
/// bytes already received, else unknown.
pub open spec fn total_bytes(start: u64, content_range: Option<Seq<char>>, content_length: Option<u64>) -> Option<int> {
    let from_range = match content_range {
        Some(text) => {
            let k = rfind_char_below(text, '/', text.len() as int);
            if k < 0 {
                None
            } else {
                let total = text.skip(k + 1);
                if total == "*"@ {
                    None
                } else {
                    parse_unsigned(total, u64::MAX as int)
                }
            }
        },
        None => None,
    };
    match from_range {
        Some(v) => Some(v),
        None => match content_length {
            Some(n) => Some(n + start),
            None => None,
        },
    }
}

/// `content_range` is the `Content-Range` header where it is present and
/// readable as text.
pub fn resolve_total_bytes(start: u64, content_range: Option<&str>, content_length: Option<u64>) -> (r: Option<u64>)
    requires
        content_length matches Some(n) ==> n + start <= u64::MAX,
    ensures
        match r {
            Some(v) => total_bytes(start, opt_text(content_range), content_length) == Some(v as int),
            None => total_bytes(start, opt_text(content_range), content_length) is None,
        },
{
    let from_range: Option<u64> = match content_range {
        Some(text) => {
            let v = chars_of(text);
            proof {
                crate::text::lemma_rfind_char_below(v@, '/', v@.len() as int);
            }
            match rfind_char_exec(&v, '/') {
                None => None,
                Some(k) => {
                    let total = string_of_range(&v, k + 1, v.len());
                    assert(total@ =~= text@.skip(k + 1));
                    if str_eq(total.as_str(), "*") {
                        None
                    } else {
                        parse_u64(total.as_str())
                    }
                },
            }
        },
        None => None,
    };
    match from_range {
        Some(v) => Some(v),
        None => match content_length {
            Some(n) => Some(n + start),
            None => None,
        },
    }
}

pub open spec fn opt_text(o: Option<&str>) -> Option<Seq<char>> {
    match o {
        Some(s) => Some(s@),
        None => None,
    }
}

/// A runtime preparation step shown as part of a model download: up to 11%
/// while it runs, 12% once done.
pub open spec fn prepare_percent(phase: Seq<char>, percent: u32) -> int {
    if phase == "done"@ {
        12
    } else {
        let p = if percent < 1 {
            1
        } else {
            percent as int
        };
        let q = (p * 12) / 100;
        if q < 1 {
            1
        } else if q > 11 {
            11
        } else {
            q
        }
    }
}

pub fn map_runtime_prepare_progress(model_id: &str, progress: WhisperRuntimeProgress) -> (r: WhisperDownloadProgress)
    ensures
        r.model_id@ == model_id@,
        r.percent == prepare_percent(progress.phase@, progress.percent),
        r.bytes_received == progress.bytes_received,
        r.bytes_total == progress.bytes_total,
        r.phase@ == "preparing"@,
        r.message@ == "正在准备 Whisper CLI："@ + progress.message@,
{
    let percent: u32 = if str_eq(progress.phase.as_str(), "done") {
        12
    } else {
        let p: u64 = if progress.percent < 1 {
            1
        } else {
            progress.percent as u64
        };
        let q = (p * 12) / 100;
        if q < 1 {
            1
        } else if q > 11 {
            11
        } else {
            q as u32
        }
    };
    let mut message = "正在准备 Whisper CLI：".to_string();
    push_str(&mut message, progress.message.as_str());
    WhisperDownloadProgress {
        model_id: model_id.to_string(),
        percent,
        bytes_received: progress.bytes_received,
        bytes_total: progress.bytes_total,
        phase: "preparing".to_string(),
        message,
    }
}

// ---------------------------------------------------------------------------
// The download loop
// ---------------------------------------------------------------------------

/// Where a download stands: bytes received, the exact total once known,
/// the total progress is measured against, the last percentage reported,
/// and the resumes made.
#[derive(Debug)]
pub struct DownloadState {
    pub received: u64,
    pub total_exact: Option<u64>,
    pub progress_total: Option<u64>,
    pub last_pct: u32,
    pub retry_count: u32,
    pub estimate: u64,
}

/// A download about to start, measured against the catalog's estimate.
pub fn new_download(estimate: u64) -> (r: DownloadState)
    ensures
        r.received == 0,
        r.total_exact is None,
        r.progress_total == Some(estimate),
        r.last_pct == 0,
        r.retry_count == 0,
        r.estimate == estimate,
{
    DownloadState {
        received: 0,
        total_exact: None,
        progress_total: Some(estimate),
        last_pct: 0,
        retry_count: 0,
        estimate,
    }
}

/// The first request must succeed; a resumed one must answer 206 Partial
/// Content. `status_text` is the status as written in messages.
pub fn check_response(received: u64, status: u16, status_text: &str) -> (r: Result<(), String>)
    ensures
        received == 0 ==> (r is Ok <==> 200 <= status <= 299),
        received > 0 ==> (r is Ok <==> status == 206),
        r matches Err(e) ==> if received == 0 {
            e@ == "HTTP "@ + status_text@ + "：请检查镜像地址或网络"@
        } else {
            e@ == "下载源未返回断点续传响应（HTTP "@ + status_text@ + "），无法继续下载"@
        },
{
    if received == 0 {
        if !(200 <= status && status <= 299) {
            let mut e = "HTTP ".to_string();
            push_str(&mut e, status_text);
            push_str(&mut e, "：请检查镜像地址或网络");
            return Err(e);
        }
    } else if status != 206 {
        let mut e = "下载源未返回断点续传响应（HTTP ".to_string();
        push_str(&mut e, status_text);
        push_str(&mut e, "），无法继续下载");
        return Err(e);
    }
    Ok(())
}

/// Takes the total from the first response that gives headers: where no
/// exact total is known yet, it is read from the headers and progress is
/// measured against it (or the estimate); the answer is then the percentage
/// to report (14). Once the total is known, nothing changes.
pub fn on_headers(state: &mut DownloadState, content_range: Option<&str>, content_length: Option<u64>) -> (r: Option<
    u32,
>)
    requires
        content_length matches Some(n) ==> n + old(state).received <= u64::MAX,
    ensures
        old(state).total_exact is Some ==> r is None && *final(state) == *old(state),
        old(state).total_exact is None ==> r == Some(14u32) && *final(state) == (DownloadState {
            total_exact: final(state).total_exact,
            progress_total: final(state).progress_total,
            ..*old(state)
        }) && match final(state).total_exact {
            Some(t) => total_bytes(old(state).received, opt_text(content_range), content_length) == Some(t as int)
                && final(state).progress_total == Some(t),
            None => total_bytes(old(state).received, opt_text(content_range), content_length) is None
                && final(state).progress_total == Some(old(state).estimate),
        },
{
    if state.total_exact.is_some() {
        return None;
    }
    let t = resolve_total_bytes(state.received, content_range, content_length);
    state.total_exact = t;
    state.progress_total = match t {
        Some(v) => Some(v),
        None => Some(state.estimate),
    };
    Some(14)
}

/// Counts a chunk; answers the percentage to report where it moved by two
/// points or the last byte came.
pub fn on_chunk(state: &mut DownloadState, len: u64) -> (r: Option<u32>)
    requires
        old(state).received + len <= u64::MAX,
    ensures
        final(state).received == old(state).received + len,
        final(state).total_exact == old(state).total_exact,
        final(state).progress_total == old(state).progress_total,
        final(state).retry_count == old(state).retry_count,
        final(state).estimate == old(state).estimate,
        ({
            let pct = download_percent(final(state).received, old(state).progress_total);
            let step = pct >= old(state).last_pct + 2 || old(state).progress_total == Some(final(state).received);
            &&& step ==> r == Some(pct as u32) && final(state).last_pct == pct
            &&& !step ==> r is None && final(state).last_pct == old(state).last_pct
        }),
{
    state.received = state.received + len;
    let pct = compute_progress(state.received, state.progress_total);
    let bar: u64 = state.last_pct as u64 + 2;
    if pct as u64 >= bar || state.progress_total == Some(state.received) {
        state.last_pct = pct;
        Some(pct)
    } else {
        None
    }
}

/// Why a download was given up.
#[derive(Debug)]
pub enum DownloadFailure {
    /// The stream broke with this error.
    Stream(String),
    /// It ended before the known total.
    Short { received: u64, expected: u64 },
    /// It ended early with no total known.
    EndedEarly,
}

/// What follows the end of a response stream.
#[derive(Debug)]
pub enum StreamEnd {
    Finished,
    /// Resume from the bytes received.
    Retry,
    GiveUp(DownloadFailure),
}

/// The decision after a stream ends: done where the known total arrived,
/// or with no total known the stream ended cleanly; otherwise resumed up to
/// three times, then given up with the stream's error, the shortfall, or as
/// ended early.
pub open spec fn stream_end_of(s: DownloadState, stream_error: Option<String>) -> StreamEnd {
    let done = match s.total_exact {
        Some(expected) => s.received >= expected,
        None => stream_error is None,
    };
    if done {
        StreamEnd::Finished
    } else if s.retry_count >= MAX_DOWNLOAD_RETRIES {
        match stream_error {
            Some(e) => StreamEnd::GiveUp(DownloadFailure::Stream(e)),
            None => match s.total_exact {
                Some(expected) => StreamEnd::GiveUp(DownloadFailure::Short { received: s.received, expected }),
                None => StreamEnd::GiveUp(DownloadFailure::EndedEarly),
            },
        }
    } else {
        StreamEnd::Retry
    }
}

pub fn on_stream_end(state: &mut DownloadState, stream_error: Option<String>) -> (r: StreamEnd)
    ensures
        r == stream_end_of(*old(state), stream_error),
        r is Retry ==> *final(state) == (DownloadState { retry_count: (old(state).retry_count + 1) as u32, ..*old(state) }),
        !(r is Retry) ==> *final(state) == *old(state),
{
    let done = match state.total_exact {
        Some(expected) => state.received >= expected,
        None => stream_error.is_none(),
    };
    if done {
        return StreamEnd::Finished;
    }
    if state.retry_count >= MAX_DOWNLOAD_RETRIES {
        return match stream_error {
            Some(e) => StreamEnd::GiveUp(DownloadFailure::Stream(e)),
            None => match state.total_exact {
                Some(expected) => StreamEnd::GiveUp(DownloadFailure::Short { received: state.received, expected }),
                None => StreamEnd::GiveUp(DownloadFailure::EndedEarly),
            },
        };
    }
    state.retry_count = state.retry_count + 1;
    StreamEnd::Retry
}

/// A finished file under 1 MiB is taken for an error page.
pub fn check_final_size(len: u64) -> (r: Result<(), String>)
    ensures
        r is Ok <==> len >= 1024 * 1024,
        r matches Err(e) ==> e@ == "下载文件过小，可能是错误页面"@,
{
    if len < 1024 * 1024 {
        return Err("下载文件过小，可能是错误页面".to_string());
    }
    Ok(())
}

} // verus!
