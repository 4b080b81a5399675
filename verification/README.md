# subforge

The logic of a desktop tool that turns local videos into `.srt` subtitles:
whisper.cpp recognition, subtitle segmentation, optional translation through
an OpenAI-compatible chat API or Google Web, and a batch task queue. The
library is written in Verus; every public function in `src/` carries a
contract that Verus proves, and Verus checks the private helpers too.

## Layout

- `src/` — the verified library.
  - `text`, `json`: string operations over `Seq<char>` and a JSON model.
  - `srt`: parsing, repairing, merging and writing SRT cues.
  - `split_rules`, `segmentation`, `timing`: splitting long cues at safe
    boundaries, word-level and proportional timing, ordering word timings.
  - `openai_compat`, `llm_translate`, `google`: request building, reply
    reading, batch translation with retries, repair and fallbacks.
  - `config`, `task`, `task_ops`, `runner`, `job`, `limits`: settings, the
    task records and their state machine, the runner's decisions and limits.
  - `pipeline`: one task's run as steps from the outcome of an action to
    the next action (check a file, run ffmpeg or whisper.cpp, segment,
    translate, write the subtitles, finish or fail).
  - `paths`, `cache`, `models`, `whisper`, `deps`, `hardware`, `download`,
    `proxy`, `secrets`, `commands`: output and cache paths, the model
    catalog, whisper.cpp arguments and progress, dependency and hardware
    reports, resumable downloads, proxy settings, the encrypted key vault,
    and the answers of the panel commands.
- `tests/` — tests run against the compiled library.
- `app/` — ordinary Rust around the library: files, processes, HTTP, the
  hardware probe and the runner thread, which performs the actions that
  `pipeline::step` asks for.

Calls into other crates (`serde_json`, `sha2`, `base64`, `aes-gcm`,
`urlencoding`, `uuid`, `which`) go through small trusted wrappers whose
contracts name what the crate computes.
