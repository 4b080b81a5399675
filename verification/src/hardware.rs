//! What the hardware report says: the graphics cards found, the processor
//! and memory, and which Whisper models suit the card.
use vstd::prelude::*;

use crate::srt::strings_view;

use crate::text::{chars_of, dec, dec_u64, eq_chars, lower_seq, lower_vec, push_str, string_of, trim, trim_string, is_empty_text};

verus! {

#[derive(Debug, Clone)]
pub struct GpuInfoDto {
    pub name: String,
    /// Total memory in MiB, where it could be read.
    pub memory_total_mb: Option<u64>,
}

#[derive(Debug)]
pub struct HardwareInfoDto {
    pub cpu_brand: String,
    pub cpu_logical_cores: u32,
    pub cpu_physical_cores: u32,
    pub memory_total_mb: u64,
    pub memory_available_mb: u64,
    pub gpus: Vec<GpuInfoDto>,
    pub nvidia_nvml_available: bool,
    pub whisper_recommended_models: Vec<String>,
    pub whisper_note: String,
}

/// The memory of the first card whose memory is known.
pub open spec fn first_vram(gpus: Seq<GpuInfoDto>) -> Option<u64>
    decreases gpus.len(),
{
    if gpus.len() == 0 {
        None
    } else if gpus[0].memory_total_mb is Some {
        gpus[0].memory_total_mb
    } else {
        first_vram(gpus.drop_first())
    }
}

pub fn primary_vram_mb(gpus: &Vec<GpuInfoDto>) -> (r: Option<u64>)
    ensures
        r == first_vram(gpus@),
{
    let mut i: usize = 0;
    assert(gpus@.skip(0) =~= gpus@);
    while i < gpus.len()
        invariant
            i <= gpus@.len(),
            first_vram(gpus@) == first_vram(gpus@.skip(i as int)),
        decreases gpus.len() - i,
    {
        assert(gpus@.skip(i as int).drop_first() =~= gpus@.skip(i + 1));
        if gpus[i].memory_total_mb.is_some() {
            return gpus[i].memory_total_mb;
        }
        i += 1;
    }
    None
}

/// The recommended models and the note shown with them, by whether the GPU
/// is used and the memory of the main card in MiB.
pub open spec fn recommendation(use_gpu: bool, vram: Option<u64>) -> (Seq<Seq<char>>, Seq<char>) {
    if !use_gpu {
        (seq!["tiny"@, "base"@, "small"@], "未启用 GPU 或按 CPU 推理：推荐 tiny～base，视机器可适当使用 small"@)
    } else {
        match vram {
            None => (seq!["tiny"@, "base"@, "small"@], "已启用 GPU，但未检测到显存信息：保守推荐 tiny～small"@),
            Some(v) => if v < 4096 {
                (seq!["base"@, "small"@], "显存约 "@ + dec(v as nat) + "MB（小于 4GB）：推荐 base 或 small"@)
            } else if v <= 8192 {
                (seq!["small"@, "medium"@], "显存约 "@ + dec(v as nat) + "MB（4～8GB）：推荐 small 或 medium"@)
            } else {
                (seq!["medium"@, "large-v3"@], "显存约 "@ + dec(v as nat) + "MB（大于 8GB）：可尝试 medium 或 large-v3"@)
            },
        }
    }
}


fn two(a: &str, b: &str) -> (r: Vec<String>)
    ensures
        strings_view(r@) == seq![a@, b@],
{
    let r = vec![a.to_string(), b.to_string()];
    assert(strings_view(r@) =~= seq![a@, b@]);
    r
}

fn three(a: &str, b: &str, c: &str) -> (r: Vec<String>)
    ensures
        strings_view(r@) == seq![a@, b@, c@],
{
    let r = vec![a.to_string(), b.to_string(), c.to_string()];
    assert(strings_view(r@) =~= seq![a@, b@, c@]);
    r
}

fn vram_note(v: u64, tail: &str) -> (r: String)
    ensures
        r@ == "显存约 "@ + dec(v as nat) + tail@,
{
    let mut s = "显存约 ".to_string();
    let d = string_of(&dec_u64(v));
    push_str(&mut s, d.as_str());
    push_str(&mut s, tail);
    s
}

pub fn recommend_whisper_models(use_gpu: bool, primary_vram_mb: Option<u64>) -> (r: (Vec<String>, String))
    ensures
        strings_view(r.0@) == recommendation(use_gpu, primary_vram_mb).0,
        r.1@ == recommendation(use_gpu, primary_vram_mb).1,
{
    if !use_gpu {
        return (
            three("tiny", "base", "small"),
            "未启用 GPU 或按 CPU 推理：推荐 tiny～base，视机器可适当使用 small".to_string(),
        );
    }
    match primary_vram_mb {
        None => (three("tiny", "base", "small"), "已启用 GPU，但未检测到显存信息：保守推荐 tiny～small".to_string()),
        Some(v) => if v < 4096 {
            (two("base", "small"), vram_note(v, "MB（小于 4GB）：推荐 base 或 small"))
        } else if v <= 8192 {
            (two("small", "medium"), vram_note(v, "MB（4～8GB）：推荐 small 或 medium"))
        } else {
            (two("medium", "large-v3"), vram_note(v, "MB（大于 8GB）：可尝试 medium 或 large-v3"))
        },
    }
}

/// What the machine reported, before it is summarized: the first
/// processor's brand, the processor counts, memory in bytes, the cards that
/// NVML listed and whether NVML answered, and the display adapters that the
/// operating system named.
pub struct HardwareFacts {
    pub first_cpu_brand: Option<String>,
    pub cpu_logical_cores: u32,
    pub cpu_physical_cores: Option<u32>,
    pub memory_total_bytes: u64,
    pub memory_available_bytes: u64,
    pub nvml_gpus: Vec<GpuInfoDto>,
    pub nvml_available: bool,
    pub os_gpu_names: Vec<String>,
}

/// The software renderer that Windows lists as a display adapter.
pub const BASIC_RENDER_DRIVER: &'static str = "Microsoft Basic Render Driver";

/// A name that is the basic render driver, ASCII case ignored.
pub open spec fn is_basic_renderer(name: Seq<char>) -> bool {
    lower_seq(name) == lower_seq(BASIC_RENDER_DRIVER@)
}

/// The cards listed: those of NVML, or where it gave none, the adapters the
/// operating system named, but the basic render driver, without memory.
pub open spec fn listed_gpus(nvml: Seq<GpuInfoDto>, os_names: Seq<String>) -> Seq<(Seq<char>, Option<u64>)> {
    if nvml.len() > 0 {
        nvml.map_values(|g: GpuInfoDto| (g.name@, g.memory_total_mb))
    } else {
        os_names.filter(|n: String| !is_basic_renderer(n@)).map_values(|n: String| (n@, None::<u64>))
    }
}

pub open spec fn gpus_view(g: Seq<GpuInfoDto>) -> Seq<(Seq<char>, Option<u64>)> {
    g.map_values(|x: GpuInfoDto| (x.name@, x.memory_total_mb))
}

/// The processor brand as shown: trimmed, or `Unknown CPU` where missing or
/// blank.
pub open spec fn brand_shown(first: Option<String>) -> Seq<char> {
    match first {
        Some(b) => if trim(b@).len() > 0 {
            trim(b@)
        } else {
            "Unknown CPU"@
        },
        None => "Unknown CPU"@,
    }
}

fn clone_gpu(g: &GpuInfoDto) -> (r: GpuInfoDto)
    ensures
        r.name@ == g.name@,
        r.memory_total_mb == g.memory_total_mb,
{
    GpuInfoDto { name: g.name.clone(), memory_total_mb: g.memory_total_mb }
}

fn os_gpus(names: &Vec<String>) -> (r: Vec<GpuInfoDto>)
    ensures
        gpus_view(r@) == names@.filter(|n: String| !is_basic_renderer(n@)).map_values(
            |n: String| (n@, None::<u64>),
        ),
{
    let skip = lower_vec(&chars_of(BASIC_RENDER_DRIVER));
    let mut out: Vec<GpuInfoDto> = Vec::new();
    let mut i: usize = 0;
    while i < names.len()
        invariant
            i <= names@.len(),
            skip@ == lower_seq(BASIC_RENDER_DRIVER@),
            gpus_view(out@) == names@.subrange(0, i as int).filter(|n: String| !is_basic_renderer(n@)).map_values(
                |n: String| (n@, None::<u64>),
            ),
        decreases names.len() - i,
    {
        let n = &names[i];
        let l = lower_vec(&chars_of(n.as_str()));
        let basic = eq_chars(&l, &skip);
        proof {
            names@.subrange(0, i as int).lemma_filter_push(names@[i as int], |n: String| !is_basic_renderer(n@));
            assert(names@.subrange(0, i + 1) =~= names@.subrange(0, i as int).push(names@[i as int]));
        }
        let ghost before = out@;
        assert(l@ == lower_seq(names@[i as int]@));
        assert(basic == is_basic_renderer(names@[i as int]@));
        if !basic {
            out.push(GpuInfoDto { name: n.clone(), memory_total_mb: None });
            assert(gpus_view(out@) =~= gpus_view(before).push((names@[i as int]@, None::<u64>)));
            assert(names@.subrange(0, i as int).filter(|n: String| !is_basic_renderer(n@)).push(names@[i as int]).map_values(
                |n: String| (n@, None::<u64>),
            ) =~= names@.subrange(0, i as int).filter(|n: String| !is_basic_renderer(n@)).map_values(|n: String| (n@, None::<u64>)).push(
                (names@[i as int]@, None::<u64>),
            ));
        }
        assert(gpus_view(out@) =~= names@.subrange(0, i + 1).filter(|n: String| !is_basic_renderer(n@)).map_values(
            |n: String| (n@, None::<u64>),
        ));
        i += 1;
    }
    assert(names@.subrange(0, names@.len() as int) =~= names@);
    out
}

/// Summarizes what the machine reported: memory in whole MiB, physical
/// cores defaulting to the logical count, the cards listed as
/// `listed_gpus` says, and the recommendation for the first card with known
/// memory.
pub fn assemble_hardware_info(use_gpu: bool, facts: &HardwareFacts) -> (r: HardwareInfoDto)
    ensures
        r.cpu_brand@ == brand_shown(facts.first_cpu_brand),
        r.cpu_logical_cores == facts.cpu_logical_cores,
        r.cpu_physical_cores == match facts.cpu_physical_cores {
            Some(n) => n,
            None => facts.cpu_logical_cores,
        },
        r.memory_total_mb == facts.memory_total_bytes / 1024 / 1024,
        r.memory_available_mb == facts.memory_available_bytes / 1024 / 1024,
        gpus_view(r.gpus@) == listed_gpus(facts.nvml_gpus@, facts.os_gpu_names@),
        r.nvidia_nvml_available == facts.nvml_available,
        strings_view(r.whisper_recommended_models@) == recommendation(use_gpu, first_vram(r.gpus@)).0,
        r.whisper_note@ == recommendation(use_gpu, first_vram(r.gpus@)).1,
{
    let cpu_brand = match &facts.first_cpu_brand {
        Some(b) => {
            let t = trim_string(b.as_str());
            if is_empty_text(t.as_str()) {
                "Unknown CPU".to_string()
            } else {
                t
            }
        },
        None => "Unknown CPU".to_string(),
    };
    let physical = match facts.cpu_physical_cores {
        Some(n) => n,
        None => facts.cpu_logical_cores,
    };
    let gpus = if facts.nvml_gpus.len() > 0 {
        let mut out: Vec<GpuInfoDto> = Vec::new();
        let mut i: usize = 0;
        while i < facts.nvml_gpus.len()
            invariant
                i <= facts.nvml_gpus@.len(),
                gpus_view(out@) == gpus_view(facts.nvml_gpus@.subrange(0, i as int)),
            decreases facts.nvml_gpus.len() - i,
        {
            let ghost before = out@;
            out.push(clone_gpu(&facts.nvml_gpus[i]));
            assert(facts.nvml_gpus@.subrange(0, i + 1) =~= facts.nvml_gpus@.subrange(0, i as int).push(
                facts.nvml_gpus@[i as int],
            ));
            assert(gpus_view(out@) =~= gpus_view(before).push(
                (facts.nvml_gpus@[i as int].name@, facts.nvml_gpus@[i as int].memory_total_mb),
            ));
            assert(gpus_view(out@) =~= gpus_view(facts.nvml_gpus@.subrange(0, i + 1)));
            i += 1;
        }
        assert(facts.nvml_gpus@.subrange(0, facts.nvml_gpus@.len() as int) =~= facts.nvml_gpus@);
        out
    } else {
        os_gpus(&facts.os_gpu_names)
    };
    let vram = primary_vram_mb(&gpus);
    let (models, note) = recommend_whisper_models(use_gpu, vram);
    HardwareInfoDto {
        cpu_brand,
        cpu_logical_cores: facts.cpu_logical_cores,
        cpu_physical_cores: physical,
        memory_total_mb: facts.memory_total_bytes / 1024 / 1024,
        memory_available_mb: facts.memory_available_bytes / 1024 / 1024,
        gpus,
        nvidia_nvml_available: facts.nvml_available,
        whisper_recommended_models: models,
        whisper_note: note,
    }
}

} // verus!
