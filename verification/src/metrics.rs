use vstd::prelude::*;
use crate::number::{
    f64_of, f64_value, lemma_f64_of_near, lemma_round_half_even_nearest, round_half_even,
    round_half_even_u128,
};
use crate::percent::{clamp_percent, clamped_percent};
use vstd::arithmetic::div_mod::lemma_fundamental_div_mod;
use crate::text::{decimal, digit_char, push_char, push_decimal, push_str};

verus! {

/// A metric that can be shown in the tooltip and the icon.
#[derive(Clone, Copy, Debug, PartialEq, Eq, Structural)]
pub enum MetricKind {
    Cpu,
    Memory,
    Gpu,
    Npu,
    Network,
}

/// Whether a metric could be read on this machine.
#[derive(Clone, Copy, Debug, PartialEq, Eq, Structural)]
pub enum MetricStatus {
    Available,
    Unsupported,
}

/// One reading of one metric. A percentage is held as the bit pattern of the
/// `f32` that was measured (`f32::to_bits`).
#[derive(Clone, Debug)]
pub struct MetricSample {
    pub kind: MetricKind,
    pub label: &'static str,
    pub value_percent: Option<u32>,
    pub display_value: Option<String>,
    pub status: MetricStatus,
}

/// The readings of the enabled metrics, in the order in which they are enabled.
#[derive(Clone, Debug)]
pub struct MetricSnapshot {
    pub samples: Vec<MetricSample>,
}

/// What one round of sampling read from the system. Percentages are `f32` bit patterns.
#[derive(Clone, Copy, Debug)]
pub struct Readings {
    /// Global CPU usage.
    pub cpu_usage: u32,
    /// Total memory; no memory percentage exists when it is zero.
    pub memory_total: u64,
    /// `used / total * 100`, not read when `memory_total` is zero.
    pub memory_percent: u32,
    /// Summed GPU engine utilisation, when the counters exist.
    pub gpu_usage: Option<u32>,
    /// Summed NPU engine utilisation, when a compute-only adapter exists.
    pub npu_usage: Option<u32>,
    /// Bytes received and transmitted over all interfaces since the last round.
    pub network_bytes: u64,
    /// The logarithmic activity percentage of `network_bytes`.
    pub network_activity: u32,
}

/// `x` with one decimal: the integer part, a point and the tenths of `t = 10 * x`.
pub open spec fn one_decimal(t: nat) -> Seq<char> {
    decimal(t / 10) + seq!['.', digit_char(t % 10)]
}

/// What `format_bytes` prints: the value of `bytes as f64` in the largest binary unit
/// it reaches, with one decimal rounded half to even, or in plain bytes.
pub open spec fn bytes_text(bytes: nat) -> Seq<char> {
    let f = f64_of(bytes);
    if f >= 0x4000_0000 {
        one_decimal(round_half_even(f * 10, 0x4000_0000)) + " GB"@
    } else if f >= 0x10_0000 {
        one_decimal(round_half_even(f * 10, 0x10_0000)) + " MB"@
    } else if f >= 0x400 {
        one_decimal(round_half_even(f * 10, 0x400)) + " KB"@
    } else {
        decimal(f) + " B"@
    }
}

/// Appends `value / unit` with one decimal, rounded half to even.
fn push_one_decimal(s: &mut String, value: u128, unit: u128)
    requires
        0x400 <= unit,
        value <= 0x1_0000_0000_0000_1000,
    ensures
        final(s)@ == old(s)@ + one_decimal(round_half_even(value as nat * 10, unit as nat)),
{
    let n: u128 = value * 10;
    let t = round_half_even_u128(n, unit);
    proof {
        let q = (n as int) / (unit as int);
        lemma_fundamental_div_mod(n as int, unit as int);
        assert(q * 0x400 <= n) by (nonlinear_arith)
            requires
                n == unit * q + (n as int) % (unit as int),
                (n as int) % (unit as int) >= 0,
                unit >= 0x400,
                q >= 0,
        ;
        assert(t < 0x1_0000_0000_0000_0000);
    }
    push_decimal(s, (t / 10) as u64);
    push_char(s, '.');
    let d = (t % 10) as u64;
    let c = if d == 0 { '0' }
        else if d == 1 { '1' }
        else if d == 2 { '2' }
        else if d == 3 { '3' }
        else if d == 4 { '4' }
        else if d == 5 { '5' }
        else if d == 6 { '6' }
        else if d == 7 { '7' }
        else if d == 8 { '8' }
        else { '9' };
    push_char(s, c);
    assert(s@ =~= old(s)@ + one_decimal(round_half_even(value as nat * 10, unit as nat)));
}

/// A byte count in B, KB, MB or GB (units of 1024), as the tooltip shows it.
pub fn format_bytes(bytes: u64) -> (res: String)
    ensures
        res@ == bytes_text(bytes as nat),
{
    let f = f64_value(bytes);
    let mut s = String::new();
    if f >= 0x4000_0000 {
        push_one_decimal(&mut s, f, 0x4000_0000);
        push_str(&mut s, " GB");
    } else if f >= 0x10_0000 {
        push_one_decimal(&mut s, f, 0x10_0000);
        push_str(&mut s, " MB");
    } else if f >= 0x400 {
        push_one_decimal(&mut s, f, 0x400);
        push_str(&mut s, " KB");
    } else {
        push_decimal(&mut s, f as u64);
        push_str(&mut s, " B");
    }
    s
}

/// The sample of a metric that this machine does not expose.
pub fn unsupported(kind: MetricKind, label: &'static str) -> (res: MetricSample)
    ensures
        res.kind == kind,
        res.label == label,
        res.value_percent is None,
        res.display_value is None,
        res.status == MetricStatus::Unsupported,
{
    MetricSample {
        kind,
        label,
        value_percent: None,
        display_value: None,
        status: MetricStatus::Unsupported,
    }
}

/// The sample of a percentage, clamped to `0.0..=100.0`.
pub fn percent_sample(kind: MetricKind, label: &'static str, value: u32) -> (res: MetricSample)
    ensures
        res.kind == kind,
        res.label == label,
        res.value_percent == Some(clamped_percent(value)),
        res.display_value is None,
        res.status == MetricStatus::Available,
{
    MetricSample {
        kind,
        label,
        value_percent: Some(clamp_percent(value)),
        display_value: None,
        status: MetricStatus::Available,
    }
}

/// The label each metric is collected under.
pub open spec fn kind_label(kind: MetricKind) -> Seq<char> {
    match kind {
        MetricKind::Cpu => "CPU"@,
        MetricKind::Memory => "MEM"@,
        MetricKind::Gpu => "GPU"@,
        MetricKind::Npu => "NPU"@,
        MetricKind::Network => "NET"@,
    }
}

/// `sample` is what one round of sampling reports for `kind` from `r`.
pub open spec fn is_sample_for(sample: MetricSample, kind: MetricKind, r: Readings) -> bool {
    &&& sample.kind == kind
    &&& sample.label@ == kind_label(kind)
    &&& match kind {
        MetricKind::Cpu => {
            &&& sample.value_percent == Some(r.cpu_usage)
            &&& sample.display_value is None
            &&& sample.status == MetricStatus::Available
        },
        MetricKind::Memory => {
            &&& sample.value_percent == (if r.memory_total > 0 {
                Some(r.memory_percent)
            } else {
                None
            })
            &&& sample.display_value is None
            &&& sample.status == MetricStatus::Available
        },
        MetricKind::Gpu => accelerator_sample(sample, r.gpu_usage),
        MetricKind::Npu => accelerator_sample(sample, r.npu_usage),
        MetricKind::Network => {
            &&& sample.value_percent == Some(r.network_activity)
            &&& sample.display_value matches Some(text) && text@ == bytes_text(r.network_bytes as nat)
                + "/s"@
            &&& sample.status == MetricStatus::Available
        },
    }
}

/// A GPU or NPU sample: the clamped reading when there is one, else unsupported.
pub open spec fn accelerator_sample(sample: MetricSample, reading: Option<u32>) -> bool {
    &&& sample.display_value is None
    &&& match reading {
        Some(v) => sample.value_percent == Some(clamped_percent(v)) && sample.status
            == MetricStatus::Available,
        None => sample.value_percent is None && sample.status == MetricStatus::Unsupported,
    }
}

/// The GPU sample: the summed engine utilisation when the counters exist, else unsupported.
pub fn collect_gpu(gpu_usage: Option<u32>) -> (res: MetricSample)
    ensures
        res.kind == MetricKind::Gpu,
        res.label@ == "GPU"@,
        accelerator_sample(res, gpu_usage),
{
    match gpu_usage {
        Some(value) => percent_sample(MetricKind::Gpu, "GPU", value),
        None => unsupported(MetricKind::Gpu, "GPU"),
    }
}

/// The NPU sample: the utilisation of the compute-only adapter when there is one, else
/// unsupported.
pub fn collect_npu(npu_usage: Option<u32>) -> (res: MetricSample)
    ensures
        res.kind == MetricKind::Npu,
        res.label@ == "NPU"@,
        accelerator_sample(res, npu_usage),
{
    match npu_usage {
        Some(value) => percent_sample(MetricKind::Npu, "NPU", value),
        None => unsupported(MetricKind::Npu, "NPU"),
    }
}

/// The network sample: its activity percentage and the throughput as text.
pub fn collect_network(bytes_per_interval: u64, activity: u32) -> (res: MetricSample)
    ensures
        res.kind == MetricKind::Network,
        res.label@ == "NET"@,
        res.value_percent == Some(activity),
        res.display_value matches Some(text) && text@ == bytes_text(bytes_per_interval as nat) + "/s"@,
        res.status == MetricStatus::Available,
{
    let mut text = format_bytes(bytes_per_interval);
    push_str(&mut text, "/s");
    MetricSample {
        kind: MetricKind::Network,
        label: "NET",
        value_percent: Some(activity),
        display_value: Some(text),
        status: MetricStatus::Available,
    }
}

/// The sample of one metric from one round of readings.
pub fn collect_one(kind: MetricKind, readings: &Readings) -> (res: MetricSample)
    ensures
        is_sample_for(res, kind, *readings),
{
    match kind {
        MetricKind::Cpu => MetricSample {
            kind,
            label: "CPU",
            value_percent: Some(readings.cpu_usage),
            display_value: None,
            status: MetricStatus::Available,
        },
        MetricKind::Memory => {
            let value_percent = if readings.memory_total > 0 {
                Some(readings.memory_percent)
            } else {
                None
            };
            MetricSample {
                kind,
                label: "MEM",
                value_percent,
                display_value: None,
                status: MetricStatus::Available,
            }
        },
        MetricKind::Gpu => collect_gpu(readings.gpu_usage),
        MetricKind::Npu => collect_npu(readings.npu_usage),
        MetricKind::Network => collect_network(readings.network_bytes, readings.network_activity),
    }
}

/// The snapshot of the enabled metrics: one sample per entry of `enabled_metrics`, in order.
pub fn collect_samples(enabled_metrics: &Vec<MetricKind>, readings: &Readings) -> (res: MetricSnapshot)
    ensures
        res.samples@.len() == enabled_metrics@.len(),
        forall|i: int|
            0 <= i < enabled_metrics@.len() ==> is_sample_for(
                #[trigger] res.samples@[i],
                enabled_metrics@[i],
                *readings,
            ),
{
    let mut samples: Vec<MetricSample> = Vec::new();
    let mut i: usize = 0;
    while i < enabled_metrics.len()
        invariant
            i <= enabled_metrics@.len(),
            samples@.len() == i,
            forall|j: int|
                0 <= j < i ==> is_sample_for(#[trigger] samples@[j], enabled_metrics@[j], *readings),
        decreases enabled_metrics@.len() - i,
    {
        let sample = collect_one(enabled_metrics[i], readings);
        samples.push(sample);
        i = i + 1;
    }
    MetricSnapshot { samples }
}

/// Whether `t` tenths is a nearest value to `value / unit`, ties to even.
pub open spec fn nearest_tenths(t: nat, value: nat, unit: nat) -> bool {
    &&& 2 * (10 * value - t * unit) <= unit
    &&& 2 * (t * unit - 10 * value) <= unit
    &&& (2 * (10 * value - t * unit) == unit || 2 * (t * unit - 10 * value) == unit) ==> t % 2 == 0
}

/// Byte counts below 1 KiB print exactly, in bytes; from 1 KiB on, the value of
/// `bytes as f64` prints in the largest of KB, MB and GB that it reaches, as a nearest
/// number of tenths (ties to even) with one decimal.
pub proof fn lemma_bytes_text_units(bytes: nat)
    ensures
        bytes < 0x400 ==> bytes_text(bytes) == decimal(bytes) + " B"@,
        f64_of(bytes) >= 0x4000_0000 ==> exists|t: nat|
            #[trigger] nearest_tenths(t, f64_of(bytes), 0x4000_0000) && bytes_text(bytes) == one_decimal(t)
                + " GB"@,
        0x10_0000 <= f64_of(bytes) < 0x4000_0000 ==> exists|t: nat|
            #[trigger] nearest_tenths(t, f64_of(bytes), 0x10_0000) && bytes_text(bytes) == one_decimal(t)
                + " MB"@,
        0x400 <= f64_of(bytes) < 0x10_0000 ==> exists|t: nat|
            #[trigger] nearest_tenths(t, f64_of(bytes), 0x400) && bytes_text(bytes) == one_decimal(t)
                + " KB"@,
{
    lemma_f64_of_near(bytes);
    let f = f64_of(bytes);
    let unit: nat = if f >= 0x4000_0000 {
        0x4000_0000
    } else if f >= 0x10_0000 {
        0x10_0000
    } else {
        0x400
    };
    lemma_round_half_even_nearest(f * 10, unit);
    let t = round_half_even(f * 10, unit);
    assert(nearest_tenths(t, f, unit));
}

} // verus!
