use rust_gauge::metrics::{
    collect_gpu, collect_npu, collect_one, collect_samples, collect_network, percent_sample, unsupported, MetricKind,
    MetricStatus, Readings,
};

fn readings() -> Readings {
    Readings {
        cpu_usage: 12.5f32.to_bits(),
        memory_total: 16,
        memory_percent: 50.0f32.to_bits(),
        gpu_usage: Some(140.0f32.to_bits()),
        npu_usage: None,
        network_bytes: 1536,
        network_activity: 33.0f32.to_bits(),
    }
}

#[test]
fn samples_follow_enabled_metrics() {
    let enabled = vec![MetricKind::Network, MetricKind::Cpu, MetricKind::Npu, MetricKind::Gpu, MetricKind::Memory];
    let snapshot = collect_samples(&enabled, &readings());
    let kinds: Vec<MetricKind> = snapshot.samples.iter().map(|s| s.kind).collect();
    assert_eq!(kinds, enabled);
    let net = &snapshot.samples[0];
    assert_eq!(net.label, "NET");
    assert_eq!(net.display_value.as_deref(), Some("1.5 KB/s"));
    assert_eq!(net.value_percent, Some(33.0f32.to_bits()));
    let cpu = &snapshot.samples[1];
    assert_eq!(cpu.value_percent, Some(12.5f32.to_bits()));
    let npu = &snapshot.samples[2];
    assert_eq!(npu.status, MetricStatus::Unsupported);
    assert_eq!(npu.value_percent, None);
    let gpu = &snapshot.samples[3];
    assert_eq!(gpu.value_percent, Some(100.0f32.to_bits()));
    assert_eq!(gpu.status, MetricStatus::Available);
    let mem = &snapshot.samples[4];
    assert_eq!(mem.label, "MEM");
    assert_eq!(mem.value_percent, Some(50.0f32.to_bits()));
}

#[test]
fn memory_without_total_has_no_percentage() {
    let mut r = readings();
    r.memory_total = 0;
    let s = collect_one(MetricKind::Memory, &r);
    assert_eq!(s.value_percent, None);
    assert_eq!(s.status, MetricStatus::Available);
}

#[test]
fn percent_sample_clamps() {
    assert_eq!(percent_sample(MetricKind::Gpu, "GPU", (-3.0f32).to_bits()).value_percent, Some(0));
    assert_eq!(percent_sample(MetricKind::Gpu, "GPU", 42.0f32.to_bits()).value_percent, Some(42.0f32.to_bits()));
    let u = unsupported(MetricKind::Npu, "NPU");
    assert_eq!(u.status, MetricStatus::Unsupported);
    assert_eq!(u.label, "NPU");
}

#[test]
fn collect_network_shows_throughput() {
    let s = collect_network(5 * 1024 * 1024, 0);
    assert_eq!(s.display_value.as_deref(), Some("5.0 MB/s"));
    assert_eq!(collect_network(0, 0).display_value.as_deref(), Some("0 B/s"));
}

#[test]
fn accelerators_without_counters_are_unsupported() {
    assert_eq!(collect_gpu(None).status, MetricStatus::Unsupported);
    assert_eq!(collect_npu(None).status, MetricStatus::Unsupported);
    assert_eq!(collect_npu(Some(7.0f32.to_bits())).value_percent, Some(7.0f32.to_bits()));
    assert_eq!(collect_gpu(Some(f32::INFINITY.to_bits())).value_percent, Some(100.0f32.to_bits()));
}
