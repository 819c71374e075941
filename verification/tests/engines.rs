use rust_gauge::gpu_engine::{
    compute_only_luids, extract_engine_type, extract_luid, split_engines, LuidGroup,
};

fn reference_luid(name: &str) -> Option<String> {
    let start = name.find("_luid_")? + "_luid_".len();
    let end = name[start..].find("_phys_")? + start;
    Some(name[start..end].to_string())
}

fn reference_engine_type(name: &str) -> Option<String> {
    let start = name.find("_engtype_")? + "_engtype_".len();
    Some(name[start..].to_ascii_lowercase())
}

const GPU_3D: &str = "pid_1234_luid_0x00000000_0x0000D1A2_phys_0_eng_0_engtype_3D";
const GPU_COPY: &str = "pid_1234_luid_0x00000000_0x0000D1A2_phys_0_eng_1_engtype_Copy";
const NPU_COMPUTE: &str = "pid_99_luid_0x00000000_0x0001F00D_phys_0_eng_0_engtype_Compute";
const NPU_COMPUTE_1: &str = "pid_99_luid_0x00000000_0x0001F00D_phys_0_eng_1_engtype_Compute_1";
const GPU_COMPUTE: &str = "pid_7_luid_0x00000000_0x0000D1A2_phys_0_eng_2_engtype_Compute_0";

#[test]
fn extract_luid_examples() {
    assert_eq!(extract_luid(GPU_3D).as_deref(), Some("0x00000000_0x0000D1A2"));
    assert_eq!(extract_luid("no id here"), None);
    assert_eq!(extract_luid("x_luid_abc"), None);
    assert_eq!(extract_luid("_phys__luid_a_phys_b_phys_").as_deref(), Some("a"));
    assert_eq!(extract_luid("_luid__phys_").as_deref(), Some(""));
}

#[test]
fn extract_matches_str_find() {
    let names = [
        GPU_3D, GPU_COPY, NPU_COMPUTE, "", "_luid_", "_luid_x", "a_luid_é_phys_ü_engtype_VIDEO Decode",
        "_engtype_", "_engtype_ABC_engtype_Def", "_luid__luid_x_phys_", "_luid_x_phy_s_phys_",
    ];
    for name in names {
        assert_eq!(extract_luid(name), reference_luid(name), "{name:?}");
        assert_eq!(extract_engine_type(name), reference_engine_type(name), "{name:?}");
    }
}

#[test]
fn engine_type_is_lower_case() {
    assert_eq!(extract_engine_type(GPU_COPY).as_deref(), Some("copy"));
    assert_eq!(extract_engine_type(NPU_COMPUTE_1).as_deref(), Some("compute_1"));
    assert_eq!(extract_engine_type("nothing"), None);
}

#[test]
fn add_engine_type_marks_groups() {
    let mut g = LuidGroup { luid: "a".to_string(), has_compute: false, has_non_compute: false };
    g.add_engine_type("");
    assert!(!g.has_compute && !g.has_non_compute);
    g.add_engine_type("compute_0");
    assert!(g.has_compute && !g.has_non_compute);
    g.add_engine_type("3d");
    assert!(g.has_compute && g.has_non_compute);
    let mut h = LuidGroup { luid: "b".to_string(), has_compute: false, has_non_compute: false };
    h.add_engine_type("comput");
    assert!(!h.has_compute && h.has_non_compute);
}

#[test]
fn compute_only_adapters_are_npus() {
    let names: Vec<String> = [GPU_3D, NPU_COMPUTE, GPU_COPY, NPU_COMPUTE_1, GPU_COMPUTE, "unrelated"]
        .iter()
        .map(|s| s.to_string())
        .collect();
    assert_eq!(compute_only_luids(&names), vec!["0x00000000_0x0001F00D".to_string()]);
    let split = split_engines(&names);
    assert_eq!(split.on_npu, vec![false, true, false, true, false, false]);
    assert!(split.has_npu);
}

#[test]
fn adapters_appear_once_in_first_seen_order() {
    let names: Vec<String> = vec![
        "_luid_B_phys__engtype_compute".to_string(),
        "_luid_A_phys__engtype_compute".to_string(),
        "_luid_B_phys__engtype_compute_3".to_string(),
        "_luid_C_phys_".to_string(),
        "_luid_A_phys__engtype_".to_string(),
    ];
    assert_eq!(compute_only_luids(&names), vec!["B".to_string(), "A".to_string()]);
}

#[test]
fn no_npu_means_all_gpu() {
    let names: Vec<String> = vec![GPU_3D.to_string(), GPU_COMPUTE.to_string(), "x".to_string()];
    assert!(compute_only_luids(&names).is_empty());
    let split = split_engines(&names);
    assert_eq!(split.on_npu, vec![false, false, false]);
    assert!(!split.has_npu);
}
