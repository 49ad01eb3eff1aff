use conv_transpose_probe::{
    cases, is_selected, parse_dtype, probe_cases, shape_volume, SweepDtype,
};

#[test]
fn probe_table_has_twelve_cases_in_order() {
    let names: Vec<&str> = probe_cases().iter().map(|c| c.name).collect();
    assert_eq!(
        names,
        vec![
            "image_368_k2s2",
            "image_256_k4s2",
            "image_128_k3s1",
            "volume_32_k3s2",
            "volume_24_k2s2",
            "audio_l8192_k16s8",
            "audio_l2048_k8s4",
            "groups4_batch2",
            "dilation2_tail",
            "small_7_k4s2",
            "small_14_k4s2",
            "depthwise_256",
        ]
    );
}

#[test]
fn probe_case_fields() {
    let all = probe_cases();
    let c = &all[8];
    assert_eq!(c.x, [1, 16, 1, 131, 137]);
    assert_eq!(c.co, 24);
    assert_eq!(c.kernel, [1, 3, 5]);
    assert_eq!(c.stride, [1, 2, 3]);
    assert_eq!(c.pad, [0, 2, 3]);
    assert_eq!(c.dilation, [1, 2, 2]);
    assert_eq!(c.groups, 1);
}

#[test]
fn probe_weight_shape_divides_by_groups() {
    let all = probe_cases();
    assert_eq!(all[7].weight_shape(), [32, 8, 1, 4, 4]);
    assert_eq!(all[11].weight_shape(), [16, 1, 1, 3, 3]);
    assert_eq!(all[0].weight_shape(), [64, 64, 1, 2, 2]);
}

#[test]
fn probe_table_well_formed() {
    for c in probe_cases() {
        assert!(c.groups > 0 && c.x[1] % c.groups == 0 && c.co % c.groups == 0);
        assert!(shape_volume(c.x).is_some());
        assert!(shape_volume(c.weight_shape()).is_some());
        let o = c.transpose_options();
        assert_eq!(o.stride, c.stride);
        assert_eq!(o.padding, c.pad);
        assert_eq!(o.padding_out, [0, 0, 0]);
        assert_eq!(o.dilation, c.dilation);
        assert_eq!(o.groups, c.groups);
    }
}

#[test]
fn probe_selection() {
    assert!(is_selected(None, "image_368_k2s2"));
    assert!(is_selected(Some("all"), "image_368_k2s2"));
    assert!(is_selected(Some("image_368_k2s2"), "image_368_k2s2"));
    assert!(!is_selected(Some("image_368"), "image_368_k2s2"));
    assert!(!is_selected(Some("ALL"), "image_368_k2s2"));
}

#[test]
fn sweep_has_all_families() {
    let all = cases();
    assert_eq!(all.len(), 162);
    assert_eq!(all[0].name, "threshold_1d_co2_work8192");
    assert_eq!(all[27].name, "threshold_1d_co64_work524288");
    assert_eq!(all[28].name, "threshold_2d_co8_side4");
    assert_eq!(all[44].name, "threshold_2d_co64_side7");
    assert_eq!(all[45].name, "threshold_2d_co64_side14");
    assert_eq!(all[46].name, "threshold_3d_side3");
    assert_eq!(all[51].name, "gemm_1d_co2_ci64_work32768");
    assert_eq!(all[110].name, "gemm_1d_co64_ci512_work245760");
    assert_eq!(all[111].name, "gemm_2d_co8_ci128_side7");
    assert_eq!(all[134].name, "gemm_2d_co64_ci512_side14");
    assert_eq!(all[135].name, "groups_g2_l512");
    assert_eq!(all[158].name, "groups_g16_l8192");
    assert_eq!(all[159].name, "groups_batch4_l2048");
    assert_eq!(all[161].name, "groups_batch8_l2048");
}

#[test]
fn sweep_case_shapes() {
    let all = cases();
    // work / (co * 8) elements along the 1D axis.
    assert_eq!(all[0].x, [1, 16, 1, 1, 512]);
    assert_eq!(all[27].x, [1, 16, 1, 1, 1024]);
    assert_eq!(all[51].x, [1, 64, 1, 1, 2048]);
    assert_eq!(all[45].x, [1, 128, 1, 14, 14]);
    assert_eq!(all[45].co, 64);
    assert_eq!(all[50].x, [1, 8, 12, 12, 12]);
    assert_eq!(all[50].kernel, [3, 3, 3]);
    assert_eq!(all[158].x, [1, 64, 1, 1, 8192]);
    assert_eq!(all[158].groups, 16);
    assert_eq!(all[158].pad, [0, 0, 7]);
    assert_eq!(all[160].x, [5, 4, 1, 1, 2048]);
    assert_eq!(all[158].weight_shape(), [64, 8, 1, 1, 16]);
}

#[test]
fn sweep_names_are_distinct() {
    let all = cases();
    let mut names: Vec<&str> = all.iter().map(|c| c.name.as_str()).collect();
    names.sort();
    names.dedup();
    assert_eq!(names.len(), 162);
}

#[test]
fn sweep_table_well_formed() {
    for c in cases() {
        assert!(c.groups > 0 && c.x[1] % c.groups == 0);
        assert!(shape_volume(c.x).is_some());
        assert!(shape_volume(c.weight_shape()).is_some());
        let o = c.transpose_options();
        assert_eq!(o.stride, c.stride);
        assert_eq!(o.padding, c.pad);
        assert_eq!(o.dilation, [1, 1, 1]);
        assert_eq!(o.groups, c.groups);
    }
}

#[test]
fn sweep_filter() {
    let all = cases();
    let picked: Vec<&str> =
        all.iter().filter(|c| c.selected_by("threshold_3d,batch8")).map(|c| c.name.as_str()).collect();
    assert_eq!(
        picked,
        vec![
            "threshold_3d_side3",
            "threshold_3d_side4",
            "threshold_3d_side6",
            "threshold_3d_side8",
            "threshold_3d_side12",
            "groups_batch8_l2048",
        ]
    );
    assert_eq!(all.iter().filter(|c| c.selected_by("")).count(), 162);
}

#[test]
fn dtype_names() {
    assert!(matches!(parse_dtype("f16"), Some(SweepDtype::F16)));
    assert!(matches!(parse_dtype("f32"), Some(SweepDtype::F32)));
    assert!(matches!(parse_dtype("f64"), Some(SweepDtype::F64)));
    assert!(parse_dtype("bf16").is_none());
    assert!(parse_dtype("").is_none());
    assert!(parse_dtype("F32").is_none());
}
