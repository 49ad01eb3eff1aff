use conv_transpose_probe::{filter_matches, push_decimal, same_text};

#[test]
fn decimal_digits() {
    let mut s = String::from("n=");
    push_decimal(&mut s, 0);
    assert_eq!(s, "n=0");
    let mut s = String::new();
    push_decimal(&mut s, 524288);
    assert_eq!(s, "524288");
    let mut s = String::new();
    push_decimal(&mut s, usize::MAX);
    assert_eq!(s, usize::MAX.to_string());
}

#[test]
fn same_text_compares_characters() {
    assert!(same_text("all", "all"));
    assert!(!same_text("all", "al"));
    assert!(!same_text("f32", "f64"));
    assert!(same_text("", ""));
    assert!(same_text("größe", "größe"));
}

#[test]
fn empty_filter_selects_everything() {
    assert!(filter_matches("", "gemm_1d_co2_ci64_work32768"));
    assert!(filter_matches("", ""));
}

#[test]
fn filter_piece_must_occur() {
    assert!(filter_matches("gemm", "gemm_2d_co8_ci128_side7"));
    assert!(filter_matches("co8_ci128", "gemm_2d_co8_ci128_side7"));
    assert!(!filter_matches("gemm_3d", "gemm_2d_co8_ci128_side7"));
}

#[test]
fn any_comma_piece_selects() {
    assert!(filter_matches("threshold_3d,groups_g2", "groups_g2_l512"));
    assert!(filter_matches("threshold_3d,groups_g2", "threshold_3d_side4"));
    assert!(!filter_matches("threshold_3d,groups_g2", "gemm_1d_co2_ci64_work32768"));
}

#[test]
fn empty_piece_between_commas_selects() {
    assert!(filter_matches("nomatch,,other", "anything"));
    assert!(filter_matches("nomatch,", "anything"));
    assert!(!filter_matches("nomatch,other", "anything"));
}

#[test]
fn filter_agrees_with_split_and_contains() {
    let names = ["groups_batch4_l2048", "threshold_1d_co2_work8192", "a,b", "x"];
    let filters = ["", ",", "batch", "work8192,batch", "zz", "a,b", "1d_co2", "l2048,", "xx,yy"];
    for f in filters {
        for n in names {
            let expected = f.split(',').any(|p| n.contains(p));
            assert_eq!(filter_matches(f, n), expected, "filter {f:?} name {n:?}");
        }
    }
}

#[test]
fn comma_join_selects_either_filter() {
    let left = ["gemm", "", "zz", "side1"];
    let right = ["batch", "qq", "", "co8"];
    let names = ["gemm_2d_co8_ci128_side14", "groups_batch4_l2048", "threshold_3d_side12"];
    for l in left {
        for r in right {
            let joined = format!("{l},{r}");
            for n in names {
                assert_eq!(filter_matches(&joined, n), filter_matches(l, n) || filter_matches(r, n));
            }
        }
    }
}
