use conv_transpose_probe::{shape_volume, tensor_codes, value_codes, xorshift_step};

#[test]
fn xorshift_from_one() {
    assert_eq!(xorshift_step(1), 270369);
    assert_eq!(xorshift_step(270369), 67634689);
}

#[test]
fn xorshift_from_input_seed() {
    assert_eq!(xorshift_step(12345), 3336926330);
    assert_eq!(xorshift_step(3336926330), 1697253807);
}

#[test]
fn xorshift_keeps_zero() {
    assert_eq!(xorshift_step(0), 0);
}

#[test]
fn codes_of_input_seed() {
    assert_eq!(value_codes(6, 12345), vec![107, 159, 7, 86, 194, 30]);
}

#[test]
fn codes_of_weight_seed() {
    assert_eq!(value_codes(6, 67890), vec![60, 86, 98, 27, 179, 152]);
}

#[test]
fn codes_are_a_prefix_of_longer_runs() {
    let short = value_codes(10, 4242);
    let long = value_codes(1000, 4242);
    assert_eq!(&long[..10], &short[..]);
    assert!(long.iter().all(|&c| c <= 200));
}

#[test]
fn no_codes_for_zero_count() {
    assert!(value_codes(0, 12345).is_empty());
}

#[test]
fn volume_of_shapes() {
    assert_eq!(shape_volume([1, 64, 1, 368, 368]), Some(64 * 368 * 368));
    assert_eq!(shape_volume([2, 32, 1, 129, 127]), Some(2 * 32 * 129 * 127));
    assert_eq!(shape_volume([1, 1, 1, 1, 1]), Some(1));
    assert_eq!(shape_volume([3, 0, 5, 7, 9]), Some(0));
}

#[test]
fn volume_overflow_is_none() {
    assert_eq!(shape_volume([usize::MAX, 2, 1, 1, 1]), None);
    // The running product overflows before the zero extent is reached.
    assert_eq!(shape_volume([usize::MAX, 2, 0, 1, 1]), None);
    assert_eq!(shape_volume([usize::MAX, 1, 1, 1, 1]), Some(usize::MAX));
}

#[test]
fn tensor_codes_match_volume() {
    let codes = tensor_codes([1, 2, 1, 1, 3], 12345).unwrap();
    assert_eq!(codes, vec![107, 159, 7, 86, 194, 30]);
    assert!(tensor_codes([usize::MAX, usize::MAX, 1, 1, 1], 1).is_none());
}

#[test]
fn code_maps_into_unit_interval() {
    for code in value_codes(500, 99) {
        let v = code as f32 / 100.0 - 1.0;
        assert!((-1.0..=1.0).contains(&v));
    }
}
