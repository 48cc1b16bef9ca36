use godot_gsplat::bytes::{push_word, read_word};
use godot_gsplat::doubles::{exact_i32, widen};
use godot_gsplat::extents::column_extent;
use godot_gsplat::floats::F32;
use godot_gsplat::sorting::{stable_order, SortKey};
use godot_gsplat::text::{ends_with, ends_with_any_case, push_int, push_nat, text_eq};
use godot_gsplat::words::{bytes_to_floats, floats_to_bytes};

fn bits(value: f32) -> F32 {
    F32::from_bits(value.to_bits())
}

fn samples() -> Vec<f32> {
    vec![
        0.0,
        -0.0,
        1.0,
        -1.0,
        0.1,
        1.0e-45,
        -1.0e-45,
        1.0e-38,
        f32::MIN_POSITIVE,
        f32::MAX,
        f32::MIN,
        f32::INFINITY,
        f32::NEG_INFINITY,
        f32::NAN,
    ]
}

#[test]
fn comparisons_are_those_of_floats() {
    for &a in &samples() {
        assert_eq!(bits(a).is_nan(), a.is_nan());
        assert_eq!(bits(a).is_finite(), a.is_finite());
        assert_eq!(bits(a).abs(), bits(a.abs()));
        for &b in &samples() {
            assert_eq!(bits(a).lt(bits(b)), a < b, "{a} < {b}");
            assert_eq!(bits(a).le(bits(b)), a <= b, "{a} <= {b}");
            let smaller = f32::from_bits(bits(a).min(bits(b)).to_bits());
            let larger = f32::from_bits(bits(a).max(bits(b)).to_bits());
            assert!(smaller == a.min(b) || (smaller.is_nan() && a.min(b).is_nan()));
            assert!(larger == a.max(b) || (larger.is_nan() && a.max(b).is_nan()));
        }
        let moved = f32::from_bits(bits(a).clamp(bits(-0.5), bits(2.0)).to_bits());
        assert!(moved == a.clamp(-0.5, 2.0) || (moved.is_nan() && a.is_nan()));
    }
}

#[test]
fn ranks_put_what_is_no_number_last() {
    let mut values: Vec<f32> = samples();
    values.sort_by_key(|&value| bits(value).to_sort_rank());
    assert!(values.last().unwrap().is_nan());
    assert_eq!(values[0], f32::NEG_INFINITY);
    values.sort_by_key(|&value| bits(value).to_descending_rank());
    assert!(values.last().unwrap().is_nan());
    assert_eq!(values[0], f32::INFINITY);
    assert_eq!(bits(0.0).to_rank(), bits(-0.0).to_rank());
}

#[test]
fn widening_keeps_the_number() {
    for &value in &samples() {
        let wide = f64::from_bits(widen(bits(value)));
        if value.is_nan() {
            assert!(wide.is_nan());
        } else {
            assert_eq!(wide.to_bits(), (value as f64).to_bits(), "{value}");
        }
    }
}

#[test]
fn whole_doubles_are_integers() {
    for value in [0, 1, -1, 5, 1 << 20, i32::MAX, i32::MIN, i32::MIN + 1] {
        assert_eq!(exact_i32((value as f64).to_bits()), Some(value));
    }
    for value in [0.5, -0.1, 2147483648.0, -2147483649.0, 1.0e300, f64::NAN, f64::INFINITY] {
        assert_eq!(exact_i32(f64::to_bits(value)), None, "{value}");
    }
    assert_eq!(exact_i32((-0.0f64).to_bits()), Some(0));
    assert_eq!(exact_i32(f64::MIN_POSITIVE.to_bits()), None);
}

#[test]
fn numbers_are_written_in_little_endian() {
    let values = vec![bits(1.5), bits(-2.0)];
    let bytes = floats_to_bytes(&values);
    assert_eq!(bytes[..4], 1.5f32.to_le_bytes());
    assert_eq!(bytes_to_floats(&bytes), values);
    assert_eq!(bytes_to_floats(&bytes[..7]).len(), 1);
    let mut out = vec![9];
    push_word(&mut out, 0x0403_0201);
    assert_eq!(out, vec![9, 1, 2, 3, 4]);
    assert_eq!(read_word(&out, 1), 0x0403_0201);
}

#[test]
fn extents_pass_over_what_is_no_number() {
    let values = [bits(3.0), bits(9.0), bits(f32::NAN), bits(8.0), bits(-1.0), bits(7.0)];
    assert_eq!(column_extent(&values, 2, 0, 0, 3), (bits(-1.0), bits(3.0)));
    assert_eq!(column_extent(&values, 2, 1, 1, 3), (bits(7.0), bits(8.0)));
    assert_eq!(
        column_extent(&values, 2, 0, 0, 0),
        (bits(f32::INFINITY), bits(f32::NEG_INFINITY))
    );
}

#[test]
fn equal_keys_keep_their_order() {
    let key = |major: i128, minor: i64| SortKey { major, minor };
    let keys = vec![key(2, 0), key(1, 5), key(2, 0), key(1, 4), key(-7, 0)];
    assert_eq!(stable_order(&keys), vec![4, 3, 1, 0, 2]);
    assert!(stable_order(&vec![]).is_empty());
}

#[test]
fn numbers_and_endings_are_spelled_out() {
    let mut text = String::new();
    push_int(&mut text, -120);
    push_nat(&mut text, 0);
    push_int(&mut text, i64::MIN);
    push_nat(&mut text, u64::MAX);
    assert_eq!(text, "-1200-922337203685477580818446744073709551615");
    assert!(text_eq("abc", "abc"));
    assert!(!text_eq("abc", "abd"));
    assert!(ends_with("cloud.glb", ".glb"));
    assert!(!ends_with("cloud.GLB", ".glb"));
    assert!(ends_with_any_case("cloud.GlB", ".glb"));
    assert!(!ends_with("b", ".glb"));
}
