use rtop::binary32::{push_fixed2, rank_of};

fn fixed2(x: f32) -> String {
    let mut v: Vec<char> = Vec::new();
    push_fixed2(&mut v, x.to_bits());
    v.into_iter().collect()
}

const VALUES: [f32; 24] = [
    0.0, -0.0, 0.125, 0.375, 0.005, 0.015, 1.0, 12.34, 99.995, 100.0, 0.001, -0.001,
    -12.5, 1e-45, 3.4e38, -3.4e38, 16777216.0, 123456789.0, 0.3, 2.675,
    f32::INFINITY, f32::NEG_INFINITY, f32::NAN, 8388608.5,
];

#[test]
fn two_decimals_render_as_format_does() {
    for x in VALUES {
        assert_eq!(fixed2(x), format!("{:.2}", x), "for {:?}", x);
    }
    assert_eq!(fixed2(0.125), "0.12");
    assert_eq!(fixed2(-0.0), "-0.00");
    assert_eq!(fixed2(f32::NAN), "NaN");
    assert_eq!(fixed2(f32::NEG_INFINITY), "-inf");
}

#[test]
fn rank_follows_the_order_of_numbers() {
    for a in VALUES {
        for b in VALUES {
            if a.is_nan() || b.is_nan() {
                continue;
            }
            let by_rank = rank_of(a.to_bits()).cmp(&rank_of(b.to_bits()));
            assert_eq!(Some(by_rank), a.partial_cmp(&b), "for {:?} and {:?}", a, b);
        }
    }
}
