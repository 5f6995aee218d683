use uiua::number::{from_whole, from_byte, to_byte, to_intensity};

fn cast(x: f64) -> u8 {
    x as u8
}

fn intensity(x: f64) -> u8 {
    (x * 255.0).floor() as u8
}

fn samples() -> Vec<f64> {
    let mut out = vec![
        0.0,
        -0.0,
        1.0,
        -1.0,
        0.5,
        0.999999999,
        254.99999,
        255.0,
        255.5,
        256.0,
        1e300,
        -1e300,
        f64::INFINITY,
        f64::NEG_INFINITY,
        f64::NAN,
        f64::MIN_POSITIVE,
        f64::MAX,
        f64::from_bits(1),
        f64::from_bits(0x000f_ffff_ffff_ffff),
        1.0 / 255.0,
        2.0 / 255.0,
        0.003921568627450980,
        0.003921568627450981,
    ];
    for k in 0..=255u32 {
        let exact = k as f64 / 255.0;
        out.push(exact);
        out.push(f64::from_bits(exact.to_bits().wrapping_sub(1)));
        out.push(f64::from_bits(exact.to_bits() + 1));
        out.push(k as f64);
        out.push(k as f64 + 0.5);
        out.push(f64::from_bits((k as f64).to_bits().wrapping_sub(1)));
    }
    let mut seed: u64 = 0x9e37_79b9_7f4a_7c15;
    for _ in 0..20000 {
        seed ^= seed << 13;
        seed ^= seed >> 7;
        seed ^= seed << 17;
        out.push(f64::from_bits(seed));
        out.push((seed >> 11) as f64 / (1u64 << 53) as f64);
        out.push((seed >> 11) as f64 / (1u64 << 45) as f64);
    }
    out
}

#[test]
fn to_byte_is_the_cast_of_the_float() {
    for x in samples() {
        assert_eq!(to_byte(x.to_bits()), cast(x), "for {x:e}");
    }
}

#[test]
fn to_intensity_is_the_floor_of_the_float_times_255() {
    for x in samples() {
        assert_eq!(to_intensity(x.to_bits()), intensity(x), "for {x:e}");
    }
}

#[test]
fn to_intensity_exact_values() {
    assert_eq!(to_intensity(0.0f64.to_bits()), 0);
    assert_eq!(to_intensity(1.0f64.to_bits()), 255);
    assert_eq!(to_intensity(0.5f64.to_bits()), 127);
    assert_eq!(to_intensity(2.0f64.to_bits()), 255);
    assert_eq!(to_intensity((-0.5f64).to_bits()), 0);
    assert_eq!(to_intensity(f64::NAN.to_bits()), 0);
}

#[test]
fn from_byte_is_the_float_of_the_byte() {
    for b in 0..=255u8 {
        assert_eq!(from_byte(b), (b as f64).to_bits());
        assert_eq!(to_byte(from_byte(b)), b);
    }
}

#[test]
fn a_whole_number_has_the_pattern_of_the_float_it_is() {
    for n in 0..5000u64 {
        assert_eq!(from_whole(n), (n as f64).to_bits(), "{n}");
    }
    let limit = 1u64 << 53;
    for k in 0..53 {
        for n in [1u64 << k, (1u64 << k) + 1, (1u64 << k) - 1, (3u64 << k) % limit] {
            assert_eq!(from_whole(n), (n as f64).to_bits(), "{n}");
        }
    }
    assert_eq!(from_whole(limit - 1), ((limit - 1) as f64).to_bits());
    let mut n = 1u64;
    for _ in 0..20_000 {
        n = n.wrapping_mul(6364136223846793005).wrapping_add(1442695040888963407);
        let m = n >> 11;
        assert_eq!(from_whole(m), (m as f64).to_bits(), "{m}");
    }
}
