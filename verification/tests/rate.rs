use chronos_collector::rate::{
    clamp_denominator, resolve, SampleRate, Spelling, AMBIGUOUS_ONE, DEFAULT_DENOMINATOR,
    MAX_DENOMINATOR, MIN_DENOMINATOR,
};

fn rate(written: f64, denominator: u32) -> SampleRate {
    resolve(written.to_bits(), denominator)
}

#[test]
fn a_fraction_is_read_as_written() {
    assert_eq!(rate(0.1, 1000).parts, 100);
    assert_eq!(rate(0.5, 1000).parts, 500);
    assert_eq!(rate(1.0, 1000).parts, 1000);
    assert_eq!(rate(0.0, 1000).parts, 0);
}

#[test]
fn a_legacy_basis_point_value_still_means_what_it_meant() {
    let all = rate(10_000.0, 1000);
    assert_eq!(all.parts, 1000);
    assert_eq!(all.spelling, Spelling::LegacyBasisPoints);
    assert_eq!(rate(100.0, 1000).parts, 10);
    assert_eq!(rate(2_500.0, 1000).parts, 250);
}

#[test]
fn exactly_one_is_read_as_the_fraction() {
    assert_eq!(AMBIGUOUS_ONE, 1.0f64.to_bits());
    let one = resolve(AMBIGUOUS_ONE, 1000);
    assert_eq!(one.parts, 1000);
    assert_eq!(one.spelling, Spelling::Fraction);
}

#[test]
fn the_denominator_sets_the_finest_expressible_rate() {
    let too_fine = rate(0.0004, 1000);
    assert_eq!(too_fine.parts, 0);
    assert!(too_fine.rounded_to_nothing(0.0004f64.to_bits()));
    assert_eq!(rate(0.0004, 100_000).parts, 40);
}

#[test]
fn a_rate_that_was_meant_to_be_zero_is_not_reported_as_lost() {
    assert!(!rate(0.0, 1000).rounded_to_nothing(0.0f64.to_bits()));
}

#[test]
fn nonsense_is_off_rather_than_fatal() {
    for written in [-1.0, f64::NAN, f64::INFINITY, f64::NEG_INFINITY] {
        assert_eq!(rate(written, 1000).parts, 0, "{written} should be off");
    }
}

#[test]
fn the_resolution_is_clamped_into_a_usable_band() {
    assert_eq!(clamp_denominator(0), DEFAULT_DENOMINATOR);
    assert_eq!(clamp_denominator(1), MIN_DENOMINATOR);
    assert_eq!(clamp_denominator(50_000_000), MAX_DENOMINATOR);
    assert_eq!(clamp_denominator(100_000), 100_000);
}

fn by_floats(written: f64, denominator: u32) -> u32 {
    let fraction = if written > 1.0 { written / 10_000.0 } else { written };
    let parts = (fraction.clamp(0.0, 1.0) * f64::from(denominator)).round();
    if parts >= f64::from(denominator) {
        denominator
    } else {
        parts as u32
    }
}

#[test]
fn integer_arithmetic_agrees_with_double_arithmetic() {
    let mut seed: u64 = 0x9E37_79B9_7F4A_7C15;
    for _ in 0..200_000 {
        seed ^= seed << 13;
        seed ^= seed >> 7;
        seed ^= seed << 17;
        let denominator = clamp_denominator((seed >> 40) as u32 % 1_200_000);
        let small = f64::from_bits(0x3F00_0000_0000_0000 + seed % 0x00F0_0000_0000_0000);
        let large = f64::from_bits(0x3FF0_0000_0000_0001 + seed % 0x00E0_0000_0000_0000);
        let half = (f64::from((seed >> 33) as u32 % denominator) + 0.5) / f64::from(denominator);
        for written in [small, large, half, f64::from_bits(1), 9_999.999_999_999_998] {
            assert_eq!(
                rate(written, denominator).parts,
                by_floats(written, denominator),
                "{written} of {denominator}"
            );
        }
    }
}

#[test]
fn the_effective_fraction_is_the_quotient() {
    for (parts, denominator) in [
        (100, 1000),
        (1, 3),
        (2, 3),
        (999_999, 1_000_000),
        (1, u32::MAX),
        (u32::MAX, 1),
        (1000, 1000),
    ] {
        let rate = SampleRate { parts, denominator, spelling: Spelling::Fraction };
        let expected = f64::from(parts) / f64::from(denominator);
        assert_eq!(rate.effective_fraction(), expected.to_bits());
    }
    assert_eq!(SampleRate::off(1000).effective_fraction(), 0.0f64.to_bits());
    assert_eq!(SampleRate::off(0).effective_fraction(), 0.0f64.to_bits());
}
