use necessary_work::rng::{Pcg32, RngStreams};

#[test]
fn streams_are_isolated() {
    let mut a = RngStreams::new(99);
    let mut b = RngStreams::new(99);
    // Extra draws on one stream must not perturb another.
    for _ in 0..17 {
        a.opportunity_selection.next_u32();
    }
    assert_eq!(a.starting_variation.next_u32(), b.starting_variation.next_u32());
    assert_eq!(a.opportunity_timing.next_u32(), b.opportunity_timing.next_u32());
}

#[test]
fn same_seed_same_sequence() {
    let mut a = Pcg32::for_stream(7, "starting_variation");
    let mut b = Pcg32::for_stream(7, "starting_variation");
    let left: Vec<u32> = (0..8).map(|_| a.next_u32()).collect();
    let right: Vec<u32> = (0..8).map(|_| b.next_u32()).collect();
    assert_eq!(left, right);
}

#[test]
fn different_streams_differ() {
    let mut a = Pcg32::for_stream(7, "starting_variation");
    let mut b = Pcg32::for_stream(7, "opportunity_timing");
    assert_ne!(
        (0..4).map(|_| a.next_u32()).collect::<Vec<_>>(),
        (0..4).map(|_| b.next_u32()).collect::<Vec<_>>()
    );
}

#[test]
fn draws_stay_in_their_ranges() {
    let mut rng = Pcg32::for_stream(3, "starting_variation");
    for _ in 0..500 {
        let v = rng.range_i64(-4, 9);
        assert!((-4..=9).contains(&v));
        let u = rng.range_u64(10, 12);
        assert!((10..=12).contains(&u));
        assert!(rng.pick(5) < 5);
    }
}

#[test]
fn the_generator_is_the_reference_pcg32() {
    // The reference PCG32 demonstration: seed 42 on stream 54.
    let mut rng = Pcg32::seeded(42, 54);
    let first: Vec<u32> = (0..6).map(|_| rng.next_u32()).collect();
    assert_eq!(
        first,
        vec![0xa15c02b7, 0x7b47f409, 0xba1d3330, 0x83d2f293, 0xbfa4784b, 0xcbed606e]
    );
}

#[test]
fn streams_are_selected_by_name() {
    let seed = 5;
    let streams = RngStreams::new(seed);
    assert_eq!(streams.starting_variation, Pcg32::for_stream(seed, "starting_variation"));
    assert_eq!(streams.opportunity_timing, Pcg32::for_stream(seed, "opportunity_timing"));
    assert_eq!(streams.opportunity_selection, Pcg32::for_stream(seed, "opportunity_selection"));
    assert_ne!(streams.starting_variation.inc, streams.opportunity_timing.inc);
}

#[test]
fn a_bounded_draw_is_the_high_word_of_the_scaled_output() {
    let mut a = Pcg32::for_stream(11, "opportunity_selection");
    let mut b = a;
    let raw = a.next_u32();
    // With bound 6 only low words below 2^32 mod 6 = 4 are rejected.
    assert!(((raw as u64 * 6) as u32) >= 4);
    let drawn = b.below(6);
    assert_eq!(drawn as u64, (raw as u64 * 6) >> 32);
    assert_eq!(a, b);
}

fn reference_lemire(rng: &mut Pcg32, bound: u32) -> u32 {
    let threshold = bound.wrapping_neg() % bound;
    loop {
        let m = rng.next_u32() as u64 * bound as u64;
        if (m as u32) >= threshold {
            return (m >> 32) as u32;
        }
    }
}

#[test]
fn bounded_draws_reject_the_biased_low_words() {
    // A bound near 2^32 rejects about three in ten outputs, so rejection
    // is exercised many times over.
    let bound = 3_000_000_000u32;
    let mut a = Pcg32::for_stream(21, "opportunity_selection");
    let mut b = a;
    let mut rejected = 0;
    for _ in 0..200 {
        let before = b;
        let expected = reference_lemire(&mut b, bound);
        let mut probe = before;
        probe.next_u32();
        if probe != b {
            rejected += 1;
        }
        assert_eq!(a.below(bound), expected);
        assert_eq!(a, b);
    }
    assert!(rejected > 0);
}
