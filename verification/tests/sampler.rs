//! The draw stream, the mutation kernel, the acceptance evaluator, the
//! initial-sample search and the batch loop.

use buddhabrot::accept::accept_prob;
use buddhabrot::buffer::Buffer;
use buddhabrot::complex::Complex;
use buddhabrot::config::Config;
use buddhabrot::draws::{rand_complex, DrawStream};
use buddhabrot::mutate::mutate;
use buddhabrot::worker::{build_initial_samples, default_chains, find_initial_sample, run_batch,
    warmup, Sample};

const S: i64 = 16777216;

fn fixed(draws: Vec<u64>) -> DrawStream {
    DrawStream::Fixed { draws, pos: 0 }
}

fn whole_domain_frame() -> Buffer {
    Buffer::new(16, 16, Complex::zero(), S / 4)
}

fn small_config(use_metropolis: bool) -> Config {
    Config::validated(
        use_metropolis,
        vec![50, 50, 50],
        16,
        16,
        16,
        16,
        2,
        1,
        1,
        None,
        Complex::zero(),
        S / 4,
        None,
        false,
    )
    .unwrap()
}

#[test]
fn fixed_stream_runs_dry() {
    let mut rng = fixed(vec![7, 8]);
    assert_eq!(rng.next(), Some(7));
    assert_eq!(rng.next(), Some(8));
    assert_eq!(rng.next(), None);
    assert_eq!(rng.next(), None);
    match rng {
        DrawStream::Fixed { pos, .. } => assert_eq!(pos, 2),
        DrawStream::Live => panic!("stream changed kind"),
    }
}

#[test]
fn rand_complex_maps_draws_to_the_square() {
    // 0x200_0000 maps each coordinate to 0: the first candidate is the
    // origin, which is inside the bailout radius.
    let mut rng = fixed(vec![0x200_0000, 0x200_0000]);
    assert_eq!(rand_complex(&mut rng), Some(Complex::from_parts(0, 0)));
}

#[test]
fn rand_complex_rejects_escaped_candidates() {
    // Draw 0 maps to -2 - 2i, which is escaped; the stream then runs dry.
    let mut rng = fixed(vec![0, 0]);
    assert_eq!(rand_complex(&mut rng), None);
}

#[test]
fn accept_symmetric_proposals() {
    // Equal lengths, equal contributions: alpha is exactly 1.
    assert_eq!(accept_prob(7, 100, 42, 7, 100, 42), S);
}

#[test]
fn accept_ratio_examples() {
    // A current state twice as strong caps at 1.
    assert_eq!(accept_prob(2, 10, 5, 1, 10, 5), S);
    // A proposal twice as strong halves the ratio.
    assert_eq!(accept_prob(1, 10, 5, 2, 10, 5), S / 2);
}

#[test]
fn mutate_big_move_takes_a_fresh_seed() {
    // First draw divisible by 5 selects the global move; the next two
    // draws map to the origin.
    let mut rng = fixed(vec![0, 0x200_0000, 0x200_0000]);
    let res = mutate(Complex::from_parts(S, S), S, &mut rng);
    assert_eq!(res, Some(Complex::from_parts(0, 0)));
}

#[test]
fn mutate_small_move_steps_along_the_angle() {
    // Angle draw 0 gives theta = 0 (step along +x); radius draw 0 gives
    // the full radius 0.1/zoom = 0.1, which is 1677721 in Q24.
    let mut rng = fixed(vec![1, 0, 0]);
    let res = mutate(Complex::zero(), S, &mut rng);
    assert_eq!(res, Some(Complex::from_parts(1677721, 0)));
}

#[test]
fn mutate_none_when_stream_dry() {
    let mut rng = fixed(vec![]);
    assert_eq!(mutate(Complex::zero(), S, &mut rng), None);
}

#[test]
fn find_initial_sample_returns_contributing_seed() {
    let frame = whole_domain_frame();
    let mut orbit: Vec<Complex> = Vec::new();
    // One candidate at 0.5 + 0.5i: inside the sampling domain, escapes in
    // three steps, and its orbit touches the frame.
    let mut rng = fixed(vec![0x280_0000, 0x280_0000]);
    let res = find_initial_sample(&frame, Complex::zero(), 2 * S, &mut rng, &mut orbit);
    assert_eq!(res, Some(Complex::from_parts(S / 2, S / 2)));
}

#[test]
fn find_initial_sample_gives_up_without_draws() {
    let frame = whole_domain_frame();
    let mut orbit: Vec<Complex> = Vec::new();
    let mut rng = fixed(vec![]);
    let res = find_initial_sample(&frame, Complex::zero(), 2 * S, &mut rng, &mut orbit);
    assert_eq!(res, None);
}

#[test]
fn build_initial_samples_fills_every_channel() {
    let frame = whole_domain_frame();
    let mut rng = DrawStream::Live;
    let chains = build_initial_samples(&frame, 1, &mut rng);
    assert_eq!(chains.len(), 3);
    for s in &chains {
        assert!(s.count <= s.limit);
        assert_eq!(s.limit, 50000);
    }
}

#[test]
fn warmup_without_draws_keeps_chains() {
    let frame = whole_domain_frame();
    // Seeds that escape at step 0 keep each warm-up iteration cheap; with
    // a dry stream no proposal is ever drawn, so nothing changes.
    let chains_before = vec![
        Sample { seed: Complex::from_parts(3 * S, 0), count: 1, limit: 50000 };
        3
    ];
    let mut chains = chains_before.clone();
    let mut rng = fixed(vec![]);
    warmup(&frame, &mut chains, &mut rng);
    assert_eq!(chains, chains_before);
}

#[test]
fn default_chains_one_slot() {
    let cfg = small_config(false);
    let chains = default_chains(&cfg);
    assert_eq!(chains.len(), 3);
    for s in &chains {
        assert_eq!(s.seed, Complex::from_parts(0, 0));
        assert_eq!(s.count, 0);
        assert_eq!(s.limit, 50);
    }
}

#[test]
fn accepted_orbit_is_plotted() {
    // One round, Metropolis off: the first sub-state accepts the proposal
    // 0.5 + 0.5i (drawn from the script) and the histogram receives one
    // count per orbit point of the accepted seed except the seed point
    // itself; the other two sub-states find the stream dry and do nothing.
    let cfg = Config::validated(
        false,
        vec![50, 50, 50],
        16,
        16,
        16,
        16,
        1,
        1,
        1,
        None,
        Complex::zero(),
        S / 4,
        None,
        false,
    )
    .unwrap();
    let mut chains = default_chains(&cfg);
    let mut rng = fixed(vec![0x280_0000, 0x280_0000]);
    let buf = run_batch(&cfg, &mut chains, &mut rng);
    // The orbit of 0.5 + 0.5i is (0.5, 0.5), (0.5, 1.0), (-0.25, 1.5),
    // (-1.6875, -0.25); the first point is skipped, the rest land at
    // pixels (10, 12), (7, 14) and (1, 7).
    let mut expected = vec![0u32; 256];
    expected[10 + 12 * 16] = 1;
    expected[7 + 14 * 16] = 1;
    expected[1 + 7 * 16] = 1;
    for (k, cell) in buf.buffer.iter().enumerate() {
        assert_eq!(cell.r, expected[k]);
        assert_eq!(cell.g, 0);
        assert_eq!(cell.b, 0);
    }
    // The accepted sub-state carries the seed and its in-frame count.
    assert_eq!(chains[0].seed, Complex::from_parts(S / 2, S / 2));
    assert_eq!(chains[0].count, 4);
    assert_eq!(chains[0].limit, 50);
}

#[test]
fn batch_fills_a_fresh_histogram() {
    let cfg = small_config(false);
    let mut chains = default_chains(&cfg);
    let mut rng = DrawStream::Live;
    let buf = run_batch(&cfg, &mut chains, &mut rng);
    assert_eq!(buf.width, 16);
    assert_eq!(buf.height, 16);
    assert_eq!(buf.buffer.len(), 256);
}

#[test]
fn scripted_batches_are_bit_identical() {
    // With Metropolis sampling off and the same scripted draws, two runs
    // from the same state produce the same histogram and the same chains.
    let cfg = small_config(false);
    let mut draws: Vec<u64> = Vec::new();
    let mut x: u64 = 0x0123_4567_89ab_cdef;
    for _ in 0..512 {
        x = x.wrapping_mul(6364136223846793005).wrapping_add(1442695040888963407);
        draws.push(x);
    }
    let mut chains1 = default_chains(&cfg);
    let mut rng1 = fixed(draws.clone());
    let buf1 = run_batch(&cfg, &mut chains1, &mut rng1);

    let mut chains2 = default_chains(&cfg);
    let mut rng2 = fixed(draws);
    let buf2 = run_batch(&cfg, &mut chains2, &mut rng2);

    assert_eq!(buf1.buffer, buf2.buffer);
    assert_eq!(chains1, chains2);
}

#[test]
fn scripted_metropolis_batches_are_bit_identical() {
    let cfg = small_config(true);
    let mut draws: Vec<u64> = Vec::new();
    let mut x: u64 = 42;
    for _ in 0..512 {
        x = x.wrapping_mul(6364136223846793005).wrapping_add(1442695040888963407);
        draws.push(x);
    }
    let mut chains1 = default_chains(&cfg);
    let mut rng1 = fixed(draws.clone());
    let buf1 = run_batch(&cfg, &mut chains1, &mut rng1);

    let mut chains2 = default_chains(&cfg);
    let mut rng2 = fixed(draws);
    let buf2 = run_batch(&cfg, &mut chains2, &mut rng2);

    assert_eq!(buf1.buffer, buf2.buffer);
    assert_eq!(chains1, chains2);
}

#[test]
fn config_rejects_bad_fields() {
    let bad_zoom = Config::validated(
        true,
        vec![50, 50, 50],
        16,
        16,
        16,
        16,
        1,
        1,
        1,
        None,
        Complex::zero(),
        0,
        None,
        false,
    );
    assert!(bad_zoom.is_none());
    let bad_limits = Config::validated(
        true,
        vec![50, 50],
        16,
        16,
        16,
        16,
        1,
        1,
        1,
        None,
        Complex::zero(),
        S,
        None,
        false,
    );
    assert!(bad_limits.is_none());
    let window_too_big = Config::validated(
        true,
        vec![50, 50, 50],
        16,
        16,
        32,
        16,
        1,
        1,
        1,
        None,
        Complex::zero(),
        S,
        None,
        false,
    );
    assert!(window_too_big.is_none());
}

#[test]
fn config_defaults() {
    let cfg = Config::default_params();
    assert!(cfg.use_metropolis);
    assert_eq!(cfg.limits, vec![50000, 5000, 500]);
    assert_eq!((cfg.width, cfg.height), (512, 512));
    assert_eq!((cfg.window_width, cfg.window_height), (512, 512));
    assert_eq!(cfg.batch_steps, 5000);
    assert!(cfg.n_threads >= 1);
    assert_eq!(cfg.warmup_count, 10);
    assert!(cfg.max_batches.is_none());
    assert_eq!(cfg.origin, Complex::from_parts(-6710886, 0));
    assert_eq!(cfg.zoom, 5872025);
    assert!(cfg.fname.is_none());
    assert!(!cfg.save_raw);
}
