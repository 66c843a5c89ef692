use delay_effects::comb_filter::{CombFilter, Error, FilterParam, FilterType};
use rand::{Rng, SeedableRng};
use std::f32::consts::PI;

// "Close enough" value for floating point assertions.
const EPSILON: f32 = 1e-5;

// A filter whose delay lines hold `max_delay_secs` at `sample_rate_hz`.
fn new_filter(
    filter_type: FilterType,
    max_delay_secs: f32,
    sample_rate_hz: f32,
    num_channels: usize,
) -> CombFilter<f32> {
    let max_delay = (max_delay_secs * sample_rate_hz).ceil() as usize;
    CombFilter::new(filter_type, max_delay, num_channels)
}

// Sets the delay in seconds, rounded to whole samples.
fn set_delay(filter: &mut CombFilter<f32>, delay_secs: f32, sample_rate_hz: f32) -> Result<(), Error> {
    filter.set_delay((delay_secs * sample_rate_hz).round() as i64)
}

#[test]
fn test_fir_interference() {
    // Feed in sine wave with period = delay * 2; should cancel with itself.
    let sample_rate = 44100.0;
    let delay = 0.1;
    let freq = 1.0 / (delay * 2.0);

    let mut filter = new_filter(FilterType::FIR, delay, sample_rate, 1);
    set_delay(&mut filter, delay, sample_rate).unwrap();
    filter.set_gain(1.0);

    for i in 0..(delay * sample_rate * 10.0).ceil() as usize {
        let inp = [(2.0 * PI * freq * i as f32 / sample_rate).sin()];
        let ins: &[&[f32]] = &[&inp];
        let mut out = [0.0_f32];
        let outs: &mut [&mut [f32]] = &mut [&mut out];
        filter.process(ins, outs);
        if i as f32 >= delay * sample_rate {
            assert!(out[0].abs() < EPSILON);
        }
    }
}

#[test]
fn test_multichannel() {
    // Test multichannel support. Ensure that filter output is correct for each channel.
    let input = [
        [0.0, 1.0, 2.0, 3.0, 4.0, 5.0, 6.0, 7.0, 8.0, 9.0],
        [1.0, 0.0, 1.0, 0.0, 1.0, 0.0, 1.0, 0.0, 1.0, 0.0],
    ];
    let mut output = [[0.0_f32; 10]; 2];
    let ins: &[&[f32]] = &[&input[0], &input[1]];

    let sample_rate = 10.0;
    let gain = 0.1;
    // Delay of one sample.
    let delay = 1.0 / sample_rate;

    let mut filter = new_filter(FilterType::FIR, delay, sample_rate, 2);
    set_delay(&mut filter, delay, sample_rate).unwrap();
    filter.set_gain(gain);

    {
        let (out0, out1) = output.split_at_mut(1);
        let outs: &mut [&mut [f32]] = &mut [&mut out0[0], &mut out1[0]];
        filter.process(ins, outs);
    }
    for i in 0..2 {
        for j in 1..10 {
            let expected = input[i][j] + gain * input[i][j - 1];
            assert!((output[i][j] - expected).abs() < EPSILON);
        }
    }
}

#[test]
fn test_iir_interference() {
    // Feed in sine wave with period = delay; should add up with itself.
    let sample_rate = 44100.0;
    let delay = 0.1;
    let freq = 1.0 / delay;

    let mut filter = new_filter(FilterType::IIR, delay, sample_rate, 1);
    set_delay(&mut filter, delay, sample_rate).unwrap();
    filter.set_gain(1.0);

    for i in 0..(delay * sample_rate * 10.0).ceil() as usize {
        let inp = [(2.0 * PI * freq * i as f32 / sample_rate).sin()];
        let ins: &[&[f32]] = &[&inp];
        let mut out = [0.0_f32];
        let outs: &mut [&mut [f32]] = &mut [&mut out];
        filter.process(ins, outs);
        if i as f32 >= delay * sample_rate {
            // Due to feedback loop, signal should keep constructively interfering with delay, producing larger and larger values.
            // Output should be delay_cycle * input, where delay_cycle is how many times we've gone around delay (starting from 1).
            let delay_cycle = i / ((delay * sample_rate) as usize) + 1;
            assert!((out[0] / (delay_cycle as f32) - inp[0]).abs() < EPSILON);
        }
    }
}

#[test]
fn test_block_size() {
    // For simplicity, the other tests process one sample at a time.
    // In contrast, this test specifically checks for handling of variable block sizes.
    let sample_rate = 12345.0;
    let delay = 0.1;

    for filter_type in [FilterType::FIR, FilterType::IIR] {
        const LENGTH: usize = 8192;
        let mut input = [0.0; LENGTH];
        let mut output_a = [0.0; LENGTH];
        let mut output_b = [0.0; LENGTH];

        // Generate random input signal.
        let mut rng = rand::rngs::StdRng::seed_from_u64(1234);
        for x in input.iter_mut() {
            *x = rng.gen();
        }

        // First, compute the output in one go.
        let mut filter = new_filter(filter_type, delay, sample_rate, 1);
        set_delay(&mut filter, delay, sample_rate).unwrap();
        {
            let ins: &[&[f32]] = &[&input];
            let outs: &mut [&mut [f32]] = &mut [&mut output_a];
            filter.process(ins, outs);
        }

        // Then, compute the output in many smaller blocks with variable size (from 0-1024).
        filter.reset();
        set_delay(&mut filter, delay, sample_rate).unwrap();
        let mut i = 0;
        while i < LENGTH {
            let block_size = rng.gen_range(0..=std::cmp::min(LENGTH - i, 1024));
            let ins: &[&[f32]] = &[&input[i..i + block_size]];
            let outs: &mut [&mut [f32]] = &mut [&mut output_b[i..i + block_size]];
            filter.process(ins, outs);
            i += block_size;
        }

        // Ensure outputs are identical.
        for (&a, b) in output_a.iter().zip(output_b) {
            assert_eq!(a, b);
        }
    }
}

#[test]
fn test_silence() {
    // Test that output is silent for silent input (signal of zeros).
    // NOTE: Choice of delay, gain, sample rate should be irrelevant for this test.
    let sample_rate = 12345.0;
    let delay = 0.1;

    for filter_type in [FilterType::FIR, FilterType::IIR] {
        let mut filter = new_filter(filter_type, delay, sample_rate, 1);
        for _ in 0..(delay * sample_rate * 10.0).ceil() as usize {
            let inp = [0.0];
            let ins: &[&[f32]] = &[&inp];
            let mut out = [0.0_f32];
            let outs: &mut [&mut [f32]] = &mut [&mut out];
            filter.process(ins, outs);
            assert_eq!(out[0], 0.0);
        }
    }
}

#[test]
fn test_no_delay() {
    // Test behavior when delay is set to zero.
    let sample_rate = 12345.0;
    let max_delay = 0.1;

    // For FIR filter, output should be merely scaled when delay is zero.
    let mut filter = new_filter(FilterType::FIR, max_delay, sample_rate, 1);
    // Set delay to 0.
    set_delay(&mut filter, 0.0, sample_rate).unwrap();
    let expected_gain = 1.0 + filter.gain();

    let mut rng = rand::rngs::StdRng::seed_from_u64(1234);
    for _ in 0..(max_delay * sample_rate * 10.0).ceil() as usize {
        let inp = [rng.gen()];
        let ins: &[&[f32]] = &[&inp];
        let mut out = [0.0_f32];
        let outs: &mut [&mut [f32]] = &mut [&mut out];
        filter.process(ins, outs);
        // Since delay is 0, we expect `out = in + gain * in`.
        assert!((out[0] / expected_gain - inp[0]).abs() < EPSILON);
    }

    // For IIR filter, a delay of zero is invalid, as it would create a zero-delay feedback loop.
    // Check for the expected error.
    let mut filter = new_filter(FilterType::IIR, max_delay, sample_rate, 1);
    let result = set_delay(&mut filter, 0.0, sample_rate);
    let matches = if let Err(Error::InvalidValue { param: FilterParam::Delay, value }) = result {
        value == 0
    } else {
        false
    };
    assert!(matches);
}

fn run(filter: &mut CombFilter<f32>, input: &[f32]) -> Vec<f32> {
    let mut output = vec![0.0_f32; input.len()];
    {
        let ins: &[&[f32]] = &[input];
        let outs: &mut [&mut [f32]] = &mut [&mut output];
        filter.process(ins, outs);
    }
    output
}

#[test]
fn new_filter_has_half_gain_and_the_longest_delay() {
    for filter_type in [FilterType::FIR, FilterType::IIR] {
        let filter = CombFilter::<f32>::new(filter_type, 7, 2);
        assert_eq!(filter.gain(), 0.5);
        assert_eq!(filter.delay(), 7);
    }
}

#[test]
fn fir_mixes_in_the_delayed_input() {
    let mut filter = CombFilter::<f32>::new(FilterType::FIR, 4, 1);
    filter.set_delay(2).unwrap();
    assert_eq!(run(&mut filter, &[1.0, 2.0, 3.0, 4.0]), vec![1.0, 2.0, 3.5, 5.0]);
    // The delay line carries over to the next block.
    assert_eq!(run(&mut filter, &[0.0, 0.0, 0.0]), vec![1.5, 2.0, 0.0]);
}

#[test]
fn iir_mixes_in_the_delayed_output() {
    let mut filter = CombFilter::<f32>::new(FilterType::IIR, 4, 1);
    filter.set_delay(1).unwrap();
    assert_eq!(run(&mut filter, &[1.0, 0.0, 0.0, 0.0]), vec![1.0, 0.5, 0.25, 0.125]);

    let mut filter = CombFilter::<f32>::new(FilterType::IIR, 4, 1);
    filter.set_delay(2).unwrap();
    filter.set_gain(-1.0);
    assert_eq!(
        run(&mut filter, &[1.0, 2.0, 0.0, 0.0, 0.0, 0.0]),
        vec![1.0, 2.0, -1.0, -2.0, 1.0, 2.0]
    );
}

#[test]
fn fir_without_delay_scales_the_input() {
    let mut filter = CombFilter::<f32>::new(FilterType::FIR, 4, 1);
    filter.set_delay(0).unwrap();
    filter.set_gain(0.25);
    assert_eq!(run(&mut filter, &[4.0, -8.0, 0.5]), vec![5.0, -10.0, 0.625]);
}

#[test]
fn feedback_over_a_single_slot_delays_by_one() {
    // With no room for a delay the cursors coincide, and the feedback loop
    // reads what it wrote one sample ago.
    let mut filter = CombFilter::<f32>::new(FilterType::IIR, 0, 1);
    assert_eq!(filter.delay(), 0);
    assert_eq!(run(&mut filter, &[1.0, 0.0, 0.0]), vec![1.0, 0.5, 0.25]);
    assert!(filter.set_delay(0).is_err());
    assert!(filter.set_delay(1).is_err());
}

#[test]
fn set_delay_refuses_what_does_not_fit() {
    let mut filter = CombFilter::<f32>::new(FilterType::FIR, 4, 1);
    filter.set_delay(3).unwrap();
    for value in [-1, 5, i64::MAX, i64::MIN] {
        let result = filter.set_delay(value);
        assert_eq!(result, Err(Error::InvalidValue { param: FilterParam::Delay, value }));
        // A refused delay changes nothing.
        assert_eq!(filter.delay(), 3);
    }
    assert_eq!(filter.set_delay(4), Ok(()));
    assert_eq!(filter.delay(), 4);
    assert_eq!(filter.set_delay(0), Ok(()));
    assert_eq!(filter.delay(), 0);

    let mut filter = CombFilter::<f32>::new(FilterType::IIR, 4, 1);
    assert_eq!(
        filter.set_delay(0),
        Err(Error::InvalidValue { param: FilterParam::Delay, value: 0 })
    );
    assert_eq!(filter.delay(), 4);
    assert_eq!(filter.set_delay(1), Ok(()));
    assert_eq!(filter.delay(), 1);
}

#[test]
fn set_gain_takes_any_value() {
    let mut filter = CombFilter::<f32>::new(FilterType::FIR, 4, 1);
    for gain in [0.0, -3.5, 1e30, f32::INFINITY] {
        filter.set_gain(gain);
        assert_eq!(filter.gain(), gain);
    }
    filter.set_gain(f32::NAN);
    assert!(filter.gain().is_nan());
}

#[test]
fn delay_survives_processing() {
    let mut filter = CombFilter::<f32>::new(FilterType::FIR, 5, 1);
    filter.set_delay(3).unwrap();
    for len in [1, 4, 0, 13] {
        run(&mut filter, &vec![1.0; len]);
        assert_eq!(filter.delay(), 3);
    }
}

#[test]
fn delay_can_change_between_blocks() {
    let mut filter = CombFilter::<f32>::new(FilterType::FIR, 4, 1);
    filter.set_gain(1.0);
    filter.set_delay(1).unwrap();
    assert_eq!(run(&mut filter, &[1.0, 2.0, 3.0]), vec![1.0, 3.0, 5.0]);
    // The history is kept: two samples back from the next input is 2.
    filter.set_delay(2).unwrap();
    assert_eq!(run(&mut filter, &[10.0, 20.0]), vec![12.0, 23.0]);
}

#[test]
fn reset_clears_the_history_and_keeps_the_parameters() {
    for filter_type in [FilterType::FIR, FilterType::IIR] {
        let mut filter = CombFilter::<f32>::new(filter_type, 4, 1);
        filter.set_delay(2).unwrap();
        filter.set_gain(0.75);
        let first = run(&mut filter, &[1.0, 2.0, 3.0, 4.0, 5.0]);
        filter.reset();
        assert_eq!(filter.delay(), 2);
        assert_eq!(filter.gain(), 0.75);
        assert_eq!(run(&mut filter, &[1.0, 2.0, 3.0, 4.0, 5.0]), first);
    }
}

#[test]
fn empty_block_changes_nothing() {
    let mut filter = CombFilter::<f32>::new(FilterType::IIR, 3, 1);
    filter.set_delay(2).unwrap();
    let mut other = CombFilter::<f32>::new(FilterType::IIR, 3, 1);
    other.set_delay(2).unwrap();
    assert_eq!(run(&mut filter, &[1.0, 2.0]), run(&mut other, &[1.0, 2.0]));
    assert_eq!(run(&mut filter, &[]), Vec::<f32>::new());
    assert_eq!(run(&mut filter, &[3.0, 4.0, 5.0]), run(&mut other, &[3.0, 4.0, 5.0]));
}

#[test]
fn filter_without_channels_processes_nothing() {
    let mut filter = CombFilter::<f32>::new(FilterType::FIR, 3, 0);
    let ins: &[&[f32]] = &[];
    let outs: &mut [&mut [f32]] = &mut [];
    filter.process(ins, outs);
    filter.reset();
    assert_eq!(filter.gain(), 0.5);
}

#[test]
fn channels_keep_their_own_history() {
    let mut filter = CombFilter::<f32>::new(FilterType::IIR, 2, 2);
    filter.set_delay(1).unwrap();
    filter.set_gain(2.0);
    let left = [1.0, 0.0, 0.0];
    let right = [0.0, 3.0, 0.0];
    let mut out_left = [0.0_f32; 3];
    let mut out_right = [0.0_f32; 3];
    {
        let ins: &[&[f32]] = &[&left, &right];
        let outs: &mut [&mut [f32]] = &mut [&mut out_left, &mut out_right];
        filter.process(ins, outs);
    }
    assert_eq!(out_left, [1.0, 2.0, 4.0]);
    assert_eq!(out_right, [0.0, 3.0, 6.0]);
}
