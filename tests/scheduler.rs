use spectrogram_lib::stft::{WindowType, STFT};
use spectrogram_lib::stft_handler::StftHandler;
use spectrogram_lib::transport::SampleTransport;

fn loaded(capacity: usize, samples: &[u32]) -> SampleTransport {
    let mut t = SampleTransport::new(capacity);
    assert_eq!(t.write(samples), samples.len());
    t
}

fn handler(t: SampleTransport, window: usize, step: usize) -> StftHandler<SampleTransport> {
    StftHandler::new(t, STFT::new(WindowType::Hanning, window, step).unwrap())
}

fn ramp_bits(n: usize) -> Vec<u32> {
    (0..n).map(|i| (i as f32).to_bits()).collect()
}

#[test]
fn preloaded_transport_gives_four_windows() {
    let (w, s) = (8usize, 3usize);
    let samples: Vec<u32> = (0..(w + 3 * s) as u32).collect();
    let mut h = handler(loaded(64, &samples), w, s);
    let windows = h.run();
    assert_eq!(windows.len(), 4);
    for (k, win) in windows.iter().enumerate() {
        assert_eq!(win.as_slice(), &samples[k * s..k * s + w]);
    }
    assert_eq!(windows[3].as_slice(), &samples[3 * s..3 * s + w]);
    assert!(h.run().is_empty());
}

#[test]
fn scheduler_leaves_the_remainder_for_the_next_call() {
    let (w, s) = (8usize, 2usize);
    let samples: Vec<u32> = (0..(w + 3 * s) as u32).collect();
    let mut h = handler(loaded(32, &samples), w, s);
    assert_eq!(h.run().len(), 4);
    assert_eq!(h.source().available_len(), w - s);
    let (older, newer) = h.source().peek_contiguous();
    let mut rest = older.to_vec();
    rest.extend_from_slice(newer);
    assert_eq!(rest.as_slice(), &samples[4 * s..]);
    assert!(h.run().is_empty());
}

#[test]
fn no_overlap_ramp_gives_two_disjoint_windows() {
    let samples = ramp_bits(2048);
    let mut h = handler(loaded(4096, &samples), 1024, 1024);
    let windows = h.run();
    assert_eq!(windows.len(), 2);
    assert_eq!(windows[0].as_slice(), &samples[0..1024]);
    assert_eq!(windows[1].as_slice(), &samples[1024..2048]);
    assert_eq!(f32::from_bits(windows[1][0]), 1024.0);
    assert_eq!(f32::from_bits(windows[1][1023]), 2047.0);
}

#[test]
fn half_overlap_gives_three_windows() {
    let samples = ramp_bits(1024);
    let mut h = handler(loaded(2048, &samples), 512, 256);
    let windows = h.run();
    assert_eq!(windows.len(), 3);
    assert_eq!(windows[0].as_slice(), &samples[0..512]);
    assert_eq!(windows[1].as_slice(), &samples[256..768]);
    assert_eq!(windows[2].as_slice(), &samples[512..1024]);
    assert_eq!(&windows[1][..256], &windows[0][256..]);
    assert_eq!(&windows[1][256..], &windows[2][..256]);
}

#[test]
fn scheduler_waits_for_a_full_window() {
    let samples: Vec<u32> = (0..511).collect();
    let mut h = handler(loaded(1024, &samples), 512, 256);
    assert!(h.run().is_empty());
}

#[test]
fn scheduler_reads_across_the_wrap() {
    let mut t = SampleTransport::new(10);
    t.write(&[0; 7]);
    t.advance_read(7);
    let samples: Vec<u32> = (1..=9).collect();
    assert_eq!(t.write(&samples), 9);
    let mut h = handler(t, 6, 3);
    let windows = h.run();
    assert_eq!(windows, vec![vec![1, 2, 3, 4, 5, 6], vec![4, 5, 6, 7, 8, 9]]);
}

#[test]
fn scheduler_on_a_split_reader() {
    let t = SampleTransport::new(16);
    let (mut writer, reader) = t.split();
    assert_eq!(writer.write(&[1, 2, 3, 4, 5]), 5);
    let mut h = StftHandler::new(reader, STFT::new(WindowType::Nuttall, 4, 2).unwrap());
    assert_eq!(h.run(), vec![vec![1, 2, 3, 4]]);
    assert_eq!(writer.write(&[6, 7]), 2);
    assert_eq!(h.run(), vec![vec![3, 4, 5, 6]]);
}

#[test]
fn take_windows_uses_only_the_given_count() {
    let samples: Vec<u32> = (0..12).collect();
    let mut h = handler(loaded(16, &samples), 4, 4);
    assert_eq!(h.take_windows(8), vec![vec![0, 1, 2, 3], vec![4, 5, 6, 7]]);
    assert_eq!(h.take_windows(4), vec![vec![8, 9, 10, 11]]);
    assert_eq!(h.source().available_len(), 0);
    assert_eq!(h.stft().step_size, 4);
    assert_eq!(h.stft().window_size, 4);
}
