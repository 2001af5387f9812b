use spectrogram_lib::stft::{signal_windows, ConfigError, WindowType, STFT};

#[test]
fn values_lists_every_window_type_in_order() {
    assert_eq!(
        WindowType::values(),
        [
            WindowType::Hanning,
            WindowType::Hamming,
            WindowType::Blackman,
            WindowType::Nuttall,
            WindowType::Rectangular,
        ]
    );
}

#[test]
fn parse_ignores_case() {
    assert_eq!(WindowType::parse("HANNING"), Ok(WindowType::Hanning));
    assert_eq!(WindowType::parse("Hann"), Ok(WindowType::Hanning));
    assert_eq!(WindowType::parse("hamming"), Ok(WindowType::Hamming));
    assert_eq!(WindowType::parse("BlackMan"), Ok(WindowType::Blackman));
    assert_eq!(WindowType::parse("NUTTALL"), Ok(WindowType::Nuttall));
    assert_eq!(WindowType::parse("None"), Ok(WindowType::Rectangular));
}

#[test]
fn parse_rejects_unknown_names() {
    assert_eq!(WindowType::parse("kaiser"), Err(ConfigError::UnknownWindowType));
    assert_eq!(WindowType::parse(""), Err(ConfigError::UnknownWindowType));
    assert_eq!(WindowType::parse("hanning "), Err(ConfigError::UnknownWindowType));
}

#[test]
fn from_lowercase_name_takes_lowercase_only() {
    assert_eq!(WindowType::from_lowercase_name("nuttall"), Ok(WindowType::Nuttall));
    assert_eq!(WindowType::from_lowercase_name("Nuttall"), Err(ConfigError::UnknownWindowType));
}

#[test]
fn from_str_parses_like_parse() {
    let w: Result<WindowType, ConfigError> = "BLACKMAN".parse();
    assert_eq!(w, Ok(WindowType::Blackman));
    let e: Result<WindowType, ConfigError> = "triangle".parse();
    assert_eq!(e, Err(ConfigError::UnknownWindowType));
}

#[test]
fn names_round_trip_through_parse() {
    let names: Vec<String> = WindowType::values().iter().map(|w| w.name()).collect();
    assert_eq!(names, vec!["Hanning", "Hamming", "Blackman", "Nuttall", "None"]);
    for w in WindowType::values() {
        assert_eq!(WindowType::parse(&w.name()), Ok(w));
    }
}

#[test]
fn stft_rejects_zero_step() {
    assert_eq!(STFT::new(WindowType::Hanning, 1024, 0).err(), Some(ConfigError::ZeroStepSize));
    assert_eq!(STFT::new(WindowType::Hanning, 0, 0).err(), Some(ConfigError::ZeroStepSize));
}

#[test]
fn stft_rejects_step_longer_than_window() {
    assert_eq!(
        STFT::new(WindowType::Hamming, 512, 513).err(),
        Some(ConfigError::StepExceedsWindow)
    );
}

#[test]
fn stft_accepts_valid_sizes() {
    let s = STFT::new(WindowType::Blackman, 1024, 1024).unwrap();
    assert_eq!(s.window_type, WindowType::Blackman);
    assert_eq!(s.window_size, 1024);
    assert_eq!(s.step_size, 1024);
    let t = STFT::new(WindowType::Rectangular, 512, 1).unwrap();
    assert_eq!(t.step_size, 1);
}

#[test]
fn output_size_is_half_the_window() {
    assert_eq!(STFT::new(WindowType::Hanning, 1024, 512).unwrap().output_size(), 512);
    assert_eq!(STFT::new(WindowType::Hanning, 513, 512).unwrap().output_size(), 256);
    assert_eq!(STFT::new(WindowType::Hanning, 1, 1).unwrap().output_size(), 0);
}

#[test]
fn signal_windows_drops_the_incomplete_tail() {
    let signal: Vec<u32> = (0..10).collect();
    let w = signal_windows(&signal, 4, 3);
    assert_eq!(w, vec![vec![0, 1, 2, 3], vec![3, 4, 5, 6], vec![6, 7, 8, 9]]);
    let v = signal_windows(&signal, 4, 4);
    assert_eq!(v, vec![vec![0, 1, 2, 3], vec![4, 5, 6, 7]]);
}

#[test]
fn signal_windows_of_a_short_signal_is_empty() {
    let signal: Vec<u32> = vec![1, 2, 3];
    assert!(signal_windows(&signal, 4, 2).is_empty());
    assert!(signal_windows(&[], 1, 1).is_empty());
}
