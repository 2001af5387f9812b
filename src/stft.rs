//! Analysis parameters of the short-time Fourier transform: the apodization
//! window type and the validated window and step sizes.
use vstd::arithmetic::div_mod::lemma_fundamental_div_mod;
use vstd::prelude::*;

verus! {

/// What lowercasing a string gives, character by character as Unicode
/// defines it.
pub uninterp spec fn lower_of(s: Seq<char>) -> Seq<char>;

/// Relies on `str::to_lowercase`: the result depends on the characters of
/// `s` alone.
#[verifier::external_body]
fn lowercase(s: &str) -> (r: String)
    ensures
        r@ == lower_of(s@),
{
    s.to_lowercase()
}

/// The type of apodization window applied to each analysis window.
#[derive(Clone, Copy, PartialEq, Eq, PartialOrd, Ord, Debug, Hash, Structural)]
pub enum WindowType {
    Hanning,
    Hamming,
    Blackman,
    Nuttall,
    /// No apodization: the samples are analysed as they are.
    Rectangular,
}

/// Why a set of analysis parameters, or a window-type name, was refused.
#[derive(Clone, Copy, PartialEq, Eq, Debug, Structural)]
pub enum ConfigError {
    /// The name matches no window type.
    UnknownWindowType,
    /// A step of zero samples would never advance the window.
    ZeroStepSize,
    /// Consecutive windows would leave samples out.
    StepExceedsWindow,
}

/// The window type that a lowercase name stands for.
pub open spec fn window_type_named(name: Seq<char>) -> Option<WindowType> {
    if name == "hanning"@ || name == "hann"@ {
        Some(WindowType::Hanning)
    } else if name == "hamming"@ {
        Some(WindowType::Hamming)
    } else if name == "blackman"@ {
        Some(WindowType::Blackman)
    } else if name == "nuttall"@ {
        Some(WindowType::Nuttall)
    } else if name == "none"@ {
        Some(WindowType::Rectangular)
    } else {
        None
    }
}

/// The result of parsing a lowercase name.
pub open spec fn parse_lower_spec(name: Seq<char>) -> Result<WindowType, ConfigError> {
    match window_type_named(name) {
        Some(w) => Ok(w),
        None => Err(ConfigError::UnknownWindowType),
    }
}

/// The name under which a window type is displayed.
pub open spec fn display_name(w: WindowType) -> Seq<char> {
    match w {
        WindowType::Hanning => "Hanning"@,
        WindowType::Hamming => "Hamming"@,
        WindowType::Blackman => "Blackman"@,
        WindowType::Nuttall => "Nuttall"@,
        WindowType::Rectangular => "None"@,
    }
}

impl WindowType {
    /// Every window type, in declaration order.
    pub fn values() -> (r: [WindowType; 5])
        ensures
            r@ == seq![
                WindowType::Hanning,
                WindowType::Hamming,
                WindowType::Blackman,
                WindowType::Nuttall,
                WindowType::Rectangular,
            ],
    {
        let r = [
            WindowType::Hanning,
            WindowType::Hamming,
            WindowType::Blackman,
            WindowType::Nuttall,
            WindowType::Rectangular,
        ];
        assert(r@ =~= seq![
            WindowType::Hanning,
            WindowType::Hamming,
            WindowType::Blackman,
            WindowType::Nuttall,
            WindowType::Rectangular,
        ]);
        r
    }

    /// The window type named by `name`, which is already in lower case.
    pub fn from_lowercase_name(name: &str) -> (r: Result<WindowType, ConfigError>)
        ensures
            r == parse_lower_spec(name@),
    {
        let name = name.to_owned();
        if name == "hanning".to_owned() || name == "hann".to_owned() {
            Ok(WindowType::Hanning)
        } else if name == "hamming".to_owned() {
            Ok(WindowType::Hamming)
        } else if name == "blackman".to_owned() {
            Ok(WindowType::Blackman)
        } else if name == "nuttall".to_owned() {
            Ok(WindowType::Nuttall)
        } else if name == "none".to_owned() {
            Ok(WindowType::Rectangular)
        } else {
            Err(ConfigError::UnknownWindowType)
        }
    }

    /// Parses a window-type name, ignoring case; `"hann"` is accepted for
    /// the Hanning window.
    pub fn parse(s: &str) -> (r: Result<WindowType, ConfigError>)
        ensures
            r == parse_lower_spec(lower_of(s@)),
    {
        let lower = lowercase(s);
        WindowType::from_lowercase_name(lower.as_str())
    }

    /// The name of the window type, as it is displayed.
    pub fn name(&self) -> (r: String)
        ensures
            r@ == display_name(*self),
    {
        match self {
            WindowType::Hanning => "Hanning".to_owned(),
            WindowType::Hamming => "Hamming".to_owned(),
            WindowType::Blackman => "Blackman".to_owned(),
            WindowType::Nuttall => "Nuttall".to_owned(),
            WindowType::Rectangular => "None".to_owned(),
        }
    }
}

impl std::str::FromStr for WindowType {
    type Err = ConfigError;

    fn from_str(s: &str) -> Result<WindowType, ConfigError> {
        WindowType::parse(s)
    }
}

/// Validated analysis parameters: `1 <= step_size <= window_size`.
#[derive(Clone, Copy, Debug, PartialEq, Eq, Structural)]
pub struct STFT {
    pub window_type: WindowType,
    pub window_size: usize,
    pub step_size: usize,
}

/// Whether a window size and a step size can drive an analysis.
pub open spec fn valid_sizes(window_size: int, step_size: int) -> bool {
    1 <= step_size <= window_size
}

impl STFT {
    pub open spec fn wf(&self) -> bool {
        valid_sizes(self.window_size as int, self.step_size as int)
    }

    /// Checks the parameters; a zero step, or a step longer than the window,
    /// is refused.
    pub fn new(window_type: WindowType, window_size: usize, step_size: usize) -> (r: Result<
        STFT,
        ConfigError,
    >)
        ensures
            step_size == 0 ==> r == Err::<STFT, ConfigError>(ConfigError::ZeroStepSize),
            step_size > window_size && step_size != 0 ==> r == Err::<STFT, ConfigError>(
                ConfigError::StepExceedsWindow,
            ),
            valid_sizes(window_size as int, step_size as int) ==> (r matches Ok(s) && s.wf()
                && s.window_type == window_type && s.window_size == window_size && s.step_size
                == step_size),
    {
        if step_size == 0 {
            Err(ConfigError::ZeroStepSize)
        } else if step_size > window_size {
            Err(ConfigError::StepExceedsWindow)
        } else {
            Ok(STFT { window_type, window_size, step_size })
        }
    }

    /// The number of magnitude bins in one column: the non-redundant half of
    /// a real-input transform.
    pub fn output_size(&self) -> (r: usize)
        ensures
            r == self.window_size / 2,
    {
        self.window_size / 2
    }
}

/// The number of windows of `window_size` samples, each `step_size` after the
/// one before, that fit in `n` samples.
pub open spec fn window_count(n: int, window_size: int, step_size: int) -> int {
    if n < window_size {
        0
    } else {
        (n - window_size) / step_size + 1
    }
}

/// The `k`-th analysis window of `samples`: `window_size` samples from
/// position `k * step_size` on.
pub open spec fn window_at(samples: Seq<u32>, k: int, window_size: int, step_size: int) -> Seq<
    u32,
> {
    samples.subrange(k * step_size, k * step_size + window_size)
}

/// Every window counted by `window_count` lies inside the samples, the next
/// one would not, and the samples after the last step are fewer than a
/// window.
pub proof fn lemma_window_bounds(n: int, window_size: int, step_size: int, k: int)
    requires
        valid_sizes(window_size, step_size),
        0 <= n,
    ensures
        0 <= k < window_count(n, window_size, step_size) ==> k * step_size + window_size <= n,
        window_count(n, window_size, step_size) * step_size <= n,
        n - window_count(n, window_size, step_size) * step_size < window_size,
        0 <= window_count(n, window_size, step_size),
{
    if n >= window_size {
        let q = (n - window_size) / step_size;
        lemma_fundamental_div_mod(n - window_size, step_size);
        assert(0 <= (n - window_size) % step_size < step_size);
        assert(q >= 0) by {
            assert(step_size * q >= 0 - step_size + 1);
            if q < 0 {
                assert(step_size * q <= 0 - step_size) by (nonlinear_arith)
                    requires
                        q <= -1,
                        step_size >= 1,
                ;
            }
        }
        if 0 <= k < window_count(n, window_size, step_size) {
            assert(k * step_size <= q * step_size) by (nonlinear_arith)
                requires
                    k <= q,
                    step_size >= 1,
            ;
        }
        assert((q + 1) * step_size == q * step_size + step_size) by (nonlinear_arith);
    }
}

/// Adjacent windows share `window_size - step_size` samples: the tail of one
/// is the head of the next.
pub proof fn lemma_adjacent_windows_overlap(
    samples: Seq<u32>,
    k: int,
    window_size: int,
    step_size: int,
)
    requires
        valid_sizes(window_size, step_size),
        0 <= k,
        (k + 1) * step_size + window_size <= samples.len(),
    ensures
        window_at(samples, k + 1, window_size, step_size).take(window_size - step_size)
            == window_at(samples, k, window_size, step_size).skip(step_size),
{
    assert((k + 1) * step_size == k * step_size + step_size) by (nonlinear_arith);
    assert(k * step_size >= 0) by (nonlinear_arith)
        requires
            k >= 0,
            step_size >= 1,
    ;
    assert(window_at(samples, k + 1, window_size, step_size).take(window_size - step_size)
        =~= window_at(samples, k, window_size, step_size).skip(step_size));
}

/// The windows of a finite signal, `step_size` apart, each a copy of
/// `window_size` consecutive samples; the samples after the last full window
/// are left out.
pub fn signal_windows(signal: &[u32], window_size: usize, step_size: usize) -> (r: Vec<Vec<u32>>)
    requires
        valid_sizes(window_size as int, step_size as int),
    ensures
        r@.len() == window_count(signal@.len() as int, window_size as int, step_size as int),
        forall|k: int|
            0 <= k < r@.len() ==> #[trigger] r@[k]@ == window_at(
                signal@,
                k,
                window_size as int,
                step_size as int,
            ),
{
    let len: usize = signal.len();
    let ghost n = len as int;
    let ghost w = window_size as int;
    let ghost st = step_size as int;
    let count: usize = if len < window_size {
        0
    } else {
        (len - window_size) / step_size + 1
    };
    let mut r: Vec<Vec<u32>> = Vec::with_capacity(count);
    let mut k: usize = 0;
    while k < count
        invariant
            valid_sizes(w, st),
            w == window_size,
            st == step_size,
            n == signal@.len(),
            n <= usize::MAX,
            count == window_count(n, w, st),
            k <= count,
            r@.len() == k,
            forall|j: int| 0 <= j < k ==> #[trigger] r@[j]@ == window_at(signal@, j, w, st),
        decreases count - k,
    {
        proof {
            lemma_window_bounds(n, w, st, k as int);
        }
        let start = k * step_size;
        let mut window: Vec<u32> = Vec::with_capacity(window_size);
        let mut i: usize = 0;
        while i < window_size
            invariant
                start + window_size <= signal@.len(),
                signal@.len() <= usize::MAX,
                i <= window_size,
                window@ == signal@.subrange(start as int, start + i),
            decreases window_size - i,
        {
            window.push(signal[start + i]);
            i = i + 1;
            assert(window@ =~= signal@.subrange(start as int, start + i));
        }
        r.push(window);
        k = k + 1;
    }
    r
}

} // verus!
