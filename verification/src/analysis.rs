//! The integer side of audio authenticity analysis: verdict names, the
//! bit-usage fold behind the padded-depth check, where the decode windows
//! sit, and the threshold rules that turn measurements into a verdict.
//! The spectrum itself (floating point) is measured outside the library and
//! arrives here as a cutoff frequency and whether its cliff is steep.
use vstd::prelude::*;
use vstd::std_specs::bits::u32_trailing_zeros;

verus! {

/// The outcome of analysing one track.
#[derive(Debug, Clone, Copy, PartialEq, Eq, Structural)]
pub enum Verdict {
    Clean,
    Upsampled,
    Transcode,
    PaddedBits,
    Unreadable,
    Skipped,
}

impl Verdict {
    /// The name stored in the database for this verdict.
    pub open spec fn label(self) -> Seq<char> {
        match self {
            Verdict::Clean => seq!['c', 'l', 'e', 'a', 'n'],
            Verdict::Upsampled => seq!['u', 'p', 's', 'a', 'm', 'p', 'l', 'e', 'd'],
            Verdict::Transcode => seq!['t', 'r', 'a', 'n', 's', 'c', 'o', 'd', 'e'],
            Verdict::PaddedBits => seq!['p', 'a', 'd', 'd', 'e', 'd', '_', 'b', 'i', 't', 's'],
            Verdict::Unreadable => seq!['u', 'n', 'r', 'e', 'a', 'd', 'a', 'b', 'l', 'e'],
            Verdict::Skipped => seq!['s', 'k', 'i', 'p', 'p', 'e', 'd'],
        }
    }

    /// The verdicts that belong in the doctor's suspicious list.
    pub open spec fn flagged(self) -> bool {
        self is Upsampled || self is Transcode || self is PaddedBits
    }

    pub fn as_str(self) -> (s: &'static str)
        ensures
            s@ == self.label(),
    {
        match self {
            Verdict::Clean => {
                proof {
                    reveal_strlit("clean");
                }
                "clean"
            },
            Verdict::Upsampled => {
                proof {
                    reveal_strlit("upsampled");
                }
                "upsampled"
            },
            Verdict::Transcode => {
                proof {
                    reveal_strlit("transcode");
                }
                "transcode"
            },
            Verdict::PaddedBits => {
                proof {
                    reveal_strlit("padded_bits");
                }
                "padded_bits"
            },
            Verdict::Unreadable => {
                proof {
                    reveal_strlit("unreadable");
                }
                "unreadable"
            },
            Verdict::Skipped => {
                proof {
                    reveal_strlit("skipped");
                }
                "skipped"
            },
        }
    }

    /// Verdicts that belong in the doctor's suspicious list.
    pub fn is_flagged(self) -> (b: bool)
        ensures
            b == self.flagged(),
    {
        match self {
            Verdict::Upsampled | Verdict::Transcode | Verdict::PaddedBits => true,
            _ => false,
        }
    }
}

/// Distinct verdicts are stored under distinct names, so a stored name
/// reads back as the verdict that wrote it.
pub proof fn law_verdict_labels_distinct(a: Verdict, b: Verdict)
    ensures
        a.label() == b.label() ==> a == b,
{
    if a.label() == b.label() {
        assert(a.label().len() == b.label().len());
        assert(a.label()[0] == b.label()[0]);
        assert(a.label()[2] == b.label()[2]);
    }
}

// ---------------------------------------------------------------- bit usage

/// Fewer nonzero samples than this are not enough to trust a
/// trailing-zero fold.
pub const MIN_EFFECTIVE_SAMPLES: u64 = 100_000;

/// Bit-usage statistics folded over left-aligned 32-bit samples.
#[derive(Debug, Clone, Copy, PartialEq, Eq, Structural)]
pub struct IntSampleStats {
    pub min_trailing_zeros: u32,
    pub nonzero_samples: u64,
}

/// `32 − min(trailing zeros, 31)`, or nothing when too few samples were
/// nonzero to trust the fold.
pub open spec fn effective_bits_of(min_trailing_zeros: u32, nonzero_samples: u64) -> Option<u8> {
    if nonzero_samples < MIN_EFFECTIVE_SAMPLES {
        None
    } else if min_trailing_zeros >= 31 {
        Some(1u8)
    } else {
        Some((32 - min_trailing_zeros) as u8)
    }
}

/// The number of significant bits the samples actually use.
pub fn effective_bits(stats: &IntSampleStats) -> (r: Option<u8>)
    ensures
        r == effective_bits_of(stats.min_trailing_zeros, stats.nonzero_samples),
{
    if stats.nonzero_samples < MIN_EFFECTIVE_SAMPLES {
        return None;
    }
    let tz = if stats.min_trailing_zeros < 31 {
        stats.min_trailing_zeros
    } else {
        31
    };
    Some((32 - tz) as u8)
}

/// An effective bit depth, when there is one, lies in 1..=32.
pub proof fn law_effective_bits_range(min_trailing_zeros: u32, nonzero_samples: u64)
    ensures
        effective_bits_of(min_trailing_zeros, nonzero_samples) matches Some(b) ==> 1 <= b <= 32,
        effective_bits_of(min_trailing_zeros, nonzero_samples) is Some <==> nonzero_samples
            >= MIN_EFFECTIVE_SAMPLES,
{
}

/// The fold that decoding runs over every sample it keeps: the fewest
/// trailing zeros of any nonzero left-aligned integer sample, how many
/// samples were nonzero, and whether any sample came as floating point.
pub struct SampleBits {
    pub min_tz: u32,
    pub nonzero: u64,
    pub has_float: bool,
}

/// Trailing zeros of a left-aligned sample, read as its 32-bit pattern.
pub open spec fn sample_tz(s: i32) -> u32 {
    u32_trailing_zeros(s as u32)
}

impl SampleBits {
    /// Nothing folded yet.
    pub fn new() -> (b: SampleBits)
        ensures
            b.min_tz == u32::MAX,
            b.nonzero == 0,
            !b.has_float,
    {
        SampleBits { min_tz: u32::MAX, nonzero: 0, has_float: false }
    }

    /// Folds one left-aligned integer sample.
    pub fn add_int_sample(&mut self, s: i32)
        requires
            old(self).nonzero < u64::MAX,
        ensures
            final(self).has_float == old(self).has_float,
            s == 0 ==> final(self).min_tz == old(self).min_tz && final(self).nonzero == old(self).nonzero,
            s != 0 ==> final(self).nonzero == old(self).nonzero + 1,
            s != 0 ==> final(self).min_tz == if sample_tz(s) < old(self).min_tz {
                sample_tz(s)
            } else {
                old(self).min_tz
            },
    {
        if s != 0 {
            let tz = (s as u32).trailing_zeros();
            if tz < self.min_tz {
                self.min_tz = tz;
            }
            self.nonzero = self.nonzero + 1;
        }
    }

    /// Records that a floating-point buffer was seen: trailing zeros then
    /// mean nothing.
    pub fn mark_float(&mut self)
        ensures
            final(self).has_float,
            final(self).min_tz == old(self).min_tz,
            final(self).nonzero == old(self).nonzero,
    {
        self.has_float = true;
    }

    /// The statistics for the padded-depth check; none for float sources.
    pub fn stats(&self) -> (r: Option<IntSampleStats>)
        ensures
            self.has_float ==> r is None,
            !self.has_float ==> r == Some(
                IntSampleStats {
                    min_trailing_zeros: if self.min_tz < 31 {
                        self.min_tz
                    } else {
                        31
                    },
                    nonzero_samples: self.nonzero,
                },
            ),
    {
        if self.has_float {
            None
        } else {
            let tz = if self.min_tz < 31 {
                self.min_tz
            } else {
                31
            };
            Some(IntSampleStats { min_trailing_zeros: tz, nonzero_samples: self.nonzero })
        }
    }
}

/// A track of `k` significant bits, left-aligned, never shows more than
/// `32 − k` trailing zeros in a nonzero sample.
pub proof fn law_sample_tz_bounded(s: i32)
    ensures
        s != 0 ==> sample_tz(s) < 32,
{
    broadcast use vstd::std_specs::bits::axiom_u32_trailing_zeros;
    if s != 0 {
        assert((s as u32) != 0u32) by (bit_vector)
            requires
                s != 0i32,
        ;
    }
}

// ---------------------------------------------------------------- windows

/// Length of one decode window, in seconds.
pub const WINDOW_SECS: u64 = 8;

/// Tracks shorter than this get one window from the start.
pub const SHORT_TRACK_SECS: u64 = 30;

/// Where the decode windows start, in whole seconds: at the start for a
/// short track, else at 10 %, 50 % and 90 % of the duration, rounded down
/// and capped so that a full window fits before the end.
pub open spec fn window_starts_of(duration_ms: u64) -> Seq<u64> {
    let d = duration_ms / 1000;
    let cap = if d >= WINDOW_SECS + 1 {
        d - (WINDOW_SECS + 1)
    } else {
        0
    };
    if d < SHORT_TRACK_SECS {
        seq![0u64]
    } else {
        seq![
            if d / 10 < cap { (d / 10) as u64 } else { cap as u64 },
            if d / 2 < cap { (d / 2) as u64 } else { cap as u64 },
            if d * 9 / 10 < cap { (d * 9 / 10) as u64 } else { cap as u64 },
        ]
    }
}

fn capped(v: u64, cap: u64) -> (r: u64)
    ensures
        r == if v < cap {
            v
        } else {
            cap
        },
{
    if v < cap {
        v
    } else {
        cap
    }
}

/// The decode window start times for a track of `duration_ms`.
pub fn window_starts(duration_ms: u64) -> (r: Vec<u64>)
    ensures
        r@ == window_starts_of(duration_ms),
{
    let d = duration_ms / 1000;
    let cap = if d >= WINDOW_SECS + 1 {
        d - (WINDOW_SECS + 1)
    } else {
        0
    };
    let mut v: Vec<u64> = Vec::new();
    if d < SHORT_TRACK_SECS {
        v.push(0);
    } else {
        v.push(capped(d / 10, cap));
        v.push(capped(d / 2, cap));
        assert(d * 9 <= u64::MAX) by {
            assert(d <= u64::MAX / 1000);
        }
        v.push(capped(d * 9 / 10, cap));
    }
    assert(v@ =~= window_starts_of(duration_ms));
    v
}

/// The lowest sample rate a window is sized for.
pub const MIN_WINDOW_RATE: u32 = 8_000;

/// Samples in one decode window at `sample_rate` (rates below 8 kHz are
/// sized as 8 kHz).
pub open spec fn window_samples(sample_rate: u32) -> int {
    (if sample_rate < MIN_WINDOW_RATE {
        MIN_WINDOW_RATE
    } else {
        sample_rate
    }) * WINDOW_SECS
}

/// The window length in samples, or `None` when it does not fit in a
/// `usize` (an absurd sample rate on a 32-bit target).
pub fn window_len(sample_rate: u32) -> (r: Option<usize>)
    ensures
        match r {
            Some(n) => n == window_samples(sample_rate),
            None => window_samples(sample_rate) > usize::MAX,
        },
{
    let rate: u64 = if sample_rate < MIN_WINDOW_RATE {
        MIN_WINDOW_RATE as u64
    } else {
        sample_rate as u64
    };
    let n: u64 = rate * WINDOW_SECS;
    if n <= usize::MAX as u64 {
        Some(n as usize)
    } else {
        None
    }
}

// ---------------------------------------------------------------- packet loop

/// Packets read between two looks at the cancel flag.
pub const CANCEL_POLL_PACKETS: u32 = 64;

/// Corrupt packets in a row after which a file is given up on.
pub const MAX_CONSECUTIVE_DECODE_ERRORS: u32 = 32;

/// The counters of the loop that decodes packets into a window: packets
/// read since the cancel flag was last looked at, and corrupt packets in a
/// row.
#[derive(Debug, Clone, Copy, PartialEq, Eq, Structural)]
pub struct PacketLoop {
    pub since_poll: u32,
    pub consecutive_errors: u32,
}

impl PacketLoop {
    pub open spec fn wf(&self) -> bool {
        self.since_poll < CANCEL_POLL_PACKETS && self.consecutive_errors < MAX_CONSECUTIVE_DECODE_ERRORS
    }

    /// Both counters at zero, as each window starts.
    pub fn new() -> (l: PacketLoop)
        ensures
            l.since_poll == 0,
            l.consecutive_errors == 0,
            l.wf(),
    {
        PacketLoop { since_poll: 0, consecutive_errors: 0 }
    }

    /// Counts one more packet about to be read; `true` when the cancel flag
    /// is due a look, every 64th packet, after which the count restarts.
    pub fn poll_due(&mut self) -> (due: bool)
        requires
            old(self).wf(),
        ensures
            final(self).wf(),
            due == (old(self).since_poll + 1 >= CANCEL_POLL_PACKETS),
            final(self).since_poll == if due {
                0int
            } else {
                old(self).since_poll + 1
            },
            final(self).consecutive_errors == old(self).consecutive_errors,
    {
        if self.since_poll + 1 >= CANCEL_POLL_PACKETS {
            self.since_poll = 0;
            true
        } else {
            self.since_poll = self.since_poll + 1;
            false
        }
    }

    /// A packet decoded: the run of corrupt packets is over.
    pub fn decoded(&mut self)
        requires
            old(self).wf(),
        ensures
            final(self).wf(),
            final(self).consecutive_errors == 0,
            final(self).since_poll == old(self).since_poll,
    {
        self.consecutive_errors = 0;
    }

    /// A packet failed to decode; `true` when that makes 32 in a row and
    /// the file is given up on (the counters then stay as they were).
    pub fn decode_failed(&mut self) -> (give_up: bool)
        requires
            old(self).wf(),
        ensures
            final(self).wf(),
            give_up == (old(self).consecutive_errors + 1 >= MAX_CONSECUTIVE_DECODE_ERRORS),
            final(self).consecutive_errors == if give_up {
                old(self).consecutive_errors as int
            } else {
                old(self).consecutive_errors + 1
            },
            final(self).since_poll == old(self).since_poll,
    {
        if self.consecutive_errors + 1 >= MAX_CONSECUTIVE_DECODE_ERRORS {
            true
        } else {
            self.consecutive_errors = self.consecutive_errors + 1;
            false
        }
    }
}

// ---------------------------------------------------------------- verdicts

/// Sample rates from here up claim hi-res content.
pub const HIRES_MIN_SR: u32 = 88_200;

/// Genuine hi-res content extends past this; 44.1k sources cannot.
pub const CD_CONTENT_CEILING_HZ: u32 = 23_000;

/// Lossy encoder lowpass range, 128 kbps (about 16 kHz) up to 320 kbps
/// (about 20.5 kHz).
pub const TRANSCODE_BAND_LO_HZ: u32 = 15_000;

pub const TRANSCODE_BAND_HI_HZ: u32 = 20_800;

pub const PADDED_MIN_CLAIMED: u8 = 17;

pub const PADDED_EFFECTIVE_MAX: u8 = 16;

/// A container that claims at least 17 bits but carries at most 16, with a
/// margin of more than four bits below the claim.
pub open spec fn padded_spec(claimed: Option<u8>, effective: Option<u8>) -> bool {
    match (claimed, effective) {
        (Some(c), Some(e)) => c >= PADDED_MIN_CLAIMED && e <= PADDED_EFFECTIVE_MAX && e + 4 < c,
        _ => false,
    }
}

pub fn is_padded(claimed: Option<u8>, effective: Option<u8>) -> (b: bool)
    ensures
        b == padded_spec(claimed, effective),
{
    match (claimed, effective) {
        (Some(c), Some(e)) => c >= PADDED_MIN_CLAIMED && e <= PADDED_EFFECTIVE_MAX && (e as u16) + 4
            < (c as u16),
        _ => false,
    }
}

/// What the spectrum showed, in the terms the verdict rules read.
#[derive(Debug, Clone, Copy, PartialEq, Eq, Structural)]
pub struct SpectrumFindings {
    /// The reference band was too close to digital silence to judge.
    pub too_quiet: bool,
    /// Highest frequency still holding content.
    pub cutoff_hz: Option<u32>,
    /// Whether the level drop across the cutoff reaches the cliff
    /// threshold; none when nothing above the cutoff could be measured.
    pub steep_cliff: Option<bool>,
}

/// The verdict rules: a hi-res container whose content stops below the CD
/// ceiling at a steep cliff is upsampled; a 44.1k-or-better file whose
/// content stops at a steep cliff inside the lossy lowpass band is a
/// transcode; failing both, a padded container is padded; else clean.
pub open spec fn verdict_for(
    sample_rate: u32,
    claimed: Option<u8>,
    f: SpectrumFindings,
    effective: Option<u8>,
) -> Verdict {
    if f.too_quiet {
        Verdict::Clean
    } else if f.cutoff_hz is Some && f.steep_cliff == Some(true) && sample_rate >= HIRES_MIN_SR
        && f.cutoff_hz->0 < CD_CONTENT_CEILING_HZ {
        Verdict::Upsampled
    } else if f.cutoff_hz is Some && f.steep_cliff == Some(true) && sample_rate >= 44_100
        && TRANSCODE_BAND_LO_HZ <= f.cutoff_hz->0 <= TRANSCODE_BAND_HI_HZ {
        Verdict::Transcode
    } else if padded_spec(claimed, effective) {
        Verdict::PaddedBits
    } else {
        Verdict::Clean
    }
}

/// Applies the verdict rules to one track's measurements.
pub fn classify_verdict(
    sample_rate: u32,
    claimed: Option<u8>,
    findings: &SpectrumFindings,
    effective: Option<u8>,
) -> (v: Verdict)
    ensures
        v == verdict_for(sample_rate, claimed, *findings, effective),
{
    if findings.too_quiet {
        return Verdict::Clean;
    }
    if let (Some(cutoff), Some(true)) = (findings.cutoff_hz, findings.steep_cliff) {
        if sample_rate >= HIRES_MIN_SR && cutoff < CD_CONTENT_CEILING_HZ {
            return Verdict::Upsampled;
        }
        if sample_rate >= 44_100 && TRANSCODE_BAND_LO_HZ <= cutoff && cutoff <= TRANSCODE_BAND_HI_HZ {
            return Verdict::Transcode;
        }
    }
    if is_padded(claimed, effective) {
        Verdict::PaddedBits
    } else {
        Verdict::Clean
    }
}

/// The lossy bitrate a transcode's cutoff points back to.
pub open spec fn ancestor_label(cutoff_hz: u32) -> Seq<char> {
    if cutoff_hz < 16_500 {
        "~128 kbps"@
    } else if cutoff_hz < 19_500 {
        "~192 kbps"@
    } else {
        "~256\u{2013}320 kbps"@
    }
}

pub fn transcode_ancestor(cutoff_hz: u32) -> (s: &'static str)
    ensures
        s@ == ancestor_label(cutoff_hz),
{
    if cutoff_hz < 16_500 {
        "~128 kbps"
    } else if cutoff_hz < 19_500 {
        "~192 kbps"
    } else {
        "~256\u{2013}320 kbps"
    }
}

/// The rules never produce `Unreadable` or `Skipped` (those come from
/// decoding), a too-quiet track is always clean, a sample rate below
/// 44.1 kHz never earns a transcode verdict (its Nyquist lies inside the
/// lossy band), a claim of 16 bits or fewer is never padded, and a flagged
/// verdict always rests on a steep cliff or on padding.
pub proof fn law_verdict_rules(sample_rate: u32, claimed: Option<u8>, f: SpectrumFindings, effective: Option<u8>)
    ensures
        !(verdict_for(sample_rate, claimed, f, effective) is Unreadable),
        !(verdict_for(sample_rate, claimed, f, effective) is Skipped),
        f.too_quiet ==> verdict_for(sample_rate, claimed, f, effective) is Clean,
        sample_rate < 44_100 ==> !(verdict_for(sample_rate, claimed, f, effective) is Transcode),
        sample_rate < HIRES_MIN_SR ==> !(verdict_for(sample_rate, claimed, f, effective) is Upsampled),
        (claimed matches Some(c) && c <= 16) ==> !(verdict_for(sample_rate, claimed, f, effective) is PaddedBits),
        claimed is None ==> !(verdict_for(sample_rate, claimed, f, effective) is PaddedBits),
        verdict_for(sample_rate, claimed, f, effective).flagged() ==> f.steep_cliff == Some(true)
            || padded_spec(claimed, effective),
{
}

} // verus!

verus! {

// ---------------------------------------------------------------- runs

/// Tracks shorter than this (in milliseconds) are skipped before decoding.
pub const MIN_DURATION_MS: u64 = 5_000;

/// Whether a track is long enough to analyse.
pub fn long_enough(duration_ms: u64) -> (b: bool)
    ensures
        b == (duration_ms >= MIN_DURATION_MS),
{
    duration_ms >= MIN_DURATION_MS
}

/// The sample rate the spectrum is read at: the decoder's, unless the
/// container omitted it (0), then the stored one.
pub fn analysis_rate(decoded: u32, stored: u32) -> (r: u32)
    ensures
        r == if decoded > 0 {
            decoded
        } else {
            stored
        },
{
    if decoded > 0 {
        decoded
    } else {
        stored
    }
}

/// Decoding workers: half the available parallelism, kept within 2..=4
/// (2 when the parallelism is unknown).
pub open spec fn workers_for(parallelism: Option<usize>) -> usize {
    match parallelism {
        Some(n) => if n / 2 < 2 {
            2
        } else if n / 2 > 4 {
            4
        } else {
            n / 2
        },
        None => 2,
    }
}

pub fn worker_count_for(parallelism: Option<usize>) -> (r: usize)
    ensures
        r == workers_for(parallelism),
        2 <= r <= 4,
{
    match parallelism {
        Some(n) => {
            let half = n / 2;
            if half < 2 {
                2
            } else if half > 4 {
                4
            } else {
                half
            }
        },
        None => 2,
    }
}

/// The progress counts of one analysis run.
#[derive(Debug, Clone, Copy, PartialEq, Eq, Structural)]
pub struct AnalysisTally {
    pub processed: u32,
    pub analyzed: u32,
    pub flagged: u32,
    pub errors: u32,
}

impl AnalysisTally {
    /// Flagged results are analysed ones, and analysed ones were processed.
    pub open spec fn consistent(self) -> bool {
        self.flagged <= self.analyzed <= self.processed
    }

    /// The counts after one more result: every result is processed;
    /// unreadable ones are errors, skipped ones count for nothing more, the
    /// rest are analysed (and flagged when suspicious); a result that could
    /// not be stored is an error too.
    pub open spec fn after(self, verdict: Verdict, stored: bool) -> AnalysisTally {
        let t = AnalysisTally { processed: (self.processed + 1) as u32, ..self };
        let t = match verdict {
            Verdict::Unreadable => AnalysisTally { errors: (t.errors + 1) as u32, ..t },
            Verdict::Skipped => t,
            _ => AnalysisTally {
                analyzed: (t.analyzed + 1) as u32,
                flagged: if verdict.flagged() {
                    (t.flagged + 1) as u32
                } else {
                    t.flagged
                },
                ..t
            },
        };
        if stored {
            t
        } else {
            AnalysisTally { errors: (t.errors + 1) as u32, ..t }
        }
    }

    pub fn new() -> (t: AnalysisTally)
        ensures
            t == (AnalysisTally { processed: 0, analyzed: 0, flagged: 0, errors: 0 }),
    {
        AnalysisTally { processed: 0, analyzed: 0, flagged: 0, errors: 0 }
    }

    /// Counts one finished track.
    pub fn record(&mut self, verdict: Verdict, stored: bool)
        requires
            old(self).processed < u32::MAX,
            old(self).analyzed < u32::MAX,
            old(self).flagged < u32::MAX,
            old(self).errors < u32::MAX - 1,
        ensures
            *final(self) == old(self).after(verdict, stored),
    {
        self.processed = self.processed + 1;
        match verdict {
            Verdict::Unreadable => {
                self.errors = self.errors + 1;
            },
            Verdict::Skipped => {},
            _ => {
                self.analyzed = self.analyzed + 1;
                if verdict.is_flagged() {
                    self.flagged = self.flagged + 1;
                }
            },
        }
        if !stored {
            self.errors = self.errors + 1;
        }
    }
}

/// Counting a result keeps the counts consistent.
pub proof fn law_tally_stays_consistent(t: AnalysisTally, verdict: Verdict, stored: bool)
    requires
        t.consistent(),
        t.processed < u32::MAX,
        t.errors < u32::MAX - 1,
    ensures
        t.after(verdict, stored).consistent(),
        t.after(verdict, stored).processed == t.processed + 1,
{
}

} // verus!

verus! {

// ---------------------------------------------------------------- samples

/// One decoded integer sample in its native format. 24-bit samples carry
/// their payload in the low 24 bits of a 32-bit word.
#[derive(Debug, Clone, Copy, PartialEq, Eq, Structural)]
pub enum IntSample {
    U8(u8),
    U16(u16),
    U24(u32),
    U32(u32),
    S8(i8),
    S16(i16),
    S24(i32),
    S32(i32),
}

/// Whether a 24-bit payload lies in its format's range.
pub open spec fn sample_in_range(s: IntSample) -> bool {
    match s {
        IntSample::U24(v) => v < 0x100_0000,
        IntSample::S24(v) => -0x80_0000 <= v < 0x80_0000,
        _ => true,
    }
}

/// The sample as a full-scale signed 32-bit value: unsigned formats are
/// re-centred on zero, and every format is shifted up to the top bits.
pub open spec fn left_aligned(s: IntSample) -> int {
    match s {
        IntSample::U8(v) => (v - 128) * 0x100_0000,
        IntSample::U16(v) => (v - 32768) * 0x1_0000,
        IntSample::U24(v) => (v - 0x80_0000) * 0x100,
        IntSample::U32(v) => v - 0x8000_0000,
        IntSample::S8(v) => v * 0x100_0000,
        IntSample::S16(v) => v * 0x1_0000,
        IntSample::S24(v) => v * 0x100,
        IntSample::S32(v) => v as int,
    }
}

impl IntSample {
    /// Whether a 24-bit payload lies in its format's range.
    pub fn in_range(self) -> (b: bool)
        ensures
            b == sample_in_range(self),
    {
        match self {
            IntSample::U24(v) => v < 0x100_0000,
            IntSample::S24(v) => -0x80_0000 <= v && v < 0x80_0000,
            _ => true,
        }
    }
}

pub fn left_align(s: IntSample) -> (r: i32)
    requires
        sample_in_range(s),
    ensures
        r == left_aligned(s),
{
    match s {
        IntSample::U8(v) => ((v as i32) - 128) * 0x100_0000,
        IntSample::U16(v) => ((v as i32) - 32768) * 0x1_0000,
        IntSample::U24(v) => ((v as i32) - 0x80_0000) * 0x100,
        IntSample::U32(v) => ((v as i64) - 0x8000_0000i64) as i32,
        IntSample::S8(v) => (v as i32) * 0x100_0000,
        IntSample::S16(v) => (v as i32) * 0x1_0000,
        IntSample::S24(v) => v * 0x100,
        IntSample::S32(v) => v,
    }
}

} // verus!
