//! A borrowed view over interleaved audio samples.
//!
//! Samples of all channels follow one another frame by frame: sample `i`
//! belongs to channel `i % channel_count`. The view never copies the samples
//! and lives no longer than the buffer it was made from.

use crate::error::ThumbnailError;
use vstd::prelude::*;

verus! {

/// The numeric domain that samples are drawn from: its least value, its
/// value for silence and its greatest value.
#[derive(Clone, Copy, Debug, PartialEq, Eq, Structural)]
pub struct SampleDomain {
    pub min: i32,
    pub zero: i32,
    pub max: i32,
}

impl SampleDomain {
    /// A signed domain has silence at zero, with room below and above it.
    /// Unsigned domains, where silence sits at the least value or in the
    /// middle of a non-negative range, are not signed.
    pub open spec fn is_signed(self) -> bool {
        self.min < 0 && self.zero == 0 && 0 < self.max
    }

    /// The domain of signed 16-bit samples.
    pub open spec fn spec_sixteen_bit() -> SampleDomain {
        SampleDomain { min: -32768i32, zero: 0i32, max: 32767i32 }
    }

    /// The domain of signed 16-bit samples.
    #[verifier::when_used_as_spec(spec_sixteen_bit)]
    pub fn sixteen_bit() -> (d: SampleDomain)
        ensures
            d == SampleDomain::spec_sixteen_bit(),
            d.is_signed(),
    {
        SampleDomain {
            min: least_i16() as i32,
            zero: zero_i16() as i32,
            max: greatest_i16() as i32,
        }
    }

    /// Whether the domain is signed.
    pub fn signed(&self) -> (b: bool)
        ensures
            b == self.is_signed(),
    {
        self.min < 0 && self.zero == 0 && 0 < self.max
    }
}

/// The outside function `num::Bounded::min_value` at `i16`: the least 16-bit
/// signed integer.
#[verifier::external_body]
fn least_i16() -> (v: i16)
    ensures
        v == i16::MIN,
{
    num::Bounded::min_value()
}

/// The outside function `num::Bounded::max_value` at `i16`: the greatest
/// 16-bit signed integer.
#[verifier::external_body]
fn greatest_i16() -> (v: i16)
    ensures
        v == i16::MAX,
{
    num::Bounded::max_value()
}

/// The outside function `num::Zero::zero` at `i16`: the integer 0.
#[verifier::external_body]
fn zero_i16() -> (v: i16)
    ensures
        v == 0,
{
    num::Zero::zero()
}

/// The sample encodings that a decoder can hand over.
#[derive(Clone, Copy, Debug, PartialEq, Eq, Structural)]
pub enum SampleFormat {
    /// Unsigned 8-bit integers.
    Eight,
    /// Signed 16-bit integers.
    Sixteen,
    /// Signed 24-bit integers.
    TwentyFour,
    /// 32-bit floating point.
    ThirtyTwoFloat,
    /// No samples at all.
    Empty,
}

impl SampleFormat {
    /// The domain of the samples of this format, for the one format that is
    /// drawn: signed 16-bit. Every other format is refused.
    pub fn domain(self) -> (r: Result<SampleDomain, ThumbnailError>)
        ensures
            self == SampleFormat::Sixteen ==> r == Ok::<SampleDomain, ThumbnailError>(
                SampleDomain::spec_sixteen_bit(),
            ),
            self != SampleFormat::Sixteen ==> r == Err::<SampleDomain, ThumbnailError>(
                ThumbnailError::UnsupportedFormat,
            ),
    {
        match self {
            SampleFormat::Sixteen => Ok(SampleDomain::sixteen_bit()),
            _ => Err(ThumbnailError::UnsupportedFormat),
        }
    }
}

/// The greatest of `s[lo..hi]`; for an empty window, the least 16-bit value.
pub open spec fn window_max(s: Seq<i16>, lo: int, hi: int) -> int
    decreases hi - lo,
{
    if hi <= lo {
        i16::MIN as int
    } else {
        let rest = window_max(s, lo, hi - 1);
        if s[hi - 1] > rest {
            s[hi - 1] as int
        } else {
            rest
        }
    }
}

/// The least of `s[lo..hi]`; for an empty window, the greatest 16-bit value.
pub open spec fn window_min(s: Seq<i16>, lo: int, hi: int) -> int
    decreases hi - lo,
{
    if hi <= lo {
        i16::MAX as int
    } else {
        let rest = window_min(s, lo, hi - 1);
        if s[hi - 1] < rest {
            s[hi - 1] as int
        } else {
            rest
        }
    }
}

/// What a wave is, apart from where its samples are stored.
pub struct WaveModel {
    pub samples: Seq<i16>,
    pub channel_count: nat,
    pub domain: SampleDomain,
}

impl WaveModel {
    /// A wave is well formed when its samples divide into whole frames of
    /// at least one channel, and its domain is signed.
    pub open spec fn wf(self) -> bool {
        &&& self.channel_count > 0
        &&& self.samples.len() % self.channel_count == 0
        &&& self.domain.is_signed()
    }

    /// Number of samples, all channels together.
    pub open spec fn sample_count(self) -> nat {
        self.samples.len()
    }

    /// Number of frames: one sample of every channel each.
    pub open spec fn frame_count(self) -> nat {
        self.samples.len() / self.channel_count
    }
}

/// A read-only view over a caller's interleaved samples.
pub struct Wave<'a> {
    data: &'a Vec<i16>,
    channel_count: u16,
    domain: SampleDomain,
}

impl<'a> View for Wave<'a> {
    type V = WaveModel;

    closed spec fn view(&self) -> WaveModel {
        WaveModel {
            samples: self.data@,
            channel_count: self.channel_count as nat,
            domain: self.domain,
        }
    }
}

impl<'a> Wave<'a> {
    #[verifier::type_invariant]
    spec fn well_formed(self) -> bool {
        self@.wf()
    }

    /// A view over `data`, read as frames of `channel_count` samples drawn
    /// from `domain`.
    ///
    /// A domain that is not signed is refused as an unsupported format.
    /// Samples that do not divide into whole frames, or no channel at all,
    /// are refused as corrupt input.
    pub fn new(data: &'a Vec<i16>, channel_count: u16, domain: SampleDomain) -> (r: Result<
        Wave<'a>,
        ThumbnailError,
    >)
        ensures
            !domain.is_signed() ==> r == Err::<Wave<'a>, ThumbnailError>(
                ThumbnailError::UnsupportedFormat,
            ),
            domain.is_signed() && (channel_count == 0 || data@.len() % (channel_count as nat) != 0)
                ==> r == Err::<Wave<'a>, ThumbnailError>(ThumbnailError::CorruptInput),
            domain.is_signed() && channel_count > 0 && data@.len() % (channel_count as nat) == 0
                ==> r is Ok && r->Ok_0@ == (WaveModel {
                samples: data@,
                channel_count: channel_count as nat,
                domain,
            }),
            r matches Ok(w) ==> w@.wf(),
    {
        if !domain.signed() {
            return Err(ThumbnailError::UnsupportedFormat);
        }
        if channel_count == 0 || data.len() % (channel_count as usize) != 0 {
            return Err(ThumbnailError::CorruptInput);
        }
        Ok(Wave { data, channel_count, domain })
    }

    /// Number of frames.
    pub fn frame_count(&self) -> (n: usize)
        ensures
            self@.wf(),
            n == self@.frame_count(),
    {
        proof {
            use_type_invariant(self);
        }
        self.data.len() / (self.channel_count as usize)
    }

    /// Number of samples, all channels together.
    pub fn sample_count(&self) -> (n: usize)
        ensures
            self@.wf(),
            n == self@.sample_count(),
    {
        proof {
            use_type_invariant(self);
        }
        self.data.len()
    }

    /// Number of channels.
    pub fn channel_count(&self) -> (n: u16)
        ensures
            self@.wf(),
            n == self@.channel_count,
    {
        proof {
            use_type_invariant(self);
        }
        self.channel_count
    }

    /// The domain that the samples are drawn from.
    pub fn domain(&self) -> (d: SampleDomain)
        ensures
            self@.wf(),
            d == self@.domain,
    {
        proof {
            use_type_invariant(self);
        }
        self.domain
    }

    /// The least and the greatest of the samples `begin..end`, whatever
    /// channels they belong to.
    pub fn envelope(&self, begin: usize, end: usize) -> (r: (i16, i16))
        requires
            begin < end <= self@.samples.len(),
        ensures
            r.0 == window_min(self@.samples, begin as int, end as int),
            r.1 == window_max(self@.samples, begin as int, end as int),
    {
        let mut least: i16 = self.data[begin];
        let mut greatest: i16 = self.data[begin];
        let mut i: usize = begin + 1;
        assert(window_min(self@.samples, begin as int, begin as int) == i16::MAX);
        assert(window_max(self@.samples, begin as int, begin as int) == i16::MIN);
        while i < end
            invariant
                begin < i <= end <= self@.samples.len(),
                self@.samples == self.data@,
                least == window_min(self@.samples, begin as int, i as int),
                greatest == window_max(self@.samples, begin as int, i as int),
            decreases end - i,
        {
            let sample = self.data[i];
            if sample < least {
                least = sample;
            }
            if sample > greatest {
                greatest = sample;
            }
            i += 1;
        }
        (least, greatest)
    }
}

/// The greatest of a window bounds every sample in it from above, and is one
/// of them.
pub proof fn lemma_window_max(s: Seq<i16>, lo: int, hi: int)
    requires
        0 <= lo < hi <= s.len(),
    ensures
        forall|i: int| lo <= i < hi ==> #[trigger] s[i] <= window_max(s, lo, hi),
        exists|i: int| lo <= i < hi && #[trigger] s[i] == window_max(s, lo, hi),
    decreases hi - lo,
{
    if hi - 1 > lo {
        lemma_window_max(s, lo, hi - 1);
        let w = choose|i: int| lo <= i < hi - 1 && #[trigger] s[i] == window_max(s, lo, hi - 1);
        if s[hi - 1] > window_max(s, lo, hi - 1) {
            assert(s[hi - 1] == window_max(s, lo, hi));
        } else {
            assert(s[w] == window_max(s, lo, hi));
        }
    } else {
        assert(window_max(s, lo, lo) == i16::MIN);
        assert(s[lo] == window_max(s, lo, hi));
    }
}

/// The least of a window bounds every sample in it from below, and is one of
/// them.
pub proof fn lemma_window_min(s: Seq<i16>, lo: int, hi: int)
    requires
        0 <= lo < hi <= s.len(),
    ensures
        forall|i: int| lo <= i < hi ==> window_min(s, lo, hi) <= #[trigger] s[i],
        exists|i: int| lo <= i < hi && #[trigger] s[i] == window_min(s, lo, hi),
    decreases hi - lo,
{
    if hi - 1 > lo {
        lemma_window_min(s, lo, hi - 1);
        let w = choose|i: int| lo <= i < hi - 1 && #[trigger] s[i] == window_min(s, lo, hi - 1);
        if s[hi - 1] < window_min(s, lo, hi - 1) {
            assert(s[hi - 1] == window_min(s, lo, hi));
        } else {
            assert(s[w] == window_min(s, lo, hi));
        }
    } else {
        assert(window_min(s, lo, lo) == i16::MAX);
        assert(s[lo] == window_min(s, lo, hi));
    }
}

/// A window in which every sample has the same value has that value as its
/// least and as its greatest.
pub proof fn lemma_window_constant(s: Seq<i16>, lo: int, hi: int, value: i16)
    requires
        0 <= lo < hi <= s.len(),
        forall|i: int| lo <= i < hi ==> #[trigger] s[i] == value,
    ensures
        window_min(s, lo, hi) == value,
        window_max(s, lo, hi) == value,
{
    lemma_window_min(s, lo, hi);
    lemma_window_max(s, lo, hi);
}

} // verus!
