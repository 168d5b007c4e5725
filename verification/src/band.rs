//! EQ bands: the filter shape, the frequency and the settings of one band,
//! and the edits that can be asked of a band.

use vstd::prelude::*;
use crate::text::{lowercase_of, str_eq, to_lowercase};
use crate::uid::fresh_id;

verus! {

/// The shape of a biquad filter.
#[derive(Debug, Clone, Copy, PartialEq, Eq, Structural)]
pub enum EqFilter {
    Peaking,
    LowShelf,
    HighShelf,
    LowPass,
    HighPass,
    BandPass,
    Notch,
}

/// The lower-case name of a filter shape.
pub open spec fn filter_name(f: EqFilter) -> Seq<char> {
    match f {
        EqFilter::Peaking => "peaking"@,
        EqFilter::LowShelf => "lowshelf"@,
        EqFilter::HighShelf => "highshelf"@,
        EqFilter::LowPass => "lowpass"@,
        EqFilter::HighPass => "highpass"@,
        EqFilter::BandPass => "bandpass"@,
        EqFilter::Notch => "notch"@,
    }
}

/// The filter shape that a lower-case name stands for; a name that stands
/// for none gives `Peaking`.
pub open spec fn filter_named(s: Seq<char>) -> EqFilter {
    if s == "peaking"@ {
        EqFilter::Peaking
    } else if s == "lowshelf"@ {
        EqFilter::LowShelf
    } else if s == "highshelf"@ {
        EqFilter::HighShelf
    } else if s == "lowpass"@ {
        EqFilter::LowPass
    } else if s == "highpass"@ {
        EqFilter::HighPass
    } else if s == "bandpass"@ {
        EqFilter::BandPass
    } else if s == "notch"@ {
        EqFilter::Notch
    } else {
        EqFilter::Peaking
    }
}

impl EqFilter {
    /// The lower-case name of this filter shape.
    pub fn to_string(&self) -> (r: String)
        ensures
            r@ == filter_name(*self),
    {
        match self {
            EqFilter::Peaking => "peaking".to_owned(),
            EqFilter::LowShelf => "lowshelf".to_owned(),
            EqFilter::HighShelf => "highshelf".to_owned(),
            EqFilter::LowPass => "lowpass".to_owned(),
            EqFilter::HighPass => "highpass".to_owned(),
            EqFilter::BandPass => "bandpass".to_owned(),
            EqFilter::Notch => "notch".to_owned(),
        }
    }

    /// The filter shape named by an already lower-cased name; an unknown name
    /// gives `Peaking`.
    pub fn from_lowercase_name(name: &str) -> (r: EqFilter)
        ensures
            r == filter_named(name@),
    {
        if str_eq(name, "peaking") {
            EqFilter::Peaking
        } else if str_eq(name, "lowshelf") {
            EqFilter::LowShelf
        } else if str_eq(name, "highshelf") {
            EqFilter::HighShelf
        } else if str_eq(name, "lowpass") {
            EqFilter::LowPass
        } else if str_eq(name, "highpass") {
            EqFilter::HighPass
        } else if str_eq(name, "bandpass") {
            EqFilter::BandPass
        } else if str_eq(name, "notch") {
            EqFilter::Notch
        } else {
            EqFilter::Peaking
        }
    }
}

impl From<String> for EqFilter {
    /// Reads a filter shape from its name in any letter case; an unknown name
    /// gives `Peaking`.
    fn from(value: String) -> (r: Self) {
        let lower = to_lowercase(value.as_str());
        EqFilter::from_lowercase_name(lower.as_str())
    }
}

impl vstd::std_specs::convert::FromSpecImpl<String> for EqFilter {
    open spec fn obeys_from_spec() -> bool {
        true
    }

    open spec fn from_spec(v: String) -> Self {
        filter_named(lowercase_of(v@))
    }
}

/// A filter shape read back from its own name is that filter shape.
pub proof fn lemma_filter_name_round_trip(f: EqFilter)
    ensures
        filter_named(filter_name(f)) == f,
{
    reveal_strlit("peaking");
    reveal_strlit("lowshelf");
    reveal_strlit("highshelf");
    reveal_strlit("lowpass");
    reveal_strlit("highpass");
    reveal_strlit("bandpass");
    reveal_strlit("notch");
    assert("peaking"@[0] != "lowshelf"@[0]);
    assert("peaking"@[0] != "highshelf"@[0]);
    assert("lowshelf"@[0] != "highshelf"@[0]);
    assert("peaking"@[0] != "lowpass"@[0]);
    assert("lowshelf"@[3] != "lowpass"@[3]);
    assert("peaking"@[0] != "highpass"@[0]);
    assert("highshelf"@.len() != "highpass"@.len());
    assert("lowpass"@[0] != "highpass"@[0]);
    assert("lowshelf"@[0] != "highpass"@[0]);
    assert("peaking"@[0] != "bandpass"@[0]);
    assert("lowshelf"@[0] != "bandpass"@[0]);
    assert("highshelf"@[0] != "bandpass"@[0]);
    assert("lowpass"@[0] != "bandpass"@[0]);
    assert("highpass"@[0] != "bandpass"@[0]);
}

/// The frequency of a band: a single frequency, or a range given by its two
/// ends, in hertz.
#[derive(Debug, Clone, Copy, PartialEq, Eq, Structural)]
pub enum Freq {
    Point(usize),
    Range(usize, usize),
}

/// The frequency at which a band is centred: the point itself, or the
/// rounded-down middle of the range.
pub open spec fn center_of(f: Freq) -> int {
    match f {
        Freq::Point(p) => p as int,
        Freq::Range(start, end) => (start + end) / 2,
    }
}

/// One band of an EQ node.
///
/// `gain` holds the bit pattern of an `f32` gain in decibels, and `q` that
/// of an `f64` quality factor: the library stores and copies them and never
/// computes with them.
#[derive(Debug, Clone, Copy, PartialEq, Eq, Structural)]
pub struct EqBand {
    pub id: u128,
    pub enabled: bool,
    pub filter: Option<EqFilter>,
    pub sample_rate: usize,
    pub q: u64,
    pub freq: Freq,
    pub gain: u32,
}

impl EqBand {
    /// A new enabled band with a fresh identifier; a missing gain is 0 dB.
    pub fn new(freq: Freq, filter: Option<EqFilter>, gain: Option<u32>, sample_rate: usize, q: u64) -> (r: Self)
        ensures
            r.enabled,
            r.filter == filter,
            r.freq == freq,
            r.gain == (match gain {
                Some(g) => g,
                None => 0u32,
            }),
            r.sample_rate == sample_rate,
            r.q == q,
    {
        EqBand {
            id: fresh_id(),
            enabled: true,
            filter,
            freq,
            gain: gain.unwrap_or(0),
            sample_rate,
            q,
        }
    }

    /// Replaces the filter shape.
    pub fn update_filter(&mut self, filter: Option<EqFilter>)
        ensures
            *final(self) == (EqBand { filter, ..*old(self) }),
    {
        self.filter = filter;
    }

    /// Replaces the frequency.
    pub fn update_freq(&mut self, freq: Freq)
        ensures
            *final(self) == (EqBand { freq, ..*old(self) }),
    {
        self.freq = freq;
    }

    /// Replaces the gain.
    pub fn update_gain(&mut self, gain: u32)
        ensures
            *final(self) == (EqBand { gain, ..*old(self) }),
    {
        self.gain = gain;
    }

    /// Replaces the quality factor.
    pub fn update_q(&mut self, q: u64)
        ensures
            *final(self) == (EqBand { q, ..*old(self) }),
    {
        self.q = q;
    }

    /// Replaces the sample rate.
    pub fn update_sample_rate(&mut self, sample_rate: usize)
        ensures
            *final(self) == (EqBand { sample_rate, ..*old(self) }),
    {
        self.sample_rate = sample_rate;
    }

    /// The frequency at which the band is centred.
    pub fn get_center_freq(&self) -> (r: usize)
        requires
            self.freq matches Freq::Range(start, end) ==> start + end <= usize::MAX,
        ensures
            r == center_of(self.freq),
    {
        match self.freq {
            Freq::Point(f) => f,
            Freq::Range(start, end) => (start + end) / 2,
        }
    }

    /// The two ends of the frequency, when it is a range.
    pub fn get_freq_range(&self) -> (r: Option<(usize, usize)>)
        ensures
            r == (match self.freq {
                Freq::Range(start, end) => Some((start, end)),
                Freq::Point(_) => None,
            }),
    {
        match self.freq {
            Freq::Range(start, end) => Some((start, end)),
            Freq::Point(_) => None,
        }
    }

    /// Whether the frequency is a range.
    pub fn is_range(&self) -> (r: bool)
        ensures
            r == (self.freq is Range),
    {
        match self.freq {
            Freq::Range(_, _) => true,
            Freq::Point(_) => false,
        }
    }

    /// Whether the frequency is a single point.
    pub fn is_point(&self) -> (r: bool)
        ensures
            r == (self.freq is Point),
    {
        match self.freq {
            Freq::Point(_) => true,
            Freq::Range(_, _) => false,
        }
    }

    /// Switches the band on.
    pub fn enable(&mut self)
        ensures
            *final(self) == (EqBand { enabled: true, ..*old(self) }),
    {
        self.enabled = true;
    }

    /// Switches the band off.
    pub fn disable(&mut self)
        ensures
            *final(self) == (EqBand { enabled: false, ..*old(self) }),
    {
        self.enabled = false;
    }
}

/// What to do to the bands of a node.
#[derive(Debug, Clone, Copy, PartialEq, Eq, Structural)]
pub enum BandOp {
    AddBand,
    UpdateBand(u128),
    DeleteBand(u128),
}

/// A change to one setting of a band, or the settings of a band to create:
/// filter, gain, frequency, sample rate and quality factor. Gains and
/// quality factors are bit patterns, as in `EqBand`.
#[derive(Debug, Clone, Copy, PartialEq, Eq, Structural)]
pub enum BandUpdate {
    UpdateFilter(Option<EqFilter>),
    UpdateGain(u32),
    UpdateFreq(Freq),
    UpdateQ(u64),
    Create(Option<EqFilter>, u32, Freq, usize, u64),
}

} // verus!
