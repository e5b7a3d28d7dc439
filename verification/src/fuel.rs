//! What the fuel gauge last said about the battery.

use vstd::prelude::*;

verus! {

/// How often the gauge is asked, in seconds.
pub const POLL_SECS: u64 = 10;

/// Stands for "no reading". Zero would not do: an empty cell is a reading too.
const NO_READING: u16 = u16::MAX;

/// What to say about the gauge in the log.
#[derive(Debug, Clone, Copy, PartialEq, Eq, Structural)]
pub enum Notice {
    /// The gauge answers now and did not before.
    Found,
    /// The gauge answered before and does not now.
    Lost,
    /// Nothing new.
    Nothing,
}

/// The last reading of the gauge.
pub struct Gauge {
    permille: u16,
    announced: bool,
}

impl View for Gauge {
    type V = Option<u16>;

    /// Charge in permille, `None` without a reading.
    closed spec fn view(&self) -> Option<u16> {
        if self.permille == NO_READING {
            None
        } else {
            Some(self.permille)
        }
    }
}

impl Gauge {
    #[verifier::type_invariant]
    spec fn in_range(self) -> bool {
        self.permille <= 1000 || self.permille == NO_READING
    }

    /// Whether the log was told that the gauge answers.
    pub closed spec fn is_announced(&self) -> bool {
        self.announced
    }

    /// A gauge that has not been asked yet.
    pub fn new() -> (r: Gauge)
        ensures
            r@ is None,
            !r.is_announced(),
    {
        Gauge { permille: NO_READING, announced: false }
    }

    /// Takes a reading in permille, or the lack of one.
    ///
    /// Without a reading the last one is wiped: a stale figure on the screen is
    /// worse than an honest dash.
    pub fn on_reading(&mut self, reading: Option<u16>) -> (r: Notice)
        requires
            reading matches Some(permille) ==> permille <= 1000,
        ensures
            final(self)@ == reading,
            final(self).is_announced() == reading is Some,
            r == (if reading is Some && !old(self).is_announced() {
                Notice::Found
            } else if reading is None && old(self).is_announced() {
                Notice::Lost
            } else {
                Notice::Nothing
            }),
    {
        match reading {
            Some(permille) => {
                self.permille = permille;
                if !self.announced {
                    self.announced = true;
                    Notice::Found
                } else {
                    Notice::Nothing
                }
            },
            None => {
                self.permille = NO_READING;
                if self.announced {
                    self.announced = false;
                    Notice::Lost
                } else {
                    Notice::Nothing
                }
            },
        }
    }
}

impl Default for Gauge {
    fn default() -> (r: Self)
        ensures
            r@ is None,
            !r.is_announced(),
    {
        Gauge::new()
    }
}

/// Charge in permille (0..=1000). `None` without a gauge.
pub fn permille(gauge: &Gauge) -> (r: Option<u16>)
    ensures
        r == gauge@,
        r matches Some(permille) ==> permille <= 1000,
{
    proof {
        use_type_invariant(gauge);
    }
    if gauge.permille == NO_READING {
        None
    } else {
        Some(gauge.permille)
    }
}

/// Permille rounded to whole percent.
pub open spec fn rounded(permille: u16) -> int {
    (permille + 5) / 10
}

/// Charge in percent, for people.
pub fn percent(gauge: &Gauge) -> (r: Option<u8>)
    ensures
        match gauge@ {
            Some(permille) => r matches Some(percent) && percent == rounded(permille) && percent
                <= 100,
            None => r is None,
        },
{
    match permille(gauge) {
        Some(permille) => Some(((permille + 5) / 10) as u8),
        None => None,
    }
}

/// Rounding goes to the nearest percent, and up from the middle: it is never
/// off by more than five permille.
pub proof fn law_percent_is_nearest(permille: u16)
    ensures
        10 * rounded(permille) - 5 <= permille < 10 * rounded(permille) + 5,
{
}

/// More charge never shows as less, and the ends of the scale are met.
pub proof fn law_percent_is_monotonic(low: u16, high: u16)
    requires
        low <= high <= 1000,
    ensures
        0 <= rounded(low) <= rounded(high) <= 100,
        rounded(0) == 0,
        rounded(1000) == 100,
{
}

} // verus!
