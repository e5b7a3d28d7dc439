//! The green LED and what it does.

use vstd::prelude::*;

verus! {

/// Half a period of blinking, in milliseconds: so long the LED shines, and so
/// long it does not.
pub const BLINK_HALF_PERIOD_MS: u64 = 400;

/// How often the mode is looked at, in milliseconds. A command takes no longer
/// to be carried out.
pub const IDLE_POLL_MS: u64 = 100;

/// What the LED does.
#[derive(Debug, Clone, Copy, PartialEq, Eq, Structural)]
pub enum Mode {
    Off,
    On,
    Blink,
}

/// The code under which a mode is kept.
pub open spec fn mode_code(mode: Mode) -> u8 {
    match mode {
        Mode::Off => 0,
        Mode::On => 1,
        Mode::Blink => 2,
    }
}

/// The mode of a code; an unknown code means off.
pub open spec fn mode_of(code: u8) -> Mode {
    if code == 1 {
        Mode::On
    } else if code == 2 {
        Mode::Blink
    } else {
        Mode::Off
    }
}

/// The mode after a toggle: whatever shines goes out.
pub open spec fn toggled(mode: Mode) -> Mode {
    match mode {
        Mode::Off => Mode::On,
        _ => Mode::Off,
    }
}

impl Mode {
    /// The code under which a mode is kept.
    pub fn code(self) -> (r: u8)
        ensures
            r == mode_code(self),
    {
        match self {
            Mode::Off => 0,
            Mode::On => 1,
            Mode::Blink => 2,
        }
    }

    /// The mode of a code; an unknown code means off.
    pub fn from_code(code: u8) -> (r: Mode)
        ensures
            r == mode_of(code),
    {
        match code {
            1 => Mode::On,
            2 => Mode::Blink,
            _ => Mode::Off,
        }
    }
}

/// A mode read back from its code is the mode that was kept.
pub proof fn law_codes_round_trip(mode: Mode)
    ensures
        mode_of(mode_code(mode)) == mode,
{
}

/// The mode that was set last, kept as its code.
#[derive(Debug, Clone, Copy, PartialEq, Eq, Structural)]
pub struct LedState {
    pub code: u8,
}

impl Default for LedState {
    fn default() -> (r: Self)
        ensures
            r.code == mode_code(Mode::Off),
    {
        LedState { code: 0 }
    }
}

/// Changes the mode.
pub fn set_mode(led: &mut LedState, mode: Mode)
    ensures
        final(led).code == mode_code(mode),
{
    led.code = mode.code();
}

/// The mode at the moment.
pub fn mode(led: &LedState) -> (r: Mode)
    ensures
        r == mode_of(led.code),
{
    Mode::from_code(led.code)
}

/// Toggles: what shines or blinks goes out, what is out is lit. Returns the new
/// mode.
pub fn toggle(led: &mut LedState) -> (r: Mode)
    ensures
        r == toggled(mode_of(old(led).code)),
        final(led).code == mode_code(r),
{
    let next = match Mode::from_code(led.code) {
        Mode::Off => Mode::On,
        _ => Mode::Off,
    };
    led.code = next.code();
    next
}

/// Two toggles in a row never collapse into one: they bring back a dark LED,
/// and light one that shone or blinked.
pub proof fn law_two_toggles(mode: Mode)
    ensures
        toggled(toggled(Mode::Off)) == Mode::Off,
        mode != Mode::Off ==> toggled(toggled(mode)) == Mode::On,
        toggled(mode) != mode,
{
}

/// What to do with the pin.
#[derive(Debug, Clone, Copy, PartialEq, Eq, Structural)]
pub enum Drive {
    Low,
    High,
    Flip,
    /// Leave it as it is.
    Keep,
}

/// One step of the LED task: drive the pin, then wait.
#[derive(Debug, Clone, Copy, PartialEq, Eq, Structural)]
pub struct LedStep {
    pub drive: Drive,
    /// How long to wait before the next step, in milliseconds.
    pub wait_ms: u64,
    /// How long the pin will then have stood, in milliseconds. An LED that does
    /// not blink has stood long enough to flip.
    pub stood_ms: u64,
}

/// What the LED task does next in a mode, with a pin that has stood so long.
pub open spec fn led_step_of(mode: Mode, stood_ms: u64) -> LedStep {
    match mode {
        Mode::Off => LedStep {
            drive: Drive::Low,
            wait_ms: IDLE_POLL_MS,
            stood_ms: BLINK_HALF_PERIOD_MS,
        },
        Mode::On => LedStep {
            drive: Drive::High,
            wait_ms: IDLE_POLL_MS,
            stood_ms: BLINK_HALF_PERIOD_MS,
        },
        Mode::Blink => if stood_ms >= BLINK_HALF_PERIOD_MS {
            LedStep { drive: Drive::Flip, wait_ms: IDLE_POLL_MS, stood_ms: IDLE_POLL_MS }
        } else {
            LedStep {
                drive: Drive::Keep,
                wait_ms: IDLE_POLL_MS,
                stood_ms: (stood_ms + IDLE_POLL_MS) as u64,
            }
        },
    }
}

/// The next step of the LED task. At the start the pin has stood for
/// [`BLINK_HALF_PERIOD_MS`].
pub fn led_step(led: &LedState, stood_ms: u64) -> (r: LedStep)
    ensures
        r == led_step_of(mode_of(led.code), stood_ms),
{
    let (drive, stood_ms): (Drive, u64) = match mode(led) {
        Mode::Off => (Drive::Low, BLINK_HALF_PERIOD_MS),
        Mode::On => (Drive::High, BLINK_HALF_PERIOD_MS),
        Mode::Blink => {
            if stood_ms >= BLINK_HALF_PERIOD_MS {
                (Drive::Flip, IDLE_POLL_MS)
            } else {
                (Drive::Keep, stood_ms + IDLE_POLL_MS)
            }
        },
    };
    LedStep { drive, wait_ms: IDLE_POLL_MS, stood_ms }
}

/// A new mode is carried out no later than [`IDLE_POLL_MS`] after it was set,
/// and an LED that is to blink starts with a flip.
pub proof fn law_mode_is_picked_up_in_time(mode: Mode, stood_ms: u64)
    ensures
        led_step_of(mode, stood_ms).wait_ms <= IDLE_POLL_MS,
        mode != Mode::Blink ==> led_step_of(
            Mode::Blink,
            led_step_of(mode, stood_ms).stood_ms,
        ).drive == Drive::Flip,
{
}

/// How long the pin has stood after so many steps of blinking.
pub open spec fn stood_after(steps: nat) -> u64
    decreases steps,
{
    if steps == 0 {
        BLINK_HALF_PERIOD_MS
    } else {
        led_step_of(Mode::Blink, stood_after((steps - 1) as nat)).stood_ms
    }
}

/// An LED that blinks flips once in every half period, and at no other time.
pub proof fn law_blinks_every_half_period(steps: nat)
    ensures
        led_step_of(Mode::Blink, stood_after(steps)).drive == (if (steps * IDLE_POLL_MS)
            % BLINK_HALF_PERIOD_MS as int == 0 {
            Drive::Flip
        } else {
            Drive::Keep
        }),
{
    lemma_stood_after(steps);
}

proof fn lemma_stood_after(steps: nat)
    ensures
        stood_after(steps) == (if steps == 0 {
            400
        } else {
            100 * ((steps - 1) % 4 + 1)
        }),
    decreases steps,
{
    if steps > 0 {
        lemma_stood_after((steps - 1) as nat);
    }
}

/// A dark LED is lit by a toggle, and any other goes out.
pub proof fn law_toggle_lights_what_is_dark(mode: Mode)
    ensures
        toggled(mode) == Mode::On <==> mode == Mode::Off,
        toggled(mode) == Mode::Off <==> mode == Mode::On || mode == Mode::Blink,
{
}

/// The codes are 0, 1 and 2, and a code that was never given out means off.
pub proof fn law_codes(mode: Mode, code: u8)
    ensures
        mode_code(mode) == 0 <==> mode == Mode::Off,
        mode_code(mode) == 1 <==> mode == Mode::On,
        mode_code(mode) == 2 <==> mode == Mode::Blink,
        mode_of(code) == Mode::On <==> code == 1,
        mode_of(code) == Mode::Blink <==> code == 2,
{
}

/// A pin is low while the LED is off and high while it is on, however long it
/// has stood. Only blinking flips it: 400 ms after the last time, and at the
/// first step. Every step takes 100 ms, which count for the pin.
pub proof fn law_pin_follows_the_mode(mode: Mode, stood_ms: u64)
    ensures
        ({
            let step = led_step_of(mode, stood_ms);
            &&& step.wait_ms == 100
            &&& step.drive == Drive::Low <==> mode == Mode::Off
            &&& step.drive == Drive::High <==> mode == Mode::On
            &&& step.drive == Drive::Flip <==> mode == Mode::Blink && stood_ms >= 400
            &&& step.drive == Drive::Flip ==> step.stood_ms == 100
            &&& step.drive == Drive::Keep ==> step.stood_ms == stood_ms + 100
            &&& mode != Mode::Blink ==> step.stood_ms >= 400
        }),
{
}

} // verus!
