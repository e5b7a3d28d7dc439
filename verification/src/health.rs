//! Counters of link failures since power-up.
//!
//! Two levels are counted apart, because they fail apart: the link, when PPP
//! falls and the modem has to be brought up again, and MQTT, when the link is
//! whole and the broker is lost.

use vstd::prelude::*;

use crate::text;

verus! {

/// How often each level has failed.
#[derive(Debug, Clone, Copy, PartialEq, Eq, Structural)]
pub struct Drops {
    pub link: u32,
    pub mqtt: u32,
}

impl Default for Drops {
    fn default() -> (r: Self)
        ensures
            r.link == 0,
            r.mqtt == 0,
    {
        Drops { link: 0, mqtt: 0 }
    }
}

/// One more, stopped at the top: a counter that wrapped round to zero would say
/// that all is well.
pub open spec fn bumped(count: u32) -> u32 {
    if count == u32::MAX {
        u32::MAX
    } else {
        (count + 1) as u32
    }
}

fn bump(count: u32) -> (r: u32)
    ensures
        r == bumped(count),
{
    count.saturating_add(1)
}

/// The link fell: the PPP session is over.
pub fn link_dropped(drops: &mut Drops) -> (r: u32)
    ensures
        r == bumped(old(drops).link),
        final(drops).link == r,
        final(drops).mqtt == old(drops).mqtt,
{
    drops.link = bump(drops.link);
    drops.link
}

/// The session with the broker is lost.
pub fn mqtt_dropped(drops: &mut Drops) -> (r: u32)
    ensures
        r == bumped(old(drops).mqtt),
        final(drops).mqtt == r,
        final(drops).link == old(drops).link,
{
    drops.mqtt = bump(drops.mqtt);
    drops.mqtt
}

/// How often the link has fallen.
pub fn link_drops(drops: &Drops) -> (r: u32)
    ensures
        r == drops.link,
{
    drops.link
}

/// How often the broker was lost.
pub fn mqtt_drops(drops: &Drops) -> (r: u32)
    ensures
        r == drops.mqtt,
{
    drops.mqtt
}

/// A failure is never forgotten: after one more the counter is not zero, and
/// not less than before.
pub proof fn law_counter_never_goes_back(count: u32)
    ensures
        bumped(count) >= count,
        bumped(count) > 0,
{
}

/// A counter for a narrow line of the screen: two digits, then ">99".
#[derive(Debug, Clone, Copy, PartialEq, Eq, Structural)]
pub struct Short(pub u32);

/// How a counter is shown in little room.
pub open spec fn short_text(count: u32) -> Seq<char> {
    if count > 99 {
        ">99"@
    } else {
        text::decimal(count as nat)
    }
}

impl Short {
    /// The characters to show.
    pub fn text(&self) -> (r: String)
        ensures
            r@ == short_text(self.0),
    {
        if self.0 > 99 {
            String::from_str(">99")
        } else {
            let mut shown = String::new();
            text::append_decimal(&mut shown, self.0 as u64);
            assert(shown@ =~= text::decimal(self.0 as nat));
            shown
        }
    }
}

/// A counter made fit for a narrow line.
///
/// Cutting the number would lie about its size: "100" would become "10". A mark
/// for "more" is honest.
pub fn short(count: u32) -> (r: Short)
    ensures
        r.0 == count,
{
    Short(count)
}

/// Whatever the count, what is shown is at most three characters wide and says
/// the truth: the number itself, or that it is greater than 99.
pub proof fn law_short_is_narrow_and_true(count: u32)
    ensures
        1 <= short_text(count).len() <= 3,
        count <= 99 ==> short_text(count) == text::decimal(count as nat),
        count > 99 ==> short_text(count) == seq!['>', '9', '9'],
{
    reveal_strlit(">99");
    reveal_with_fuel(text::decimal, 3);
    assert(">99"@ =~= seq!['>', '9', '9']);
}

/// The counter after so many failures.
pub open spec fn after_failures(count: u32, failures: nat) -> u32
    decreases failures,
{
    if failures == 0 {
        count
    } else {
        bumped(after_failures(count, (failures - 1) as nat))
    }
}

/// Every failure counts for one. Only when there is no room for the sum does
/// the counter stand at its top.
pub proof fn law_every_failure_counts(count: u32, failures: nat)
    ensures
        after_failures(count, failures) == if count + failures <= 0xFFFF_FFFF {
            count + failures
        } else {
            0xFFFF_FFFF
        },
    decreases failures,
{
    if failures > 0 {
        law_every_failure_counts(count, (failures - 1) as nat);
    }
}

/// A count of up to two digits can be read back from what is shown, and no
/// greater one is shown as a number.
pub proof fn law_short_can_be_read_back(count: u32)
    ensures
        text::number_up_to(short_text(count), 99) == if count < 100 {
            Some(count as nat)
        } else {
            None::<nat>
        },
{
    if count < 100 {
        text::law_number_is_read(false, 0, count as nat, 99);
        assert(text::written_number(false, 0, count as nat) =~= text::decimal(count as nat));
    } else {
        reveal_strlit(">99");
        assert(!text::is_digit(">99"@[0]));
    }
}

} // verus!
