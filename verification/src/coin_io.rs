//! Lines of the coin acceptor: blocking, counting, debouncing.
//!
//! Each line works both ways. The acceptor pulls it low for 100 ms to report a
//! coin, and a line that is held low blocks its channel. A line is therefore
//! either an input with a pull-up or an output driven low, and never an output
//! driven high: the other side is an open collector.

use vstd::prelude::*;

use crate::bounded;
use crate::bounded::Text;
use crate::coin;
use crate::coin::{Credit, LINES};
use crate::text;

verus! {

/// How long a line has to stay low before a coin counts, in milliseconds.
pub const DEBOUNCE_MS: u64 = 20;

/// Which lines are blocked.
#[derive(Debug, Clone, Copy, PartialEq, Eq, Structural)]
pub struct Gate {
    pub mask: u8,
}

impl Default for Gate {
    fn default() -> (r: Self)
        ensures
            r.mask == 0,
    {
        Gate { mask: 0 }
    }
}

/// Says which lines are blocked.
pub fn set_block_mask(gate: &mut Gate, mask: u8)
    ensures
        final(gate).mask == mask,
{
    gate.mask = mask;
}

/// What became of a blocking command.
#[derive(Debug, Clone, Copy, PartialEq, Eq, Structural)]
pub enum BlockCommand {
    /// This mask is in force now.
    InForce(u8),
    /// The command is not UTF-8.
    NotText,
    /// The command is none of the known ones.
    NotUnderstood,
}

/// What a blocking command amounts to.
pub open spec fn block_command(payload: Seq<u8>) -> BlockCommand {
    if !vstd::utf8::valid_utf8(payload) {
        BlockCommand::NotText
    } else {
        match coin::block_mask(vstd::utf8::decode_utf8(payload)) {
            Some(mask) => BlockCommand::InForce(mask),
            None => BlockCommand::NotUnderstood,
        }
    }
}

/// Carries out a blocking command. One that is not understood changes nothing.
pub fn apply_block_command(gate: &mut Gate, payload: &[u8]) -> (r: BlockCommand)
    ensures
        r == block_command(payload@),
        final(gate).mask == (match r {
            BlockCommand::InForce(mask) => mask,
            _ => old(gate).mask,
        }),
{
    match text::utf8(payload) {
        None => BlockCommand::NotText,
        Some(command) => match coin::parse_block_mask(command) {
            Some(mask) => {
                set_block_mask(gate, mask);
                BlockCommand::InForce(mask)
            },
            None => BlockCommand::NotUnderstood,
        },
    }
}

/// Whether the whole acceptor is blocked.
#[derive(Debug, Clone, Copy, PartialEq, Eq, Structural)]
pub struct TotalBlock {
    pub blocked: bool,
}

impl Default for TotalBlock {
    fn default() -> (r: Self)
        ensures
            !r.blocked,
    {
        TotalBlock { blocked: false }
    }
}

/// What became of a command of the total block.
#[derive(Debug, Clone, Copy, PartialEq, Eq, Structural)]
pub enum TotalCommand {
    /// The acceptor is blocked now, or not.
    InForce(bool),
    /// The command is not UTF-8.
    NotText,
    /// The command is neither of the known ones.
    NotUnderstood,
}

/// What a command of the total block amounts to.
pub open spec fn total_command(payload: Seq<u8>) -> TotalCommand {
    if !vstd::utf8::valid_utf8(payload) {
        TotalCommand::NotText
    } else {
        match coin::total_block(vstd::utf8::decode_utf8(payload)) {
            Some(blocked) => TotalCommand::InForce(blocked),
            None => TotalCommand::NotUnderstood,
        }
    }
}

/// Carries out a command of the total block. One that is not understood changes
/// nothing.
pub fn apply_total_command(total: &mut TotalBlock, payload: &[u8]) -> (r: TotalCommand)
    ensures
        r == total_command(payload@),
        final(total).blocked == (match r {
            TotalCommand::InForce(blocked) => blocked,
            _ => old(total).blocked,
        }),
{
    match text::utf8(payload) {
        None => TotalCommand::NotText,
        Some(command) => match coin::parse_total_block(command) {
            Some(blocked) => {
                total.blocked = blocked;
                TotalCommand::InForce(blocked)
            },
            None => TotalCommand::NotUnderstood,
        },
    }
}

/// The event that reports a coin.
pub open spec fn coin_event(line: nat, value: u32, credit: u32) -> Seq<char> {
    "{\"line\":"@ + text::decimal(line) + ",\"value\":"@ + text::decimal(value as nat)
        + ",\"credit\":"@ + text::decimal(credit as nat) + "}"@
}

/// Bytes that an event can take at most.
pub const COIN_TEXT_SIZE: usize = 64;

proof fn lemma_coin_event_fits(line: u32, value: u32, credit: u32)
    ensures
        bounded::byte_len(coin_event(line as nat, value, credit)) <= 58,
{
    reveal_strlit("{\"line\":");
    reveal_strlit(",\"value\":");
    reveal_strlit(",\"credit\":");
    reveal_strlit("}");
    text::lemma_decimal_is_digits(line as nat);
    text::lemma_decimal_is_digits(value as nat);
    text::lemma_decimal_is_digits(credit as nat);
    text::lemma_decimal_of_u32(line);
    text::lemma_decimal_of_u32(value);
    text::lemma_decimal_of_u32(credit);
    let event = coin_event(line as nat, value, credit);
    let a = "{\"line\":"@ + text::decimal(line as nat);
    let b = a + ",\"value\":"@;
    let c = b + text::decimal(value as nat);
    let d = c + ",\"credit\":"@;
    let e = d + text::decimal(credit as nat);
    bounded::lemma_byte_len_ascii("{\"line\":"@);
    bounded::lemma_byte_len_ascii(",\"value\":"@);
    bounded::lemma_byte_len_ascii(",\"credit\":"@);
    bounded::lemma_byte_len_ascii("}"@);
    bounded::lemma_byte_len_add("{\"line\":"@, text::decimal(line as nat));
    bounded::lemma_byte_len_add(a, ",\"value\":"@);
    bounded::lemma_byte_len_add(b, text::decimal(value as nat));
    bounded::lemma_byte_len_add(c, ",\"credit\":"@);
    bounded::lemma_byte_len_add(d, text::decimal(credit as nat));
    bounded::lemma_byte_len_add(e, "}"@);
}

/// Value of the coin that a line stands for; 0 for a line without one.
pub open spec fn line_value(values: Seq<u32>, line: nat) -> u32 {
    if line < values.len() {
        values[line as int]
    } else {
        0
    }
}

/// The mask that blocks the lines without a coin, so that they swallow nothing.
pub fn unpriced_mask(values: &[u32; LINES]) -> (r: u8)
    ensures
        r < 64,
        forall|line: nat|
            line < LINES ==> (#[trigger] coin::blocks(r, line) <==> values@[line as int] == 0),
{
    let mut mask: u8 = 0;
    let mut i: usize = 0;
    assert forall|line: nat| line < LINES implies !#[trigger] coin::blocks(0, line) by {
        let bit = line as u8;
        assert(0u8 & (1u8 << bit) == 0) by (bit_vector);
    }
    while i < LINES
        invariant
            i <= LINES,
            mask < 64,
            forall|line: nat|
                line < LINES ==> (#[trigger] coin::blocks(mask, line) <==> line < i
                    && values@[line as int] == 0),
        decreases LINES - i,
    {
        let ghost before = mask;
        if values[i] == 0 {
            mask = mask | (1u8 << (i as u8));
        }
        proof {
            let set = i as u8;
            assert(set < 6 && before < 64 ==> before | (1u8 << set) < 64) by (bit_vector);
            assert forall|line: nat| line < LINES implies (#[trigger] coin::blocks(mask, line)
                <==> line < i + 1 && values@[line as int] == 0) by {
                let bit = line as u8;
                assert(coin::blocks(before, line) <==> line < i && values@[line as int] == 0);
                assert(set < 6 && bit < 6 ==> (((before | (1u8 << set)) & (1u8 << bit) != 0) <==> (
                before & (1u8 << bit) != 0 || set == bit))) by (bit_vector);
            }
        }
        i = i + 1;
    }
    mask
}

/// Counts a coin and gives the event to publish.
///
/// A line without a value counts nothing.
pub fn register(account: &mut Credit, values: &[u32; LINES], line: usize) -> (r: Option<Text>)
    ensures
        line_value(values@, line as nat) == 0 ==> r is None && final(account).total == old(
            account,
        ).total,
        line_value(values@, line as nat) != 0 ==> {
            &&& final(account).total == coin::saturated(
                old(account).total,
                line_value(values@, line as nat),
            )
            &&& r matches Some(event)
            &&& event@ == coin_event(
                (line + 1) as nat,
                line_value(values@, line as nat),
                final(account).total,
            )
            &&& bounded::text_capacity(event) == COIN_TEXT_SIZE
        },
{
    let value: u32 = if line < LINES {
        values[line]
    } else {
        0
    };
    if value == 0 {
        return None;
    }
    let total: u32 = coin::add(account, value);
    let mut event = String::from_str("{\"line\":");
    text::append_decimal(&mut event, (line + 1) as u64);
    event.append(",\"value\":");
    text::append_decimal(&mut event, value as u64);
    event.append(",\"credit\":");
    text::append_decimal(&mut event, total as u64);
    event.append("}");
    proof {
        lemma_coin_event_fits((line + 1) as u32, value, total);
    }
    Text::holding::<COIN_TEXT_SIZE>(event.as_str())
}

/// What happens on a line.
#[derive(Debug, Clone, Copy, PartialEq, Eq, Structural)]
pub enum LineEvent {
    /// Another set of lines is blocked now.
    MaskChanged(u8),
    /// A falling edge on a line that was listened to.
    Fell,
    /// The debounce time after a falling edge is over.
    Settled { low: bool },
    /// The line went high again after a coin.
    Released,
}

/// What the watcher of a line does next. Driving the line high is not among
/// it.
#[derive(Debug, Clone, Copy, PartialEq, Eq, Structural)]
pub enum LineAction {
    /// Drive the line low and wait for another mask.
    HoldLow,
    /// Make the line an input and wait for a falling edge or another mask.
    Listen,
    /// Wait for [`DEBOUNCE_MS`] and look at the line.
    Debounce,
    /// Count a coin and wait until the line goes high.
    Count,
    /// Go on waiting.
    Nothing,
}

/// What the watcher of a line waits for.
#[derive(Debug, Clone, Copy, PartialEq, Eq, Structural)]
pub enum LinePhase {
    /// The line is held low: another mask.
    Held,
    /// The line is listened to: a coin or another mask.
    Listening,
    /// An edge has come: the end of the debounce time.
    Settling,
    /// A coin was counted: the line to go high.
    Counted,
}

/// What a line does when nothing is going on.
pub open spec fn at_rest(mask: u8, line: nat) -> (LinePhase, LineAction) {
    if coin::blocks(mask, line) {
        (LinePhase::Held, LineAction::HoldLow)
    } else {
        (LinePhase::Listening, LineAction::Listen)
    }
}

/// The mask that a watcher goes by after an event. A change that comes while a
/// coin is being counted is seen when the line is at rest again.
pub open spec fn mask_after(mask: u8, phase: LinePhase, event: LineEvent) -> u8 {
    match event {
        LineEvent::MaskChanged(updated) => if phase == LinePhase::Held || phase
            == LinePhase::Listening {
            updated
        } else {
            mask
        },
        _ => mask,
    }
}

/// What a watcher waits for and does after an event. An event that it does not
/// wait for changes nothing.
pub open spec fn line_step(mask: u8, line: nat, phase: LinePhase, event: LineEvent) -> (
    LinePhase,
    LineAction,
) {
    match (phase, event) {
        (LinePhase::Held, LineEvent::MaskChanged(updated)) => at_rest(updated, line),
        (LinePhase::Listening, LineEvent::MaskChanged(updated)) => at_rest(updated, line),
        (LinePhase::Listening, LineEvent::Fell) => (LinePhase::Settling, LineAction::Debounce),
        (LinePhase::Settling, LineEvent::Settled { low }) => if low {
            (LinePhase::Counted, LineAction::Count)
        } else {
            at_rest(mask, line)
        },
        (LinePhase::Counted, LineEvent::Released) => at_rest(mask, line),
        _ => (phase, LineAction::Nothing),
    }
}

/// Watches one line of the acceptor.
///
/// One watcher per line, so that a coin on one line is not lost while another
/// line settles.
#[derive(Debug, Clone, Copy, PartialEq, Eq, Structural)]
pub struct LineWatcher {
    pub line: usize,
    pub mask: u8,
    pub phase: LinePhase,
}

impl LineWatcher {
    /// A watcher at its start, and what it does first.
    pub fn new(line: usize, mask: u8) -> (r: (LineWatcher, LineAction))
        ensures
            r.0.line == line,
            r.0.mask == mask,
            (r.0.phase, r.1) == at_rest(mask, line as nat),
    {
        let mut watcher = LineWatcher { line, mask, phase: LinePhase::Held };
        let action = watcher.rest();
        (watcher, action)
    }

    fn rest(&mut self) -> (r: LineAction)
        ensures
            (final(self).phase, r) == at_rest(old(self).mask, old(self).line as nat),
            final(self).mask == old(self).mask,
            final(self).line == old(self).line,
    {
        if coin::is_blocked(self.mask, self.line) {
            self.phase = LinePhase::Held;
            LineAction::HoldLow
        } else {
            self.phase = LinePhase::Listening;
            LineAction::Listen
        }
    }

    /// Takes an event and says what to do next.
    pub fn on_event(&mut self, event: LineEvent) -> (r: LineAction)
        ensures
            (final(self).phase, r) == line_step(
                old(self).mask,
                old(self).line as nat,
                old(self).phase,
                event,
            ),
            final(self).mask == mask_after(old(self).mask, old(self).phase, event),
            final(self).line == old(self).line,
    {
        match (self.phase, event) {
            (LinePhase::Held, LineEvent::MaskChanged(updated)) => {
                self.mask = updated;
                self.rest()
            },
            (LinePhase::Listening, LineEvent::MaskChanged(updated)) => {
                self.mask = updated;
                self.rest()
            },
            (LinePhase::Listening, LineEvent::Fell) => {
                self.phase = LinePhase::Settling;
                LineAction::Debounce
            },
            (LinePhase::Settling, LineEvent::Settled { low }) => {
                if low {
                    self.phase = LinePhase::Counted;
                    LineAction::Count
                } else {
                    self.rest()
                }
            },
            (LinePhase::Counted, LineEvent::Released) => self.rest(),
            _ => LineAction::Nothing,
        }
    }
}

/// A coin counts exactly when the line is still low after the debounce time.
pub proof fn law_only_settled_coins_count(
    mask: u8,
    line: nat,
    phase: LinePhase,
    event: LineEvent,
)
    ensures
        line_step(mask, line, phase, event).1 == LineAction::Count <==> phase == LinePhase::Settling
            && event == (LineEvent::Settled { low: true }),
{
}

/// One pulse counts once: after a coin nothing counts, and no edge is even
/// listened to, until the line has gone high.
pub proof fn law_one_pulse_counts_once(mask: u8, line: nat, phase: LinePhase, event: LineEvent)
    ensures
        line_step(mask, line, phase, event).1 == LineAction::Count ==> line_step(
            mask,
            line,
            phase,
            event,
        ).0 == LinePhase::Counted,
        phase == LinePhase::Counted && event != LineEvent::Released ==> line_step(
            mask,
            line,
            phase,
            event,
        ) == (LinePhase::Counted, LineAction::Nothing),
{
}

/// A line at rest is held exactly while it is blocked, and it stays so: nothing
/// counts on a held line, and it is let go only by a mask that leaves it open.
pub proof fn law_blocked_line_is_held(mask: u8, line: nat, phase: LinePhase, event: LineEvent)
    requires
        phase == LinePhase::Held ==> coin::blocks(mask, line),
        phase == LinePhase::Listening ==> !coin::blocks(mask, line),
    ensures
        ({
            let after = line_step(mask, line, phase, event);
            let known = mask_after(mask, phase, event);
            &&& after.0 == LinePhase::Held ==> coin::blocks(known, line)
            &&& after.0 == LinePhase::Listening ==> !coin::blocks(known, line)
            &&& phase == LinePhase::Held ==> after.1 != LineAction::Count && after.1
                != LineAction::Debounce
            &&& phase == LinePhase::Held && coin::blocks(known, line) ==> after.0 == LinePhase::Held
        }),
{
}

/// A command in UTF-8 is carried out as its text asks; octets that are no text
/// are told apart from a text that is not understood.
pub proof fn law_commands_are_texts(command: Seq<char>, payload: Seq<u8>)
    ensures
        ({
            let octets = vstd::utf8::encode_utf8(command);
            &&& coin::block_mask(command) matches Some(mask) ==> block_command(octets)
                == BlockCommand::InForce(mask)
            &&& coin::block_mask(command) is None ==> block_command(octets)
                == BlockCommand::NotUnderstood
            &&& coin::total_block(command) matches Some(blocked) ==> total_command(octets)
                == TotalCommand::InForce(blocked)
            &&& coin::total_block(command) is None ==> total_command(octets)
                == TotalCommand::NotUnderstood
        }),
        !vstd::utf8::valid_utf8(payload) <==> block_command(payload) == BlockCommand::NotText,
        !vstd::utf8::valid_utf8(payload) <==> total_command(payload) == TotalCommand::NotText,
{
    vstd::utf8::encode_utf8_valid_utf8(command);
    vstd::utf8::encode_utf8_decode_utf8(command);
}

/// The event of a coin is an object of three members: taken apart at its
/// marks, it gives the line, the value and the credit as they are.
pub proof fn law_coin_event_carries_its_numbers(line: nat, value: u32, credit: u32)
    ensures
        text::pieces(coin_event(line, value, credit), seq![':', ',', '}']) == seq![
            seq!['{', '"', 'l', 'i', 'n', 'e', '"'],
            text::decimal(line),
            seq!['"', 'v', 'a', 'l', 'u', 'e', '"'],
            text::decimal(value as nat),
            seq!['"', 'c', 'r', 'e', 'd', 'i', 't', '"'],
            text::decimal(credit as nat),
            Seq::<char>::empty(),
        ],
        coin_event(line, value, credit).last() == '}',
{
    let marks = seq![':', ',', '}'];
    assert(marks[0] == ':' && marks[1] == ',' && marks[2] == '}');
    let a = seq!['{', '"', 'l', 'i', 'n', 'e', '"'];
    let b = seq!['"', 'v', 'a', 'l', 'u', 'e', '"'];
    let c = seq!['"', 'c', 'r', 'e', 'd', 'i', 't', '"'];
    let l = text::decimal(line);
    let v = text::decimal(value as nat);
    let m = text::decimal(credit as nat);
    reveal_strlit("{\"line\":");
    reveal_strlit(",\"value\":");
    reveal_strlit(",\"credit\":");
    reveal_strlit("}");
    assert("{\"line\":"@ =~= a.push(':'));
    assert(",\"value\":"@ =~= seq![','] + b.push(':'));
    assert(",\"credit\":"@ =~= seq![','] + c.push(':'));
    assert("}"@ =~= seq!['}']);
    text::lemma_decimal_is_digits(line);
    text::lemma_decimal_is_digits(value as nat);
    text::lemma_decimal_is_digits(credit as nat);
    lemma_split_off(m, '}', Seq::empty());
    let e6 = m.push('}') + Seq::<char>::empty();
    lemma_split_off(c, ':', e6);
    let e5 = c.push(':') + e6;
    lemma_split_off(v, ',', e5);
    let e4 = v.push(',') + e5;
    lemma_split_off(b, ':', e4);
    let e3 = b.push(':') + e4;
    lemma_split_off(l, ',', e3);
    let e2 = l.push(',') + e3;
    lemma_split_off(a, ':', e2);
    let e1 = a.push(':') + e2;
    text::law_unbroken_text_is_one_piece(Seq::empty(), marks);
    assert(coin_event(line, value, credit) =~= e1);
    assert(text::pieces(e1, marks) =~= seq![a, l, b, v, c, m, Seq::<char>::empty()]);
}

proof fn lemma_split_off(piece: Seq<char>, mark: char, rest: Seq<char>)
    requires
        mark == ':' || mark == ',' || mark == '}',
        forall|i: int|
            0 <= i < piece.len() ==> #[trigger] piece[i] != ':' && piece[i] != ',' && piece[i] != '}',
    ensures
        text::pieces(piece.push(mark) + rest, seq![':', ',', '}']) == seq![piece] + text::pieces(
            rest,
            seq![':', ',', '}'],
        ),
{
    let marks = seq![':', ',', '}'];
    assert(marks[0] == ':' && marks[1] == ',' && marks[2] == '}');
    text::law_unbroken_text_is_one_piece(piece, marks);
    text::law_separator_parts_a_text(piece, mark, rest, marks);
}

/// A coin is worth what its line is priced at; a line that is not there, or has
/// no price, is worth nothing.
pub proof fn law_lines_have_prices(values: Seq<u32>, line: nat)
    ensures
        line < values.len() ==> line_value(values, line) == values[line as int],
        line >= values.len() ==> line_value(values, line) == 0,
{
}

/// A pulse that is still there when it has settled is a coin, on every open
/// line and however often: the line is heard to fall, settles, counts, goes
/// high, and is listened to again.
pub proof fn law_a_settled_pulse_is_a_coin(mask: u8, line: nat)
    requires
        !coin::blocks(mask, line),
    ensures
        at_rest(mask, line) == (LinePhase::Listening, LineAction::Listen),
        line_step(mask, line, LinePhase::Listening, LineEvent::Fell) == (
            LinePhase::Settling,
            LineAction::Debounce,
        ),
        line_step(mask, line, LinePhase::Settling, LineEvent::Settled { low: true }) == (
            LinePhase::Counted,
            LineAction::Count,
        ),
        line_step(mask, line, LinePhase::Settling, LineEvent::Settled { low: false }) == (
            LinePhase::Listening,
            LineAction::Listen,
        ),
        line_step(mask, line, LinePhase::Counted, LineEvent::Released) == (
            LinePhase::Listening,
            LineAction::Listen,
        ),
{
}

/// A new mask holds a line at rest low, or lets it go, at once. During a pulse
/// it waits, and the pulse is judged by the mask under which it began.
pub proof fn law_a_new_mask_is_obeyed(mask: u8, line: nat, phase: LinePhase, updated: u8)
    ensures
        phase == LinePhase::Held || phase == LinePhase::Listening ==> {
            &&& mask_after(mask, phase, LineEvent::MaskChanged(updated)) == updated
            &&& coin::blocks(updated, line) ==> line_step(
                mask,
                line,
                phase,
                LineEvent::MaskChanged(updated),
            ) == (LinePhase::Held, LineAction::HoldLow)
            &&& !coin::blocks(updated, line) ==> line_step(
                mask,
                line,
                phase,
                LineEvent::MaskChanged(updated),
            ) == (LinePhase::Listening, LineAction::Listen)
        },
        phase == LinePhase::Settling || phase == LinePhase::Counted ==> {
            &&& mask_after(mask, phase, LineEvent::MaskChanged(updated)) == mask
            &&& line_step(mask, line, phase, LineEvent::MaskChanged(updated)) == (
                phase,
                LineAction::Nothing,
            )
        },
        mask_after(mask, phase, LineEvent::Fell) == mask,
        mask_after(mask, phase, LineEvent::Released) == mask,
        mask_after(mask, phase, LineEvent::Settled { low: true }) == mask,
        mask_after(mask, phase, LineEvent::Settled { low: false }) == mask,
{
}

/// A pulse that is over, settled or not, leaves the line at rest as the mask
/// says. An event that is not waited for changes nothing.
pub proof fn law_lines_come_to_rest(mask: u8, line: nat, phase: LinePhase, event: LineEvent)
    ensures
        ({
            let rest = if coin::blocks(mask, line) {
                (LinePhase::Held, LineAction::HoldLow)
            } else {
                (LinePhase::Listening, LineAction::Listen)
            };
            &&& at_rest(mask, line) == rest
            &&& phase == LinePhase::Settling && event == (LineEvent::Settled { low: false })
                ==> line_step(mask, line, phase, event) == rest
            &&& phase == LinePhase::Counted && event == LineEvent::Released ==> line_step(
                mask,
                line,
                phase,
                event,
            ) == rest
            &&& event == LineEvent::Fell && phase != LinePhase::Listening ==> line_step(
                mask,
                line,
                phase,
                event,
            ) == (phase, LineAction::Nothing)
            &&& event is Settled && phase != LinePhase::Settling ==> line_step(
                mask,
                line,
                phase,
                event,
            ) == (phase, LineAction::Nothing)
            &&& event == LineEvent::Released && phase != LinePhase::Counted ==> line_step(
                mask,
                line,
                phase,
                event,
            ) == (phase, LineAction::Nothing)
        }),
{
}

} // verus!
