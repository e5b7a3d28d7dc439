//! Logical channels over one line: what to write, whom to answer, where data
//! goes.
//!
//! Two things hold it together. A frame goes out in several writes, so whoever
//! writes one keeps the line until its last octet. And a write never carries
//! more than the agreed payload: it says how much it took, and the caller
//! writes the rest in further frames.

use vstd::prelude::*;

use crate::cmux;
use crate::cmux::control;
use crate::cmux::control::V24Signals;
use crate::cmux::decoder;
use crate::cmux::laws;
use crate::cmux::{
    ChannelState, DecodeError, Decoder, Event, EventView, Frame, FrameView, Session, UihFraming,
    CONTROL_DLCI,
};

verus! {

/// How often the state of a channel is looked at while it opens, in
/// milliseconds.
pub const POLL_INTERVAL_MS: u64 = 20;

/// Pause after a failed read, in milliseconds. A line that is stuck fails at
/// once and without end; without a pause nothing else would run.
pub const READ_ERROR_BACKOFF_MS: u64 = 5;

/// What can go wrong on a channel.
#[derive(Debug, Clone, Copy, PartialEq, Eq, Structural)]
pub enum Error {
    /// The UART took no data.
    Write,
    /// The frame could not be built: channel or length out of range.
    Framing,
}

impl Error {
    /// The error in words.
    pub fn text(&self) -> (r: &'static str)
        ensures
            r@ == (match *self {
                Error::Write => "cmux: ошибка записи в UART"@,
                Error::Framing => "cmux: кадр не собрался"@,
            }),
    {
        match self {
            Error::Write => "cmux: ошибка записи в UART",
            Error::Framing => "cmux: кадр не собрался",
        }
    }
}

/// What kept the multiplexer from coming up.
#[derive(Debug, Clone, Copy, PartialEq, Eq, Structural)]
pub enum BringUpError {
    /// The line failed.
    Io(Error),
    /// The modem did not confirm this channel in time.
    Timeout(u8),
    /// This channel was in an unexpected state.
    State(u8),
}

impl From<Error> for BringUpError {
    fn from(e: Error) -> (r: Self) {
        BringUpError::Io(e)
    }
}

impl vstd::std_specs::convert::FromSpecImpl<Error> for BringUpError {
    open spec fn obeys_from_spec() -> bool {
        true
    }

    open spec fn from_spec(e: Error) -> Self {
        BringUpError::Io(e)
    }
}

// ---------------------------------------------------------------------------
// What goes to the line
// ---------------------------------------------------------------------------

/// Room for a service frame.
pub const SERVICE_FRAME_SIZE: usize = 8;

/// Octets of a service frame: SABM, DISC, UA or DM, which carry no information.
pub fn frame_octets(frame: &Frame<'_>) -> (r: Result<Vec<u8>, Error>)
    ensures
        cmux::encodable(frame@) && cmux::wire(frame@).len() <= SERVICE_FRAME_SIZE ==> (r matches Ok(
            octets,
        ) && octets@ == cmux::wire(frame@)),
        !(cmux::encodable(frame@) && cmux::wire(frame@).len() <= SERVICE_FRAME_SIZE) ==> r == Err::<
            Vec<u8>,
            Error,
        >(Error::Framing),
{
    let mut buf: [u8; 8] = [0; 8];
    match frame.encode(&mut buf) {
        Ok(n) => {
            let octets = vstd::slice::slice_to_vec(&buf[0..n]);
            assert(octets@ =~= cmux::wire(frame@));
            Ok(octets)
        },
        Err(_) => Err(Error::Framing),
    }
}

/// Longest value that a control message can carry here.
pub const MAX_CONTROL_VALUE: usize = 6;

/// The frame of a control message: UIH on channel 0 around type, length and
/// value.
pub open spec fn control_wire(bits: u8, command: bool, value: Seq<u8>) -> Seq<u8> {
    cmux::wire(cmux::uih_view(CONTROL_DLCI, control::message(bits, command, value)))
}

/// Octets of a control message.
pub fn control_octets(bits: u8, command: bool, value: &[u8]) -> (r: Result<Vec<u8>, Error>)
    ensures
        value@.len() <= MAX_CONTROL_VALUE ==> (r matches Ok(octets) && octets@ == control_wire(
            bits,
            command,
            value@,
        )),
        value@.len() > MAX_CONTROL_VALUE ==> r == Err::<Vec<u8>, Error>(Error::Framing),
{
    let mut message: [u8; 8] = [0; 8];
    let len: usize = match control::encode(bits, command, value, &mut message) {
        Ok(len) => len,
        Err(_) => return Err(Error::Framing),
    };
    let body: &[u8] = &message[0..len];
    assert(body@ =~= control::message(bits, command, value@));
    let frame = Frame::uih(CONTROL_DLCI, body);
    let mut buf: [u8; 16] = [0; 16];
    match frame.encode(&mut buf) {
        Ok(n) => {
            let octets = vstd::slice::slice_to_vec(&buf[0..n]);
            assert(octets@ =~= control_wire(bits, command, value@));
            Ok(octets)
        },
        Err(_) => Err(Error::Framing),
    }
}

/// Octets that tell the modem that a channel is ready: its V.24 signals.
///
/// They have to go out before any data on a new channel.
pub fn announcement_octets(dlci: u8) -> (r: Result<Vec<u8>, Error>)
    ensures
        r matches Ok(octets) && octets@ == control_wire(
            control::MSC,
            true,
            control::msc_value(dlci, control::dte_ready_signals()),
        ),
{
    let value: [u8; 2] = [(dlci << 2) | 3, V24Signals::dte_ready().encode()];
    assert(value@ =~= control::msc_value(dlci, control::dte_ready_signals()));
    control_octets(control::MSC, true, &value)
}

/// Octets that ask the modem to leave the multiplexer.
pub fn close_octets() -> (r: Result<Vec<u8>, Error>)
    ensures
        r matches Ok(octets) && octets@ == control_wire(control::CLD, true, Seq::empty()),
{
    let value: [u8; 0] = [];
    assert(value@ =~= Seq::<u8>::empty());
    control_octets(control::CLD, true, &value)
}

/// How much of a write one frame takes.
pub open spec fn taken(len: nat, max_payload: nat) -> nat {
    if len <= max_payload {
        len
    } else {
        max_payload
    }
}

/// One write to a channel: how many octets of the data it takes, and what goes
/// out before and behind them.
pub fn frame_write(dlci: u8, len: usize, max_payload: usize) -> (r: Result<
    (usize, UihFraming),
    Error,
>)
    ensures
        dlci <= 63 && taken(len as nat, max_payload as nat) <= cmux::MAX_LEN_LONG ==> (r matches Ok(
            (n, framing),
        ) && n == taken(len as nat, max_payload as nat) && framing.before() == cmux::uih_header(
            dlci,
            n as nat,
        ) && framing.after() == cmux::uih_trailer(dlci, n as nat)),
        !(dlci <= 63 && taken(len as nat, max_payload as nat) <= cmux::MAX_LEN_LONG) ==> r == Err::<
            (usize, UihFraming),
            Error,
        >(Error::Framing),
{
    let n: usize = if len <= max_payload {
        len
    } else {
        max_payload
    };
    match UihFraming::new(dlci, n) {
        Ok(framing) => Ok((n, framing)),
        Err(_) => Err(Error::Framing),
    }
}

/// What a write puts on the line is one whole data frame around the octets that
/// it took.
pub proof fn law_write_is_one_frame(dlci: u8, data: Seq<u8>, max_payload: nat)
    ensures
        ({
            let payload = data.take(taken(data.len(), max_payload) as int);
            cmux::uih_header(dlci, payload.len()) + payload + cmux::uih_trailer(dlci, payload.len())
                == cmux::wire(cmux::uih_view(dlci, payload))
        }),
{
    let payload = data.take(taken(data.len(), max_payload) as int);
    laws::law_streaming_matches_whole_frame(dlci, payload);
}

/// The payloads of the frames that a long write is cut into, in order.
pub open spec fn chunks(data: Seq<u8>, max_payload: nat) -> Seq<Seq<u8>>
    decreases data.len(),
{
    if data.len() == 0 || max_payload == 0 {
        Seq::empty()
    } else {
        let n = taken(data.len(), max_payload) as int;
        seq![data.take(n)] + chunks(data.skip(n), max_payload)
    }
}

/// What writing the payloads one after the other puts on the line.
pub open spec fn line_of(dlci: u8, payloads: Seq<Seq<u8>>) -> Seq<u8>
    decreases payloads.len(),
{
    if payloads.len() == 0 {
        Seq::empty()
    } else {
        cmux::wire(cmux::uih_view(dlci, payloads[0])) + line_of(dlci, payloads.skip(1))
    }
}

/// Payloads put together again.
pub open spec fn joined(payloads: Seq<Seq<u8>>) -> Seq<u8>
    decreases payloads.len(),
{
    if payloads.len() == 0 {
        Seq::empty()
    } else {
        payloads[0] + joined(payloads.skip(1))
    }
}

/// The data frames around payloads, as a decoder gives them.
pub open spec fn data_frames(dlci: u8, payloads: Seq<Seq<u8>>) -> Seq<
    Result<FrameView, DecodeError>,
> {
    Seq::new(payloads.len(), |i: int| Ok(cmux::uih_view(dlci, payloads[i])))
}

proof fn lemma_chunks(data: Seq<u8>, max_payload: nat)
    requires
        max_payload > 0,
    ensures
        joined(chunks(data, max_payload)) == data,
        forall|i: int|
            0 <= i < chunks(data, max_payload).len() ==> 0 < (#[trigger] chunks(
                data,
                max_payload,
            )[i]).len() <= max_payload,
    decreases data.len(),
{
    if data.len() > 0 {
        let n = taken(data.len(), max_payload) as int;
        let rest = chunks(data.skip(n), max_payload);
        let all = chunks(data, max_payload);
        lemma_chunks(data.skip(n), max_payload);
        assert(all.skip(1) =~= rest);
        assert(data.take(n) + data.skip(n) =~= data);
        assert forall|i: int| 0 <= i < all.len() implies 0 < (#[trigger] all[i]).len()
            <= max_payload by {
            if i > 0 {
                assert(all[i] == rest[i - 1]);
            }
        }
    } else {
        assert(joined(chunks(data, max_payload)) =~= data);
    }
}

proof fn lemma_line_is_read(
    position: Option<Seq<u8>>,
    dlci: u8,
    payloads: Seq<Seq<u8>>,
    capacity: nat,
)
    requires
        position is None || position == Some(Seq::<u8>::empty()),
        dlci <= 63,
        forall|i: int|
            0 <= i < payloads.len() ==> (#[trigger] payloads[i]).len() <= cmux::MAX_LEN_LONG
                && payloads[i].len() <= capacity,
    ensures
        laws::outputs_fed(position, line_of(dlci, payloads), capacity) == data_frames(
            dlci,
            payloads,
        ),
    decreases payloads.len(),
{
    if payloads.len() > 0 {
        let first = cmux::wire(cmux::uih_view(dlci, payloads[0]));
        let rest = payloads.skip(1);
        laws::law_frame_round_trip(position, cmux::uih_view(dlci, payloads[0]), capacity);
        lemma_line_is_read(Some(Seq::empty()), dlci, rest, capacity);
        laws::law_feeding_in_parts(position, first, line_of(dlci, rest), capacity);
        assert(data_frames(dlci, payloads) =~= seq![
            Ok::<FrameView, DecodeError>(cmux::uih_view(dlci, payloads[0])),
        ] + data_frames(dlci, rest));
    } else {
        assert(laws::outputs_fed(position, line_of(dlci, payloads), capacity) =~= data_frames(
            dlci,
            payloads,
        ));
    }
}

/// Data of any length arrives as it was written: cut into frames of at most the
/// agreed payload, put on the line one behind the other and read by a decoder
/// that can hold them, it comes out in order and whole.
pub proof fn law_long_write_arrives(
    position: Option<Seq<u8>>,
    dlci: u8,
    data: Seq<u8>,
    max_payload: nat,
    capacity: nat,
)
    requires
        position is None || position == Some(Seq::<u8>::empty()),
        dlci <= 63,
        0 < max_payload <= cmux::MAX_LEN_LONG,
        max_payload <= capacity,
    ensures
        laws::outputs_fed(position, line_of(dlci, chunks(data, max_payload)), capacity)
            == data_frames(dlci, chunks(data, max_payload)),
        joined(chunks(data, max_payload)) == data,
{
    lemma_chunks(data, max_payload);
    lemma_line_is_read(position, dlci, chunks(data, max_payload), capacity);
}

// ---------------------------------------------------------------------------
// Control messages of the modem
// ---------------------------------------------------------------------------

/// What a control message was about.
#[derive(Debug, Clone, Copy, PartialEq, Eq, Structural)]
pub enum ControlNotice {
    /// Not a message at all.
    Unreadable,
    /// The answer to a message of ours, with its type bits.
    Response(u8),
    /// V.24 signals of a channel, if the message names one.
    Status(Option<u8>),
    /// The modem closes the multiplexer.
    Closing,
    /// The modem takes data again.
    FlowOn,
    /// The modem asks for silence. It is answered, and otherwise let be.
    FlowOff,
    /// A command that is not known, with its type bits.
    Unknown(u8),
}

/// What a control message was about and the octets that answer it, if it has to
/// be answered.
#[derive(Debug)]
pub struct ControlOutcome {
    pub notice: ControlNotice,
    pub answer: Option<Result<Vec<u8>, Error>>,
}

/// What a payload on the control channel is about.
pub open spec fn control_notice(payload: Seq<u8>) -> ControlNotice {
    if !control::readable(payload) {
        ControlNotice::Unreadable
    } else {
        let bits = payload[0] >> 2;
        if payload[0] & 2 == 0 {
            ControlNotice::Response(bits)
        } else if bits == control::MSC {
            if payload[1] as int / 2 > 0 {
                ControlNotice::Status(Some(payload[2] >> 2))
            } else {
                ControlNotice::Status(None)
            }
        } else if bits == control::CLD {
            ControlNotice::Closing
        } else if bits == control::FCON {
            ControlNotice::FlowOn
        } else if bits == control::FCOFF {
            ControlNotice::FlowOff
        } else {
            ControlNotice::Unknown(bits)
        }
    }
}

/// Type bits and value of the answer to a payload on the control channel.
///
/// A command is answered with its own type bits: a status command with the very
/// signals that came, the others with nothing. A command that is not known is
/// answered by "not supported" around its type octet. Answers are not answered.
pub open spec fn control_answer(payload: Seq<u8>) -> Option<(u8, Seq<u8>)> {
    match control_notice(payload) {
        ControlNotice::Status(_) => Some(
            (control::MSC, payload.subrange(2, 2 + payload[1] as int / 2)),
        ),
        ControlNotice::Closing => Some((control::CLD, Seq::empty())),
        ControlNotice::FlowOn => Some((control::FCON, Seq::empty())),
        ControlNotice::FlowOff => Some((control::FCOFF, Seq::empty())),
        ControlNotice::Unknown(bits) => Some(
            (control::NSC, seq![control::spec_type_octet(bits, true)]),
        ),
        _ => None,
    }
}

/// Whether an outcome is the one that a payload on the control channel calls
/// for.
pub open spec fn answers_control(outcome: ControlOutcome, payload: Seq<u8>) -> bool {
    &&& outcome.notice == control_notice(payload)
    &&& match control_answer(payload) {
        None => outcome.answer is None,
        Some((bits, value)) => if value.len() <= MAX_CONTROL_VALUE {
            outcome.answer matches Some(Ok(octets)) && octets@ == control_wire(bits, false, value)
        } else {
            outcome.answer == Some(Err::<Vec<u8>, Error>(Error::Framing))
        },
    }
}

/// Reads a message on the control channel and prepares its answer.
pub fn handle_control_message(payload: &[u8]) -> (r: ControlOutcome)
    ensures
        answers_control(r, payload@),
{
    let (bits, command, value) = match control::decode(payload) {
        Some(message) => message,
        None => return ControlOutcome { notice: ControlNotice::Unreadable, answer: None },
    };
    if !command {
        return ControlOutcome { notice: ControlNotice::Response(bits), answer: None };
    }
    let nothing: [u8; 0] = [];
    assert(nothing@ =~= Seq::<u8>::empty());
    if bits == control::MSC {
        let dlci: Option<u8> = if value.len() > 0 {
            Some(value[0] >> 2)
        } else {
            None
        };
        ControlOutcome {
            notice: ControlNotice::Status(dlci),
            answer: Some(control_octets(bits, false, value)),
        }
    } else if bits == control::CLD {
        ControlOutcome {
            notice: ControlNotice::Closing,
            answer: Some(control_octets(bits, false, &nothing)),
        }
    } else if bits == control::FCON {
        ControlOutcome {
            notice: ControlNotice::FlowOn,
            answer: Some(control_octets(bits, false, &nothing)),
        }
    } else if bits == control::FCOFF {
        ControlOutcome {
            notice: ControlNotice::FlowOff,
            answer: Some(control_octets(bits, false, &nothing)),
        }
    } else {
        let unsupported: [u8; 1] = [control::type_octet(bits, true)];
        assert(unsupported@ =~= seq![control::spec_type_octet(bits, true)]);
        ControlOutcome {
            notice: ControlNotice::Unknown(bits),
            answer: Some(control_octets(control::NSC, false, &unsupported)),
        }
    }
}

/// Every readable command gets an answer, with its own type bits if it is
/// known; an answer never gets one.
pub proof fn law_every_command_is_answered(bits: u8, command: bool, value: Seq<u8>)
    requires
        bits <= 0x3F,
        value.len() <= 127,
    ensures
        ({
            let payload = control::message(bits, command, value);
            &&& !command ==> control_answer(payload) is None
            &&& command && bits == control::MSC ==> control_answer(payload) == Some((bits, value))
            &&& command && (bits == control::CLD || bits == control::FCON || bits == control::FCOFF)
                ==> control_answer(payload) == Some((bits, Seq::<u8>::empty()))
            &&& command && bits != control::MSC && bits != control::CLD && bits != control::FCON
                && bits != control::FCOFF ==> control_answer(payload) == Some(
                (control::NSC, seq![control::spec_type_octet(bits, true)]),
            )
        }),
{
    let payload = control::message(bits, command, value);
    laws::law_control_message_round_trip(bits, command, value, Seq::empty());
    assert(payload + Seq::<u8>::empty() =~= payload);
}

// ---------------------------------------------------------------------------
// Opening channels
// ---------------------------------------------------------------------------

/// Which channels to bring up, and how patiently.
#[derive(Debug, Clone, Copy, PartialEq, Eq, Structural)]
pub struct Channels {
    /// Channel for AT commands.
    pub at: u8,
    /// Channel for PPP.
    pub ppp: u8,
    pub attempts: u32,
    /// How long to wait for one confirmation, in milliseconds.
    pub timeout_ms: u64,
}

/// What to do while a confirmation is awaited.
#[derive(Debug, Clone, Copy, PartialEq, Eq, Structural)]
pub enum Wait {
    /// The state is reached.
    Reached,
    /// Time is up.
    Expired,
    /// Look again after [`POLL_INTERVAL_MS`].
    Again,
}

/// Looks whether a channel has reached a state. A state that is reached counts
/// even when time is up.
pub fn wait_state(session: &Session, dlci: u8, want: ChannelState, expired: bool) -> (r: Wait)
    ensures
        r == (if cmux::state_in(session@, dlci) == want {
            Wait::Reached
        } else if expired {
            Wait::Expired
        } else {
            Wait::Again
        }),
{
    if session.state(dlci) == want {
        Wait::Reached
    } else if expired {
        Wait::Expired
    } else {
        Wait::Again
    }
}

/// What to do next to open a channel.
#[derive(Debug)]
pub enum OpenStep {
    /// The channel is open.
    Done,
    /// Send these octets and wait for the confirmation.
    Send(Vec<u8>),
    /// It will not open.
    GiveUp(BringUpError),
}

/// Attempts to open one channel.
///
/// A modem that enters the multiplexer often misses the first request, so it is
/// repeated.
#[derive(Debug, Clone, Copy, PartialEq, Eq, Structural)]
pub struct Opening {
    pub dlci: u8,
    /// How many requests may be sent.
    pub attempts: u32,
    /// How many have been sent.
    pub sent: u32,
}

impl Opening {
    /// Nothing sent yet.
    pub fn new(dlci: u8, attempts: u32) -> (r: Opening)
        ensures
            r.dlci == dlci,
            r.attempts == attempts,
            r.sent == 0,
    {
        Opening { dlci, attempts, sent: 0 }
    }

    /// The next attempt, at the start and whenever a confirmation did not come
    /// in time.
    pub fn next(&mut self, session: &mut Session) -> (r: OpenStep)
        ensures
            final(self).dlci == old(self).dlci,
            final(self).attempts == old(self).attempts,
            old(self).sent >= old(self).attempts ==> {
                &&& r == OpenStep::GiveUp(BringUpError::Timeout(old(self).dlci))
                &&& final(self).sent == old(self).sent
                &&& final(session)@ == old(session)@
            },
            old(self).sent < old(self).attempts && cmux::state_in(old(session)@, old(self).dlci)
                == ChannelState::Open ==> {
                &&& r == OpenStep::Done
                &&& final(self).sent == old(self).sent
                &&& final(session)@ == old(session)@
            },
            old(self).sent < old(self).attempts && old(self).dlci > 63 ==> {
                &&& r == OpenStep::GiveUp(BringUpError::State(old(self).dlci))
                &&& final(self).sent == old(self).sent
                &&& final(session)@ == old(session)@
            },
            old(self).sent < old(self).attempts && old(self).dlci <= 63 && old(
                session,
            )@[old(self).dlci as int] != ChannelState::Open ==> {
                &&& r matches OpenStep::Send(octets)
                &&& octets@ == cmux::wire(
                    cmux::control_view(old(self).dlci, cmux::FrameKind::Sabm, true, true),
                )
                &&& final(self).sent == old(self).sent + 1
                &&& final(session)@ == old(session)@.update(
                    old(self).dlci as int,
                    ChannelState::Opening,
                )
            },
    {
        if self.sent >= self.attempts {
            return OpenStep::GiveUp(BringUpError::Timeout(self.dlci));
        }
        if session.state(self.dlci) == ChannelState::Open {
            return OpenStep::Done;
        }
        let ghost before = session@;
        proof {
            session.lemma_has_64_channels();
        }
        // An earlier attempt may have left the channel half open.
        session.force_closed(self.dlci);
        let sabm = match session.open(self.dlci) {
            Ok(sabm) => sabm,
            Err(_) => return OpenStep::GiveUp(BringUpError::State(self.dlci)),
        };
        proof {
            if self.dlci <= 63 {
                assert(session@ =~= before.update(self.dlci as int, ChannelState::Opening));
            }
        }
        match frame_octets(&sabm) {
            Ok(octets) => {
                self.sent = self.sent + 1;
                OpenStep::Send(octets)
            },
            Err(e) => OpenStep::GiveUp(BringUpError::from(e)),
        }
    }
}

/// What happened while the multiplexer comes up.
#[derive(Debug, Clone, Copy, PartialEq, Eq, Structural)]
pub enum UpEvent {
    /// Nothing yet.
    Start,
    /// The channel that was asked for is open.
    Confirmed,
    /// The channel that was asked for was not confirmed in time.
    Expired,
    /// The announcement of a channel is out.
    Announced,
}

/// What to do next to bring the multiplexer up.
#[derive(Debug)]
pub enum UpAction {
    /// Send these octets and wait until this channel is open, or time is up.
    Open { dlci: u8, octets: Vec<u8> },
    /// Send these octets: they announce the signals of this channel.
    Announce { dlci: u8, octets: Vec<u8> },
    /// The multiplexer is up.
    Done,
    /// It will not come up.
    GiveUp(BringUpError),
}

/// What to do next, without the octets.
pub enum UpStep {
    Open(u8),
    Announce(u8),
    Done,
    GiveUp(BringUpError),
}

/// How far the multiplexer has come: the channel that is being opened, counted
/// from 0, how often it was asked for, and the states of all channels.
pub struct UpState {
    pub place: nat,
    pub sent: u32,
    pub states: Seq<ChannelState>,
}

/// The channels in the order in which they come up: the control channel first,
/// then those for data.
pub open spec fn dlci_at(channels: Channels, place: nat) -> u8 {
    if place == 0 {
        CONTROL_DLCI
    } else if place == 1 {
        channels.at
    } else {
        channels.ppp
    }
}

/// One attempt to open a channel; `open` is what follows if it is open already.
pub open spec fn attempt(channels: Channels, state: UpState, open: (UpState, UpStep)) -> (
    UpState,
    UpStep,
) {
    let dlci = dlci_at(channels, state.place);
    if state.sent >= channels.attempts {
        (state, UpStep::GiveUp(BringUpError::Timeout(dlci)))
    } else if cmux::state_in(state.states, dlci) == ChannelState::Open {
        open
    } else if dlci > 63 {
        (state, UpStep::GiveUp(BringUpError::State(dlci)))
    } else {
        (
            UpState {
                sent: (state.sent + 1) as u32,
                states: state.states.update(dlci as int, ChannelState::Opening),
                ..state
            },
            UpStep::Open(dlci),
        )
    }
}

/// What follows an open channel: the control channel is followed by the next
/// one at once, a data channel is announced.
pub open spec fn opened(channels: Channels, state: UpState) -> (UpState, UpStep) {
    if state.place == 0 {
        let next = UpState { place: 1, sent: 0, ..state };
        attempt(channels, next, (next, UpStep::Announce(dlci_at(channels, 1))))
    } else {
        (state, UpStep::Announce(dlci_at(channels, state.place)))
    }
}

/// What follows an event on the way up.
pub open spec fn up_step(channels: Channels, state: UpState, event: UpEvent) -> (UpState, UpStep) {
    match event {
        UpEvent::Start => attempt(channels, state, opened(channels, state)),
        UpEvent::Expired => attempt(channels, state, opened(channels, state)),
        UpEvent::Confirmed => opened(channels, state),
        UpEvent::Announced => if state.place >= 2 {
            (state, UpStep::Done)
        } else {
            let next = UpState { place: state.place + 1, sent: 0, ..state };
            attempt(channels, next, opened(channels, next))
        },
    }
}

/// Whether an action carries out a step.
pub open spec fn carries_out(action: UpAction, step: UpStep) -> bool {
    match step {
        UpStep::Open(dlci) => {
            &&& action matches UpAction::Open { dlci: on, octets }
            &&& on == dlci
            &&& octets@ == cmux::wire(
                cmux::control_view(dlci, cmux::FrameKind::Sabm, true, true),
            )
        },
        UpStep::Announce(dlci) => {
            &&& action matches UpAction::Announce { dlci: on, octets }
            &&& on == dlci
            &&& octets@ == control_wire(
                control::MSC,
                true,
                control::msc_value(dlci, control::dte_ready_signals()),
            )
        },
        UpStep::Done => action == UpAction::Done,
        UpStep::GiveUp(error) => action == UpAction::GiveUp(error),
    }
}

/// Brings the multiplexer up: the control channel, then the channels for data,
/// each announced before its first data.
#[derive(Debug, Clone, Copy, PartialEq, Eq)]
pub struct MultiplexerUp {
    channels: Channels,
    place: u8,
    opening: Opening,
}

impl MultiplexerUp {
    #[verifier::type_invariant]
    spec fn in_step(self) -> bool {
        &&& self.place <= 2
        &&& self.opening.dlci == dlci_at(self.channels, self.place as nat)
        &&& self.opening.attempts == self.channels.attempts
    }

    /// Which channels are brought up.
    pub closed spec fn channels(&self) -> Channels {
        self.channels
    }

    /// Which channel is being opened, counted from 0.
    pub closed spec fn place(&self) -> nat {
        self.place as nat
    }

    /// How often that channel was asked for.
    pub closed spec fn sent(&self) -> u32 {
        self.opening.sent
    }

    /// How far it has come, with the states of a session.
    pub open spec fn state(&self, states: Seq<ChannelState>) -> UpState {
        UpState { place: self.place(), sent: self.sent(), states }
    }

    /// Nothing done yet.
    pub fn new(channels: Channels) -> (r: MultiplexerUp)
        ensures
            r.channels() == channels,
            r.place() == 0,
            r.sent() == 0,
    {
        let opening = Opening::new(CONTROL_DLCI, channels.attempts);
        MultiplexerUp { channels, place: 0, opening }
    }

    fn announce(dlci: u8) -> (r: UpAction)
        ensures
            carries_out(r, UpStep::Announce(dlci)),
    {
        match announcement_octets(dlci) {
            Ok(octets) => UpAction::Announce { dlci, octets },
            Err(e) => UpAction::GiveUp(BringUpError::from(e)),
        }
    }

    fn move_on(&mut self)
        requires
            old(self).place < 2,
        ensures
            final(self).channels() == old(self).channels(),
            final(self).place == old(self).place + 1,
            final(self).opening.sent == 0,
    {
        let place: u8 = self.place + 1;
        let dlci: u8 = if place == 1 {
            self.channels.at
        } else {
            self.channels.ppp
        };
        let opening = Opening::new(dlci, self.channels.attempts);
        *self = MultiplexerUp { channels: self.channels, place, opening };
    }

    /// One attempt; `None` when the channel is open already.
    fn attempt_once(&mut self, session: &mut Session) -> (r: Option<UpAction>)
        ensures
            final(self).channels() == old(self).channels(),
            final(self).place == old(self).place,
            match r {
                None => {
                    &&& old(self).opening.sent < old(self).channels().attempts
                    &&& cmux::state_in(
                        old(session)@,
                        dlci_at(old(self).channels(), old(self).place as nat),
                    ) == ChannelState::Open
                    &&& final(session)@ == old(session)@
                    &&& final(self).opening.sent == old(self).opening.sent
                },
                Some(action) => forall|open: (UpState, UpStep)|
                    {
                        let expected = #[trigger] attempt(
                            old(self).channels(),
                            old(self).state(old(session)@),
                            open,
                        );
                        &&& expected.0 == final(self).state(final(session)@)
                        &&& carries_out(action, expected.1)
                    },
            },
    {
        proof {
            use_type_invariant(&*self);
            session.lemma_has_64_channels();
        }
        let mut opening = self.opening;
        let step = opening.next(session);
        let channels = self.channels;
        let place: u8 = self.place;
        *self = MultiplexerUp { channels, place, opening };
        match step {
            OpenStep::Done => None,
            OpenStep::Send(octets) => Some(UpAction::Open { dlci: opening.dlci, octets }),
            OpenStep::GiveUp(error) => Some(UpAction::GiveUp(error)),
        }
    }

    fn go_on_opened(&mut self, session: &mut Session) -> (r: UpAction)
        ensures
            final(self).channels() == old(self).channels(),
            final(self).state(final(session)@) == opened(
                old(self).channels(),
                old(self).state(old(session)@),
            ).0,
            carries_out(r, opened(old(self).channels(), old(self).state(old(session)@)).1),
    {
        proof {
            use_type_invariant(&*self);
        }
        if self.place == 0 {
            self.move_on();
            let ghost next = self.state(session@);
            assert(next == UpState { place: 1, sent: 0, ..old(self).state(old(session)@) });
            assert(attempt(
                self.channels,
                next,
                (next, UpStep::Announce(dlci_at(self.channels, 1))),
            ) == opened(old(self).channels(), old(self).state(old(session)@)));
            match self.attempt_once(session) {
                Some(action) => action,
                None => MultiplexerUp::announce(self.channels.at),
            }
        } else {
            MultiplexerUp::announce(self.opening.dlci)
        }
    }

    fn go_on(&mut self, session: &mut Session) -> (r: UpAction)
        ensures
            final(self).channels() == old(self).channels(),
            ({
                let state = old(self).state(old(session)@);
                let expected = attempt(
                    old(self).channels(),
                    state,
                    opened(old(self).channels(), state),
                );
                &&& final(self).state(final(session)@) == expected.0
                &&& carries_out(r, expected.1)
            }),
    {
        match self.attempt_once(session) {
            Some(action) => action,
            None => self.go_on_opened(session),
        }
    }

    /// Takes an event and says what to do next.
    pub fn on_event(&mut self, session: &mut Session, event: UpEvent) -> (r: UpAction)
        ensures
            final(self).channels() == old(self).channels(),
            final(self).state(final(session)@) == up_step(
                old(self).channels(),
                old(self).state(old(session)@),
                event,
            ).0,
            carries_out(r, up_step(old(self).channels(), old(self).state(old(session)@), event).1),
    {
        proof {
            use_type_invariant(&*self);
        }
        match event {
            UpEvent::Start => self.go_on(session),
            UpEvent::Expired => self.go_on(session),
            UpEvent::Confirmed => self.go_on_opened(session),
            UpEvent::Announced => {
                if self.place >= 2 {
                    UpAction::Done
                } else {
                    self.move_on();
                    self.go_on(session)
                }
            },
        }
    }
}

/// The channels come up one after the other: a step stays with a channel or
/// goes on to the next, a data channel is announced only when it is open, and
/// the multiplexer is up only after the last announcement.
pub proof fn law_channels_come_up_in_order(channels: Channels, state: UpState, event: UpEvent)
    requires
        state.place <= 2,
    ensures
        ({
            let after = up_step(channels, state, event);
            &&& state.place <= after.0.place <= 2
            &&& after.1 == UpStep::Done ==> event == UpEvent::Announced && state.place == 2
            &&& after.1 matches UpStep::Open(dlci) ==> dlci == dlci_at(channels, after.0.place)
            &&& after.1 matches UpStep::Announce(dlci) ==> after.0.place >= 1 && dlci == dlci_at(
                channels,
                after.0.place,
            ) && (event == UpEvent::Confirmed && after.0.place == state.place || cmux::state_in(
                after.0.states,
                dlci,
            ) == ChannelState::Open)
            &&& after.0.place > state.place ==> event == UpEvent::Announced || state.place == 0
        }),
{
}

/// A channel is asked for at most as often as agreed, and every request is one
/// step nearer to the end: opening never goes on for ever.
pub proof fn law_requests_are_bounded(channels: Channels, state: UpState, event: UpEvent)
    requires
        state.place <= 2,
        state.sent <= channels.attempts,
    ensures
        ({
            let after = up_step(channels, state, event);
            &&& after.0.sent <= channels.attempts
            &&& after.1 is Open ==> after.0.sent >= 1 && (after.0.place > state.place
                || after.0.sent == state.sent + 1)
        }),
{
}

/// An event on the way up, with the states that the session then has: the pump
/// moves them between two events.
pub struct Seen {
    pub event: UpEvent,
    pub states: Seq<ChannelState>,
}

/// How far a run of events leads, and the steps that it brings, in order.
pub open spec fn up_run(channels: Channels, state: UpState, seen: Seq<Seen>) -> (
    UpState,
    Seq<UpStep>,
)
    decreases seen.len(),
{
    if seen.len() == 0 {
        (state, Seq::empty())
    } else {
        let before = up_run(channels, state, seen.drop_last());
        let after = up_step(
            channels,
            UpState { states: seen.last().states, ..before.0 },
            seen.last().event,
        );
        (after.0, before.1.push(after.1))
    }
}

/// Nothing done yet.
pub open spec fn up_start() -> UpState {
    UpState { place: 0, sent: 0, states: Seq::empty() }
}

/// So many requests for a channel.
pub open spec fn requests(dlci: u8, count: nat) -> Seq<UpStep> {
    Seq::new(count, |i: int| UpStep::Open(dlci))
}

/// Whether a channel is waited for: an event that gives rise to the first
/// request, then only confirmations that did not come in time, and the channel
/// is not open.
pub open spec fn waits_for(seen: Seq<Seen>, first: UpEvent, dlci: u8) -> bool {
    &&& seen.len() > 0
    &&& seen[0].event == first
    &&& forall|i: int| 0 < i < seen.len() ==> (#[trigger] seen[i]).event == UpEvent::Expired
    &&& forall|i: int|
        0 <= i < seen.len() ==> cmux::state_in((#[trigger] seen[i]).states, dlci)
            != ChannelState::Open
}

/// Events that follow each other lead on from where the first ones led.
proof fn lemma_up_run_in_parts(
    channels: Channels,
    state: UpState,
    first: Seq<Seen>,
    second: Seq<Seen>,
)
    ensures
        up_run(channels, state, first + second).0 == up_run(
            channels,
            up_run(channels, state, first).0,
            second,
        ).0,
        up_run(channels, state, first + second).1 == up_run(channels, state, first).1 + up_run(
            channels,
            up_run(channels, state, first).0,
            second,
        ).1,
    decreases second.len(),
{
    if second.len() == 0 {
        assert(first + second =~= first);
        assert(up_run(channels, state, first).1 + Seq::<UpStep>::empty() =~= up_run(
            channels,
            state,
            first,
        ).1);
    } else {
        let whole = first + second;
        lemma_up_run_in_parts(channels, state, first, second.drop_last());
        assert(whole.drop_last() =~= first + second.drop_last());
        assert(whole.last() == second.last());
        assert(up_run(channels, state, whole).1 =~= up_run(channels, state, first).1 + up_run(
            channels,
            up_run(channels, state, first).0,
            second,
        ).1);
    }
}

/// One event leads one step on.
proof fn lemma_up_run_once(channels: Channels, state: UpState, seen: Seen)
    ensures
        ({
            let after = up_step(channels, UpState { states: seen.states, ..state }, seen.event);
            &&& up_run(channels, state, seq![seen]).0 == after.0
            &&& up_run(channels, state, seq![seen]).1 == seq![after.1]
        }),
{
    assert(seq![seen].drop_last() =~= Seq::<Seen>::empty());
    assert(up_run(channels, state, seq![seen].drop_last()) == (state, Seq::<UpStep>::empty()));
    let after = up_step(channels, UpState { states: seen.states, ..state }, seen.event);
    assert(up_run(channels, state, seq![seen]).1 =~= seq![after.1]);
}

/// Which event gives rise to the first request for the channel at a place.
pub open spec fn asks_first(state: UpState, event: UpEvent, place: nat) -> bool {
    ||| event == UpEvent::Start && state.place == 0 && state.sent == 0 && place == 0
    ||| event == UpEvent::Confirmed && state.place == 0 && place == 1
    ||| event == UpEvent::Announced && state.place == 1 && place == 2
}

/// While a channel is waited for it is asked for again and again, as often as
/// agreed, and then given up.
proof fn lemma_channel_is_asked_for(
    channels: Channels,
    state: UpState,
    seen: Seq<Seen>,
    place: nat,
)
    requires
        seen.len() > 0,
        asks_first(state, seen[0].event, place),
        waits_for(seen, seen[0].event, dlci_at(channels, place)),
        dlci_at(channels, place) <= 63,
        seen.len() <= channels.attempts + 1,
    ensures
        ({
            let dlci = dlci_at(channels, place);
            let run = up_run(channels, state, seen);
            &&& run.0.place == place
            &&& seen.len() <= channels.attempts ==> run.0.sent == seen.len() && run.1 == requests(
                dlci,
                seen.len(),
            )
            &&& seen.len() == channels.attempts + 1 ==> run.1 == requests(
                dlci,
                channels.attempts as nat,
            ).push(UpStep::GiveUp(BringUpError::Timeout(dlci)))
        }),
    decreases seen.len(),
{
    let dlci = dlci_at(channels, place);
    let run = up_run(channels, state, seen);
    if seen.len() == 1 {
        assert(seen =~= seq![seen[0]]);
        lemma_up_run_once(channels, state, seen[0]);
        if channels.attempts > 0 {
            assert(run.1 =~= requests(dlci, 1));
        } else {
            assert(run.1 =~= requests(dlci, 0).push(UpStep::GiveUp(BringUpError::Timeout(dlci))));
        }
    } else {
        let before = seen.drop_last();
        assert forall|i: int| 0 < i < before.len() implies (#[trigger] before[i]).event
            == UpEvent::Expired by {
            assert(before[i] == seen[i]);
        }
        assert forall|i: int| 0 <= i < before.len() implies cmux::state_in(
            (#[trigger] before[i]).states,
            dlci,
        ) != ChannelState::Open by {
            assert(before[i] == seen[i]);
        }
        lemma_channel_is_asked_for(channels, state, before, place);
        assert(seen[seen.len() - 1].event == UpEvent::Expired);
        if seen.len() <= channels.attempts {
            assert(run.1 =~= requests(dlci, seen.len()));
        } else {
            assert(run.1 =~= requests(dlci, channels.attempts as nat).push(
                UpStep::GiveUp(BringUpError::Timeout(dlci)),
            ));
        }
    }
}

/// The whole way up, however many confirmations come late: the control channel
/// is asked for until it is confirmed, then the channel for AT commands, which
/// is announced, then the channel for PPP, which is announced, and with that
/// the multiplexer is up.
pub proof fn law_multiplexer_comes_up(
    channels: Channels,
    control: Seq<Seen>,
    at: Seq<Seen>,
    at_open: Seen,
    ppp: Seq<Seen>,
    ppp_open: Seen,
    announced: Seen,
)
    requires
        channels.at <= 63,
        channels.ppp <= 63,
        waits_for(control, UpEvent::Start, CONTROL_DLCI),
        waits_for(at, UpEvent::Confirmed, channels.at),
        at_open.event == UpEvent::Confirmed,
        waits_for(ppp, UpEvent::Announced, channels.ppp),
        ppp_open.event == UpEvent::Confirmed,
        announced.event == UpEvent::Announced,
        control.len() <= channels.attempts,
        at.len() <= channels.attempts,
        ppp.len() <= channels.attempts,
    ensures
        up_run(
            channels,
            up_start(),
            control + at + seq![at_open] + ppp + seq![ppp_open] + seq![announced],
        ).1 == requests(CONTROL_DLCI, control.len()) + requests(channels.at, at.len()) + seq![
            UpStep::Announce(channels.at),
        ] + requests(channels.ppp, ppp.len()) + seq![UpStep::Announce(channels.ppp)] + seq![
            UpStep::Done,
        ],
{
    let s1 = up_run(channels, up_start(), control).0;
    lemma_channel_is_asked_for(channels, up_start(), control, 0);
    let s2 = up_run(channels, s1, at).0;
    lemma_channel_is_asked_for(channels, s1, at, 1);
    lemma_up_run_in_parts(channels, up_start(), control, at);
    let s3 = up_run(channels, s2, seq![at_open]).0;
    lemma_up_run_once(channels, s2, at_open);
    lemma_up_run_in_parts(channels, up_start(), control + at, seq![at_open]);
    let s4 = up_run(channels, s3, ppp).0;
    lemma_channel_is_asked_for(channels, s3, ppp, 2);
    lemma_up_run_in_parts(channels, up_start(), control + at + seq![at_open], ppp);
    let s5 = up_run(channels, s4, seq![ppp_open]).0;
    lemma_up_run_once(channels, s4, ppp_open);
    lemma_up_run_in_parts(
        channels,
        up_start(),
        control + at + seq![at_open] + ppp,
        seq![ppp_open],
    );
    lemma_up_run_once(channels, s5, announced);
    lemma_up_run_in_parts(
        channels,
        up_start(),
        control + at + seq![at_open] + ppp + seq![ppp_open],
        seq![announced],
    );
}

/// A control channel that is never confirmed is asked for exactly as often as
/// agreed, and then given up.
pub proof fn law_silent_control_channel_times_out(channels: Channels, control: Seq<Seen>)
    requires
        waits_for(control, UpEvent::Start, CONTROL_DLCI),
        control.len() == channels.attempts + 1,
    ensures
        up_run(channels, up_start(), control).1 == requests(
            CONTROL_DLCI,
            channels.attempts as nat,
        ).push(UpStep::GiveUp(BringUpError::Timeout(CONTROL_DLCI))),
{
    lemma_channel_is_asked_for(channels, up_start(), control, 0);
}

/// So is a channel for AT commands that is never confirmed, once the control
/// channel was.
pub proof fn law_silent_at_channel_times_out(
    channels: Channels,
    control: Seq<Seen>,
    at: Seq<Seen>,
)
    requires
        channels.at <= 63,
        waits_for(control, UpEvent::Start, CONTROL_DLCI),
        waits_for(at, UpEvent::Confirmed, channels.at),
        control.len() <= channels.attempts,
        at.len() == channels.attempts + 1,
    ensures
        up_run(channels, up_start(), control + at).1 == requests(CONTROL_DLCI, control.len())
            + requests(channels.at, channels.attempts as nat).push(
            UpStep::GiveUp(BringUpError::Timeout(channels.at)),
        ),
{
    let s1 = up_run(channels, up_start(), control).0;
    lemma_channel_is_asked_for(channels, up_start(), control, 0);
    lemma_channel_is_asked_for(channels, s1, at, 1);
    lemma_up_run_in_parts(channels, up_start(), control, at);
}

/// And so is a channel for PPP that is never confirmed, once the channel for AT
/// commands was announced.
pub proof fn law_silent_ppp_channel_times_out(
    channels: Channels,
    control: Seq<Seen>,
    at: Seq<Seen>,
    at_open: Seen,
    ppp: Seq<Seen>,
)
    requires
        channels.at <= 63,
        channels.ppp <= 63,
        waits_for(control, UpEvent::Start, CONTROL_DLCI),
        waits_for(at, UpEvent::Confirmed, channels.at),
        at_open.event == UpEvent::Confirmed,
        waits_for(ppp, UpEvent::Announced, channels.ppp),
        control.len() <= channels.attempts,
        at.len() <= channels.attempts,
        ppp.len() == channels.attempts + 1,
    ensures
        up_run(channels, up_start(), control + at + seq![at_open] + ppp).1 == requests(
            CONTROL_DLCI,
            control.len(),
        ) + requests(channels.at, at.len()) + seq![UpStep::Announce(channels.at)] + requests(
            channels.ppp,
            channels.attempts as nat,
        ).push(UpStep::GiveUp(BringUpError::Timeout(channels.ppp))),
{
    let s1 = up_run(channels, up_start(), control).0;
    lemma_channel_is_asked_for(channels, up_start(), control, 0);
    let s2 = up_run(channels, s1, at).0;
    lemma_channel_is_asked_for(channels, s1, at, 1);
    lemma_up_run_in_parts(channels, up_start(), control, at);
    let s3 = up_run(channels, s2, seq![at_open]).0;
    lemma_up_run_once(channels, s2, at_open);
    lemma_up_run_in_parts(channels, up_start(), control + at, seq![at_open]);
    lemma_channel_is_asked_for(channels, s3, ppp, 2);
    lemma_up_run_in_parts(channels, up_start(), control + at + seq![at_open], ppp);
}

// ---------------------------------------------------------------------------
// Pump
// ---------------------------------------------------------------------------

/// What a read from the line amounted to.
#[derive(Debug, Clone, Copy, PartialEq, Eq, Structural)]
pub enum ReadOutcome {
    /// Nothing came: pause and read again.
    Pause,
    /// Octets came. If reads had failed before, how many in a row.
    Octets { recovered_after: u32 },
    /// The read failed: pause and read again. The first failure of a row is
    /// worth a line in the log.
    Failed { first: bool },
}

/// What an octet from the line led to.
#[derive(Debug)]
pub enum PumpAction {
    /// Nothing yet.
    Nothing,
    /// A frame was dropped.
    Dropped(DecodeError),
    /// Hand this to the channel with this place in the list of routes.
    Deliver { route: usize, payload: Vec<u8> },
    /// Data for a channel that nobody reads.
    Unrouted(u8),
    /// A message on the control channel.
    Control(ControlOutcome),
    /// A channel of ours is open.
    Opened(u8),
    /// A channel is closed.
    Closed(u8),
    /// The modem changed a channel: send these octets.
    Answer { dlci: u8, octets: Result<Vec<u8>, Error> },
}

/// The first place of a channel in a list of routes.
pub open spec fn route_of(routes: Seq<u8>, dlci: u8) -> Option<int>
    decreases routes.len(),
{
    if routes.len() == 0 {
        None
    } else if routes[0] == dlci {
        Some(0)
    } else {
        match route_of(routes.skip(1), dlci) {
            Some(place) => Some(place + 1),
            None => None,
        }
    }
}

/// Whether an action is the one that an event calls for.
pub open spec fn acts_on(action: PumpAction, event: EventView, routes: Seq<u8>) -> bool {
    match event {
        EventView::Ignored => action is Nothing,
        EventView::Opened(dlci) => action == PumpAction::Opened(dlci),
        EventView::Closed(dlci) => action == PumpAction::Closed(dlci),
        EventView::RemoteDisconnect { dlci, reply } => action matches PumpAction::Answer {
            dlci: to,
            octets: Ok(octets),
        } && to == dlci && octets@ == cmux::wire(reply),
        EventView::RemoteOpen { dlci, reply } => action matches PumpAction::Answer {
            dlci: to,
            octets: Ok(octets),
        } && to == dlci && octets@ == cmux::wire(reply),
        EventView::Data { dlci, payload } => if dlci == CONTROL_DLCI {
            action matches PumpAction::Control(outcome) && answers_control(outcome, payload)
        } else {
            match route_of(routes, dlci) {
                Some(place) => action matches PumpAction::Deliver { route, payload: octets }
                    && route == place && octets@ == payload,
                None => action == PumpAction::Unrouted(dlci),
            }
        },
    }
}

/// One octet that went through the pump: the octet, the states of the channels
/// before and after it, and what it led to.
pub struct Pumped {
    pub octet: u8,
    pub before: Seq<ChannelState>,
    pub after: Seq<ChannelState>,
    pub action: PumpAction,
}

/// Whether an octet was pumped as it should be by a decoder at `position`.
pub open spec fn pumps(
    position: Option<Seq<u8>>,
    pumped: Pumped,
    routes: Seq<u8>,
    capacity: nat,
) -> bool {
    match decoder::output_of(position, pumped.octet, capacity) {
        None => pumped.action is Nothing && pumped.after == pumped.before,
        Some(Err(error)) => pumped.action == PumpAction::Dropped(error) && pumped.after
            == pumped.before,
        Some(Ok(frame)) => {
            &&& frame.address.dlci < 64
            &&& acts_on(
                pumped.action,
                cmux::meaning(pumped.before[frame.address.dlci as int], frame),
                routes,
            )
            &&& pumped.after == pumped.before.update(
                frame.address.dlci as int,
                cmux::next_state(pumped.before[frame.address.dlci as int], frame.kind),
            )
        },
    }
}

fn find_route(routes: &[u8], dlci: u8) -> (r: Option<usize>)
    ensures
        match r {
            Some(place) => route_of(routes@, dlci) == Some(place as int),
            None => route_of(routes@, dlci) is None,
        },
{
    let mut i: usize = 0;
    proof {
        assert(routes@.skip(0) =~= routes@);
    }
    while i < routes.len()
        invariant
            i <= routes@.len(),
            route_of(routes@, dlci) == (match route_of(routes@.skip(i as int), dlci) {
                Some(place) => Some(place + i),
                None => None,
            }),
        decreases routes@.len() - i,
    {
        if routes[i] == dlci {
            return Some(i);
        }
        proof {
            assert(routes@.skip(i as int).skip(1) =~= routes@.skip(i + 1));
        }
        i = i + 1;
    }
    None
}

/// What an event calls for.
fn act_on(event: &Event<'_>, routes: &[u8]) -> (r: PumpAction)
    requires
        match event@ {
            EventView::RemoteDisconnect { dlci, reply } => reply == cmux::control_view(
                dlci,
                reply.kind,
                false,
                true,
            ) && dlci <= 63,
            EventView::RemoteOpen { dlci, reply } => reply == cmux::control_view(
                dlci,
                reply.kind,
                false,
                true,
            ) && dlci <= 63,
            _ => true,
        },
    ensures
        acts_on(r, event@, routes@),
{
    match event {
        Event::Ignored => PumpAction::Nothing,
        Event::Opened(dlci) => PumpAction::Opened(*dlci),
        Event::Closed(dlci) => PumpAction::Closed(*dlci),
        Event::RemoteDisconnect { dlci, reply } => PumpAction::Answer {
            dlci: *dlci,
            octets: frame_octets(reply),
        },
        Event::RemoteOpen { dlci, reply } => PumpAction::Answer {
            dlci: *dlci,
            octets: frame_octets(reply),
        },
        Event::Data { dlci, payload } => {
            // Channel 0 carries messages of the multiplexer itself.
            if *dlci == CONTROL_DLCI {
                PumpAction::Control(handle_control_message(payload))
            } else {
                match find_route(routes, *dlci) {
                    Some(route) => PumpAction::Deliver {
                        route,
                        payload: vstd::slice::slice_to_vec(payload),
                    },
                    None => PumpAction::Unrouted(*dlci),
                }
            }
        },
    }
}

/// Reads the line, takes frames apart and hands them out.
///
/// A failed read is not the end: the decoder picks up at the next flag, so
/// garbage on the line and a restart of the modem are both survived.
pub struct Pump<const N: usize> {
    decoder: Decoder<N>,
    error_burst: u32,
}

impl<const N: usize> Pump<N> {
    /// Whether the decoder is in order.
    pub closed spec fn well_formed(&self) -> bool {
        self.decoder.well_formed()
    }

    /// Where the decoder stands.
    pub closed spec fn position(&self) -> Option<Seq<u8>> {
        self.decoder@
    }

    /// How many reads have failed in a row.
    pub closed spec fn failures(&self) -> u32 {
        self.error_burst
    }

    /// A pump that hunts for a flag.
    pub fn new() -> (r: Pump<N>)
        ensures
            r.well_formed(),
            r.position() is None,
            r.failures() == 0,
    {
        Pump { decoder: Decoder::new(), error_burst: 0 }
    }

    /// Takes note of a read that gave `count` octets.
    pub fn on_read(&mut self, count: usize) -> (r: ReadOutcome)
        requires
            old(self).well_formed(),
        ensures
            final(self).well_formed(),
            final(self).position() == old(self).position(),
            count == 0 ==> r == ReadOutcome::Pause && final(self).failures() == old(
                self,
            ).failures(),
            count > 0 ==> r == (ReadOutcome::Octets { recovered_after: old(self).failures() })
                && final(self).failures() == 0,
    {
        if count == 0 {
            return ReadOutcome::Pause;
        }
        let recovered_after: u32 = self.error_burst;
        self.error_burst = 0;
        ReadOutcome::Octets { recovered_after }
    }

    /// Takes note of a failed read: whatever was read of a frame is lost.
    pub fn on_read_error(&mut self) -> (r: ReadOutcome)
        ensures
            final(self).well_formed(),
            final(self).position() is None,
            final(self).failures() == (if old(self).failures() == u32::MAX {
                u32::MAX
            } else {
                (old(self).failures() + 1) as u32
            }),
            r == (ReadOutcome::Failed { first: old(self).failures() == 0 }),
    {
        let first: bool = self.error_burst == 0;
        self.error_burst = self.error_burst.saturating_add(1);
        self.decoder.reset();
        ReadOutcome::Failed { first }
    }

    /// Takes one octet from the line.
    pub fn on_octet(&mut self, session: &mut Session, routes: &[u8], octet: u8) -> (r: PumpAction)
        requires
            old(self).well_formed(),
        ensures
            final(self).well_formed(),
            final(self).position() == decoder::position_after(
                old(self).position(),
                octet,
                N as nat,
            ),
            final(self).failures() == old(self).failures(),
            pumps(
                old(self).position(),
                (Pumped { octet, before: old(session)@, after: final(session)@, action: r }),
                routes@,
                N as nat,
            ),
    {
        match self.decoder.push(octet) {
            None => PumpAction::Nothing,
            Some(Err(error)) => PumpAction::Dropped(error),
            Some(Ok(frame)) => {
                let event = session.on_frame(&frame);
                act_on(&event, routes)
            },
        }
    }
}

impl<const N: usize> Default for Pump<N> {
    fn default() -> (r: Self)
        ensures
            r.well_formed(),
            r.position() is None,
            r.failures() == 0,
    {
        Pump::new()
    }
}

/// The octets of a run through the pump.
pub open spec fn octets_of(run: Seq<Pumped>) -> Seq<u8> {
    Seq::new(run.len(), |i: int| run[i].octet)
}

/// Whether a whole run of octets was pumped as it should be. Between two octets
/// others may move the states of the channels.
pub open spec fn pumps_all(
    position: Option<Seq<u8>>,
    run: Seq<Pumped>,
    routes: Seq<u8>,
    capacity: nat,
) -> bool
    decreases run.len(),
{
    run.len() > 0 ==> {
        &&& pumps_all(position, run.drop_last(), routes, capacity)
        &&& pumps(
            laws::position_fed(position, octets_of(run.drop_last()), capacity),
            run.last(),
            routes,
            capacity,
        )
    }
}

/// What a run of octets brings out of the decoder, each with the octet that
/// brought it out and what it led to.
pub open spec fn handled(position: Option<Seq<u8>>, run: Seq<Pumped>, capacity: nat) -> Seq<
    (Result<FrameView, DecodeError>, Pumped),
>
    decreases run.len(),
{
    if run.len() == 0 {
        Seq::empty()
    } else {
        let before = handled(position, run.drop_last(), capacity);
        match decoder::output_of(
            laws::position_fed(position, octets_of(run.drop_last()), capacity),
            run.last().octet,
            capacity,
        ) {
            None => before,
            Some(output) => before.push((output, run.last())),
        }
    }
}

/// Whether a frame carries data.
pub open spec fn is_data(frame: FrameView) -> bool {
    frame.kind == cmux::FrameKind::Uih || frame.kind == cmux::FrameKind::Ui
}

/// All that a run hands to one route, in order.
pub open spec fn received(run: Seq<Pumped>, route: int) -> Seq<u8>
    decreases run.len(),
{
    if run.len() == 0 {
        Seq::empty()
    } else {
        let before = received(run.drop_last(), route);
        match run.last().action {
            PumpAction::Deliver { route: to, payload } => if to == route {
                before + payload@
            } else {
                before
            },
            _ => before,
        }
    }
}

/// All that the data frames of one channel carry, in order.
pub open spec fn carried(outputs: Seq<Result<FrameView, DecodeError>>, dlci: u8) -> Seq<u8>
    decreases outputs.len(),
{
    if outputs.len() == 0 {
        Seq::empty()
    } else {
        let before = carried(outputs.drop_last(), dlci);
        match outputs.last() {
            Ok(frame) => if is_data(frame) && frame.address.dlci == dlci {
                before + frame.information
            } else {
                before
            },
            Err(_) => before,
        }
    }
}

/// All frames that a run sends in answer to the modem, in order.
pub open spec fn answered(run: Seq<Pumped>) -> Seq<Seq<u8>>
    decreases run.len(),
{
    if run.len() == 0 {
        Seq::empty()
    } else {
        let before = answered(run.drop_last());
        match run.last().action {
            PumpAction::Answer { octets: Ok(octets), .. } => before.push(octets@),
            _ => before,
        }
    }
}

/// The answers that frames call for: one to each SABM and to each DISC, in
/// order.
pub open spec fn answers_due(handled: Seq<(Result<FrameView, DecodeError>, Pumped)>) -> Seq<Seq<u8>>
    decreases handled.len(),
{
    if handled.len() == 0 {
        Seq::empty()
    } else {
        let before = answers_due(handled.drop_last());
        match handled.last().0 {
            Ok(frame) => match cmux::meaning(
                handled.last().1.before[frame.address.dlci as int],
                frame,
            ) {
                EventView::RemoteOpen { reply, .. } => before.push(cmux::wire(reply)),
                EventView::RemoteDisconnect { reply, .. } => before.push(cmux::wire(reply)),
                _ => before,
            },
            Err(_) => before,
        }
    }
}

/// The payloads of all data frames on the control channel, in order.
pub open spec fn control_payloads(outputs: Seq<Result<FrameView, DecodeError>>) -> Seq<Seq<u8>>
    decreases outputs.len(),
{
    if outputs.len() == 0 {
        Seq::empty()
    } else {
        let before = control_payloads(outputs.drop_last());
        match outputs.last() {
            Ok(frame) => if is_data(frame) && frame.address.dlci == CONTROL_DLCI {
                before.push(frame.information)
            } else {
                before
            },
            Err(_) => before,
        }
    }
}

/// What became of the messages on the control channel, in order.
pub open spec fn control_outcomes(run: Seq<Pumped>) -> Seq<ControlOutcome>
    decreases run.len(),
{
    if run.len() == 0 {
        Seq::empty()
    } else {
        let before = control_outcomes(run.drop_last());
        match run.last().action {
            PumpAction::Control(outcome) => before.push(outcome),
            _ => before,
        }
    }
}

proof fn lemma_octets_of(run: Seq<Pumped>)
    requires
        run.len() > 0,
    ensures
        octets_of(run).drop_last() == octets_of(run.drop_last()),
        octets_of(run).last() == run.last().octet,
{
    assert(octets_of(run).drop_last() =~= octets_of(run.drop_last()));
}

/// A channel that is listed once is found at its place.
proof fn lemma_route_of(routes: Seq<u8>, dlci: u8)
    ensures
        match route_of(routes, dlci) {
            Some(place) => 0 <= place < routes.len() && routes[place] == dlci,
            None => !routes.contains(dlci),
        },
    decreases routes.len(),
{
    if routes.len() > 0 && routes[0] != dlci {
        let rest = routes.skip(1);
        lemma_route_of(rest, dlci);
        if routes.contains(dlci) {
            let i = choose|i: int| 0 <= i < routes.len() && routes[i] == dlci;
            assert(rest[i - 1] == dlci);
        }
    }
}

/// Whatever comes down the line, each frame in it leads to one action, in the
/// order of the frames: damaged ones are dropped, good ones are acted on. No
/// other octet leads to anything.
pub proof fn law_pump_acts_on_every_frame(
    position: Option<Seq<u8>>,
    run: Seq<Pumped>,
    routes: Seq<u8>,
    capacity: nat,
)
    requires
        pumps_all(position, run, routes, capacity),
    ensures
        ({
            let outputs = laws::outputs_fed(position, octets_of(run), capacity);
            let frames = handled(position, run, capacity);
            &&& frames.len() == outputs.len()
            &&& forall|i: int|
                0 <= i < frames.len() ==> (#[trigger] frames[i]).0 == outputs[i] && (
                match outputs[i] {
                    Err(error) => frames[i].1.action == PumpAction::Dropped(error),
                    Ok(frame) => acts_on(
                        frames[i].1.action,
                        cmux::meaning(frames[i].1.before[frame.address.dlci as int], frame),
                        routes,
                    ),
                })
        }),
    decreases run.len(),
{
    if run.len() > 0 {
        lemma_octets_of(run);
        law_pump_acts_on_every_frame(position, run.drop_last(), routes, capacity);
    }
}

/// Each route receives exactly what the data frames of its channel carry, in
/// order, nothing lost and nothing doubled; whatever the frames between them
/// are, and whatever else happens to the channels. Data on the control channel
/// and on channels that nobody reads reaches no route.
pub proof fn law_routes_receive_their_data(
    position: Option<Seq<u8>>,
    run: Seq<Pumped>,
    routes: Seq<u8>,
    capacity: nat,
)
    requires
        pumps_all(position, run, routes, capacity),
        routes.no_duplicates(),
        !routes.contains(CONTROL_DLCI),
    ensures
        forall|route: int|
            0 <= route < routes.len() ==> #[trigger] received(run, route) == carried(
                laws::outputs_fed(position, octets_of(run), capacity),
                routes[route],
            ),
        forall|route: int| !(0 <= route < routes.len()) ==> #[trigger] received(run, route)
            == Seq::<u8>::empty(),
    decreases run.len(),
{
    let outputs = laws::outputs_fed(position, octets_of(run), capacity);
    if run.len() > 0 {
        let earlier = run.drop_last();
        let outputs_before = laws::outputs_fed(position, octets_of(earlier), capacity);
        lemma_octets_of(run);
        law_routes_receive_their_data(position, earlier, routes, capacity);
        let output = decoder::output_of(
            laws::position_fed(position, octets_of(earlier), capacity),
            run.last().octet,
            capacity,
        );
        if let Some(found) = output {
            assert(outputs == outputs_before.push(found));
            assert(outputs.drop_last() =~= outputs_before);
            if let Ok(frame) = found {
                lemma_route_of(routes, frame.address.dlci);
            }
        }
        assert forall|route: int| 0 <= route < routes.len() implies #[trigger] received(run, route)
            == carried(outputs, routes[route]) by {
            assert(received(earlier, route) == carried(outputs_before, routes[route]));
        }
        assert forall|route: int| !(0 <= route < routes.len()) implies #[trigger] received(
            run,
            route,
        ) == Seq::<u8>::empty() by {
            assert(received(earlier, route) == Seq::<u8>::empty());
        }
    }
}

/// Each SABM and each DISC of the modem is answered once, in order, and nothing
/// else is.
pub proof fn law_pump_answers_the_modem(
    position: Option<Seq<u8>>,
    run: Seq<Pumped>,
    routes: Seq<u8>,
    capacity: nat,
)
    requires
        pumps_all(position, run, routes, capacity),
    ensures
        answered(run) == answers_due(handled(position, run, capacity)),
    decreases run.len(),
{
    if run.len() > 0 {
        let earlier = run.drop_last();
        law_pump_answers_the_modem(position, earlier, routes, capacity);
        let before = handled(position, earlier, capacity);
        let all = handled(position, run, capacity);
        let output = decoder::output_of(
            laws::position_fed(position, octets_of(earlier), capacity),
            run.last().octet,
            capacity,
        );
        if let Some(found) = output {
            assert(all == before.push((found, run.last())));
            assert(all.drop_last() =~= before);
        }
    }
}

/// Data on the control channel is taken as messages of the multiplexer, each
/// once and in order.
pub proof fn law_control_messages_are_handled(
    position: Option<Seq<u8>>,
    run: Seq<Pumped>,
    routes: Seq<u8>,
    capacity: nat,
)
    requires
        pumps_all(position, run, routes, capacity),
    ensures
        ({
            let payloads = control_payloads(
                laws::outputs_fed(position, octets_of(run), capacity),
            );
            let outcomes = control_outcomes(run);
            &&& outcomes.len() == payloads.len()
            &&& forall|i: int|
                0 <= i < outcomes.len() ==> answers_control(#[trigger] outcomes[i], payloads[i])
        }),
    decreases run.len(),
{
    let outputs = laws::outputs_fed(position, octets_of(run), capacity);
    if run.len() > 0 {
        let earlier = run.drop_last();
        let outputs_before = laws::outputs_fed(position, octets_of(earlier), capacity);
        lemma_octets_of(run);
        law_control_messages_are_handled(position, earlier, routes, capacity);
        let output = decoder::output_of(
            laws::position_fed(position, octets_of(earlier), capacity),
            run.last().octet,
            capacity,
        );
        if let Some(found) = output {
            assert(outputs == outputs_before.push(found));
            assert(outputs.drop_last() =~= outputs_before);
        }
    }
}

// ---------------------------------------------------------------------------
// What holds of octets, messages and routes
// ---------------------------------------------------------------------------

/// A write takes as much as there is, up to the agreed payload, and no less.
pub proof fn law_write_takes_what_fits(len: nat, max_payload: nat)
    ensures
        taken(len, max_payload) <= len,
        taken(len, max_payload) <= max_payload,
        taken(len, max_payload) == len || taken(len, max_payload) == max_payload,
{
}

/// A message on the control channel is told by its octets. Its first octet says
/// whether it is a command, and which: 0xE3 carries signals, whose channel is
/// named by the first octet of the value, 0xC3 closes the multiplexer, 0xA3
/// lets data flow and 0x63 stops it.
pub proof fn law_messages_are_told_by_their_octets(payload: Seq<u8>)
    ensures
        ({
            let readable = payload.len() >= 2 && payload[0] % 2 == 1 && payload[1] % 2 == 1
                && payload.len() >= 2 + payload[1] / 2;
            let notice = control_notice(payload);
            &&& notice == ControlNotice::Unreadable <==> !readable
            &&& readable && payload[0] / 2 % 2 == 0 ==> notice == ControlNotice::Response(
                payload[0] / 4,
            )
            &&& readable && payload[0] / 2 % 2 == 1 ==> notice == if payload[0] == 0xE3
                && payload[1] >= 3 {
                ControlNotice::Status(Some(payload[2] / 4))
            } else if payload[0] == 0xE3 {
                ControlNotice::Status(None)
            } else if payload[0] == 0xC3 {
                ControlNotice::Closing
            } else if payload[0] == 0xA3 {
                ControlNotice::FlowOn
            } else if payload[0] == 0x63 {
                ControlNotice::FlowOff
            } else {
                ControlNotice::Unknown(payload[0] / 4)
            }
        }),
{
    laws::law_readable_messages(payload);
    if payload.len() >= 2 {
        laws::law_fields_of_an_octet(payload[0]);
        laws::law_fields_of_an_octet(payload[1]);
        if payload.len() >= 3 {
            laws::law_fields_of_an_octet(payload[2]);
        }
    }
}

/// The message that answers a payload on the control channel, if one does.
pub open spec fn answer_message(payload: Seq<u8>) -> Option<Seq<u8>> {
    match control_answer(payload) {
        Some((bits, value)) => Some(control::message(bits, false, value)),
        None => None,
    }
}

/// A known command is answered by its own type octet with the C/R bit clear:
/// signals with the value that came, the others with nothing. Any other command
/// is answered by 0x11 around its type octet, and nothing else is answered.
pub proof fn law_answers_are_told_by_their_octets(payload: Seq<u8>)
    ensures
        ({
            let command = payload.len() >= 2 && payload[0] % 2 == 1 && payload[1] % 2 == 1
                && payload.len() >= 2 + payload[1] / 2 && payload[0] / 2 % 2 == 1;
            let answer = answer_message(payload);
            &&& answer is None <==> !command
            &&& command ==> answer == Some(
                if payload[0] == 0xE3 {
                    seq![0xE1u8, payload[1]] + payload.subrange(2, 2 + payload[1] / 2)
                } else if payload[0] == 0xC3 {
                    seq![0xC1u8, 1]
                } else if payload[0] == 0xA3 {
                    seq![0xA1u8, 1]
                } else if payload[0] == 0x63 {
                    seq![0x61u8, 1]
                } else {
                    seq![0x11u8, 3, payload[0]]
                },
            )
        }),
{
    law_messages_are_told_by_their_octets(payload);
    if let Some((bits, value)) = control_answer(payload) {
        laws::law_octets_of_a_message(bits, false, value);
        laws::law_type_octets_of_the_standard(payload[0] / 4, true);
        let answer = control::message(bits, false, value);
        assert(answer =~= seq![answer[0], answer[1]] + value);
        if payload[0] == 0xE3 {
            assert(answer =~= seq![0xE1u8, payload[1]] + value);
        } else if payload[0] == 0xC3 {
            assert(answer =~= seq![0xC1u8, 1]);
        } else if payload[0] == 0xA3 {
            assert(answer =~= seq![0xA1u8, 1]);
        } else if payload[0] == 0x63 {
            assert(answer =~= seq![0x61u8, 1]);
        } else {
            assert(answer =~= seq![0x11u8, 3, payload[0]]);
        }
    }
}

/// A control message goes out as data of channel 0.
pub proof fn law_control_messages_go_out_on_channel_0(bits: u8, command: bool, value: Seq<u8>)
    requires
        value.len() <= 100,
    ensures
        ({
            let octets = control_wire(bits, command, value);
            let message = control::message(bits, command, value);
            &&& octets.len() == message.len() + 6
            &&& octets[0] == 0xF9
            &&& octets[1] == 0x03
            &&& octets[2] == 0xEF
            &&& octets[3] == 2 * message.len() + 1
            &&& octets.subrange(4, 4 + message.len() as int) == message
            &&& octets.last() == 0xF9
        }),
{
    laws::law_octets_of_a_frame(cmux::uih_view(0, control::message(bits, command, value)));
}

/// A channel is announced by its number and by the signals of a terminal that
/// is ready; the multiplexer is closed by a message without a value.
pub proof fn law_octets_of_announcements(dlci: u8)
    requires
        dlci <= 63,
    ensures
        control::message(
            control::MSC,
            true,
            control::msc_value(dlci, control::dte_ready_signals()),
        ) == seq![0xE3u8, 5, (4 * dlci + 3) as u8, 0x8D],
        control::message(control::CLD, true, Seq::empty()) == seq![0xC3u8, 1],
{
    laws::law_octets_of_a_message(
        control::MSC,
        true,
        control::msc_value(dlci, control::dte_ready_signals()),
    );
    laws::law_octets_of_a_message(control::CLD, true, Seq::empty());
    laws::law_places_of_the_signals(control::dte_ready_signals());
    laws::law_msc_names_its_channel(dlci, control::dte_ready_signals());
    assert(control::message(
        control::MSC,
        true,
        control::msc_value(dlci, control::dte_ready_signals()),
    ) =~= seq![0xE3u8, 5, (4 * dlci + 3) as u8, 0x8D]);
    assert(control::message(control::CLD, true, Seq::empty()) =~= seq![0xC3u8, 1]);
}

/// A channel that is open is not asked for: it counts as confirmed. A channel
/// that there cannot be is given up at once, and so is one that was asked for
/// as often as agreed.
pub proof fn law_requests_that_are_not_sent(channels: Channels, state: UpState, event: UpEvent)
    requires
        state.place <= 2,
        event == UpEvent::Start || event == UpEvent::Expired,
    ensures
        ({
            let dlci = if state.place == 0 {
                0u8
            } else if state.place == 1 {
                channels.at
            } else {
                channels.ppp
            };
            let after = up_step(channels, state, event);
            &&& state.sent >= channels.attempts ==> after.1 == UpStep::GiveUp(
                BringUpError::Timeout(dlci),
            )
            &&& state.sent < channels.attempts && dlci <= 63 && state.states[dlci as int]
                == ChannelState::Open ==> after == up_step(channels, state, UpEvent::Confirmed)
            &&& state.sent < channels.attempts && dlci <= 63 && state.states[dlci as int]
                != ChannelState::Open ==> after.1 == UpStep::Open(dlci) && after.0.states
                == state.states.update(dlci as int, ChannelState::Opening)
            &&& state.sent < channels.attempts && dlci > 63 ==> after.1 == UpStep::GiveUp(
                BringUpError::State(dlci),
            )
        }),
{
}

/// A channel that is listed is found at its first place in the list, and one
/// that is not listed is not found.
pub proof fn law_first_route_is_taken(front: Seq<u8>, dlci: u8, back: Seq<u8>)
    requires
        !front.contains(dlci),
    ensures
        route_of(front + seq![dlci] + back, dlci) == Some(front.len() as int),
        route_of(front, dlci) is None,
    decreases front.len(),
{
    let routes = front + seq![dlci] + back;
    if front.len() > 0 {
        assert(front.contains(front[0]));
        let shorter = front.skip(1);
        assert(routes.skip(1) =~= shorter + seq![dlci] + back);
        assert forall|x: u8| shorter.contains(x) implies front.contains(x) by {
            let k = choose|k: int| 0 <= k < shorter.len() && shorter[k] == x;
            assert(front[k + 1] == x);
        }
        law_first_route_is_taken(shorter, dlci, back);
    } else {
        assert(routes[0] == dlci);
    }
}

/// Data goes to the first route of its channel, unchanged, or to nobody. Data
/// of channel 0 is a message of the multiplexer, whatever the routes are.
pub proof fn law_where_data_goes(
    action: PumpAction,
    dlci: u8,
    payload: Seq<u8>,
    front: Seq<u8>,
    back: Seq<u8>,
)
    requires
        !front.contains(dlci),
    ensures
        ({
            let event = EventView::Data { dlci, payload };
            &&& dlci != 0 ==> (acts_on(action, event, front + seq![dlci] + back) <==> (
            action matches PumpAction::Deliver { route, payload: octets } && route == front.len()
                && octets@ == payload))
            &&& dlci != 0 ==> (acts_on(action, event, front) <==> action == PumpAction::Unrouted(
                dlci,
            ))
            &&& dlci == 0 ==> (acts_on(action, event, front) <==> (
            action matches PumpAction::Control(outcome) && answers_control(outcome, payload)))
        }),
{
    law_first_route_is_taken(front, dlci, back);
}

/// A channel that opened or closed is reported, a reply is sent as it is, and a
/// frame that means nothing leads to nothing.
pub proof fn law_what_events_lead_to(
    action: PumpAction,
    dlci: u8,
    reply: FrameView,
    routes: Seq<u8>,
)
    ensures
        acts_on(action, EventView::Opened(dlci), routes) <==> action == PumpAction::Opened(dlci),
        acts_on(action, EventView::Closed(dlci), routes) <==> action == PumpAction::Closed(dlci),
        acts_on(action, EventView::Ignored, routes) <==> action == PumpAction::Nothing,
        acts_on(action, EventView::RemoteOpen { dlci, reply }, routes) <==> (
        action matches PumpAction::Answer { dlci: to, octets: Ok(octets) } && to == dlci && octets@
            == cmux::wire(reply)),
        acts_on(action, EventView::RemoteDisconnect { dlci, reply }, routes) <==> (
        action matches PumpAction::Answer { dlci: to, octets: Ok(octets) } && to == dlci && octets@
            == cmux::wire(reply)),
{
}

/// An answer is sent when its value is up to six octets long. A longer one
/// cannot be.
pub proof fn law_answers_are_sent(outcome: ControlOutcome, payload: Seq<u8>)
    requires
        answers_control(outcome, payload),
    ensures
        outcome.notice == control_notice(payload),
        outcome.answer is None <==> answer_message(payload) is None,
        answer_message(payload) matches Some(message) ==> if message.len() <= 8 {
            outcome.answer matches Some(Ok(octets)) && octets@ == cmux::wire(
                cmux::uih_view(0, message),
            )
        } else {
            outcome.answer == Some(Err::<Vec<u8>, Error>(Error::Framing))
        },
{
}

/// A request for a channel is a SABM with Poll on that channel, and an
/// announcement is a message on channel 0 that names the channel.
pub proof fn law_what_steps_send(action: UpAction, dlci: u8)
    requires
        dlci <= 63,
    ensures
        carries_out(action, UpStep::Open(dlci)) ==> (action matches UpAction::Open { dlci: on, octets }
            && on == dlci && octets@.len() == 6 && octets@[0] == 0xF9 && octets@[1] == 4 * dlci + 3
            && octets@[2] == 0x3F && octets@[3] == 0x01 && octets@[5] == 0xF9),
        carries_out(action, UpStep::Announce(dlci)) ==> (action matches UpAction::Announce {
            dlci: on,
            octets,
        } && on == dlci && octets@.len() == 10 && octets@.subrange(0, 4) == seq![
            0xF9u8,
            0x03,
            0xEF,
            0x09,
        ] && octets@.subrange(4, 8) == seq![0xE3u8, 5, (4 * dlci + 3) as u8, 0x8D] && octets@[9]
            == 0xF9),
        carries_out(action, UpStep::Done) <==> action == UpAction::Done,
{
    let value = control::msc_value(dlci, control::dte_ready_signals());
    laws::law_octets_of_frames_sent(dlci, Seq::empty(), cmux::FrameKind::Sabm, true, true);
    law_octets_of_announcements(dlci);
    law_control_messages_go_out_on_channel_0(control::MSC, true, value);
    let octets = control_wire(control::MSC, true, value);
    assert(octets.subrange(0, 4) =~= seq![0xF9u8, 0x03, 0xEF, 0x09]);
}

/// An octet that does not end a frame, or ends a damaged one, leaves all
/// channels as they are. A good frame moves its own channel and no other.
pub proof fn law_pump_moves_one_channel(
    position: Option<Seq<u8>>,
    pumped: Pumped,
    routes: Seq<u8>,
    capacity: nat,
    other: int,
)
    requires
        pumps(position, pumped, routes, capacity),
        pumped.before.len() == 64,
        0 <= other < 64,
    ensures
        match decoder::output_of(position, pumped.octet, capacity) {
            Some(Ok(frame)) => {
                &&& pumped.after[frame.address.dlci as int] == cmux::next_state(
                    pumped.before[frame.address.dlci as int],
                    frame.kind,
                )
                &&& other != frame.address.dlci ==> pumped.after[other] == pumped.before[other]
            },
            Some(Err(error)) => pumped.after == pumped.before && pumped.action
                == PumpAction::Dropped(error),
            None => pumped.after == pumped.before && pumped.action == PumpAction::Nothing,
        },
{
}

} // verus!
