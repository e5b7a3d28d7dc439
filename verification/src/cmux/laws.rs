//! What holds of the multiplexer as a whole.

use vstd::prelude::*;

use crate::cmux;
use crate::cmux::control;
use crate::cmux::control::V24Signals;
use crate::cmux::decoder;
use crate::cmux::decoder::Verdict;
use crate::cmux::{
    Address, ChannelState, DecodeError, EventView, FrameKind, FrameView, FCS_GOOD,
    FLAG, MAX_LEN_LONG, PF,
};

verus! {

// ---------------------------------------------------------------------------
// Fields
// ---------------------------------------------------------------------------

/// An address read back from its octet is the address that was written.
pub proof fn law_address_round_trip(address: Address)
    requires
        address.dlci <= 63,
    ensures
        cmux::address_octet(address) & 1 != 0,
        cmux::address_of(cmux::address_octet(address)) == address,
{
    let d = address.dlci;
    let c: u8 = if address.command {
        2
    } else {
        0
    };
    assert(d <= 63 && (c == 0 || c == 2) ==> {
        let octet = (d << 2) | c | 1;
        octet & 1 != 0 && octet >> 2 == d && (octet & 2 != 0) == (c == 2)
    }) by (bit_vector);
}

/// The only address whose octet looks like a flag: a response on channel 62.
pub proof fn law_address_that_looks_like_a_flag(address: Address)
    requires
        address.dlci <= 63,
    ensures
        cmux::address_octet(address) == FLAG <==> address.dlci == 62 && !address.command,
{
    let d = address.dlci;
    let c: u8 = if address.command {
        2
    } else {
        0
    };
    assert(d <= 63 && (c == 0 || c == 2) ==> ((d << 2) | c | 1 == 0xF9u8 <==> d == 62 && c == 0))
        by (bit_vector);
}

/// Kind and Poll/Final bit read back from a control field are those written.
pub proof fn law_control_round_trip(kind: FrameKind, poll_final: bool)
    ensures
        cmux::kind_of(cmux::control_octet(kind, poll_final)) == Some(kind),
        cmux::control_octet(kind, poll_final) & PF != 0 <==> poll_final,
{
    let code = cmux::kind_code(kind);
    assert(code & 0x10 == 0 ==> {
        &&& (code | 0x10) & 0xEF == code
        &&& (code | 0) & 0xEF == code
        &&& (code | 0x10) & 0x10 != 0
        &&& (code | 0) & 0x10 == 0
    }) by (bit_vector);
    assert(0x2Fu8 & 0x10 == 0 && 0x63u8 & 0x10 == 0 && 0x0Fu8 & 0x10 == 0 && 0x43u8 & 0x10 == 0
        && 0xEFu8 & 0x10 == 0 && 0x03u8 & 0x10 == 0) by (bit_vector);
}

// ---------------------------------------------------------------------------
// Checksum
// ---------------------------------------------------------------------------

/// Covered octets followed by their check octet always leave the same register.
pub proof fn law_receiver_check(data: Seq<u8>)
    ensures
        cmux::crc(0xFF, data.push(cmux::check_octet(data))) == FCS_GOOD,
{
    let checked = data.push(cmux::check_octet(data));
    assert(checked.drop_last() =~= data);
    decoder::lemma_receiver_check(cmux::crc(0xFF, data), cmux::check_octet(data));
}

/// Two different registers stay different whatever octets follow.
proof fn lemma_crc_keeps_apart(first: u8, second: u8, data: Seq<u8>)
    requires
        first != second,
    ensures
        cmux::crc(first, data) != cmux::crc(second, data),
    decreases data.len(),
{
    if data.len() > 0 {
        lemma_crc_keeps_apart(first, second, data.drop_last());
        let a = cmux::crc(first, data.drop_last());
        let b = cmux::crc(second, data.drop_last());
        let last = data.last();
        assert(a != b ==> cmux::crc_octet(a ^ last) != cmux::crc_octet(b ^ last)) by (bit_vector);
    }
}

/// Changing any one covered octet changes the check octet.
pub proof fn law_checksum_sees_any_one_octet(data: Seq<u8>, at: int, octet: u8)
    requires
        0 <= at < data.len(),
        data[at] != octet,
    ensures
        cmux::check_octet(data.update(at, octet)) != cmux::check_octet(data),
{
    let changed = data.update(at, octet);
    let head = data.take(at);
    let tail = data.skip(at + 1);
    assert(data =~= head.push(data[at]) + tail);
    assert(changed =~= head.push(octet) + tail);
    assert(head.push(data[at]).drop_last() =~= head);
    assert(head.push(octet).drop_last() =~= head);
    let before = cmux::crc(0xFF, head);
    let a = cmux::crc(0xFF, head.push(data[at]));
    let b = cmux::crc(0xFF, head.push(octet));
    let x = data[at];
    assert(x != octet ==> cmux::crc_octet(before ^ x) != cmux::crc_octet(before ^ octet))
        by (bit_vector);
    lemma_crc_keeps_apart(a, b, tail);
    cmux::lemma_crc_append(0xFF, head.push(data[at]), tail);
    cmux::lemma_crc_append(0xFF, head.push(octet), tail);
    let ca = cmux::crc(0xFF, data);
    let cb = cmux::crc(0xFF, changed);
    assert(ca != cb ==> !ca != !cb) by (bit_vector);
}

/// The checksum of a UIH frame does not depend on its information: only the
/// header is protected.
pub proof fn law_uih_information_is_not_protected(frame: FrameView, other: Seq<u8>)
    requires
        frame.kind == FrameKind::Uih,
        other.len() == frame.information.len(),
    ensures
        cmux::check_octet(cmux::covered_octets(frame)) == cmux::check_octet(
            cmux::covered_octets(FrameView { information: other, ..frame }),
        ),
{
}

/// In every other kind of frame a change of one octet of the information shows
/// in the checksum.
pub proof fn law_other_information_is_protected(frame: FrameView, at: int, octet: u8)
    requires
        frame.kind != FrameKind::Uih,
        0 <= at < frame.information.len(),
        frame.information[at] != octet,
    ensures
        cmux::check_octet(cmux::covered_octets(frame)) != cmux::check_octet(
            cmux::covered_octets(
                FrameView { information: frame.information.update(at, octet), ..frame },
            ),
        ),
{
    let header = cmux::header_of(frame);
    let changed = frame.information.update(at, octet);
    assert((header + frame.information).update(header.len() + at, octet) =~= header + changed);
    law_checksum_sees_any_one_octet(header + frame.information, header.len() + at, octet);
}

/// A data frame sent in three writes is, octet for octet, the frame encoded in
/// one go.
pub proof fn law_streaming_matches_whole_frame(dlci: u8, payload: Seq<u8>)
    ensures
        cmux::uih_header(dlci, payload.len()) + payload + cmux::uih_trailer(dlci, payload.len())
            == cmux::wire(cmux::uih_view(dlci, payload)),
{
    assert(cmux::uih_header(dlci, payload.len()) + payload + cmux::uih_trailer(dlci, payload.len())
        =~= cmux::wire(cmux::uih_view(dlci, payload)));
}

// ---------------------------------------------------------------------------
// Decoding
// ---------------------------------------------------------------------------

/// Where a decoder stands after a run of octets.
pub open spec fn position_fed(position: Option<Seq<u8>>, bytes: Seq<u8>, capacity: nat) -> Option<
    Seq<u8>,
>
    decreases bytes.len(),
{
    if bytes.len() == 0 {
        position
    } else {
        decoder::position_after(
            position_fed(position, bytes.drop_last(), capacity),
            bytes.last(),
            capacity,
        )
    }
}

/// All that a run of octets brings out of a decoder, in order.
pub open spec fn outputs_fed(position: Option<Seq<u8>>, bytes: Seq<u8>, capacity: nat) -> Seq<
    Result<FrameView, DecodeError>,
>
    decreases bytes.len(),
{
    if bytes.len() == 0 {
        Seq::empty()
    } else {
        let before = outputs_fed(position, bytes.drop_last(), capacity);
        match decoder::output_of(
            position_fed(position, bytes.drop_last(), capacity),
            bytes.last(),
            capacity,
        ) {
            None => before,
            Some(output) => before.push(output),
        }
    }
}

/// Feeding two runs one after the other is feeding them joined.
pub proof fn law_feeding_in_parts(
    position: Option<Seq<u8>>,
    first: Seq<u8>,
    second: Seq<u8>,
    capacity: nat,
)
    ensures
        position_fed(position, first + second, capacity) == position_fed(
            position_fed(position, first, capacity),
            second,
            capacity,
        ),
        outputs_fed(position, first + second, capacity) == outputs_fed(position, first, capacity)
            + outputs_fed(position_fed(position, first, capacity), second, capacity),
    decreases second.len(),
{
    if second.len() == 0 {
        assert(first + second =~= first);
        assert(outputs_fed(position, first, capacity) + Seq::empty() =~= outputs_fed(
            position,
            first,
            capacity,
        ));
    } else {
        let whole = first + second;
        law_feeding_in_parts(position, first, second.drop_last(), capacity);
        assert(whole.drop_last() =~= first + second.drop_last());
        assert(whole.last() == second.last());
    }
}

/// The length field says how long it is itself and what it announces.
proof fn lemma_length_field(len: nat)
    requires
        len <= MAX_LEN_LONG,
    ensures
        len <= 127 ==> {
            &&& cmux::length_field(len).len() == 1
            &&& cmux::length_field(len)[0] & 1 != 0
            &&& cmux::length_field(len)[0] as nat / 2 == len
        },
        len > 127 ==> {
            &&& cmux::length_field(len).len() == 2
            &&& cmux::length_field(len)[0] & 1 == 0
            &&& cmux::length_field(len)[0] as nat / 2 + 128 * cmux::length_field(len)[1] as nat
                == len
        },
{
    let first = cmux::length_field(len)[0];
    assert(first & 1 == first % 2) by (bit_vector);
}

/// What a decoder makes of the octets behind a flag, up to any point of a
/// frame's body and with the closing flag.
proof fn lemma_verdicts_of_body(frame: FrameView, count: int, capacity: nat)
    requires
        cmux::encodable(frame),
        frame.information.len() <= capacity,
        0 <= count <= cmux::body_of(frame).len(),
    ensures
        decoder::verdict(cmux::body_of(frame).take(count), capacity) == Verdict::Unfinished,
        decoder::verdict(cmux::body_of(frame).push(FLAG), capacity) == Verdict::Complete(frame),
{
    let body = cmux::body_of(frame);
    let header = cmux::header_of(frame);
    let len = frame.information.len();
    law_address_round_trip(frame.address);
    law_control_round_trip(frame.kind, frame.poll_final);
    lemma_length_field(len);
    assert(body[0] == cmux::address_octet(frame.address));
    assert(body[1] == cmux::control_octet(frame.kind, frame.poll_final));
    assert(body[2] == cmux::length_field(len)[0]);
    assert(len > 127 ==> body[3] == cmux::length_field(len)[1]);
    assert(body[(header.len() + len) as int] == cmux::check_octet(cmux::covered_octets(frame)));
    assert(body.take((header.len() + len) as int) =~= header + frame.information);
    assert(body.take(header.len() as int) =~= header);
    let part = body.take(count);
    if count >= 3 && count >= header.len() {
        assert(decoder::header_len(part) == header.len());
        assert(decoder::announced_len(part) == len);
        if count == body.len() {
            assert(part =~= body);
            assert(decoder::checked_octets(part) == cmux::covered_octets(frame));
        }
    }
    let whole = body.push(FLAG);
    assert(decoder::header_len(whole) == header.len());
    assert(decoder::announced_len(whole) == len);
    assert(whole.subrange(header.len() as int, (header.len() + len) as int)
        =~= frame.information);
}

/// A decoder behind a flag takes in octets without a word as long as each run
/// of them is unfinished.
proof fn lemma_unfinished_run(run: Seq<u8>, count: int, capacity: nat)
    requires
        0 <= count <= run.len(),
        count > 0 ==> run[0] != FLAG,
        forall|k: int|
            1 <= k <= count ==> decoder::verdict(#[trigger] run.take(k), capacity)
                == Verdict::Unfinished,
    ensures
        position_fed(Some(Seq::empty()), run.take(count), capacity) == Some(run.take(count)),
        outputs_fed(Some(Seq::empty()), run.take(count), capacity).len() == 0,
    decreases count,
{
    if count > 0 {
        lemma_unfinished_run(run, count - 1, capacity);
        assert(run.take(count).drop_last() =~= run.take(count - 1));
        assert(run.take(count - 1).push(run[count - 1]) =~= run.take(count));
    } else {
        assert(run.take(0) =~= Seq::<u8>::empty());
    }
}

/// A decoder that has seen a flag reads the rest of a frame as that frame, and
/// then waits for the next one: the closing flag opens it.
pub proof fn law_frame_behind_a_flag(frame: FrameView, capacity: nat)
    requires
        cmux::encodable(frame),
        frame.information.len() <= capacity,
        cmux::address_octet(frame.address) != FLAG,
    ensures
        position_fed(Some(Seq::empty()), cmux::wire(frame).skip(1), capacity) == Some(
            Seq::<u8>::empty(),
        ),
        outputs_fed(Some(Seq::empty()), cmux::wire(frame).skip(1), capacity) == seq![
            Ok::<FrameView, DecodeError>(frame),
        ],
{
    let body = cmux::body_of(frame);
    assert(cmux::wire(frame).skip(1) =~= body.push(FLAG));
    assert(body.push(FLAG).drop_last() =~= body);
    assert(body.take(body.len() as int) =~= body);
    assert forall|k: int| 1 <= k <= body.len() implies decoder::verdict(
        #[trigger] body.take(k),
        capacity,
    ) == Verdict::Unfinished by {
        lemma_verdicts_of_body(frame, k, capacity);
    }
    assert(body[0] == cmux::address_octet(frame.address));
    lemma_unfinished_run(body, body.len() as int, capacity);
    lemma_verdicts_of_body(frame, body.len() as int, capacity);
    assert(outputs_fed(Some(Seq::empty()), body.push(FLAG), capacity) =~= seq![
        Ok::<FrameView, DecodeError>(frame),
    ]);
}

/// What is encoded decodes to itself: a decoder between frames that is fed an
/// encoded frame gives that frame and nothing else, flags inside the
/// information included.
///
/// A response on channel 62 is left out: its address octet is the flag.
pub proof fn law_frame_round_trip(position: Option<Seq<u8>>, frame: FrameView, capacity: nat)
    requires
        position is None || position == Some(Seq::<u8>::empty()),
        cmux::encodable(frame),
        frame.information.len() <= capacity,
        !(frame.address.dlci == 62 && !frame.address.command),
    ensures
        position_fed(position, cmux::wire(frame), capacity) == Some(Seq::<u8>::empty()),
        outputs_fed(position, cmux::wire(frame), capacity) == seq![
            Ok::<FrameView, DecodeError>(frame),
        ],
{
    law_address_that_looks_like_a_flag(frame.address);
    let flag = seq![FLAG];
    let rest = cmux::wire(frame).skip(1);
    assert(cmux::wire(frame) =~= flag + rest);
    assert(flag.drop_last() =~= Seq::<u8>::empty());
    assert(position_fed(position, flag.drop_last(), capacity) == position);
    assert(outputs_fed(position, flag.drop_last(), capacity).len() == 0);
    assert(position_fed(position, flag, capacity) == Some(Seq::<u8>::empty()));
    assert(outputs_fed(position, flag, capacity) =~= Seq::empty());
    law_frame_behind_a_flag(frame, capacity);
    law_feeding_in_parts(position, flag, rest, capacity);
    assert(outputs_fed(position, cmux::wire(frame), capacity) =~= seq![
        Ok::<FrameView, DecodeError>(frame),
    ]);
}

/// Two frames may share the flag between them.
pub proof fn law_shared_flag(first: FrameView, second: FrameView, capacity: nat)
    requires
        cmux::encodable(first),
        first.information.len() <= capacity,
        !(first.address.dlci == 62 && !first.address.command),
        cmux::encodable(second),
        second.information.len() <= capacity,
        !(second.address.dlci == 62 && !second.address.command),
    ensures
        outputs_fed(None, cmux::wire(first) + cmux::wire(second).skip(1), capacity) == seq![
            Ok::<FrameView, DecodeError>(first),
            Ok::<FrameView, DecodeError>(second),
        ],
{
    law_frame_round_trip(None, first, capacity);
    law_address_that_looks_like_a_flag(second.address);
    law_frame_behind_a_flag(second, capacity);
    law_feeding_in_parts(None, cmux::wire(first), cmux::wire(second).skip(1), capacity);
    assert(outputs_fed(None, cmux::wire(first) + cmux::wire(second).skip(1), capacity) =~= seq![
        Ok::<FrameView, DecodeError>(first),
        Ok::<FrameView, DecodeError>(second),
    ]);
}

/// Octets without a flag leave a hunting decoder hunting, without a word.
pub proof fn law_garbage_is_skipped(garbage: Seq<u8>, capacity: nat)
    requires
        forall|i: int| 0 <= i < garbage.len() ==> garbage[i] != FLAG,
    ensures
        position_fed(None, garbage, capacity) is None,
        outputs_fed(None, garbage, capacity).len() == 0,
    decreases garbage.len(),
{
    if garbage.len() > 0 {
        law_garbage_is_skipped(garbage.drop_last(), capacity);
    }
}

/// After garbage on the line the next frame is read whole.
pub proof fn law_resynchronises_after_garbage(garbage: Seq<u8>, frame: FrameView, capacity: nat)
    requires
        forall|i: int| 0 <= i < garbage.len() ==> garbage[i] != FLAG,
        cmux::encodable(frame),
        frame.information.len() <= capacity,
        !(frame.address.dlci == 62 && !frame.address.command),
    ensures
        outputs_fed(None, garbage + cmux::wire(frame), capacity) == seq![
            Ok::<FrameView, DecodeError>(frame),
        ],
{
    law_garbage_is_skipped(garbage, capacity);
    law_frame_round_trip(None, frame, capacity);
    law_feeding_in_parts(None, garbage, cmux::wire(frame), capacity);
    assert(outputs_fed(None, garbage + cmux::wire(frame), capacity) =~= seq![
        Ok::<FrameView, DecodeError>(frame),
    ]);
}

/// Flags between frames are fill: they bring nothing out, however many.
pub proof fn law_fill_is_skipped(position: Option<Seq<u8>>, count: nat, capacity: nat)
    requires
        position is None || position == Some(Seq::<u8>::empty()),
    ensures
        outputs_fed(position, Seq::new(count, |i: int| FLAG), capacity).len() == 0,
        position_fed(position, Seq::new(count, |i: int| FLAG), capacity) == (if count == 0 {
            position
        } else {
            Some(Seq::<u8>::empty())
        }),
    decreases count,
{
    let flags = Seq::new(count, |i: int| FLAG);
    if count > 0 {
        let fewer = (count - 1) as nat;
        law_fill_is_skipped(position, fewer, capacity);
        assert(flags.drop_last() =~= Seq::new(fewer, |i: int| FLAG));
    }
}

/// An information field that the decoder cannot hold is refused as soon as the
/// length is known.
pub proof fn law_too_long_frame_is_dropped(frame: FrameView, capacity: nat)
    requires
        cmux::encodable(frame),
        frame.information.len() > capacity,
    ensures
        decoder::verdict(cmux::header_of(frame), capacity) == Verdict::Dropped(
            DecodeError::TooLong,
        ),
{
    lemma_length_field(frame.information.len());
    let header = cmux::header_of(frame);
    assert(header[2] == cmux::length_field(frame.information.len())[0]);
}

/// Whether replacing the octet at `at` of a frame's body by `octet` is damage
/// that the checksum has to show: another address, another check octet, or, in
/// a kind that protects it, other information.
pub open spec fn is_damage(frame: FrameView, at: int, octet: u8) -> bool {
    &&& octet != cmux::body_of(frame)[at]
    &&& {
        ||| at == 0 && octet & 1 != 0 && octet != FLAG
        ||| at == cmux::body_of(frame).len() - 1
        ||| {
            &&& frame.kind != FrameKind::Uih
            &&& cmux::header_of(frame).len() <= at
            &&& at < cmux::header_of(frame).len() + frame.information.len()
        }
    }
}

proof fn lemma_verdicts_of_damaged_body(
    frame: FrameView,
    at: int,
    octet: u8,
    count: int,
    capacity: nat,
)
    requires
        cmux::encodable(frame),
        frame.information.len() <= capacity,
        is_damage(frame, at, octet),
        0 <= count <= cmux::body_of(frame).len(),
    ensures
        decoder::verdict(cmux::body_of(frame).update(at, octet).take(count), capacity) == (if count
            == cmux::body_of(frame).len() {
            Verdict::Dropped(DecodeError::Fcs)
        } else {
            Verdict::Unfinished
        }),
{
    let body = cmux::body_of(frame);
    let damaged = body.update(at, octet);
    let header = cmux::header_of(frame);
    let len = frame.information.len();
    law_address_round_trip(frame.address);
    law_control_round_trip(frame.kind, frame.poll_final);
    lemma_length_field(len);
    assert(body[0] == cmux::address_octet(frame.address));
    assert(damaged[1] == cmux::control_octet(frame.kind, frame.poll_final));
    assert(damaged[2] == cmux::length_field(len)[0]);
    assert(len > 127 ==> damaged[3] == cmux::length_field(len)[1]);
    let check = (header.len() + len) as int;
    assert(body[check] == cmux::check_octet(cmux::covered_octets(frame)));
    let part = damaged.take(count);
    if count >= 3 && count >= header.len() {
        assert(decoder::header_len(part) == header.len());
        assert(decoder::announced_len(part) == len);
        if count == body.len() {
            assert(part =~= damaged);
            let covered = cmux::covered_octets(frame);
            if at == check {
                assert(decoder::checked_octets(part) =~= covered);
            } else {
                assert(decoder::checked_octets(part) =~= covered.update(at, octet));
                law_checksum_sees_any_one_octet(covered, at, octet);
            }
        }
    }
}

/// A frame that was damaged on the line is dropped with a checksum error, and
/// nothing else comes out.
pub proof fn law_damaged_frame_is_dropped(
    position: Option<Seq<u8>>,
    frame: FrameView,
    at: int,
    octet: u8,
    capacity: nat,
)
    requires
        position is None || position == Some(Seq::<u8>::empty()),
        cmux::encodable(frame),
        frame.information.len() <= capacity,
        !(frame.address.dlci == 62 && !frame.address.command),
        is_damage(frame, at, octet),
    ensures
        outputs_fed(position, cmux::wire(frame).update(at + 1, octet), capacity) == seq![
            Err::<FrameView, DecodeError>(DecodeError::Fcs),
        ],
{
    law_address_that_looks_like_a_flag(frame.address);
    let body = cmux::body_of(frame);
    let damaged = body.update(at, octet);
    let flag = seq![FLAG];
    assert(cmux::wire(frame).update(at + 1, octet) =~= flag + damaged.push(FLAG));
    assert(flag.drop_last() =~= Seq::<u8>::empty());
    assert(position_fed(position, flag.drop_last(), capacity) == position);
    assert(outputs_fed(position, flag.drop_last(), capacity).len() == 0);
    assert(position_fed(position, flag, capacity) == Some(Seq::<u8>::empty()));
    assert(outputs_fed(position, flag, capacity) =~= Seq::empty());
    law_feeding_in_parts(position, flag, damaged.push(FLAG), capacity);

    let most = damaged.len() - 1;
    assert forall|k: int| 1 <= k <= most implies decoder::verdict(
        #[trigger] damaged.take(k),
        capacity,
    ) == Verdict::Unfinished by {
        lemma_verdicts_of_damaged_body(frame, at, octet, k, capacity);
    }
    assert(body[0] == cmux::address_octet(frame.address));
    lemma_unfinished_run(damaged, most, capacity);
    lemma_verdicts_of_damaged_body(frame, at, octet, damaged.len() as int, capacity);
    assert(damaged.take(damaged.len() as int) =~= damaged);
    assert(damaged.take(most) =~= damaged.drop_last());
    assert(damaged.drop_last().push(damaged.last()) =~= damaged);
    assert(outputs_fed(Some(Seq::empty()), damaged, capacity) =~= seq![
        Err::<FrameView, DecodeError>(DecodeError::Fcs),
    ]);
    assert(damaged.push(FLAG).drop_last() =~= damaged);
    assert(position_fed(Some(Seq::empty()), damaged, capacity) is None);
    assert(outputs_fed(position, cmux::wire(frame).update(at + 1, octet), capacity) =~= seq![
        Err::<FrameView, DecodeError>(DecodeError::Fcs),
    ]);
}

// ---------------------------------------------------------------------------
// Control messages
// ---------------------------------------------------------------------------

/// A control message read back is the message that was written.
pub proof fn law_control_message_round_trip(
    bits: u8,
    command: bool,
    value: Seq<u8>,
    rest: Seq<u8>,
)
    requires
        bits <= 0x3F,
        value.len() <= 127,
    ensures
        control::readable(control::message(bits, command, value) + rest),
        (control::message(bits, command, value) + rest)[0] >> 2 == bits,
        (control::message(bits, command, value) + rest)[0] & 2 != 0 <==> command,
        (control::message(bits, command, value) + rest).subrange(
            2,
            2 + (control::message(bits, command, value) + rest)[1] as int / 2,
        ) == value,
{
    let buf = control::message(bits, command, value) + rest;
    let c: u8 = if command {
        2
    } else {
        0
    };
    assert(bits <= 0x3F && (c == 0 || c == 2) ==> {
        let octet = (bits << 2) | c | 1;
        octet & 1 != 0 && octet >> 2 == bits && (octet & 2 != 0) == (c == 2)
    }) by (bit_vector);
    let len = buf[1];
    assert(len & 1 == len % 2) by (bit_vector);
    assert(len as int / 2 == value.len());
    assert(buf.subrange(2, (2 + value.len()) as int) =~= value);
}

/// A response carries the same type bits as its command; only C/R differs.
pub proof fn law_response_keeps_the_type(bits: u8)
    ensures
        control::spec_type_octet(bits, true) >> 2 == control::spec_type_octet(bits, false) >> 2,
        control::spec_type_octet(bits, true) & 2 != 0,
        control::spec_type_octet(bits, false) & 2 == 0,
{
    assert(((bits << 2) | 2u8 | 1u8) >> 2 == ((bits << 2) | 0u8 | 1u8) >> 2 && ((bits << 2) | 2u8
        | 1u8) & 2 != 0 && ((bits << 2) | 0u8 | 1u8) & 2 == 0) by (bit_vector);
}

/// Signals read back from their octet are those written; EA is set and the two
/// reserved bits are clear.
pub proof fn law_signals_round_trip(signals: V24Signals)
    ensures
        control::signal_octet(signals) & 1 != 0,
        control::signal_octet(signals) & 0x30 == 0,
        control::signals_of(control::signal_octet(signals)) == signals,
{
    let a: u8 = if signals.flow_control {
        0x02
    } else {
        0
    };
    let b: u8 = if signals.ready_to_communicate {
        0x04
    } else {
        0
    };
    let c: u8 = if signals.ready_to_receive {
        0x08
    } else {
        0
    };
    let d: u8 = if signals.incoming_call {
        0x40
    } else {
        0
    };
    let e: u8 = if signals.data_valid {
        0x80
    } else {
        0
    };
    assert((a == 0 || a == 0x02) && (b == 0 || b == 0x04) && (c == 0 || c == 0x08) && (d == 0 || d
        == 0x40) && (e == 0 || e == 0x80) ==> {
        let octet = 1u8 | a | b | c | d | e;
        &&& octet & 1 != 0
        &&& octet & 0x30 == 0
        &&& octet & 0x02 == a
        &&& octet & 0x04 == b
        &&& octet & 0x08 == c
        &&& octet & 0x40 == d
        &&& octet & 0x80 == e
    }) by (bit_vector);
}

/// The first octet of a modem status command names its channel.
pub proof fn law_msc_names_its_channel(dlci: u8, signals: V24Signals)
    requires
        dlci <= 63,
    ensures
        control::msc_value(dlci, signals)[0] >> 2 == dlci,
        control::msc_value(dlci, signals)[0] & 3 == 3,
        control::msc_value(dlci, signals)[0] == 4 * dlci + 3,
        control::msc_value(dlci, signals)[1] == control::signal_octet(signals),
        control::msc_value(dlci, signals).len() == 2,
{
    assert(dlci <= 63 ==> ((dlci << 2) | 3u8) >> 2 == dlci && ((dlci << 2) | 3u8) & 3 == 3 && ((dlci
        << 2) | 3u8) == 4 * dlci + 3) by (bit_vector);
}

// ---------------------------------------------------------------------------
// Channels
// ---------------------------------------------------------------------------

/// A channel that was asked to open is open once UA comes, and closed again
/// once DM comes.
pub proof fn law_opening(dlci: u8)
    ensures
        cmux::next_state(ChannelState::Opening, FrameKind::Ua) == ChannelState::Open,
        cmux::meaning(
            ChannelState::Opening,
            cmux::control_view(dlci, FrameKind::Ua, false, true),
        ) == EventView::Opened(dlci),
        cmux::next_state(ChannelState::Opening, FrameKind::Dm) == ChannelState::Closed,
        cmux::meaning(
            ChannelState::Opening,
            cmux::control_view(dlci, FrameKind::Dm, false, true),
        ) == EventView::Closed(dlci),
{
}

/// A channel that was asked to close is closed once UA or DM comes.
pub proof fn law_closing(dlci: u8, kind: FrameKind)
    requires
        kind == FrameKind::Ua || kind == FrameKind::Dm,
    ensures
        cmux::next_state(ChannelState::Closing, kind) == ChannelState::Closed,
        cmux::meaning(ChannelState::Closing, cmux::control_view(dlci, kind, false, true))
            == EventView::Closed(dlci),
{
}

/// Asking to open a channel opens it on both sides: the request opens it there
/// whatever it was, and the reply to it opens it here.
pub proof fn law_opening_handshake(there: ChannelState, dlci: u8)
    ensures
        cmux::next_state(there, FrameKind::Sabm) == ChannelState::Open,
        ({
            let request = cmux::control_view(dlci, FrameKind::Sabm, true, true);
            &&& cmux::meaning(there, request) matches EventView::RemoteOpen { dlci: on, reply }
            &&& on == dlci
            &&& cmux::meaning(ChannelState::Opening, reply) == EventView::Opened(dlci)
            &&& cmux::next_state(ChannelState::Opening, reply.kind) == ChannelState::Open
        }),
{
}

/// Asking to close a channel closes it on both sides, whether it was open there
/// or not.
pub proof fn law_closing_handshake(there: ChannelState, dlci: u8)
    ensures
        cmux::next_state(there, FrameKind::Disc) == ChannelState::Closed,
        ({
            let request = cmux::control_view(dlci, FrameKind::Disc, true, true);
            &&& cmux::meaning(there, request) matches EventView::RemoteDisconnect {
                dlci: on,
                reply,
            }
            &&& on == dlci
            &&& cmux::meaning(ChannelState::Closing, reply) == EventView::Closed(dlci)
            &&& cmux::next_state(ChannelState::Closing, reply.kind) == ChannelState::Closed
        }),
{
}

/// UA on a channel that nobody asked for changes nothing and means nothing.
pub proof fn law_stray_ua_is_ignored(state: ChannelState, frame: FrameView)
    requires
        frame.kind == FrameKind::Ua,
        state == ChannelState::Closed || state == ChannelState::Open,
    ensures
        cmux::next_state(state, frame.kind) == state,
        cmux::meaning(state, frame) == EventView::Ignored,
{
}

/// DISC is always answered and leaves the channel closed: with UA while the
/// channel was in use, with DM when it was closed already.
pub proof fn law_disconnect_is_answered(state: ChannelState, frame: FrameView)
    requires
        frame.kind == FrameKind::Disc,
    ensures
        cmux::next_state(state, frame.kind) == ChannelState::Closed,
        cmux::meaning(state, frame) == (EventView::RemoteDisconnect {
            dlci: frame.address.dlci,
            reply: cmux::control_view(
                frame.address.dlci,
                if state == ChannelState::Closed {
                    FrameKind::Dm
                } else {
                    FrameKind::Ua
                },
                false,
                true,
            ),
        }),
{
}

/// Data reaches the reader untouched and moves no channel.
pub proof fn law_data_is_passed_on(state: ChannelState, frame: FrameView)
    requires
        frame.kind == FrameKind::Uih || frame.kind == FrameKind::Ui,
    ensures
        cmux::next_state(state, frame.kind) == state,
        cmux::meaning(state, frame) == (EventView::Data {
            dlci: frame.address.dlci,
            payload: frame.information,
        }),
{
}

/// The C/R and Poll/Final bits of a frame never matter to its meaning.
pub proof fn law_command_bit_is_not_looked_at(
    state: ChannelState,
    frame: FrameView,
    command: bool,
    poll_final: bool,
)
    ensures
        cmux::meaning(state, frame) == cmux::meaning(
            state,
            FrameView {
                address: Address { dlci: frame.address.dlci, command },
                poll_final,
                ..frame
            },
        ),
{
}

// ---------------------------------------------------------------------------
// Octets of the standard
// ---------------------------------------------------------------------------

/// The control fields are those of 27.010: each kind of frame has its octet,
/// and with the Poll/Final bit the octet 16 above it. No other octet is a
/// control field.
pub proof fn law_control_fields_of_the_standard(control: u8)
    ensures
        cmux::kind_of(control) == Some(FrameKind::Sabm) <==> control == 0x2F || control == 0x3F,
        cmux::kind_of(control) == Some(FrameKind::Ua) <==> control == 0x63 || control == 0x73,
        cmux::kind_of(control) == Some(FrameKind::Dm) <==> control == 0x0F || control == 0x1F,
        cmux::kind_of(control) == Some(FrameKind::Disc) <==> control == 0x43 || control == 0x53,
        cmux::kind_of(control) == Some(FrameKind::Uih) <==> control == 0xEF || control == 0xFF,
        cmux::kind_of(control) == Some(FrameKind::Ui) <==> control == 0x03 || control == 0x13,
{
    assert((control & 0xEF == 0x2F <==> control == 0x2F || control == 0x3F) && (control & 0xEF
        == 0x63 <==> control == 0x63 || control == 0x73) && (control & 0xEF == 0x0F <==> control
        == 0x0F || control == 0x1F) && (control & 0xEF == 0x43 <==> control == 0x43 || control
        == 0x53) && (control & 0xEF == 0xEF <==> control == 0xEF || control == 0xFF) && (control
        & 0xEF == 0x03 <==> control == 0x03 || control == 0x13)) by (bit_vector);
}

/// What is written into the control field is what the standard says.
pub proof fn law_written_control_fields(poll_final: bool)
    ensures
        ({
            let pf: int = if poll_final {
                16
            } else {
                0
            };
            &&& cmux::control_octet(FrameKind::Sabm, poll_final) == 0x2F + pf
            &&& cmux::control_octet(FrameKind::Ua, poll_final) == 0x63 + pf
            &&& cmux::control_octet(FrameKind::Dm, poll_final) == 0x0F + pf
            &&& cmux::control_octet(FrameKind::Disc, poll_final) == 0x43 + pf
            &&& cmux::control_octet(FrameKind::Uih, poll_final) == 0xEF + pf
            &&& cmux::control_octet(FrameKind::Ui, poll_final) == 0x03 + pf
        }),
{
    assert(0x2Fu8 | 0x10u8 == 0x3Fu8 && 0x63u8 | 0x10u8 == 0x73u8 && 0x0Fu8 | 0x10u8 == 0x1Fu8
        && 0x43u8 | 0x10u8 == 0x53u8 && 0xEFu8 | 0x10u8 == 0xFFu8 && 0x03u8 | 0x10u8 == 0x13u8
        && 0x2Fu8 | 0u8 == 0x2Fu8 && 0x63u8 | 0u8 == 0x63u8 && 0x0Fu8 | 0u8 == 0x0Fu8 && 0x43u8
        | 0u8 == 0x43u8 && 0xEFu8 | 0u8 == 0xEFu8 && 0x03u8 | 0u8 == 0x03u8) by (bit_vector);
}

/// The octet that a frame of this kind carries in its control field.
pub open spec fn standard_control(kind: FrameKind, poll_final: bool) -> int {
    (match kind {
        FrameKind::Sabm => 47int,
        FrameKind::Ua => 99,
        FrameKind::Dm => 15,
        FrameKind::Disc => 67,
        FrameKind::Uih => 239,
        FrameKind::Ui => 3,
    }) + (if poll_final {
        16int
    } else {
        0
    })
}

/// A frame on the line, octet by octet: flag, channel number times four with
/// the C/R bit and the extension bit, control field, length in one octet or in
/// two, information, check octet, flag.
pub proof fn law_octets_of_a_frame(frame: FrameView)
    requires
        frame.address.dlci <= 63,
        frame.information.len() <= 32767,
    ensures
        ({
            let octets = cmux::wire(frame);
            let len = frame.information.len() as int;
            let start: int = if len <= 127 {
                4
            } else {
                5
            };
            &&& octets.len() == start + len + 2
            &&& octets[0] == 0xF9
            &&& octets[1] == 4 * frame.address.dlci + (if frame.address.command {
                3int
            } else {
                1
            })
            &&& octets[2] == standard_control(frame.kind, frame.poll_final)
            &&& len <= 127 ==> octets[3] == 2 * len + 1
            &&& len > 127 ==> octets[3] == 2 * (len % 128) && octets[4] == len / 128
            &&& octets.subrange(start, start + len) == frame.information
            &&& octets.last() == 0xF9
            &&& cmux::crc(
                0xFF,
                if frame.kind == FrameKind::Uih {
                    octets.subrange(1, start)
                } else {
                    octets.subrange(1, start + len)
                }.push(octets[start + len]),
            ) == 0xCF
        }),
{
    let octets = cmux::wire(frame);
    let len = frame.information.len() as int;
    let start: int = if len <= 127 {
        4
    } else {
        5
    };
    let d = frame.address.dlci;
    let c: u8 = if frame.address.command {
        2
    } else {
        0
    };
    assert(d <= 63 && (c == 0 || c == 2) ==> ((d << 2) | c | 1) == 4 * d + c + 1) by (bit_vector);
    law_written_control_fields(frame.poll_final);
    lemma_length_field(frame.information.len());
    assert(octets.subrange(start, start + len) =~= frame.information);
    assert(octets.subrange(1, start) =~= cmux::header_of(frame));
    assert(octets.subrange(1, start + len) =~= cmux::header_of(frame) + frame.information);
    law_receiver_check(cmux::covered_octets(frame));
    assert(octets[start + len] == cmux::check_octet(cmux::covered_octets(frame)));
}

/// A frame can be encoded when its channel and its length have room in their
/// fields.
pub proof fn law_fields_have_room(frame: FrameView)
    ensures
        cmux::encodable(frame) <==> frame.address.dlci < 64 && frame.information.len() < 32768,
{
}

/// The checksum is linear: it is fixed by what it makes of the eight single
/// bits.
#[verifier::rlimit(40)]
pub proof fn law_checksum_is_linear(a: u8, b: u8)
    ensures
        cmux::crc_octet(a ^ b) == cmux::crc_octet(a) ^ cmux::crc_octet(b),
        cmux::crc_octet(0x01) == 0x91,
        cmux::crc_octet(0x02) == 0xE3,
        cmux::crc_octet(0x04) == 0x07,
        cmux::crc_octet(0x08) == 0x0E,
        cmux::crc_octet(0x10) == 0x1C,
        cmux::crc_octet(0x20) == 0x38,
        cmux::crc_octet(0x40) == 0x70,
        cmux::crc_octet(0x80) == 0xE0,
{
    assert(cmux::crc_octet(a ^ b) == cmux::crc_octet(a) ^ cmux::crc_octet(b)) by (bit_vector);
    assert(cmux::crc_octet(0x01) == 0x91 && cmux::crc_octet(0x02) == 0xE3 && cmux::crc_octet(0x04)
        == 0x07 && cmux::crc_octet(0x08) == 0x0E && cmux::crc_octet(0x10) == 0x1C
        && cmux::crc_octet(0x20) == 0x38 && cmux::crc_octet(0x40) == 0x70 && cmux::crc_octet(0x80)
        == 0xE0) by (bit_vector);
}

/// The checksum takes in the octets one after the other, from the first to the
/// last, and starts with what it is given.
pub proof fn law_checksum_goes_octet_by_octet(acc: u8, data: Seq<u8>, octet: u8)
    ensures
        cmux::crc(acc, Seq::empty()) == acc,
        cmux::crc(acc, data.push(octet)) == cmux::crc_octet(cmux::crc(acc, data) ^ octet),
        cmux::check_octet(data) == 255 - cmux::crc(0xFF, data),
{
    assert(data.push(octet).drop_last() =~= data);
    let sum = cmux::crc(0xFF, data);
    assert(!sum == 255 - sum) by (bit_vector);
}

/// Only UIH leaves its information out of the checksum.
pub proof fn law_what_the_checksum_covers(kind: FrameKind)
    ensures
        !cmux::covers_information(kind) <==> kind == FrameKind::Uih,
{
}

/// An address octet, and a type octet alike, holds its number in quarters, the
/// C/R bit in the place of 2 and the extension bit in the place of 1.
pub proof fn law_fields_of_an_octet(octet: u8)
    ensures
        octet >> 2 == octet / 4,
        octet & 2 != 0 <==> octet / 2 % 2 == 1,
        octet & 1 == octet % 2,
        cmux::address_of(octet).dlci == octet / 4,
        cmux::address_of(octet).command <==> octet / 2 % 2 == 1,
{
    assert(octet >> 2 == octet / 4 && (octet & 2 != 0 <==> octet / 2 % 2 == 1) && octet & 1 == octet
        % 2) by (bit_vector);
}

/// A frame of this side with data is a command without Poll/Final, and one
/// without data is six octets.
pub proof fn law_octets_of_frames_sent(
    dlci: u8,
    information: Seq<u8>,
    kind: FrameKind,
    command: bool,
    poll_final: bool,
)
    requires
        dlci <= 63,
        information.len() <= 32767,
    ensures
        ({
            let data = cmux::wire(cmux::uih_view(dlci, information));
            let bare = cmux::wire(cmux::control_view(dlci, kind, command, poll_final));
            &&& data[1] == 4 * dlci + 3
            &&& data[2] == 0xEF
            &&& bare.len() == 6
            &&& bare[0] == 0xF9
            &&& bare[1] == 4 * dlci + (if command {
                3int
            } else {
                1
            })
            &&& bare[2] == standard_control(kind, poll_final)
            &&& bare[3] == 0x01
            &&& cmux::crc(0xFF, bare.subrange(1, 5)) == 0xCF
            &&& bare[5] == 0xF9
        }),
{
    law_octets_of_a_frame(cmux::uih_view(dlci, information));
    law_octets_of_a_frame(cmux::control_view(dlci, kind, command, poll_final));
    let bare = cmux::wire(cmux::control_view(dlci, kind, command, poll_final));
    assert(bare.subrange(1, 4).push(bare[4]) =~= bare.subrange(1, 5));
}

/// A type octet is the type times four, with the C/R bit and the extension bit,
/// and an address octet is built alike of the number of its channel. Numbers
/// above 63 lose their upper bits. The five messages have the octets of the
/// standard.
pub proof fn law_type_octets_of_the_standard(bits: u8, command: bool)
    ensures
        control::spec_type_octet(bits, command) == 4 * (bits % 64) + (if command {
            3int
        } else {
            1
        }),
        cmux::address_octet(Address { dlci: bits, command }) == control::spec_type_octet(
            bits,
            command,
        ),
        control::spec_type_octet(control::CLD, true) == 0xC3,
        control::spec_type_octet(control::FCON, true) == 0xA3,
        control::spec_type_octet(control::FCOFF, true) == 0x63,
        control::spec_type_octet(control::NSC, false) == 0x11,
        control::spec_type_octet(control::MSC, true) == 0xE3,
        control::spec_type_octet(control::MSC, false) == 0xE1,
{
    let c: u8 = if command {
        2
    } else {
        0
    };
    assert(((c == 0 || c == 2) ==> ((bits << 2) | c | 1) == 4 * (bits % 64) + c + 1) && ((0x30u8
        << 2) | 2 | 1) == 0xC3u8 && ((0x28u8 << 2) | 2 | 1) == 0xA3u8 && ((0x18u8 << 2) | 2 | 1)
        == 0x63u8 && ((0x04u8 << 2) | 0 | 1) == 0x11u8 && ((0x38u8 << 2) | 2 | 1) == 0xE3u8 && ((
    0x38u8 << 2) | 0 | 1) == 0xE1u8) by (bit_vector);
}

/// A message is its type octet, its length, and its value.
pub proof fn law_octets_of_a_message(bits: u8, command: bool, value: Seq<u8>)
    requires
        bits <= 63,
        value.len() <= 127,
    ensures
        ({
            let octets = control::message(bits, command, value);
            &&& octets.len() == value.len() + 2
            &&& octets[0] == 4 * bits + (if command {
                3int
            } else {
                1
            })
            &&& octets[1] == 2 * value.len() + 1
            &&& octets.skip(2) == value
        }),
{
    law_type_octets_of_the_standard(bits, command);
    assert(control::message(bits, command, value).skip(2) =~= value);
}

/// Octets are a message when type and length are of one octet each and the
/// value is all there.
pub proof fn law_readable_messages(octets: Seq<u8>)
    ensures
        control::readable(octets) <==> octets.len() >= 2 && octets[0] % 2 == 1 && octets[1] % 2 == 1
            && octets.len() >= 2 + octets[1] / 2,
{
    if octets.len() >= 2 {
        law_fields_of_an_octet(octets[0]);
        law_fields_of_an_octet(octets[1]);
    }
}

/// Each signal has its place in the octet: 2, 4, 8, 64 and 128; 1 is always
/// there, 16 and 32 never.
pub proof fn law_places_of_the_signals(signals: V24Signals)
    ensures
        control::signal_octet(signals) == 1 + (if signals.flow_control {
            2int
        } else {
            0
        }) + (if signals.ready_to_communicate {
            4int
        } else {
            0
        }) + (if signals.ready_to_receive {
            8int
        } else {
            0
        }) + (if signals.incoming_call {
            64int
        } else {
            0
        }) + (if signals.data_valid {
            128int
        } else {
            0
        }),
        control::signal_octet(control::dte_ready_signals()) == 0x8D,
{
    let a: u8 = if signals.flow_control {
        2
    } else {
        0
    };
    let b: u8 = if signals.ready_to_communicate {
        4
    } else {
        0
    };
    let c: u8 = if signals.ready_to_receive {
        8
    } else {
        0
    };
    let d: u8 = if signals.incoming_call {
        64
    } else {
        0
    };
    let e: u8 = if signals.data_valid {
        128
    } else {
        0
    };
    assert((a == 0 || a == 2) && (b == 0 || b == 4) && (c == 0 || c == 8) && (d == 0 || d == 64) && (
    e == 0 || e == 128) ==> (1u8 | a | b | c | d | e) == 1 + a + b + c + d + e && (1u8 | 0u8 | 4u8
        | 8u8 | 0u8 | 128u8) == 0x8Du8) by (bit_vector);
}

/// Each signal is read from its place in the octet.
pub proof fn law_signals_are_read_from_their_places(octet: u8)
    ensures
        control::signals_of(octet).flow_control <==> octet / 2 % 2 == 1,
        control::signals_of(octet).ready_to_communicate <==> octet / 4 % 2 == 1,
        control::signals_of(octet).ready_to_receive <==> octet / 8 % 2 == 1,
        control::signals_of(octet).incoming_call <==> octet / 64 % 2 == 1,
        control::signals_of(octet).data_valid <==> octet / 128 % 2 == 1,
{
    assert((octet & 0x02 != 0 <==> octet / 2 % 2 == 1) && (octet & 0x04 != 0 <==> octet / 4 % 2
        == 1) && (octet & 0x08 != 0 <==> octet / 8 % 2 == 1) && (octet & 0x40 != 0 <==> octet / 64
        % 2 == 1) && (octet & 0x80 != 0 <==> octet / 128 % 2 == 1)) by (bit_vector);
}

/// Behind a flag an octet is an address unless its extension bit is clear.
pub proof fn law_long_addresses_are_dropped(octet: u8, capacity: nat)
    requires
        octet != 0xF9,
    ensures
        octet % 2 == 0 ==> decoder::output_of(Some(Seq::empty()), octet, capacity) == Some(
            Err::<FrameView, DecodeError>(DecodeError::ExtendedAddress),
        ) && decoder::position_after(Some(Seq::empty()), octet, capacity) is None,
        octet % 2 == 1 ==> decoder::output_of(Some(Seq::empty()), octet, capacity) is None
            && decoder::position_after(Some(Seq::empty()), octet, capacity) == Some(seq![octet]),
{
    law_fields_of_an_octet(octet);
    assert(Seq::<u8>::empty().push(octet) =~= seq![octet]);
}

/// Behind an address an octet is a control field of the standard, or the frame
/// is dropped.
pub proof fn law_unknown_control_fields_are_dropped(address: u8, octet: u8, capacity: nat)
    ensures
        ({
            let known = octet == 0x2F || octet == 0x3F || octet == 0x63 || octet == 0x73 || octet
                == 0x0F || octet == 0x1F || octet == 0x43 || octet == 0x53 || octet == 0xEF || octet
                == 0xFF || octet == 0x03 || octet == 0x13;
            &&& known ==> decoder::output_of(Some(seq![address]), octet, capacity) is None
                && decoder::position_after(Some(seq![address]), octet, capacity) == Some(
                seq![address, octet],
            )
            &&& !known ==> decoder::output_of(Some(seq![address]), octet, capacity) == Some(
                Err::<FrameView, DecodeError>(DecodeError::UnknownControl),
            ) && decoder::position_after(Some(seq![address]), octet, capacity) is None
        }),
{
    law_control_fields_of_the_standard(octet);
    assert(seq![address].push(octet) =~= seq![address, octet]);
}

/// A frame that is not closed by a flag is dropped.
pub proof fn law_unclosed_frame_is_dropped(frame: FrameView, octet: u8, capacity: nat)
    requires
        cmux::encodable(frame),
        frame.information.len() <= capacity,
        octet != 0xF9,
    ensures
        decoder::output_of(Some(cmux::body_of(frame)), octet, capacity) == Some(
            Err::<FrameView, DecodeError>(DecodeError::MissingClosingFlag),
        ),
        decoder::position_after(Some(cmux::body_of(frame)), octet, capacity) is None,
{
    let body = cmux::body_of(frame);
    let whole = body.push(octet);
    let header = cmux::header_of(frame);
    let len = frame.information.len();
    lemma_length_field(len);
    assert(body[2] == cmux::length_field(len)[0]);
    assert(len > 127 ==> body[3] == cmux::length_field(len)[1]);
    assert(whole[2] == body[2] && (len > 127 ==> whole[3] == body[3]));
    assert(decoder::header_len(whole) == header.len());
    assert(decoder::announced_len(whole) == len);
}

/// What each frame means to a channel in each state, and where it leaves the
/// channel.
pub proof fn law_every_frame_has_its_meaning(state: ChannelState, frame: FrameView)
    ensures
        ({
            let dlci = frame.address.dlci;
            let event = cmux::meaning(state, frame);
            let next = cmux::next_state(state, frame.kind);
            let ua = FrameView {
                address: Address { dlci, command: false },
                kind: FrameKind::Ua,
                poll_final: true,
                information: Seq::empty(),
            };
            let dm = FrameView { kind: FrameKind::Dm, ..ua };
            &&& frame.kind == FrameKind::Uih || frame.kind == FrameKind::Ui ==> event
                == EventView::Data { dlci, payload: frame.information } && next == state
            &&& frame.kind == FrameKind::Ua && state == ChannelState::Opening ==> event
                == EventView::Opened(dlci) && next == ChannelState::Open
            &&& frame.kind == FrameKind::Ua && state == ChannelState::Closing ==> event
                == EventView::Closed(dlci) && next == ChannelState::Closed
            &&& frame.kind == FrameKind::Ua && (state == ChannelState::Open || state
                == ChannelState::Closed) ==> event == EventView::Ignored && next == state
            &&& frame.kind == FrameKind::Dm && state == ChannelState::Closed ==> event
                == EventView::Ignored
            &&& frame.kind == FrameKind::Dm && state != ChannelState::Closed ==> event
                == EventView::Closed(dlci)
            &&& frame.kind == FrameKind::Dm ==> next == ChannelState::Closed
            &&& frame.kind == FrameKind::Sabm ==> event == EventView::RemoteOpen { dlci, reply: ua }
                && next == ChannelState::Open
            &&& frame.kind == FrameKind::Disc && state == ChannelState::Closed ==> event
                == EventView::RemoteDisconnect { dlci, reply: dm } && next == ChannelState::Closed
            &&& frame.kind == FrameKind::Disc && state != ChannelState::Closed ==> event
                == EventView::RemoteDisconnect { dlci, reply: ua } && next == ChannelState::Closed
        }),
{
}

/// Every run of octets behind a flag is judged by what it says of itself: its
/// address, its control field, the length that it announces in one octet or in
/// two, its check octet, and the flag that closes it.
pub proof fn law_every_run_has_its_verdict(octets: Seq<u8>, capacity: nat)
    requires
        octets.len() >= 3 ==> cmux::kind_of(octets[1]) is Some,
    ensures
        ({
            let said = decoder::verdict(octets, capacity);
            let short = octets[2] % 2 == 1;
            let head: int = if short {
                3
            } else {
                4
            };
            let size: int = octets[2] / 2 + if short {
                0
            } else {
                128 * octets[3]
            };
            let covered = if cmux::kind_of(octets[1]) == Some(FrameKind::Uih) {
                octets.take(head)
            } else {
                octets.take(head + size)
            };
            let checked = cmux::crc(0xFF, covered.push(octets[head + size])) == 0xCF;
            &&& octets.len() == 0 ==> said == Verdict::Unfinished
            &&& octets.len() == 1 ==> said == if octets[0] % 2 == 1 {
                Verdict::Unfinished
            } else {
                Verdict::Dropped(DecodeError::ExtendedAddress)
            }
            &&& octets.len() == 2 ==> said == if cmux::kind_of(octets[1]) is Some {
                Verdict::Unfinished
            } else {
                Verdict::Dropped(DecodeError::UnknownControl)
            }
            &&& octets.len() == 3 && !short ==> said == Verdict::Unfinished
            &&& octets.len() == head && size > capacity ==> said == Verdict::Dropped(
                DecodeError::TooLong,
            )
            &&& octets.len() == head && size <= capacity ==> said == Verdict::Unfinished
            &&& head < octets.len() <= head + size ==> said == Verdict::Unfinished
            &&& octets.len() > head && octets.len() == head + size + 1 ==> said == if checked {
                Verdict::Unfinished
            } else {
                Verdict::Dropped(DecodeError::Fcs)
            }
            &&& octets.len() > head + size + 1 && octets[head + size + 1] != 0xF9 ==> said
                == Verdict::Dropped(DecodeError::MissingClosingFlag)
            &&& octets.len() > head + size + 1 && octets[head + size + 1] == 0xF9 ==> (
            said matches Verdict::Complete(frame) && frame.address.dlci == octets[0] / 4 && (
            frame.address.command <==> octets[0] / 2 % 2 == 1) && cmux::kind_of(octets[1])
                == Some(frame.kind) && (frame.poll_final <==> octets[1] / 16 % 2
                == 1) && frame.information == octets.subrange(head, head + size))
        }),
{
    if octets.len() >= 1 {
        law_fields_of_an_octet(octets[0]);
    }
    if octets.len() >= 3 {
        law_fields_of_an_octet(octets[2]);
        let control = octets[1];
        assert(control & 0x10 != 0 <==> control / 16 % 2 == 1) by (bit_vector);
        let body = (decoder::header_len(octets) + decoder::announced_len(octets)) as int;
        let covered = decoder::checked_octets(octets);
        if octets.len() == body + 1 {
            law_checksum_goes_octet_by_octet(0xFF, covered, octets[body]);
            decoder::lemma_receiver_check(cmux::crc(0xFF, covered), octets[body]);
            if octets.len() > decoder::header_len(octets) {
                assert(cmux::kind_of(octets[1]) == Some(FrameKind::Uih) ==> covered
                    == octets.take(decoder::header_len(octets) as int));
            }
        }
    }
}

/// A session knows the states of 64 channels; any other counts as closed.
pub proof fn law_states_of_channels(channels: Seq<ChannelState>, dlci: u8)
    ensures
        dlci < 64 ==> cmux::state_in(channels, dlci) == channels[dlci as int],
        dlci >= 64 ==> cmux::state_in(channels, dlci) == ChannelState::Closed,
{
}

} // verus!
