//! Messages of the control channel.
//!
//! Each message is type, length and value. In the type octet bit 1 is EA, bit 2
//! is C/R and bits 3..8 are the type itself; the constants below hold the type
//! bits alone.

use vstd::prelude::*;

use crate::cmux;

verus! {

/// Multiplexer close down: puts the line back to plain AT mode.
pub const CLD: u8 = 0x30;

/// Flow control on: the other side takes data again.
pub const FCON: u8 = 0x28;

/// Flow control off: no data but on the control channel.
pub const FCOFF: u8 = 0x18;

/// Non supported command: the answer to a command that is not known. Its value
/// is the type octet of that command.
pub const NSC: u8 = 0x04;

/// Modem status command: carries the virtual V.24 signals. It has to be sent
/// before any user data, right after a channel is created.
pub const MSC: u8 = 0x38;

/// `type bits | C/R | EA` with EA set.
pub open spec fn spec_type_octet(bits: u8, command: bool) -> u8 {
    (bits << 2) | (if command {
        2u8
    } else {
        0u8
    }) | 1
}

/// Builds a type octet from the type bits and the command flag.
pub fn type_octet(bits: u8, command: bool) -> (r: u8)
    ensures
        r == spec_type_octet(bits, command),
{
    let flag: u8 = if command {
        2
    } else {
        0
    };
    (bits << 2) | flag | 1
}

/// The output buffer is too short, or the value is longer than 127 octets.
#[derive(Debug, Clone, Copy, PartialEq, Eq, Structural)]
pub struct EncodeError;

/// A whole message: type, length, value.
pub open spec fn message(bits: u8, command: bool, value: Seq<u8>) -> Seq<u8> {
    seq![spec_type_octet(bits, command), (2 * value.len() + 1) as u8] + value
}

/// Writes a message to the front of `out` and returns its length.
///
/// Types and lengths of several octets exist on paper, but no defined message
/// uses them, so one octet each is all there is.
pub fn encode(bits: u8, command: bool, value: &[u8], out: &mut [u8]) -> (r: Result<
    usize,
    EncodeError,
>)
    ensures
        r == (if value@.len() > 127 || old(out)@.len() < value@.len() + 2 {
            Err::<usize, EncodeError>(EncodeError)
        } else {
            Ok((value@.len() + 2) as usize)
        }),
        r matches Ok(n) ==> final(out)@ == message(bits, command, value@) + old(out)@.skip(n as int),
        r is Err ==> final(out)@ == old(out)@,
{
    if value.len() > 127 || out.len() < value.len() + 2 {
        return Err(EncodeError);
    }
    let len: u8 = value.len() as u8;
    assert(len <= 127 ==> (len << 1) | 1 == 2 * len + 1) by (bit_vector);
    let ghost start = out@;
    out[0] = type_octet(bits, command);
    out[1] = (len << 1) | 1;
    cmux::copy_into(out, 2, value);
    assert(out@ =~= message(bits, command, value@) + start.skip((value@.len() + 2) as int));
    Ok(value.len() + 2)
}

/// Whether `buf` starts with a whole message with a one-octet type and length.
pub open spec fn readable(buf: Seq<u8>) -> bool {
    &&& buf.len() >= 2
    &&& buf[0] & 1 != 0
    &&& buf[1] & 1 != 0
    &&& 2 + buf[1] as int / 2 <= buf.len()
}

/// Reads a message: type bits, command flag and value.
///
/// `None` when the buffer ends early or EA is clear in the type or the length.
pub fn decode(buf: &[u8]) -> (r: Option<(u8, bool, &[u8])>)
    ensures
        r is Some <==> readable(buf@),
        r matches Some((bits, command, value)) ==> {
            &&& bits == buf@[0] >> 2
            &&& command == (buf@[0] & 2 != 0)
            &&& value@ == buf@.subrange(2, 2 + buf@[1] as int / 2)
        },
{
    if buf.len() < 2 {
        return None;
    }
    let type_octet: u8 = buf[0];
    let length_octet: u8 = buf[1];
    if type_octet & 1 == 0 || length_octet & 1 == 0 {
        return None;
    }
    assert(length_octet >> 1 == length_octet / 2) by (bit_vector);
    let len: usize = (length_octet >> 1) as usize;
    if len > buf.len() - 2 {
        return None;
    }
    Some((type_octet >> 2, type_octet & 2 != 0, &buf[2..2 + len]))
}

/// The octet of virtual V.24 signals.
#[derive(Debug, Clone, Copy, PartialEq, Eq, Structural)]
pub struct V24Signals {
    /// FC: the device cannot take frames.
    pub flow_control: bool,
    /// RTC: the device is ready to communicate.
    pub ready_to_communicate: bool,
    /// RTR: the device is ready to receive data.
    pub ready_to_receive: bool,
    /// IC: incoming call. A sending DTE always clears it.
    pub incoming_call: bool,
    /// DV: valid data is being sent. A DTE always sets it.
    pub data_valid: bool,
}

/// The octet of the signals: EA in bit 1, bits 5 and 6 clear.
pub open spec fn signal_octet(signals: V24Signals) -> u8 {
    1u8 | (if signals.flow_control {
        0x02u8
    } else {
        0
    }) | (if signals.ready_to_communicate {
        0x04u8
    } else {
        0
    }) | (if signals.ready_to_receive {
        0x08u8
    } else {
        0
    }) | (if signals.incoming_call {
        0x40u8
    } else {
        0
    }) | (if signals.data_valid {
        0x80u8
    } else {
        0
    })
}

/// The signals that an octet carries; meaningful when its EA bit is set.
pub open spec fn signals_of(octet: u8) -> V24Signals {
    V24Signals {
        flow_control: octet & 0x02 != 0,
        ready_to_communicate: octet & 0x04 != 0,
        ready_to_receive: octet & 0x08 != 0,
        incoming_call: octet & 0x40 != 0,
        data_valid: octet & 0x80 != 0,
    }
}

/// What an ordinary DTE signals: ready to talk and to receive, nothing stopped.
pub open spec fn dte_ready_signals() -> V24Signals {
    V24Signals {
        flow_control: false,
        ready_to_communicate: true,
        ready_to_receive: true,
        incoming_call: false,
        data_valid: true,
    }
}

impl V24Signals {
    /// An ordinary DTE: ready to talk and to receive, no flow stopped. Its
    /// octet is `0x8D`.
    pub fn dte_ready() -> (r: V24Signals)
        ensures
            r == dte_ready_signals(),
            signal_octet(r) == 0x8D,
    {
        assert(1u8 | 0u8 | 0x04u8 | 0x08u8 | 0u8 | 0x80u8 == 0x8Du8) by (bit_vector);
        V24Signals {
            flow_control: false,
            ready_to_communicate: true,
            ready_to_receive: true,
            incoming_call: false,
            data_valid: true,
        }
    }

    fn bit(signal: bool, mask: u8) -> (r: u8)
        ensures
            r == (if signal {
                mask
            } else {
                0
            }),
    {
        if signal {
            mask
        } else {
            0
        }
    }

    /// Builds the octet.
    pub fn encode(self) -> (r: u8)
        ensures
            r == signal_octet(self),
    {
        1 | V24Signals::bit(self.flow_control, 0x02) | V24Signals::bit(
            self.ready_to_communicate,
            0x04,
        ) | V24Signals::bit(self.ready_to_receive, 0x08) | V24Signals::bit(
            self.incoming_call,
            0x40,
        ) | V24Signals::bit(self.data_valid, 0x80)
    }

    /// Reads the octet. `None` when EA is clear.
    pub fn decode(octet: u8) -> (r: Option<V24Signals>)
        ensures
            r == (if octet & 1 == 0 {
                None::<V24Signals>
            } else {
                Some(signals_of(octet))
            }),
    {
        if octet & 1 == 0 {
            return None;
        }
        Some(
            V24Signals {
                flow_control: octet & 0x02 != 0,
                ready_to_communicate: octet & 0x04 != 0,
                ready_to_receive: octet & 0x08 != 0,
                incoming_call: octet & 0x40 != 0,
                data_valid: octet & 0x80 != 0,
            },
        )
    }
}

/// The value of a modem status command: channel octet, signal octet.
pub open spec fn msc_value(dlci: u8, signals: V24Signals) -> Seq<u8> {
    seq![(dlci << 2) | 3, signal_octet(signals)]
}

/// Builds the modem status command of channel `dlci`.
///
/// In the channel octet bit 1 is EA and bit 2 is always set.
pub fn msc(dlci: u8, signals: V24Signals, command: bool, out: &mut [u8]) -> (r: Result<
    usize,
    EncodeError,
>)
    ensures
        r == (if old(out)@.len() < 4 {
            Err::<usize, EncodeError>(EncodeError)
        } else {
            Ok(4usize)
        }),
        r is Ok ==> final(out)@ == message(MSC, command, msc_value(dlci, signals)) + old(out)@.skip(
            4,
        ),
        r is Err ==> final(out)@ == old(out)@,
{
    let value: [u8; 2] = [(dlci << 2) | 3, signals.encode()];
    assert(value@ =~= msc_value(dlci, signals));
    self::encode(MSC, command, &value, out)
}

} // verus!
