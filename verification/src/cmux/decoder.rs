//! Reading frames from a stream of octets.

use vstd::prelude::*;

use crate::cmux;
use crate::cmux::{crc_step, Address, DecodeError, Frame, FrameKind, FrameView, FCS_GOOD, FLAG, PF};

verus! {

/// What the octets since the last flag amount to.
pub enum Verdict {
    /// More octets are needed.
    Unfinished,
    /// The frame is dropped with the octet that came last.
    Dropped(DecodeError),
    /// The octet that came last closed this frame.
    Complete(FrameView),
}

/// Octets of address, control and length, once the third octet is known.
pub open spec fn header_len(octets: Seq<u8>) -> nat {
    if octets[2] & 1 != 0 {
        3
    } else {
        4
    }
}

/// The length that a complete header announces.
pub open spec fn announced_len(octets: Seq<u8>) -> nat {
    if octets[2] & 1 != 0 {
        octets[2] as nat / 2
    } else {
        octets[2] as nat / 2 + 128 * octets[3] as nat
    }
}

/// The frame that a complete run of octets carries.
pub open spec fn carried_frame(octets: Seq<u8>) -> FrameView {
    FrameView {
        address: cmux::address_of(octets[0]),
        kind: cmux::kind_of(octets[1])->0,
        poll_final: octets[1] & PF != 0,
        information: octets.subrange(
            header_len(octets) as int,
            (header_len(octets) + announced_len(octets)) as int,
        ),
    }
}

/// The octets that the checksum of the carried frame covers.
pub open spec fn checked_octets(octets: Seq<u8>) -> Seq<u8> {
    if cmux::covers_information(cmux::kind_of(octets[1])->0) {
        octets.take((header_len(octets) + announced_len(octets)) as int)
    } else {
        octets.take(header_len(octets) as int)
    }
}

/// What to make of `octets`, the octets since the last flag, when the decoder
/// holds at most `capacity` octets of information. Every shorter run must have
/// been unfinished.
pub open spec fn verdict(octets: Seq<u8>, capacity: nat) -> Verdict {
    if octets.len() == 0 {
        Verdict::Unfinished
    } else if octets.len() == 1 {
        if octets[0] & 1 == 0 {
            Verdict::Dropped(DecodeError::ExtendedAddress)
        } else {
            Verdict::Unfinished
        }
    } else if octets.len() == 2 {
        if cmux::kind_of(octets[1]) is None {
            Verdict::Dropped(DecodeError::UnknownControl)
        } else {
            Verdict::Unfinished
        }
    } else if octets.len() < header_len(octets) {
        Verdict::Unfinished
    } else {
        let body = header_len(octets) + announced_len(octets);
        if octets.len() == header_len(octets) && announced_len(octets) > capacity {
            Verdict::Dropped(DecodeError::TooLong)
        } else if octets.len() <= body {
            Verdict::Unfinished
        } else if octets.len() == body + 1 {
            if octets[body as int] == cmux::check_octet(checked_octets(octets)) {
                Verdict::Unfinished
            } else {
                Verdict::Dropped(DecodeError::Fcs)
            }
        } else if octets[(body + 1) as int] == FLAG {
            Verdict::Complete(carried_frame(octets))
        } else {
            Verdict::Dropped(DecodeError::MissingClosingFlag)
        }
    }
}

/// Where a decoder stands after one more octet. `None` stands for hunting for
/// a flag, `Some` for the octets since the last flag.
pub open spec fn position_after(position: Option<Seq<u8>>, byte: u8, capacity: nat) -> Option<
    Seq<u8>,
> {
    match position {
        None => if byte == FLAG {
            Some(Seq::empty())
        } else {
            None
        },
        Some(octets) => if octets.len() == 0 && byte == FLAG {
            position
        } else {
            match verdict(octets.push(byte), capacity) {
                Verdict::Unfinished => Some(octets.push(byte)),
                Verdict::Dropped(_) => None,
                // The closing flag may open the next frame.
                Verdict::Complete(_) => Some(Seq::empty()),
            }
        },
    }
}

/// What one more octet brings out of a decoder.
pub open spec fn output_of(position: Option<Seq<u8>>, byte: u8, capacity: nat) -> Option<
    Result<FrameView, DecodeError>,
> {
    match position {
        None => None,
        Some(octets) => if octets.len() == 0 && byte == FLAG {
            None
        } else {
            match verdict(octets.push(byte), capacity) {
                Verdict::Unfinished => None,
                Verdict::Dropped(error) => Some(Err(error)),
                Verdict::Complete(frame) => Some(Ok(frame)),
            }
        },
    }
}

/// A matching check octet is exactly what brings the register to [`FCS_GOOD`].
pub proof fn lemma_receiver_check(register: u8, byte: u8)
    ensures
        cmux::crc_octet(register ^ byte) == FCS_GOOD <==> byte == !register,
{
    assert(cmux::crc_octet(register ^ byte) == 0xCF <==> byte == !register) by (bit_vector);
}

/// State of the parser.
#[derive(Debug, Clone, Copy, PartialEq, Eq, Structural)]
enum State {
    /// Looking for an opening flag.
    Sync,
    /// Waiting for the address; further flags are fill between frames.
    Address,
    Control,
    Length1,
    Length2,
    Information,
    Fcs,
    /// Waiting for the closing flag.
    ClosingFlag,
}

/// Streaming frame parser.
///
/// `N` is the longest information field it takes.
pub struct Decoder<const N: usize> {
    state: State,
    address: Address,
    kind: FrameKind,
    poll_final: bool,
    /// Low seven bits of the length while the second octet is awaited.
    length_low: u8,
    length: usize,
    received: usize,
    buffer: [u8; N],
    /// CRC over the header; checks UIH frames.
    crc_header: u8,
    /// CRC over header and information; checks all the others.
    crc_full: u8,
    /// Octets since the last flag.
    octets: Ghost<Seq<u8>>,
}

impl<const N: usize> View for Decoder<N> {
    type V = Option<Seq<u8>>;

    /// `None` while hunting for a flag, else the octets since the last flag.
    closed spec fn view(&self) -> Option<Seq<u8>> {
        if self.state == State::Sync {
            None
        } else {
            Some(self.octets@)
        }
    }
}

impl<const N: usize> Default for Decoder<N> {
    fn default() -> (r: Self)
        ensures
            r.well_formed(),
            r@ is None,
    {
        Decoder::new()
    }
}

impl<const N: usize> Decoder<N> {
    spec fn knows_address(&self) -> bool {
        &&& self.octets@[0] & 1 != 0
        &&& self.address == cmux::address_of(self.octets@[0])
        &&& self.address.dlci <= 63
    }

    spec fn knows_control(&self) -> bool {
        &&& self.knows_address()
        &&& cmux::kind_of(self.octets@[1]) == Some(self.kind)
        &&& self.poll_final == (self.octets@[1] & PF != 0)
    }

    spec fn knows_length(&self) -> bool {
        &&& self.knows_control()
        &&& self.length == announced_len(self.octets@)
        &&& self.length <= N
        &&& self.crc_header == cmux::crc(0xFF, self.octets@.take(header_len(self.octets@) as int))
    }

    /// Whether the fields agree with the octets since the last flag.
    pub closed spec fn well_formed(&self) -> bool {
        let octets = self.octets@;
        match self.state {
            State::Sync => true,
            State::Address => octets.len() == 0,
            State::Control => {
                &&& octets.len() == 1
                &&& self.knows_address()
                &&& self.crc_header == cmux::crc(0xFF, octets)
            },
            State::Length1 => {
                &&& octets.len() == 2
                &&& self.knows_control()
                &&& self.crc_header == cmux::crc(0xFF, octets)
            },
            State::Length2 => {
                &&& octets.len() == 3
                &&& self.knows_control()
                &&& octets[2] & 1 == 0
                &&& self.length_low == octets[2] / 2
                &&& self.crc_header == cmux::crc(0xFF, octets)
            },
            State::Information => {
                &&& octets.len() == header_len(octets) + self.received
                &&& self.knows_length()
                &&& self.received < self.length
                &&& self.buffer@.take(self.received as int) == octets.skip(
                    header_len(octets) as int,
                )
                &&& self.crc_full == cmux::crc(0xFF, octets)
            },
            State::Fcs => {
                &&& octets.len() == header_len(octets) + self.length
                &&& self.knows_length()
                &&& self.buffer@.take(self.length as int) == octets.skip(header_len(octets) as int)
                &&& self.crc_full == cmux::crc(0xFF, octets)
            },
            State::ClosingFlag => {
                &&& octets.len() == header_len(octets) + self.length + 1
                &&& self.knows_length()
                &&& self.buffer@.take(self.length as int) == octets.subrange(
                    header_len(octets) as int,
                    header_len(octets) + self.length,
                )
            },
        }
    }

    /// A decoder that hunts for a flag.
    pub fn new() -> (r: Decoder<N>)
        ensures
            r.well_formed(),
            r@ is None,
    {
        Decoder {
            state: State::Sync,
            address: Address { dlci: 0, command: false },
            kind: FrameKind::Uih,
            poll_final: false,
            length_low: 0,
            length: 0,
            received: 0,
            buffer: [0; N],
            crc_header: 0xFF,
            crc_full: 0xFF,
            octets: Ghost(Seq::empty()),
        }
    }

    /// Drops what was read and hunts for an opening flag again.
    pub fn reset(&mut self)
        ensures
            final(self).well_formed(),
            final(self)@ is None,
    {
        self.state = State::Sync;
    }

    /// Takes the next octet.
    ///
    /// Gives `Some` when a frame is complete or dropped. The information of a
    /// frame lives until the next call.
    pub fn push(&mut self, byte: u8) -> (r: Option<Result<Frame<'_>, DecodeError>>)
        requires
            old(self).well_formed(),
        ensures
            final(self).well_formed(),
            final(self)@ == position_after(old(self)@, byte, N as nat),
            match r {
                None => output_of(old(self)@, byte, N as nat) is None,
                Some(Err(error)) => output_of(old(self)@, byte, N as nat) == Some(
                    Err::<FrameView, DecodeError>(error),
                ),
                Some(Ok(frame)) => output_of(old(self)@, byte, N as nat) == Some(
                    Ok::<FrameView, DecodeError>(frame@),
                ) && frame.address.dlci <= 63 && frame.information@.len() <= N,
            },
    {
        let ghost seen = self.octets@;
        let ghost now = seen.push(byte);
        proof {
            assert(now.drop_last() =~= seen);
            assert(cmux::crc(0xFF, now) == cmux::crc_octet(cmux::crc(0xFF, seen) ^ byte));
        }
        match self.state {
            State::Sync => {
                if byte == FLAG {
                    self.octets = Ghost(Seq::empty());
                    self.state = State::Address;
                }
                None
            },
            State::Address => {
                // Flags in a row are fill between frames.
                if byte == FLAG {
                    return None;
                }
                match Address::decode(byte) {
                    Some(address) => {
                        self.address = address;
                        self.crc_header = crc_step(0xFF ^ byte);
                        assert(cmux::crc(0xFF, seen) == 0xFF);
                        self.octets = Ghost(now);
                        self.state = State::Control;
                        None
                    },
                    None => {
                        self.state = State::Sync;
                        Some(Err(DecodeError::ExtendedAddress))
                    },
                }
            },
            State::Control => match FrameKind::from_code(byte) {
                Some(kind) => {
                    self.kind = kind;
                    self.poll_final = byte & PF != 0;
                    self.crc_header = crc_step(self.crc_header ^ byte);
                    self.octets = Ghost(now);
                    self.state = State::Length1;
                    None
                },
                None => {
                    self.state = State::Sync;
                    Some(Err(DecodeError::UnknownControl))
                },
            },
            State::Length1 => {
                assert(byte >> 1 == byte / 2) by (bit_vector);
                self.crc_header = crc_step(self.crc_header ^ byte);
                self.octets = Ghost(now);
                if byte & 1 != 0 {
                    self.length = (byte >> 1) as usize;
                    self.begin_information()
                } else {
                    self.length_low = byte >> 1;
                    self.state = State::Length2;
                    None
                }
            },
            State::Length2 => {
                let low: u8 = self.length_low;
                assert(low <= 127 ==> (low as usize) | ((byte as usize) << 7) == low + 128 * byte)
                    by (bit_vector);
                self.crc_header = crc_step(self.crc_header ^ byte);
                self.octets = Ghost(now);
                self.length = low as usize | ((byte as usize) << 7);
                self.begin_information()
            },
            State::Information => {
                let ghost before = self.buffer@;
                self.buffer[self.received] = byte;
                self.received = self.received + 1;
                self.crc_full = crc_step(self.crc_full ^ byte);
                self.octets = Ghost(now);
                if self.received == self.length {
                    self.state = State::Fcs;
                }
                proof {
                    let header = header_len(now) as int;
                    assert(self.buffer@.take(self.received as int) =~= before.take(
                        self.received - 1,
                    ).push(byte));
                    assert(now.skip(header) =~= seen.skip(header).push(byte));
                    assert(now.take(header) =~= seen.take(header));
                }
                None
            },
            State::Fcs => {
                let accumulated: u8 = if self.kind.fcs_covers_information() {
                    self.crc_full
                } else {
                    self.crc_header
                };
                proof {
                    let header = header_len(now) as int;
                    assert(now.take(header) =~= seen.take(header));
                    assert(now.take(header + self.length) =~= seen);
                    assert(now.subrange(header, header + self.length) =~= seen.skip(header));
                    lemma_receiver_check(accumulated, byte);
                }
                if crc_step(accumulated ^ byte) == FCS_GOOD {
                    self.octets = Ghost(now);
                    self.state = State::ClosingFlag;
                    None
                } else {
                    self.state = State::Sync;
                    Some(Err(DecodeError::Fcs))
                }
            },
            State::ClosingFlag => {
                if byte == FLAG {
                    proof {
                        let header = header_len(now) as int;
                        assert(now.subrange(header, header + self.length) =~= seen.subrange(
                            header,
                            header + self.length,
                        ));
                    }
                    // The closing flag may open the next frame as well, so the
                    // address comes next.
                    self.octets = Ghost(Seq::empty());
                    self.state = State::Address;
                    Some(
                        Ok(
                            Frame {
                                address: self.address,
                                kind: self.kind,
                                poll_final: self.poll_final,
                                information: &self.buffer[0..self.length],
                            },
                        ),
                    )
                } else {
                    self.state = State::Sync;
                    Some(Err(DecodeError::MissingClosingFlag))
                }
            },
        }
    }

    /// The length is known: information comes next, or the checksum at once.
    fn begin_information(&mut self) -> (r: Option<Result<Frame<'_>, DecodeError>>)
        requires
            old(self).state != State::Sync,
            old(self).octets@.len() == header_len(old(self).octets@),
            old(self).knows_control(),
            old(self).length == announced_len(old(self).octets@),
            old(self).crc_header == cmux::crc(0xFF, old(self).octets@),
        ensures
            final(self).well_formed(),
            old(self).length > N ==> {
                &&& final(self)@ is None
                &&& r == Some(Err::<Frame<'_>, DecodeError>(DecodeError::TooLong))
            },
            old(self).length <= N ==> {
                &&& final(self)@ == Some(old(self).octets@)
                &&& r is None
            },
    {
        if self.length > N {
            self.state = State::Sync;
            return Some(Err(DecodeError::TooLong));
        }
        self.received = 0;
        self.crc_full = self.crc_header;
        self.state = if self.length == 0 {
            State::Fcs
        } else {
            State::Information
        };
        proof {
            assert(self.octets@.take(self.octets@.len() as int) =~= self.octets@);
            assert(self.buffer@.take(0) =~= self.octets@.skip(self.octets@.len() as int));
        }
        None
    }
}

} // verus!
