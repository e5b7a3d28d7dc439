//! 3GPP TS 27.010 multiplexer, basic option: frames and channel states.
//!
//! ```text
//! | Flag | Address | Control | Length | Information | FCS | Flag |
//! | 0xF9 |    1    |    1    | 1 or 2 |    0..N     |  1  | 0xF9 |
//! ```
//!
//! The basic option needs no byte stuffing: the length is sent explicitly, so
//! `0xF9` inside the information field is ordinary data.
//!
//! Two traps of the standard are worth knowing. Fields travel low bit first,
//! hence the reflected CRC. And the checksum of a UIH frame covers the header
//! alone, while every other kind of frame covers the information too.

use vstd::prelude::*;

pub mod control;
pub mod decoder;
pub mod laws;

pub use decoder::Decoder;

verus! {

/// The control channel of the multiplexer: MSC and CLD travel on it.
pub const CONTROL_DLCI: u8 = 0;

/// Opens and closes every frame.
pub const FLAG: u8 = 0xF9;

/// What the CRC register holds after the covered octets and a matching FCS.
pub const FCS_GOOD: u8 = 0xCF;

/// Longest information field that a one-octet length can announce.
pub const MAX_LEN_SHORT: usize = 127;

/// Longest information field that a two-octet length (15 bits) can announce.
pub const MAX_LEN_LONG: usize = 32_767;

/// Poll/Final bit of the control field.
pub const PF: u8 = 0x10;

// ---------------------------------------------------------------------------
// Checksum
// ---------------------------------------------------------------------------

/// One step of the reflected division by `x^8 + x^2 + x + 1`.
pub open spec fn crc_bit(c: u8) -> u8 {
    if c & 1 != 0 {
        (c >> 1) ^ 0xE0
    } else {
        c >> 1
    }
}

/// Eight steps: the register after one whole octet.
pub open spec fn crc_octet(c: u8) -> u8 {
    crc_bit(crc_bit(crc_bit(crc_bit(crc_bit(crc_bit(crc_bit(crc_bit(c))))))))
}

/// The register after `data`, started from `acc`.
pub open spec fn crc(acc: u8, data: Seq<u8>) -> u8
    decreases data.len(),
{
    if data.len() == 0 {
        acc
    } else {
        crc_octet(crc(acc, data.drop_last()) ^ data.last())
    }
}

/// The check octet over `data`: ones' complement of the remainder.
pub open spec fn check_octet(data: Seq<u8>) -> u8 {
    !crc(0xFF, data)
}

/// Running two runs of octets one after the other is running them joined.
pub proof fn lemma_crc_append(acc: u8, first: Seq<u8>, second: Seq<u8>)
    ensures
        crc(acc, first + second) == crc(crc(acc, first), second),
    decreases second.len(),
{
    if second.len() == 0 {
        assert(first + second =~= first);
    } else {
        assert((first + second).drop_last() =~= first + second.drop_last());
        lemma_crc_append(acc, first, second.drop_last());
    }
}

fn shift_bit(c: u8) -> (r: u8)
    ensures
        r == crc_bit(c),
{
    if c & 1 != 0 {
        (c >> 1) ^ 0xE0
    } else {
        c >> 1
    }
}

/// The register after one octet has been folded in.
pub fn crc_step(c: u8) -> (r: u8)
    ensures
        r == crc_octet(c),
{
    shift_bit(
        shift_bit(
            shift_bit(shift_bit(shift_bit(shift_bit(shift_bit(shift_bit(c)))))),
        ),
    )
}

/// The 256-entry table of the reflected CRC-8.
pub fn crc_table() -> (table: [u8; 256])
    ensures
        forall|i: int| 0 <= i < 256 ==> #[trigger] table@[i] == crc_octet(i as u8),
{
    let mut table: [u8; 256] = [0; 256];
    let mut i: usize = 0;
    while i < 256
        invariant
            i <= 256,
            forall|j: int| 0 <= j < i ==> #[trigger] table@[j] == crc_octet(j as u8),
        decreases 256 - i,
    {
        table[i] = crc_step(i as u8);
        i = i + 1;
    }
    table
}

/// Runs `data` through the CRC, continuing from the register `acc`.
pub fn crc_update(acc: u8, data: &[u8]) -> (r: u8)
    ensures
        r == crc(acc, data@),
{
    let mut register: u8 = acc;
    let mut i: usize = 0;
    proof {
        assert(data@.take(0) =~= Seq::<u8>::empty());
    }
    while i < data.len()
        invariant
            i <= data@.len(),
            register == crc(acc, data@.take(i as int)),
        decreases data@.len() - i,
    {
        proof {
            assert(data@.take(i + 1).drop_last() =~= data@.take(i as int));
            assert(data@.take(i + 1).last() == data@[i as int]);
        }
        register = crc_step(register ^ data[i]);
        i = i + 1;
    }
    proof {
        assert(data@.take(data@.len() as int) =~= data@);
    }
    register
}

/// The check octet of a run of octets.
pub fn fcs(data: &[u8]) -> (r: u8)
    ensures
        r == check_octet(data@),
{
    !crc_update(0xFF, data)
}

// ---------------------------------------------------------------------------
// Frame fields
// ---------------------------------------------------------------------------

/// Frame type; the Poll/Final bit is kept apart.
#[derive(Debug, Clone, Copy, PartialEq, Eq, Structural)]
pub enum FrameKind {
    /// Set mode: opens a channel.
    Sabm,
    /// Confirms SABM or DISC.
    Ua,
    /// The channel is closed.
    Dm,
    /// Closes a channel.
    Disc,
    /// Data; the checksum covers the header alone.
    Uih,
    /// Data; the checksum covers the information too.
    Ui,
}

/// Control field of a kind, without the Poll/Final bit.
pub open spec fn kind_code(kind: FrameKind) -> u8 {
    match kind {
        FrameKind::Sabm => 0x2F,
        FrameKind::Ua => 0x63,
        FrameKind::Dm => 0x0F,
        FrameKind::Disc => 0x43,
        FrameKind::Uih => 0xEF,
        FrameKind::Ui => 0x03,
    }
}

/// The kind that a control field names, whatever its Poll/Final bit.
pub open spec fn kind_of(control: u8) -> Option<FrameKind> {
    let code = control & 0xEF;
    if code == 0x2F {
        Some(FrameKind::Sabm)
    } else if code == 0x63 {
        Some(FrameKind::Ua)
    } else if code == 0x0F {
        Some(FrameKind::Dm)
    } else if code == 0x43 {
        Some(FrameKind::Disc)
    } else if code == 0xEF {
        Some(FrameKind::Uih)
    } else if code == 0x03 {
        Some(FrameKind::Ui)
    } else {
        None
    }
}

/// Control field of a kind with its Poll/Final bit.
pub open spec fn control_octet(kind: FrameKind, poll_final: bool) -> u8 {
    kind_code(kind) | (if poll_final {
        PF
    } else {
        0u8
    })
}

/// Whether the checksum of this kind covers the information field.
pub open spec fn covers_information(kind: FrameKind) -> bool {
    kind != FrameKind::Uih
}

impl FrameKind {
    /// Control field without the Poll/Final bit.
    pub fn code(self) -> (r: u8)
        ensures
            r == kind_code(self),
            self is Sabm ==> r == 0x2F,
            self is Ua ==> r == 0x63,
            self is Dm ==> r == 0x0F,
            self is Disc ==> r == 0x43,
            self is Uih ==> r == 0xEF,
            self is Ui ==> r == 0x03,
    {
        match self {
            FrameKind::Sabm => 0x2F,
            FrameKind::Ua => 0x63,
            FrameKind::Dm => 0x0F,
            FrameKind::Disc => 0x43,
            FrameKind::Uih => 0xEF,
            FrameKind::Ui => 0x03,
        }
    }

    /// Reads a control field; the Poll/Final bit is ignored.
    pub fn from_code(control: u8) -> (r: Option<FrameKind>)
        ensures
            r == kind_of(control),
            r matches Some(kind) ==> kind_code(kind) == control & 0xEF,
            r is None ==> forall|kind: FrameKind| #[trigger] kind_code(kind) != control & 0xEF,
            control == 0x2F || control == 0x3F <==> r == Some(FrameKind::Sabm),
            control == 0x63 || control == 0x73 <==> r == Some(FrameKind::Ua),
            control == 0x0F || control == 0x1F <==> r == Some(FrameKind::Dm),
            control == 0x43 || control == 0x53 <==> r == Some(FrameKind::Disc),
            control == 0xEF || control == 0xFF <==> r == Some(FrameKind::Uih),
            control == 0x03 || control == 0x13 <==> r == Some(FrameKind::Ui),
    {
        proof {
            laws::law_control_fields_of_the_standard(control);
        }
        let code: u8 = control & 0xEF;
        if code == 0x2F {
            Some(FrameKind::Sabm)
        } else if code == 0x63 {
            Some(FrameKind::Ua)
        } else if code == 0x0F {
            Some(FrameKind::Dm)
        } else if code == 0x43 {
            Some(FrameKind::Disc)
        } else if code == 0xEF {
            Some(FrameKind::Uih)
        } else if code == 0x03 {
            Some(FrameKind::Ui)
        } else {
            None
        }
    }

    /// Whether the information field enters the checksum.
    ///
    /// UIH leaves it out: the standard only protects delivery to the right
    /// channel.
    pub fn fcs_covers_information(self) -> (r: bool)
        ensures
            r == covers_information(self),
    {
        match self {
            FrameKind::Uih => false,
            _ => true,
        }
    }
}

/// Address field: channel number and command flag.
#[derive(Debug, Clone, Copy, PartialEq, Eq, Structural)]
pub struct Address {
    /// Logical channel, 0..=63. Channel 0 is the control channel.
    pub dlci: u8,
    /// C/R bit: `true` for a command, `false` for a response.
    pub command: bool,
}

/// `DLCI | C/R | EA` with EA set.
pub open spec fn address_octet(address: Address) -> u8 {
    (address.dlci << 2) | (if address.command {
        2u8
    } else {
        0u8
    }) | 1
}

/// The address that an octet carries; meaningful when its EA bit is set.
pub open spec fn address_of(octet: u8) -> Address {
    Address { dlci: octet >> 2, command: octet & 2 != 0 }
}

impl Address {
    /// Builds the octet `DLCI | C/R | EA`.
    pub fn encode(self) -> (r: u8)
        ensures
            r == address_octet(self),
            self.dlci <= 63 ==> r == 4 * self.dlci + (if self.command {
                2int
            } else {
                0
            }) + 1,
    {
        let d: u8 = self.dlci;
        assert(d <= 63 ==> (d << 2) | 2u8 | 1u8 == 4 * d + 3) by (bit_vector);
        assert(d <= 63 ==> (d << 2) | 0u8 | 1u8 == 4 * d + 1) by (bit_vector);
        let command: u8 = if self.command {
            2
        } else {
            0
        };
        (self.dlci << 2) | command | 1
    }

    /// Reads the octet. `None` when EA is clear: extended addresses are
    /// reserved by the standard and not supported.
    pub fn decode(octet: u8) -> (r: Option<Address>)
        ensures
            r is None <==> octet & 1 == 0,
            r matches Some(address) ==> address == address_of(octet) && address.dlci <= 63,
    {
        assert(octet >> 2 <= 63) by (bit_vector);
        if octet & 1 == 0 {
            return None;
        }
        Some(Address { dlci: octet >> 2, command: octet & 2 != 0 })
    }
}

// ---------------------------------------------------------------------------
// Frame
// ---------------------------------------------------------------------------

/// A frame, received or about to be sent.
#[derive(Debug, Clone, Copy, PartialEq, Eq)]
pub struct Frame<'a> {
    pub address: Address,
    pub kind: FrameKind,
    /// Poll/Final bit.
    pub poll_final: bool,
    /// Information field; empty for every kind but UI and UIH.
    pub information: &'a [u8],
}

/// What a frame says, its information field as a sequence.
pub struct FrameView {
    pub address: Address,
    pub kind: FrameKind,
    pub poll_final: bool,
    pub information: Seq<u8>,
}

impl<'a> View for Frame<'a> {
    type V = FrameView;

    open spec fn view(&self) -> FrameView {
        FrameView {
            address: self.address,
            kind: self.kind,
            poll_final: self.poll_final,
            information: self.information@,
        }
    }
}

/// The length field: one octet with EA set, or two with EA clear in the first.
pub open spec fn length_field(len: nat) -> Seq<u8> {
    if len > MAX_LEN_SHORT {
        seq![(2 * (len % 128)) as u8, (len / 128) as u8]
    } else {
        seq![(2 * len + 1) as u8]
    }
}

/// Address, control and length: the octets that every checksum covers.
pub open spec fn header_octets(
    address: Address,
    kind: FrameKind,
    poll_final: bool,
    len: nat,
) -> Seq<u8> {
    seq![address_octet(address), control_octet(kind, poll_final)] + length_field(len)
}

/// Whether a frame can be put on the wire at all.
pub open spec fn encodable(frame: FrameView) -> bool {
    frame.address.dlci <= 0x3F && frame.information.len() <= MAX_LEN_LONG
}

/// Header of a frame.
pub open spec fn header_of(frame: FrameView) -> Seq<u8> {
    header_octets(frame.address, frame.kind, frame.poll_final, frame.information.len())
}

/// The octets that the checksum of a frame covers.
pub open spec fn covered_octets(frame: FrameView) -> Seq<u8> {
    if covers_information(frame.kind) {
        header_of(frame) + frame.information
    } else {
        header_of(frame)
    }
}

/// The octets between the two flags.
pub open spec fn body_of(frame: FrameView) -> Seq<u8> {
    (header_of(frame) + frame.information).push(check_octet(covered_octets(frame)))
}

/// The whole frame as it stands on the wire.
pub open spec fn wire(frame: FrameView) -> Seq<u8> {
    (seq![FLAG] + body_of(frame)).push(FLAG)
}

/// Why a frame could not be built.
#[derive(Debug, Clone, Copy, PartialEq, Eq, Structural)]
pub enum EncodeError {
    /// The output buffer is shorter than [`Frame::encoded_len`].
    BufferTooSmall,
    /// The information field is longer than [`MAX_LEN_LONG`].
    InformationTooLong,
    /// The channel number does not fit in six bits.
    DlciOutOfRange,
}

/// Why a frame was dropped while being read.
#[derive(Debug, Clone, Copy, PartialEq, Eq, Structural)]
pub enum DecodeError {
    /// The checksum does not match.
    Fcs,
    /// EA is clear: multi-octet addresses are not supported.
    ExtendedAddress,
    /// Unknown frame type.
    UnknownControl,
    /// The information field does not fit in the decoder's buffer.
    TooLong,
    /// No closing flag after the checksum.
    MissingClosingFlag,
}

/// Copies `source` into `out` from `at` on.
pub(crate) fn copy_into(out: &mut [u8], at: usize, source: &[u8])
    requires
        at + source@.len() <= old(out)@.len(),
    ensures
        final(out)@ == old(out)@.take(at as int) + source@ + old(out)@.skip(at + source@.len()),
{
    let room: usize = out.len();
    let mut i: usize = 0;
    while i < source.len()
        invariant
            i <= source@.len(),
            at + source@.len() <= room,
            out@.len() == room,
            room == old(out)@.len(),
            out@ =~= old(out)@.take(at as int) + source@.take(i as int) + old(out)@.skip(at + i),
        decreases source@.len() - i,
    {
        out[at + i] = source[i];
        i = i + 1;
    }
    proof {
        assert(source@.take(i as int) =~= source@);
    }
}

/// Writing three runs of octets one behind the other.
proof fn lemma_three_writes(
    start: Seq<u8>,
    first: Seq<u8>,
    second: Seq<u8>,
    third: Seq<u8>,
    after_first: Seq<u8>,
    after_second: Seq<u8>,
    after_third: Seq<u8>,
)
    requires
        first.len() + second.len() + third.len() <= start.len(),
        after_first == start.take(0) + first + start.skip(first.len() as int),
        after_second == after_first.take(first.len() as int) + second + after_first.skip(
            (first.len() + second.len()) as int,
        ),
        after_third == after_second.take((first.len() + second.len()) as int) + third
            + after_second.skip((first.len() + second.len() + third.len()) as int),
    ensures
        after_third == first + second + third + start.skip(
            (first.len() + second.len() + third.len()) as int,
        ),
{
    assert(after_first =~= first + start.skip(first.len() as int));
    assert(after_second =~= first + second + start.skip((first.len() + second.len()) as int));
    assert(after_third =~= first + second + third + start.skip(
        (first.len() + second.len() + third.len()) as int,
    ));
}

/// Opening flag and header of a frame, and how many octets they take.
fn opening_octets(address: Address, kind: FrameKind, poll_final: bool, len: usize) -> (r: (
    [u8; 5],
    usize,
))
    requires
        len <= MAX_LEN_LONG,
    ensures
        r.1 == 4 || r.1 == 5,
        r.0@.take(r.1 as int) == seq![FLAG] + header_octets(address, kind, poll_final, len as nat),
        r.0@.subrange(1, r.1 as int) == header_octets(address, kind, poll_final, len as nat),
{
    let mut octets: [u8; 5] = [FLAG; 5];
    octets[1] = address.encode();
    octets[2] = kind.code() | if poll_final {
        PF
    } else {
        0
    };
    let count: usize = if len > MAX_LEN_SHORT {
        let l: u16 = len as u16;
        assert((l & 0x7F) << 1 == 2 * (l % 128)) by (bit_vector);
        assert((l & 0x7F) << 1 <= 254) by (bit_vector);
        assert(l >> 7 == l / 128) by (bit_vector);
        assert(l <= 32767 ==> l >> 7 <= 255) by (bit_vector);
        // EA clear in the first octet: a second one follows.
        octets[3] = ((l & 0x7F) << 1) as u8;
        octets[4] = (l >> 7) as u8;
        5
    } else {
        let s: u8 = len as u8;
        assert(s <= 127 ==> (s << 1) | 1 == 2 * s + 1) by (bit_vector);
        octets[3] = (s << 1) | 1;
        4
    };
    assert(octets@.subrange(1, count as int) =~= header_octets(
        address,
        kind,
        poll_final,
        len as nat,
    ));
    assert(octets@.take(count as int) =~= seq![FLAG] + octets@.subrange(1, count as int));
    (octets, count)
}

impl<'a> Frame<'a> {
    /// How many octets the whole frame takes, both flags included.
    pub fn encoded_len(&self) -> (r: usize)
        requires
            self.information@.len() + 7 <= usize::MAX,
        ensures
            r == wire(self@).len(),
    {
        let length_octets: usize = if self.information.len() > MAX_LEN_SHORT {
            2
        } else {
            1
        };
        // flag + address + control + length + information + FCS + flag
        1 + 1 + 1 + length_octets + self.information.len() + 1 + 1
    }

    /// Writes the frame to the front of `out` and returns its length.
    pub fn encode(&self, out: &mut [u8]) -> (r: Result<usize, EncodeError>)
        ensures
            r == (if self.address.dlci > 0x3F {
                Err::<usize, EncodeError>(EncodeError::DlciOutOfRange)
            } else if self.information@.len() > MAX_LEN_LONG {
                Err(EncodeError::InformationTooLong)
            } else if old(out)@.len() < wire(self@).len() {
                Err(EncodeError::BufferTooSmall)
            } else {
                Ok(wire(self@).len() as usize)
            }),
            r matches Ok(n) ==> final(out)@ == wire(self@) + old(out)@.skip(n as int),
            r is Err ==> final(out)@ == old(out)@,
    {
        if self.address.dlci > 0x3F {
            return Err(EncodeError::DlciOutOfRange);
        }
        let len: usize = self.information.len();
        if len > MAX_LEN_LONG {
            return Err(EncodeError::InformationTooLong);
        }
        let total: usize = self.encoded_len();
        if out.len() < total {
            return Err(EncodeError::BufferTooSmall);
        }
        let (opening, header_end) = opening_octets(self.address, self.kind, self.poll_final, len);
        let header_crc: u8 = crc_update(0xFF, &opening[1..header_end]);
        let check: u8 = if self.kind.fcs_covers_information() {
            !crc_update(header_crc, self.information)
        } else {
            !header_crc
        };
        let closing: [u8; 2] = [check, FLAG];
        proof {
            lemma_crc_append(0xFF, header_of(self@), self.information@);
        }

        let ghost start = out@;
        let opening: &[u8] = &opening[0..header_end];
        copy_into(out, 0, opening);
        let ghost after_opening = out@;
        copy_into(out, header_end, self.information);
        let ghost after_information = out@;
        copy_into(out, header_end + len, &closing);
        proof {
            lemma_three_writes(
                start,
                opening@,
                self.information@,
                closing@,
                after_opening,
                after_information,
                out@,
            );
            assert(opening@ + self.information@ + closing@ =~= wire(self@));
        }
        Ok(header_end + len + 2)
    }

    /// UIH with data; Poll/Final clear.
    pub fn uih(dlci: u8, information: &'a [u8]) -> (r: Frame<'a>)
        ensures
            r@ == uih_view(dlci, information@),
    {
        Frame {
            address: Address { dlci, command: true },
            kind: FrameKind::Uih,
            poll_final: false,
            information,
        }
    }
}

/// A data frame as this side sends it.
pub open spec fn uih_view(dlci: u8, information: Seq<u8>) -> FrameView {
    FrameView {
        address: Address { dlci, command: true },
        kind: FrameKind::Uih,
        poll_final: false,
        information,
    }
}

/// A frame without an information field.
pub open spec fn control_view(
    dlci: u8,
    kind: FrameKind,
    command: bool,
    poll_final: bool,
) -> FrameView {
    FrameView {
        address: Address { dlci, command },
        kind,
        poll_final,
        information: Seq::empty(),
    }
}

impl Frame<'static> {
    /// A frame without an information field: SABM, UA, DM, DISC.
    ///
    /// The initiator sends commands with C/R set and gets responses with C/R
    /// clear.
    pub fn control(dlci: u8, kind: FrameKind, command: bool, poll_final: bool) -> (r: Frame<
        'static,
    >)
        ensures
            r@ == control_view(dlci, kind, command, poll_final),
    {
        let none: &'static [u8] = &[];
        assert(none@ =~= Seq::<u8>::empty());
        Frame { address: Address { dlci, command }, kind, poll_final, information: none }
    }

    /// SABM: asks to open a channel, P set.
    pub fn sabm(dlci: u8) -> (r: Frame<'static>)
        ensures
            r@ == control_view(dlci, FrameKind::Sabm, true, true),
    {
        Frame::control(dlci, FrameKind::Sabm, true, true)
    }

    /// DISC: asks to close a channel.
    pub fn disc(dlci: u8) -> (r: Frame<'static>)
        ensures
            r@ == control_view(dlci, FrameKind::Disc, true, true),
    {
        Frame::control(dlci, FrameKind::Disc, true, true)
    }

    /// UA: confirms SABM or DISC. A response, so C/R is clear and F is set.
    pub fn ua(dlci: u8) -> (r: Frame<'static>)
        ensures
            r@ == control_view(dlci, FrameKind::Ua, false, true),
    {
        Frame::control(dlci, FrameKind::Ua, false, true)
    }

    /// DM: "the channel is closed". A response, so C/R is clear.
    pub fn dm(dlci: u8) -> (r: Frame<'static>)
        ensures
            r@ == control_view(dlci, FrameKind::Dm, false, true),
    {
        Frame::control(dlci, FrameKind::Dm, false, true)
    }
}

// ---------------------------------------------------------------------------
// Streaming
// ---------------------------------------------------------------------------

/// Header and trailer of a UIH frame, for sending it in three writes.
///
/// The payload never has to be gathered in a buffer of its own. This works for
/// UIH alone: its checksum leaves the information out, so it is known before
/// the data is.
#[derive(Debug, Clone, Copy, PartialEq, Eq)]
pub struct UihFraming {
    header: [u8; 5],
    header_len: u8,
    trailer: [u8; 2],
}

/// Octets before the payload of a UIH frame.
pub open spec fn uih_header(dlci: u8, len: nat) -> Seq<u8> {
    seq![FLAG] + header_octets(Address { dlci, command: true }, FrameKind::Uih, false, len)
}

/// Octets after the payload of a UIH frame.
pub open spec fn uih_trailer(dlci: u8, len: nat) -> Seq<u8> {
    seq![
        check_octet(header_octets(Address { dlci, command: true }, FrameKind::Uih, false, len)),
        FLAG,
    ]
}

impl UihFraming {
    #[verifier::type_invariant]
    spec fn fits(self) -> bool {
        self.header_len <= 5
    }

    /// Octets that go out before the payload.
    pub closed spec fn before(&self) -> Seq<u8> {
        self.header@.take(self.header_len as int)
    }

    /// Octets that go out after the payload.
    pub closed spec fn after(&self) -> Seq<u8> {
        self.trailer@
    }

    /// Framing for a payload of `len` octets on channel `dlci`.
    pub fn new(dlci: u8, len: usize) -> (r: Result<UihFraming, EncodeError>)
        ensures
            dlci > 0x3F ==> r == Err::<UihFraming, EncodeError>(EncodeError::DlciOutOfRange),
            dlci <= 0x3F && len > MAX_LEN_LONG ==> r == Err::<UihFraming, EncodeError>(
                EncodeError::InformationTooLong,
            ),
            dlci <= 0x3F && len <= MAX_LEN_LONG ==> (r matches Ok(framing) && framing.before()
                == uih_header(dlci, len as nat) && framing.after() == uih_trailer(
                dlci,
                len as nat,
            )),
    {
        if dlci > 0x3F {
            return Err(EncodeError::DlciOutOfRange);
        }
        if len > MAX_LEN_LONG {
            return Err(EncodeError::InformationTooLong);
        }
        let address = Address { dlci, command: true };
        let (header, header_len) = opening_octets(address, FrameKind::Uih, false, len);
        // The checksum runs over the header without the opening flag.
        let check: u8 = fcs(&header[1..header_len]);
        let trailer: [u8; 2] = [check, FLAG];
        assert(trailer@ =~= uih_trailer(dlci, len as nat));
        Ok(UihFraming { header, header_len: header_len as u8, trailer })
    }

    /// Octets before the payload.
    pub fn header(&self) -> (r: &[u8])
        ensures
            r@ == self.before(),
    {
        proof {
            use_type_invariant(self);
        }
        &self.header[0..self.header_len as usize]
    }

    /// Octets after the payload: check octet and closing flag.
    pub fn trailer(&self) -> (r: &[u8])
        ensures
            r@ == self.after(),
    {
        &self.trailer
    }
}

// ---------------------------------------------------------------------------
// Channels
// ---------------------------------------------------------------------------

/// State of a logical channel.
#[derive(Debug, Clone, Copy, PartialEq, Eq, Structural)]
pub enum ChannelState {
    Closed,
    /// SABM sent, UA awaited.
    Opening,
    Open,
    /// DISC sent, UA awaited.
    Closing,
}

/// Why an operation on a channel could not start.
#[derive(Debug, Clone, Copy, PartialEq, Eq, Structural)]
pub enum SessionError {
    /// Channel number above 63.
    DlciOutOfRange,
    /// The channel is already there, or busy with the opposite operation.
    WrongState(ChannelState),
}

/// What a received frame amounted to.
#[derive(Debug, Clone, Copy, PartialEq, Eq)]
pub enum Event<'a> {
    /// Nothing to do.
    Ignored,
    /// Channel open: UA to our SABM.
    Opened(u8),
    /// Channel closed: UA to our DISC, or DM from the modem.
    Closed(u8),
    /// The modem closes a channel. Send `reply`.
    RemoteDisconnect { dlci: u8, reply: Frame<'static> },
    /// The modem opens a channel of its own accord. Send `reply`.
    RemoteOpen { dlci: u8, reply: Frame<'static> },
    /// Channel data. On channel 0 it is a control message.
    Data { dlci: u8, payload: &'a [u8] },
}

/// An event with its frames and payload as sequences.
pub enum EventView {
    Ignored,
    Opened(u8),
    Closed(u8),
    RemoteDisconnect { dlci: u8, reply: FrameView },
    RemoteOpen { dlci: u8, reply: FrameView },
    Data { dlci: u8, payload: Seq<u8> },
}

impl<'a> View for Event<'a> {
    type V = EventView;

    open spec fn view(&self) -> EventView {
        match *self {
            Event::Ignored => EventView::Ignored,
            Event::Opened(dlci) => EventView::Opened(dlci),
            Event::Closed(dlci) => EventView::Closed(dlci),
            Event::RemoteDisconnect { dlci, reply } => EventView::RemoteDisconnect {
                dlci,
                reply: reply@,
            },
            Event::RemoteOpen { dlci, reply } => EventView::RemoteOpen { dlci, reply: reply@ },
            Event::Data { dlci, payload } => EventView::Data { dlci, payload: payload@ },
        }
    }
}

/// State of a channel after a frame of the given kind has arrived on it.
pub open spec fn next_state(state: ChannelState, kind: FrameKind) -> ChannelState {
    match kind {
        FrameKind::Ua => match state {
            ChannelState::Opening => ChannelState::Open,
            ChannelState::Closing => ChannelState::Closed,
            other => other,
        },
        FrameKind::Dm => ChannelState::Closed,
        FrameKind::Disc => ChannelState::Closed,
        FrameKind::Sabm => ChannelState::Open,
        FrameKind::Uih => state,
        FrameKind::Ui => state,
    }
}

/// What a frame means to a channel that is in `state`.
pub open spec fn meaning(state: ChannelState, frame: FrameView) -> EventView {
    let dlci = frame.address.dlci;
    match frame.kind {
        FrameKind::Ua => match state {
            ChannelState::Opening => EventView::Opened(dlci),
            ChannelState::Closing => EventView::Closed(dlci),
            _ => EventView::Ignored,
        },
        FrameKind::Dm => if state == ChannelState::Closed {
            EventView::Ignored
        } else {
            EventView::Closed(dlci)
        },
        FrameKind::Disc => EventView::RemoteDisconnect {
            dlci,
            reply: control_view(
                dlci,
                if state == ChannelState::Closed {
                    FrameKind::Dm
                } else {
                    FrameKind::Ua
                },
                false,
                true,
            ),
        },
        FrameKind::Sabm => EventView::RemoteOpen {
            dlci,
            reply: control_view(dlci, FrameKind::Ua, false, true),
        },
        FrameKind::Uih => EventView::Data { dlci, payload: frame.information },
        FrameKind::Ui => EventView::Data { dlci, payload: frame.information },
    }
}

/// Which channels are open.
///
/// Does no input or output: it moves states and says which frame to send.
pub struct Session {
    channels: [ChannelState; 64],
}

impl View for Session {
    type V = Seq<ChannelState>;

    closed spec fn view(&self) -> Seq<ChannelState> {
        self.channels@
    }
}

impl Default for Session {
    fn default() -> (r: Self)
        ensures
            r@ == Seq::new(64, |i: int| ChannelState::Closed),
    {
        Session::new()
    }
}

/// The state that a session reports for a channel number.
pub open spec fn state_in(channels: Seq<ChannelState>, dlci: u8) -> ChannelState {
    if dlci < 64 {
        channels[dlci as int]
    } else {
        ChannelState::Closed
    }
}

impl Session {
    /// All 64 channels closed.
    pub fn new() -> (r: Session)
        ensures
            r@ == Seq::new(64, |i: int| ChannelState::Closed),
    {
        let r = Session { channels: [ChannelState::Closed; 64] };
        assert(r.channels@ =~= Seq::new(64, |i: int| ChannelState::Closed));
        r
    }

    /// A session always holds the states of 64 channels.
    pub proof fn lemma_has_64_channels(&self)
        ensures
            self@.len() == 64,
    {
    }

    /// State of a channel; numbers above 63 count as closed.
    pub fn state(&self, dlci: u8) -> (r: ChannelState)
        ensures
            r == state_in(self@, dlci),
    {
        if dlci < 64 {
            self.channels[dlci as usize]
        } else {
            ChannelState::Closed
        }
    }

    /// The SABM that opens a channel; the channel moves to
    /// [`ChannelState::Opening`].
    ///
    /// Channel 0 has to be opened first.
    pub fn open(&mut self, dlci: u8) -> (r: Result<Frame<'static>, SessionError>)
        ensures
            dlci > 0x3F ==> r == Err::<Frame<'static>, SessionError>(SessionError::DlciOutOfRange),
            dlci <= 0x3F && old(self)@[dlci as int] != ChannelState::Closed ==> r == Err::<
                Frame<'static>,
                SessionError,
            >(SessionError::WrongState(old(self)@[dlci as int])),
            dlci <= 0x3F && old(self)@[dlci as int] == ChannelState::Closed ==> (r matches Ok(
                frame,
            ) && frame@ == control_view(dlci, FrameKind::Sabm, true, true)),
            r is Ok ==> final(self)@ == old(self)@.update(dlci as int, ChannelState::Opening),
            r is Err ==> final(self)@ == old(self)@,
    {
        match self.expect(dlci, ChannelState::Closed) {
            Err(e) => Err(e),
            Ok(()) => {
                self.channels[dlci as usize] = ChannelState::Opening;
                Ok(Frame::sabm(dlci))
            },
        }
    }

    /// The DISC that closes a channel.
    pub fn close(&mut self, dlci: u8) -> (r: Result<Frame<'static>, SessionError>)
        ensures
            dlci > 0x3F ==> r == Err::<Frame<'static>, SessionError>(SessionError::DlciOutOfRange),
            dlci <= 0x3F && old(self)@[dlci as int] != ChannelState::Open ==> r == Err::<
                Frame<'static>,
                SessionError,
            >(SessionError::WrongState(old(self)@[dlci as int])),
            dlci <= 0x3F && old(self)@[dlci as int] == ChannelState::Open ==> (r matches Ok(frame)
                && frame@ == control_view(dlci, FrameKind::Disc, true, true)),
            r is Ok ==> final(self)@ == old(self)@.update(dlci as int, ChannelState::Closing),
            r is Err ==> final(self)@ == old(self)@,
    {
        match self.expect(dlci, ChannelState::Open) {
            Err(e) => Err(e),
            Ok(()) => {
                self.channels[dlci as usize] = ChannelState::Closing;
                Ok(Frame::disc(dlci))
            },
        }
    }

    /// Puts a channel back to closed, whatever it was doing.
    ///
    /// A modem that never answered SABM leaves the channel in
    /// [`ChannelState::Opening`], and [`Session::open`] would refuse to try
    /// again.
    pub fn force_closed(&mut self, dlci: u8)
        ensures
            final(self)@ == (if dlci < 64 {
                old(self)@.update(dlci as int, ChannelState::Closed)
            } else {
                old(self)@
            }),
    {
        if dlci < 64 {
            self.channels[dlci as usize] = ChannelState::Closed;
        }
    }

    fn expect(&self, dlci: u8, want: ChannelState) -> (r: Result<(), SessionError>)
        ensures
            r == (if dlci > 0x3F {
                Err::<(), SessionError>(SessionError::DlciOutOfRange)
            } else if self@[dlci as int] == want {
                Ok(())
            } else {
                Err(SessionError::WrongState(self@[dlci as int]))
            }),
    {
        if dlci > 0x3F {
            return Err(SessionError::DlciOutOfRange);
        }
        let have = self.channels[dlci as usize];
        if have == want {
            Ok(())
        } else {
            Err(SessionError::WrongState(have))
        }
    }

    /// Takes a received frame.
    ///
    /// The C/R bit is not looked at on purpose: modems set it loosely, and the
    /// channel and kind already say whose frame it is.
    pub fn on_frame<'a>(&mut self, frame: &Frame<'a>) -> (r: Event<'a>)
        ensures
            frame.address.dlci >= 64 ==> r@ == EventView::Ignored && final(self)@ == old(self)@,
            frame.address.dlci < 64 ==> {
                &&& r@ == meaning(old(self)@[frame.address.dlci as int], frame@)
                &&& final(self)@ == old(self)@.update(
                    frame.address.dlci as int,
                    next_state(old(self)@[frame.address.dlci as int], frame.kind),
                )
            },
    {
        let dlci: u8 = frame.address.dlci;
        if dlci >= 64 {
            return Event::Ignored;
        }
        let state = self.channels[dlci as usize];
        proof {
            assert(self@.update(dlci as int, state) =~= self@);
        }
        match frame.kind {
            FrameKind::Ua => match state {
                ChannelState::Opening => {
                    self.channels[dlci as usize] = ChannelState::Open;
                    Event::Opened(dlci)
                },
                ChannelState::Closing => {
                    self.channels[dlci as usize] = ChannelState::Closed;
                    Event::Closed(dlci)
                },
                _ => Event::Ignored,
            },
            // A refusal to open, or a notice that the channel is closed already.
            FrameKind::Dm => match state {
                ChannelState::Closed => Event::Ignored,
                _ => {
                    self.channels[dlci as usize] = ChannelState::Closed;
                    Event::Closed(dlci)
                },
            },
            FrameKind::Disc => {
                if state == ChannelState::Closed {
                    // DISC on a closed channel is answered with DM.
                    Event::RemoteDisconnect { dlci, reply: Frame::dm(dlci) }
                } else {
                    self.channels[dlci as usize] = ChannelState::Closed;
                    Event::RemoteDisconnect { dlci, reply: Frame::ua(dlci) }
                }
            },
            // The modem opens a channel of its own accord.
            FrameKind::Sabm => {
                self.channels[dlci as usize] = ChannelState::Open;
                Event::RemoteOpen { dlci, reply: Frame::ua(dlci) }
            },
            FrameKind::Uih => Event::Data { dlci, payload: frame.information },
            FrameKind::Ui => Event::Data { dlci, payload: frame.information },
        }
    }
}

} // verus!
