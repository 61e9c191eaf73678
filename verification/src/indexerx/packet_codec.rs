//! Framing of the indexer's scan protocol.
//!
//! ```text
//! +--------+--------+--------+--------+--------+--------+============+
//! |         uint32 length (BE)        |  uint16 flags   |  payload   |
//! +--------+--------+--------+--------+--------+--------+============+
//! ```
//!
//! `length` counts the payload only. `flags` packs three things:
//!
//! ```text
//! bits 0-3    compression   0 = none, the only value the server implements
//! bits 4-7    encoding      0x10 = protobuf, the only valid value
//! bits 8-14   checksum
//! bit  15     reserved
//! ```
//!
//! A frame with `length == 0` and `flags == 0` is the end-of-response marker.
//! It carries no payload and is not a message, so it decodes to a variant of
//! its own.
use bytes::{Bytes, BytesMut};
use vstd::prelude::*;
use vstd::string::*;
use crate::buffer::{
    advance, freeze, held, held_len, held_slice, octets, octets_len, octets_slice, put_slice,
    reserve, split_to,
};
use crate::indexerx::io_failure::{kind_in, IoFailure};
use crate::text::{decimal, owned, push_decimal};

verus! {

/// Payload encoding, in bits 4-7 of the flags. Protobuf is the only one the
/// server accepts and the only one that is sent.
pub const ENCODING_PROTOBUF: u8 = 0x10;

pub const ENCODING_MASK: u16 = 0x00F0;

pub const COMPRESSION_MASK: u16 = 0x000F;

pub const CHECKSUM_MASK: u16 = 0x7F00;

pub const CHECKSUM_SHIFT: u16 = 8;

pub const HEADER_LEN: usize = 6;

/// The default ceiling on a single payload.
pub const DEFAULT_MAX_PAYLOAD: usize = 1024000;

/// A frame as it appears on the wire, before anyone has decided what its
/// payload means.
#[derive(Debug, Clone, PartialEq, Eq)]
pub enum Frame {
    /// A message, still encoded.
    Payload(Bytes),
    /// The server has finished responding.
    EndOfResponse,
}

/// What a frame carries.
pub enum FrameContent {
    Payload(Seq<u8>),
    EndOfResponse,
}

impl View for Frame {
    type V = FrameContent;

    open spec fn view(&self) -> FrameContent {
        match self {
            Frame::Payload(b) => FrameContent::Payload(octets(*b)),
            Frame::EndOfResponse => FrameContent::EndOfResponse,
        }
    }
}

#[derive(Debug, Clone, Copy, PartialEq, Eq, Structural)]
pub enum ProtocolError {
    /// The encoding nibble named something other than protobuf.
    UnknownEncoding(u8),
    /// The compression nibble named a scheme that the server never sends.
    UnsupportedCompression(u8),
    /// The header's checksum does not describe the header's length.
    ChecksumMismatch { expected: u8, actual: u8 },
    /// The frame claims a payload larger than this codec was configured for.
    PayloadTooLong { len: usize, max: usize },
}

/// The lower case hexadecimal digit of `n`.
pub open spec fn hex_char(n: nat) -> char {
    if n < 10 {
        ((48 + n) as u8) as char
    } else {
        ((87 + n) as u8) as char
    }
}

impl ProtocolError {
    /// How the error reads.
    pub open spec fn text(&self) -> Seq<char> {
        match *self {
            ProtocolError::UnknownEncoding(e) => "unknown payload encoding 0x"@ + seq![
                hex_char((e / 16) as nat),
                hex_char((e % 16) as nat),
            ],
            ProtocolError::UnsupportedCompression(c) => "unsupported compression scheme "@
                + decimal(c as nat),
            ProtocolError::ChecksumMismatch { expected, actual } => {
                "header checksum mismatch: expected "@ + decimal(expected as nat) + ", computed "@
                    + decimal(actual as nat)
            },
            ProtocolError::PayloadTooLong { len, max } => "payload of "@ + decimal(len as nat)
                + " bytes exceeds the maximum of "@ + decimal(max as nat),
        }
    }

    /// How the error reads.
    pub fn message(&self) -> (r: String)
        ensures
            r@ == self.text(),
    {
        match self {
            ProtocolError::UnknownEncoding(e) => {
                let mut r: String = owned("unknown payload encoding 0x");
                r.push(hex_digit(*e / 16));
                r.push(hex_digit(*e % 16));
                assert(r@ =~= self.text());
                r
            },
            ProtocolError::UnsupportedCompression(c) => {
                let mut r: String = owned("unsupported compression scheme ");
                push_decimal(&mut r, *c as u64);
                r
            },
            ProtocolError::ChecksumMismatch { expected, actual } => {
                let mut r: String = owned("header checksum mismatch: expected ");
                push_decimal(&mut r, *expected as u64);
                r.append(", computed ");
                push_decimal(&mut r, *actual as u64);
                r
            },
            ProtocolError::PayloadTooLong { len, max } => {
                let mut r: String = owned("payload of ");
                push_decimal(&mut r, *len as u64);
                r.append(" bytes exceeds the maximum of ");
                push_decimal(&mut r, *max as u64);
                r
            },
        }
    }
}

#[derive(Debug, Clone, PartialEq, Eq)]
pub enum CodecError {
    Io(IoFailure),
    Protocol(ProtocolError),
}

impl CodecError {
    /// How the error reads.
    pub open spec fn text(&self) -> Seq<char> {
        match self {
            CodecError::Io(e) => "indexerx codec IO error: "@ + e.text@,
            CodecError::Protocol(e) => "indexerx codec protocol error: "@ + e.text(),
        }
    }

    /// How the error reads.
    pub fn message(&self) -> (r: String)
        ensures
            r@ == self.text(),
    {
        match self {
            CodecError::Io(e) => owned("indexerx codec IO error: ").concat(e.text.as_str()),
            CodecError::Protocol(e) => owned("indexerx codec protocol error: ").concat(
                e.message().as_str(),
            ),
        }
    }

    /// What the error wraps, as it reads.
    pub fn source(&self) -> (r: String)
        ensures
            r@ == (match self {
                CodecError::Io(e) => e.text@,
                CodecError::Protocol(e) => e.text(),
            }),
    {
        match self {
            CodecError::Io(e) => e.text.clone(),
            CodecError::Protocol(e) => e.message(),
        }
    }
}

impl vstd::std_specs::convert::FromSpecImpl<ProtocolError> for CodecError {
    open spec fn obeys_from_spec() -> bool {
        true
    }

    open spec fn from_spec(e: ProtocolError) -> CodecError {
        CodecError::Protocol(e)
    }
}

impl From<ProtocolError> for CodecError {
    fn from(e: ProtocolError) -> (r: CodecError) {
        CodecError::Protocol(e)
    }
}

impl vstd::std_specs::convert::FromSpecImpl<IoFailure> for CodecError {
    open spec fn obeys_from_spec() -> bool {
        true
    }

    open spec fn from_spec(e: IoFailure) -> CodecError {
        CodecError::Io(e)
    }
}

impl From<IoFailure> for CodecError {
    fn from(e: IoFailure) -> (r: CodecError) {
        CodecError::Io(e)
    }
}

impl vstd::std_specs::convert::FromSpecImpl<std::io::Error> for CodecError {
    open spec fn obeys_from_spec() -> bool {
        false
    }

    open spec fn from_spec(e: std::io::Error) -> CodecError {
        arbitrary()
    }
}

impl From<std::io::Error> for CodecError {
    fn from(e: std::io::Error) -> (r: CodecError)
        ensures
            r matches CodecError::Io(failure) && failure.kind == kind_in(e),
    {
        CodecError::Io(IoFailure::read(&e))
    }
}

fn hex_digit(n: u8) -> (c: char)
    requires
        n < 16,
    ensures
        c == hex_char(n as nat),
{
    if n < 10 {
        (48 + n) as char
    } else {
        (87 + n) as char
    }
}

/// What the four big-endian length bytes stand for.
pub open spec fn be32(b: Seq<u8>) -> nat {
    (b[0] * 16777216 + b[1] * 65536 + b[2] * 256 + b[3]) as nat
}

/// The four big-endian bytes of `n`, of which the low 32 bits count.
pub open spec fn be32_bytes(n: nat) -> Seq<u8> {
    seq![
        ((n / 16777216) % 256) as u8,
        ((n / 65536) % 256) as u8,
        ((n / 256) % 256) as u8,
        (n % 256) as u8,
    ]
}

/// The seven bits drawn from the low nibbles of the two least significant
/// length bytes: the last byte's above, the one before it below, and the top
/// bit dropped.
pub open spec fn checksum_of(len_be: Seq<u8>) -> u8 {
    ((len_be[3] % 8) * 16 + len_be[2] % 16) as u8
}

/// The flags of a frame that carries a payload of the given length.
pub open spec fn payload_flags(len_be: Seq<u8>) -> nat {
    (checksum_of(len_be) * 256 + ENCODING_PROTOBUF) as nat
}

/// The header's 16 flag bits.
pub open spec fn flags_of(header: Seq<u8>) -> nat {
    (header[4] * 256 + header[5]) as nat
}

/// What stands at the start of `held`: `Err` where the header is refused,
/// `Ok(None)` where more bytes are needed, and else the frame, with the number
/// of bytes that it takes up.
pub open spec fn decoded(held: Seq<u8>, max_payload: usize) -> Result<
    Option<(FrameContent, int)>,
    ProtocolError,
> {
    if held.len() < HEADER_LEN {
        Ok(None)
    } else {
        let len = be32(held);
        let flags = flags_of(held);
        let encoding = ((flags % 256) / 16 * 16) as u8;
        let compression = (flags % 16) as u8;
        let carried = ((flags / 256) % 128) as u8;
        let computed = checksum_of(held);
        if len == 0 && flags == 0 {
            Ok(Some((FrameContent::EndOfResponse, HEADER_LEN as int)))
        } else if len > max_payload {
            Err(ProtocolError::PayloadTooLong { len: len as usize, max: max_payload })
        } else if encoding != ENCODING_PROTOBUF {
            Err(ProtocolError::UnknownEncoding(encoding))
        } else if compression != 0 {
            Err(ProtocolError::UnsupportedCompression(compression))
        } else if carried != 0 && carried != computed {
            Err(ProtocolError::ChecksumMismatch { expected: carried, actual: computed })
        } else if held.len() < HEADER_LEN + len {
            Ok(None)
        } else {
            Ok(
                Some(
                    (
                        FrameContent::Payload(held.subrange(HEADER_LEN as int, HEADER_LEN + len)),
                        HEADER_LEN + len,
                    ),
                ),
            )
        }
    }
}

/// The bytes that a frame is sent as.
pub open spec fn encoded(frame: FrameContent) -> Seq<u8> {
    match frame {
        FrameContent::EndOfResponse => seq![0u8, 0u8, 0u8, 0u8, 0u8, 0u8],
        FrameContent::Payload(payload) => {
            let len_be = be32_bytes(payload.len());
            let flags = payload_flags(len_be);
            len_be + seq![(flags / 256) as u8, (flags % 256) as u8] + payload
        },
    }
}

/// The checksum that a header carries, computed over the length field rather
/// than the payload.
pub fn checksum(len_be: [u8; 4]) -> (r: u8)
    ensures
        r == checksum_of(len_be@),
        r < 128,
{
    let high: u8 = len_be[3];
    let low: u8 = len_be[2];
    let mut ck: u8 = high & 0x0F;
    ck = ck << 4;
    ck = ck | (low & 0x0F);
    ck = ck & 0x7F;
    assert(((((high & 0x0F) << 4) | (low & 0x0F)) & 0x7F) == (high % 8) * 16 + low % 16)
        by (bit_vector);
    ck
}

pub struct PacketCodec {
    max_payload: usize,
}

impl PacketCodec {
    /// The longest payload this codec takes.
    pub closed spec fn max_payload(&self) -> usize {
        self.max_payload
    }

    pub fn new(max_payload: usize) -> (r: Self)
        ensures
            r.max_payload() == max_payload,
    {
        PacketCodec { max_payload }
    }

    /// Takes the frame at the start of `src`, if a whole one stands there.
    /// Where none does, and where the header is refused, nothing is consumed.
    pub fn decode(&mut self, src: &mut BytesMut) -> (r: Result<Option<Frame>, CodecError>)
        ensures
            final(self).max_payload() == old(self).max_payload(),
            match decoded(held(*old(src)), old(self).max_payload()) {
                Err(e) => r == Err::<Option<Frame>, CodecError>(CodecError::Protocol(e)) && held(
                    *final(src),
                ) == held(*old(src)),
                Ok(None) => r == Ok::<Option<Frame>, CodecError>(None) && held(*final(src)) == held(
                    *old(src),
                ),
                Ok(Some((frame, taken))) => r is Ok && r->Ok_0 is Some && r->Ok_0->0@ == frame
                    && held(*final(src)) == held(*old(src)).skip(taken),
            },
    {
        let ghost before = held(*src);
        let have: usize = held_len(src);
        if have < HEADER_LEN {
            reserve(src, HEADER_LEN - have);
            return Ok(None);
        }
        let bytes: &[u8] = held_slice(src);
        let len_be: [u8; 4] = [bytes[0], bytes[1], bytes[2], bytes[3]];
        let payload_len: usize = len_be[0] as usize * 16777216 + len_be[1] as usize * 65536
            + len_be[2] as usize * 256 + len_be[3] as usize;
        let high: u8 = bytes[4];
        let low: u8 = bytes[5];
        let flags: u16 = high as u16 * 256 + low as u16;
        assert(payload_len == be32(before));
        assert(flags == flags_of(before));
        proof {
            assert((flags & ENCODING_MASK) == (flags % 256) / 16 * 16) by (bit_vector);
            assert((flags & COMPRESSION_MASK) == flags % 16) by (bit_vector);
            assert(((flags & CHECKSUM_MASK) >> CHECKSUM_SHIFT) == (flags / 256) % 128) by (bit_vector);
        }
        if payload_len == 0 && flags == 0 {
            advance(src, HEADER_LEN);
            return Ok(Some(Frame::EndOfResponse));
        }
        if payload_len > self.max_payload {
            return Err(
                CodecError::from(
                    ProtocolError::PayloadTooLong { len: payload_len, max: self.max_payload },
                ),
            );
        }
        let encoding: u8 = (flags & ENCODING_MASK) as u8;
        if encoding != ENCODING_PROTOBUF {
            return Err(CodecError::from(ProtocolError::UnknownEncoding(encoding)));
        }
        let compression: u8 = (flags & COMPRESSION_MASK) as u8;
        if compression != 0 {
            return Err(CodecError::from(ProtocolError::UnsupportedCompression(compression)));
        }
        let carried: u8 = ((flags & CHECKSUM_MASK) >> CHECKSUM_SHIFT) as u8;
        if carried != 0 {
            let computed: u8 = checksum(len_be);
            if carried != computed {
                return Err(
                    CodecError::from(
                        ProtocolError::ChecksumMismatch { expected: carried, actual: computed },
                    ),
                );
            }
        }
        if have - HEADER_LEN < payload_len {
            // No machine can hold more than this at once.
            if payload_len <= isize::MAX as usize - HEADER_LEN {
                reserve(src, payload_len - (have - HEADER_LEN));
            }
            return Ok(None);
        }
        advance(src, HEADER_LEN);
        let payload: BytesMut = split_to(src, payload_len);
        proof {
            assert(before.skip(6).take(payload_len as int) =~= before.subrange(6, 6 + payload_len));
            assert(before.skip(6).skip(payload_len as int) =~= before.skip(6 + payload_len));
        }
        Ok(Some(Frame::Payload(freeze(payload))))
    }

    /// Writes a frame behind what `dst` holds. A payload longer than this
    /// codec takes is refused and nothing is written.
    pub fn encode(&mut self, item: Frame, dst: &mut BytesMut) -> (r: Result<(), CodecError>)
        requires
            held(*old(dst)).len() + encoded(item@).len() <= isize::MAX,
        ensures
            final(self).max_payload() == old(self).max_payload(),
            match item@ {
                FrameContent::Payload(payload) if payload.len() > old(self).max_payload() => r
                    == Err::<(), CodecError>(
                    CodecError::Protocol(
                        ProtocolError::PayloadTooLong {
                            len: payload.len() as usize,
                            max: old(self).max_payload(),
                        },
                    ),
                ) && held(*final(dst)) == held(*old(dst)),
                _ => r == Ok::<(), CodecError>(()) && held(*final(dst)) == held(*old(dst))
                    + encoded(item@),
            },
    {
        let ghost before = held(*dst);
        match item {
            Frame::EndOfResponse => {
                reserve(dst, HEADER_LEN);
                let marker: [u8; 6] = [0, 0, 0, 0, 0, 0];
                put_slice(dst, marker.as_slice());
                assert(marker@ =~= encoded(FrameContent::EndOfResponse));
            },
            Frame::Payload(payload) => {
                let len: usize = octets_len(&payload);
                if len > self.max_payload {
                    return Err(
                        CodecError::from(
                            ProtocolError::PayloadTooLong { len, max: self.max_payload },
                        ),
                    );
                }
                let len_be: [u8; 4] = [
                    (len / 16777216 % 256) as u8,
                    (len / 65536 % 256) as u8,
                    (len / 256 % 256) as u8,
                    (len % 256) as u8,
                ];
                let ck: u8 = checksum(len_be);
                let flags: u16 = ENCODING_PROTOBUF as u16 | ((ck as u16) << CHECKSUM_SHIFT);
                assert(ck < 128 ==> (0x10u16 | ((ck as u16) << 8u16)) == ck * 256 + 0x10)
                    by (bit_vector);
                reserve(dst, HEADER_LEN + len);
                put_slice(dst, len_be.as_slice());
                let flags_be: [u8; 2] = [(flags / 256) as u8, (flags % 256) as u8];
                put_slice(dst, flags_be.as_slice());
                put_slice(dst, octets_slice(&payload));
                proof {
                    assert(len_be@ =~= be32_bytes(len as nat));
                    assert(flags as nat == payload_flags(len_be@));
                    assert(before + len_be@ + flags_be@ + octets(payload) =~= before + encoded(
                        FrameContent::Payload(octets(payload)),
                    ));
                }
            },
        }
        Ok(())
    }
}

impl Default for PacketCodec {
    fn default() -> (r: PacketCodec)
        ensures
            r.max_payload() == DEFAULT_MAX_PAYLOAD,
    {
        PacketCodec::new(DEFAULT_MAX_PAYLOAD)
    }
}

proof fn lemma_be32_round_trip(n: nat)
    requires
        n <= u32::MAX,
    ensures
        be32(be32_bytes(n)) == n,
{
    let a = n / 16777216;
    let b = (n / 65536) % 256;
    let c = (n / 256) % 256;
    let d = n % 256;
    assert(a < 256);
    assert(n == a * 16777216 + b * 65536 + c * 256 + d);
}

/// What is encoded is decoded again, whatever stands behind it: the same
/// frame, and exactly its bytes are taken. A payload has to be one that the
/// codec takes and the length field can hold.
pub proof fn frames_survive_the_wire(frame: FrameContent, rest: Seq<u8>, max_payload: usize)
    requires
        frame matches FrameContent::Payload(payload) ==> payload.len() <= max_payload
            && payload.len() <= u32::MAX,
    ensures
        decoded(encoded(frame) + rest, max_payload) == Ok::<_, ProtocolError>(
            Some((frame, encoded(frame).len() as int)),
        ),
{
    let all = encoded(frame) + rest;
    match frame {
        FrameContent::EndOfResponse => {},
        FrameContent::Payload(payload) => {
            let len_be = be32_bytes(payload.len());
            lemma_be32_round_trip(payload.len());
            let flags = payload_flags(len_be);
            assert(all[0] == len_be[0] && all[1] == len_be[1] && all[2] == len_be[2] && all[3]
                == len_be[3]);
            assert(all[4] == (flags / 256) as u8 && all[5] == (flags % 256) as u8);
            assert(checksum_of(all) == checksum_of(len_be));
            assert(flags_of(all) == flags);
            assert(all.subrange(6, 6 + payload.len() as int) =~= payload);
        },
    }
}

/// No frame comes out of the first bytes of a frame: a cut frame asks for
/// more.
pub proof fn a_cut_frame_asks_for_more(frame: FrameContent, have: int, max_payload: usize)
    requires
        frame matches FrameContent::Payload(payload) ==> payload.len() <= max_payload
            && payload.len() <= u32::MAX,
        0 <= have < encoded(frame).len(),
    ensures
        decoded(encoded(frame).take(have), max_payload) == Ok::<
            Option<(FrameContent, int)>,
            ProtocolError,
        >(None),
{
    let cut = encoded(frame).take(have);
    if have >= HEADER_LEN {
        let payload = frame->Payload_0;
        let len_be = be32_bytes(payload.len());
        lemma_be32_round_trip(payload.len());
        let flags = payload_flags(len_be);
        assert(cut[0] == len_be[0] && cut[1] == len_be[1] && cut[2] == len_be[2] && cut[3]
            == len_be[3]);
        assert(cut[4] == (flags / 256) as u8 && cut[5] == (flags % 256) as u8);
        assert(checksum_of(cut) == checksum_of(len_be));
        assert(flags_of(cut) == flags);
    }
}

/// The end of a response is read off six zero bytes and off nothing else, so
/// it is never taken for an empty payload, nor an empty payload for it.
pub proof fn the_end_marker_is_six_zero_bytes(held: Seq<u8>, max_payload: usize)
    ensures
        (decoded(held, max_payload) matches Ok(Some((FrameContent::EndOfResponse, _)))) <==> (
        held.len() >= HEADER_LEN && forall|i: int| 0 <= i < HEADER_LEN ==> held[i] == 0),
        encoded(FrameContent::Payload(Seq::empty())) != encoded(FrameContent::EndOfResponse),
{
    assert(encoded(FrameContent::Payload(Seq::empty()))[5] == 0x10);
    if held.len() >= HEADER_LEN {
        if be32(held) == 0 && flags_of(held) == 0 {
            assert(held[0] == 0 && held[1] == 0 && held[2] == 0 && held[3] == 0 && held[4] == 0
                && held[5] == 0);
        }
    }
}

/// A payload goes out behind six bytes: its length in four, the most
/// significant first, then a byte of checksum and a byte that says protobuf and
/// no compression. The checksum is seven bits of the length: the three lowest,
/// and below them the four that count from 256.
pub proof fn a_payload_goes_out_behind_six_bytes(payload: Seq<u8>)
    requires
        payload.len() <= u32::MAX,
    ensures
        ({
            let sent = encoded(FrameContent::Payload(payload));
            &&& sent.len() == 6 + payload.len()
            &&& sent[0] * 0x100_0000 + sent[1] * 0x1_0000 + sent[2] * 0x100 + sent[3]
                == payload.len()
            &&& sent[4] == (payload.len() % 8) * 16 + (payload.len() / 256) % 16
            &&& sent[5] == 0x10
            &&& forall|i: int| 0 <= i < payload.len() ==> #[trigger] sent[6 + i] == payload[i]
        }),
{
    let n = payload.len();
    let sent = encoded(FrameContent::Payload(payload));
    let len_be = be32_bytes(n);
    lemma_be32_round_trip(n);
    let flags = payload_flags(len_be);
    assert(sent[0] == len_be[0] && sent[1] == len_be[1] && sent[2] == len_be[2] && sent[3]
        == len_be[3]);
    assert(sent[4] == (flags / 256) as u8 && sent[5] == (flags % 256) as u8);
    assert(len_be[3] % 8 == n % 8);
    assert(len_be[2] % 16 == (n / 256) % 16);
}

/// A header is refused for what is wrong with it: a length over the limit, an
/// encoding that is not protobuf, a compression, or a checksum that is there
/// and is not that of the length. Anything else is a frame once its bytes are
/// all there: as many behind the header as the length says.
pub proof fn a_header_is_refused_for_what_is_wrong_with_it(held: Seq<u8>, max_payload: usize)
    requires
        held.len() >= 6,
    ensures
        ({
            let len = held[0] * 0x100_0000 + held[1] * 0x1_0000 + held[2] * 0x100 + held[3];
            let ends = forall|i: int| 0 <= i < 6 ==> held[i] == 0;
            let encoding = (held[5] / 16) * 16;
            let compression = held[5] % 16;
            let carried = held[4] % 128;
            let computed = (held[3] % 8) * 16 + held[2] % 16;
            let answer = decoded(held, max_payload);
            &&& ends ==> answer == Ok::<_, ProtocolError>(Some((FrameContent::EndOfResponse, 6int)))
            &&& !ends && len > max_payload ==> answer == Err::<
                Option<(FrameContent, int)>,
                _,
            >(ProtocolError::PayloadTooLong { len: len as usize, max: max_payload })
            &&& !ends && len <= max_payload && encoding != 0x10 ==> answer == Err::<
                Option<(FrameContent, int)>,
                _,
            >(ProtocolError::UnknownEncoding(encoding as u8))
            &&& !ends && len <= max_payload && encoding == 0x10 && compression != 0 ==> answer
                == Err::<Option<(FrameContent, int)>, _>(
                ProtocolError::UnsupportedCompression(compression as u8),
            )
            &&& !ends && len <= max_payload && encoding == 0x10 && compression == 0 && carried != 0
                && carried != computed ==> answer == Err::<Option<(FrameContent, int)>, _>(
                ProtocolError::ChecksumMismatch {
                    expected: carried as u8,
                    actual: computed as u8,
                },
            )
            &&& !ends && len <= max_payload && encoding == 0x10 && compression == 0 && (carried == 0
                || carried == computed) && held.len() < 6 + len ==> answer == Ok::<
                _,
                ProtocolError,
            >(None::<(FrameContent, int)>)
            &&& !ends && len <= max_payload && encoding == 0x10 && compression == 0 && (carried == 0
                || carried == computed) && held.len() >= 6 + len ==> answer == Ok::<
                _,
                ProtocolError,
            >(Some((FrameContent::Payload(held.subrange(6, 6 + len)), 6 + len)))
        }),
{
    let flags = flags_of(held);
    assert(flags % 256 == held[5]);
    assert(flags / 256 == held[4]);
    assert(flags % 16 == held[5] % 16);
    if be32(held) == 0 && flags == 0 {
        assert(held[0] == 0 && held[1] == 0 && held[2] == 0 && held[3] == 0 && held[4] == 0
            && held[5] == 0);
    }
}

/// A refusal says what was found and what was looked for, in that order of the
/// two that its words promise. A byte reads as its two hexadecimal digits.
pub proof fn a_codec_error_names_what_was_found(e: ProtocolError)
    ensures
        e matches ProtocolError::UnknownEncoding(b) ==> {
            let n = e.text().len();
            &&& e.text().take(n - 2) == "unknown payload encoding 0x"@
            &&& e.text()[n - 2] == "0123456789abcdef"@[b as int / 16]
            &&& e.text()[n - 1] == "0123456789abcdef"@[b as int % 16]
        },
        e matches ProtocolError::UnsupportedCompression(c) ==> e.text()
            == "unsupported compression scheme "@ + decimal(c as nat),
        e matches ProtocolError::ChecksumMismatch { expected, actual } ==> e.text()
            == "header checksum mismatch: expected "@ + decimal(expected as nat) + ", computed "@
            + decimal(actual as nat),
        e matches ProtocolError::PayloadTooLong { len, max } ==> e.text() == "payload of "@
            + decimal(len as nat) + " bytes exceeds the maximum of "@ + decimal(max as nat),
        CodecError::Protocol(e).text() == "indexerx codec protocol error: "@ + e.text(),
{
    if let ProtocolError::UnknownEncoding(b) = e {
        reveal_strlit("unknown payload encoding 0x");
        reveal_strlit("0123456789abcdef");
        assert(e.text().take(e.text().len() - 2) =~= "unknown payload encoding 0x"@);
        lemma_hex_digit(b / 16);
        lemma_hex_digit(b % 16);
    }
}

proof fn lemma_hex_digit(n: u8)
    requires
        n < 16,
    ensures
        hex_char(n as nat) == "0123456789abcdef"@[n as int],
{
    reveal_strlit("0123456789abcdef");
}

} // verus!
