//! Bootloader packets.
//!
//! A packet is a frame (see [`crate::cobs`]) around a start byte, a sequence
//! number, a command, a payload length, the payload and a checksum over all of
//! these.

use vstd::prelude::*;

use crate::cobs::{cobs_decode, cobs_encode};
use crate::crc::crc8;

verus! {

/// First byte of every packet.
pub const PACKET_START: u8 = 0x51;

/// A packet as it was received.
#[derive(Debug)]
pub struct Response {
    pub cmd: u8,
    pub payload: Vec<u8>,
    pub crc_ok: bool,
}

/// Mathematical model of [`Response`].
#[verifier::ext_equal]
pub ghost struct ResponseModel {
    pub cmd: u8,
    pub payload: Seq<u8>,
    pub crc_ok: bool,
}

impl View for Response {
    type V = ResponseModel;

    open spec fn view(&self) -> ResponseModel {
        ResponseModel { cmd: self.cmd, payload: self.payload@, crc_ok: self.crc_ok }
    }
}

/// The model of a response that may be missing.
pub open spec fn response_model(r: Option<Response>) -> Option<ResponseModel> {
    match r {
        Some(resp) => Some(resp@),
        None => None,
    }
}

/// What a packet says before its checksum. The length byte is the payload's
/// length modulo 256.
pub open spec fn packet_head(cmd: u8, payload: Seq<u8>, seq: u8) -> Seq<u8> {
    seq![PACKET_START, seq, cmd, (payload.len() % 256) as u8] + payload
}

pub open spec fn packet_body(cmd: u8, payload: Seq<u8>, seq: u8) -> Seq<u8> {
    packet_head(cmd, payload, seq).push(crate::crc::crc8_of(packet_head(cmd, payload, seq)))
}

/// The packet on the wire.
pub open spec fn packet(cmd: u8, payload: Seq<u8>, seq: u8) -> Seq<u8> {
    crate::cobs::cobs_frame(packet_body(cmd, payload, seq))
}

/// What a packet body says; `None` where it is shorter than it says it is. Bytes
/// behind the checksum do not count, and neither do the first two.
pub open spec fn parsed_body(body: Seq<u8>) -> Option<ResponseModel> {
    if body.len() < 5 || body.len() < 5 + body[3] {
        None
    } else {
        let end = 4 + body[3];
        Some(
            ResponseModel {
                cmd: body[2],
                payload: body.subrange(4, end),
                crc_ok: body[end] == crate::crc::crc8_of(body.take(end)),
            },
        )
    }
}

/// What a received frame says.
pub open spec fn parsed_response(raw: Seq<u8>) -> Option<ResponseModel> {
    parsed_body(crate::cobs::cobs_data(raw))
}

/// Builds the packet for a command.
pub fn build_packet(cmd: u8, payload: &[u8], seq: u8) -> (out: Vec<u8>)
    ensures
        out@ == packet(cmd, payload@, seq),
{
    let mut body: Vec<u8> = Vec::new();
    body.push(PACKET_START);
    body.push(seq);
    body.push(cmd);
    body.push((payload.len() % 256) as u8);
    body.extend_from_slice(payload);
    assert(body@ =~= packet_head(cmd, payload@, seq));
    let crc: u8 = crc8(body.as_slice());
    body.push(crc);
    cobs_encode(body.as_slice())
}

/// Reads a received frame. `None` if the frame is too short for what it announces;
/// a wrong checksum is reported in the response.
pub fn parse_response(data: &[u8]) -> (r: Option<Response>)
    ensures
        response_model(r) == parsed_response(data@),
{
    let decoded: Vec<u8> = cobs_decode(data);
    if decoded.len() < 5 {
        return None;
    }
    let cmd: u8 = decoded[2];
    let plen: usize = decoded[3] as usize;
    if decoded.len() < 5 + plen {
        return None;
    }
    let mut payload: Vec<u8> = Vec::new();
    payload.extend_from_slice(&decoded[4..4 + plen]);
    assert(payload@ =~= decoded@.subrange(4, 4 + plen));
    let crc_ok: bool = decoded[4 + plen] == crc8(&decoded[0..4 + plen]);
    assert(decoded@.subrange(0, 4 + plen) =~= decoded@.take(4 + plen));
    Some(Response { cmd, payload, crc_ok })
}

/// A packet parses back: its command and payload come out as they went in, and
/// its checksum is right.
pub proof fn law_packet_parses_back(cmd: u8, payload: Seq<u8>, seq: u8)
    requires
        payload.len() <= 255,
        crate::cobs::runs_fit(packet_body(cmd, payload, seq)),
    ensures
        parsed_response(packet(cmd, payload, seq)) == Some(
            ResponseModel { cmd, payload, crc_ok: true },
        ),
{
    let body = packet_body(cmd, payload, seq);
    crate::cobs::law_frame_round_trip(body);
    assert(body.subrange(4, 4 + payload.len() as int) =~= payload);
    assert(body.take(4 + payload.len() as int) =~= packet_head(cmd, payload, seq));
}

/// Every packet with up to 249 bytes of payload parses back, and the only zero in
/// it is its last byte.
pub proof fn law_short_packet_parses_back(cmd: u8, payload: Seq<u8>, seq: u8)
    requires
        payload.len() <= 249,
    ensures
        parsed_response(packet(cmd, payload, seq)) == Some(
            ResponseModel { cmd, payload, crc_ok: true },
        ),
        forall|k: int|
            0 <= k < packet(cmd, payload, seq).len() ==> (#[trigger] packet(cmd, payload, seq)[k]
                == 0 <==> k == packet(cmd, payload, seq).len() - 1),
{
    let body = packet_body(cmd, payload, seq);
    crate::cobs::law_short_data_fits(body);
    law_packet_parses_back(cmd, payload, seq);
    assert forall|k: int| 0 <= k < packet(cmd, payload, seq).len() implies (#[trigger] packet(
        cmd,
        payload,
        seq,
    )[k] == 0 <==> k == packet(cmd, payload, seq).len() - 1) by {
        crate::cobs::law_zero_ends_frame(body, k);
    }
}

/// Damage shows: where one byte of a packet body other than its length arrives
/// changed, the packet still parses, and its checksum is wrong.
pub proof fn law_damage_shows(cmd: u8, payload: Seq<u8>, seq: u8, i: int, byte: u8)
    requires
        payload.len() <= 255,
        0 <= i < packet_body(cmd, payload, seq).len(),
        i != 3,
        byte != packet_body(cmd, payload, seq)[i],
    ensures
        parsed_body(packet_body(cmd, payload, seq).update(i, byte)) matches Some(r)
            && !r.crc_ok,
{
    let head = packet_head(cmd, payload, seq);
    let body = packet_body(cmd, payload, seq);
    let other = body.update(i, byte);
    let end = 4 + payload.len() as int;
    if i < end {
        crate::crc::law_one_changed_byte_is_detected(head, i, byte);
        assert(other.take(end) =~= head.update(i, byte));
    } else {
        assert(other.take(end) =~= head);
    }
}

/// A packet body is, in this order: a start byte, the sequence number, the command,
/// the length of the payload, the payload, and the checksum of all before it.
pub proof fn law_packet_layout(cmd: u8, payload: Seq<u8>, seq: u8)
    ensures
        ({
            let body = packet_body(cmd, payload, seq);
            &&& body.len() == payload.len() + 5
            &&& body[0] == 0x51
            &&& body[1] == seq
            &&& body[2] == cmd
            &&& body[3] == payload.len() % 256
            &&& body.subrange(4, 4 + payload.len() as int) == payload
            &&& body.last() == crate::crc::crc8_of(body.drop_last())
        }),
        payload.len() <= 249 ==> crate::cobs::cobs_data(packet(cmd, payload, seq)) == packet_body(
            cmd,
            payload,
            seq,
        ),
{
    let body = packet_body(cmd, payload, seq);
    assert(body.subrange(4, 4 + payload.len() as int) =~= payload);
    assert(body.drop_last() =~= packet_head(cmd, payload, seq));
    if payload.len() <= 249 {
        crate::cobs::law_short_data_fits(body);
        crate::cobs::law_frame_round_trip(body);
    }
}

/// A received body is read by its length byte: it must hold the payload and a
/// checksum, and the checksum is right where it is that of all before it.
pub proof fn law_parsing_goes_by_length(body: Seq<u8>)
    ensures
        parsed_body(body) is Some <==> body.len() >= 5 && body.len() >= body[3] + 5,
        parsed_body(body) matches Some(r) ==> {
            &&& r.cmd == body[2]
            &&& r.payload.len() == body[3]
            &&& r.payload == body.skip(4).take(r.payload.len() as int)
            &&& r.crc_ok <==> body[body[3] + 4] == crate::crc::crc8_of(
                body.take(body[3] + 4),
            )
        },
        forall|raw: Seq<u8>|
            crate::cobs::cobs_data(raw) == body ==> #[trigger] parsed_response(raw) == parsed_body(
                body,
            ),
{
    if let Some(r) = parsed_body(body) {
        assert(body.skip(4).take(r.payload.len() as int) =~= r.payload);
    }
}

/// The model of a response says what the response says.
pub proof fn law_response_model(r: Response)
    ensures
        r@.cmd == r.cmd,
        r@.payload == r.payload@,
        r@.crc_ok == r.crc_ok,
        response_model(Some(r)) == Some(r@),
        response_model(None) is None,
{
}

} // verus!
