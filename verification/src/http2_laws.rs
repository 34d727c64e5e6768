//! What the bytes of frames mean, in numbers.
use crate::error::ErrorView;
use crate::http2;
use crate::http2::{Frame, FrameHeader, FrameKind, HeadFlags};
use vstd::prelude::*;

verus! {

/// The number that bytes stand for, most significant first.
pub open spec fn value_of(bytes: Seq<u8>) -> nat
    decreases bytes.len(),
{
    if bytes.len() == 0 {
        0
    } else {
        value_of(bytes.drop_last()) * 256 + bytes.last() as nat
    }
}

pub proof fn lemma_value_of_four(b: Seq<u8>)
    requires
        b.len() == 4,
    ensures
        value_of(b) == b[0] * 0x100_0000 + b[1] * 0x1_0000 + b[2] * 0x100 + b[3],
{
    reveal_with_fuel(value_of, 5);
    assert(b.drop_last().drop_last().drop_last().drop_last() =~= Seq::empty());
}

proof fn lemma_value_of_three(b: Seq<u8>)
    requires
        b.len() == 3,
    ensures
        value_of(b) == b[0] * 0x1_0000 + b[1] * 0x100 + b[2],
{
    reveal_with_fuel(value_of, 4);
    assert(b.drop_last().drop_last().drop_last() =~= Seq::empty());
}

/// Four bytes are written most significant first, and read so.
pub proof fn law_be32_value(v: u32, a: u8, b: u8, c: u8, d: u8)
    ensures
        http2::be32_bytes(v).len() == 4,
        value_of(http2::be32_bytes(v)) == v,
        http2::be32(a, b, c, d) == value_of(seq![a, b, c, d]),
{
    lemma_value_of_four(http2::be32_bytes(v));
    lemma_value_of_four(seq![a, b, c, d]);
    let w = http2::be32_bytes(v);
    assert(w[0] == v / 0x100_0000);
    assert(w[1] == v / 0x1_0000 % 0x100);
    assert(w[2] == v / 0x100 % 0x100);
    assert(w[3] == v % 0x100);
}

/// The fields of a frame header: three bytes of length, the kind, the flags, and four
/// bytes of stream identifier whose top bit does not count.
pub proof fn law_header_fields(buf: Seq<u8>)
    requires
        buf.len() >= 9,
    ensures
        ({
            let head = FrameHeader::of_bytes(buf);
            &&& head.len == value_of(buf.subrange(0, 3))
            &&& head.kind == FrameKind::of_byte(buf[3])
            &&& head.flags.0 == buf[4]
            &&& head.stream_id == value_of(buf.subrange(5, 9)) % 0x8000_0000
        }),
{
    let len = buf.subrange(0, 3);
    let id = buf.subrange(5, 9);
    lemma_value_of_three(len);
    lemma_value_of_four(id);
    assert(len[0] == buf[0] && len[1] == buf[1] && len[2] == buf[2]);
    assert(id[0] == buf[5] && id[1] == buf[6] && id[2] == buf[7] && id[3] == buf[8]);
    let top = buf[5] as int;
    assert(top % 0x80 + 0x80 * (top / 0x80) == top);
    let low = (top % 0x80) * 0x100_0000 + buf[6] * 0x1_0000 + buf[7] * 0x100 + buf[8];
    assert(0 <= low < 0x8000_0000);
    assert(value_of(id) == low + 0x8000_0000 * (top / 0x80));
    assert(value_of(id) % 0x8000_0000 == low);
}

/// The kinds of frames have the numbers that HTTP/2 gives them, and no other number is
/// one of these kinds.
pub proof fn law_frame_kinds(b: u8)
    ensures
        FrameKind::of_byte(b) == FrameKind::Data <==> b == 0,
        FrameKind::of_byte(b) == FrameKind::Headers <==> b == 1,
        FrameKind::of_byte(b) == FrameKind::Priority <==> b == 2,
        FrameKind::of_byte(b) == FrameKind::Reset <==> b == 3,
        FrameKind::of_byte(b) == FrameKind::Settings <==> b == 4,
        FrameKind::of_byte(b) == FrameKind::PushPromise <==> b == 5,
        FrameKind::of_byte(b) == FrameKind::Ping <==> b == 6,
        FrameKind::of_byte(b) == FrameKind::GoAway <==> b == 7,
        FrameKind::of_byte(b) == FrameKind::WindowUpdate <==> b == 8,
        FrameKind::of_byte(b) == FrameKind::Continuation <==> b == 9,
        FrameKind::of_byte(b) == FrameKind::Unknown <==> b > 9,
{
}

/// A flag is one binary digit of the flags byte, whatever the other digits are.
pub proof fn law_flag_bits(flags: u8)
    ensures
        HeadFlags(flags).has(0x01) <==> flags % 2 == 1,
        HeadFlags(flags).has(0x04) <==> flags / 4 % 2 == 1,
        HeadFlags(flags).has(0x08) <==> flags / 8 % 2 == 1,
        HeadFlags(flags).has(0x20) <==> flags / 32 % 2 == 1,
{
    assert((flags & 0x01 != 0) == (flags % 2 == 1)) by (bit_vector);
    assert((flags & 0x04 != 0) == (flags / 4 % 2 == 1)) by (bit_vector);
    assert((flags & 0x08 != 0) == (flags / 8 % 2 == 1)) by (bit_vector);
    assert((flags & 0x20 != 0) == (flags / 32 % 2 == 1)) by (bit_vector);
}

/// A payload with padding: how much padding, what is meant, and the padding.
pub open spec fn padded(data: Seq<u8>, padding: Seq<u8>) -> Seq<u8> {
    seq![padding.len() as u8] + data + padding
}

/// Padding is taken off, whatever it holds; without the flag nothing is taken off.
pub proof fn law_padding_taken_off(flags: HeadFlags, data: Seq<u8>, padding: Seq<u8>)
    requires
        padding.len() <= 255,
    ensures
        http2::without_padding(flags, if flags.has(0x08) {
            padded(data, padding)
        } else {
            data
        }) == Ok::<Seq<u8>, ErrorView>(data),
{
    let all = padded(data, padding);
    assert(all[0] == padding.len());
    assert(all.subrange(1, all.len() - padding.len()) =~= data);
}

/// What is said to be padding has to be there: nothing else is refused, and what is
/// refused has less behind its first byte than that byte says.
pub proof fn law_padding_refused(flags: HeadFlags, payload: Seq<u8>)
    ensures
        http2::without_padding(flags, payload) is Err <==> flags.has(0x08) && (payload.len() == 0
            || payload[0] > payload.len() - 1),
        http2::without_padding(flags, payload) matches Err(e) ==> e == ErrorView::InvalidHttp2(
            "invalid padding"@,
        ),
        http2::without_padding(flags, payload) matches Ok(data) ==> if flags.has(0x08) {
            exists|padding: Seq<u8>| payload == #[trigger] padded(data, padding)
        } else {
            payload == data
        },
{
    if let Ok(data) = http2::without_padding(flags, payload) {
        if flags.has(0x08) {
            let n = payload[0] as int;
            let padding = payload.skip(payload.len() - n);
            assert(payload =~= padded(data, padding));
        }
    }
}

/// A header block is what is left of a HEADERS payload without padding and without the
/// five bytes of priority, where the flags say that these are there.
pub proof fn law_header_block(
    flags: HeadFlags,
    priority: Seq<u8>,
    block: Seq<u8>,
    padding: Seq<u8>,
)
    requires
        padding.len() <= 255,
        priority.len() == if flags.has(0x20) {
            5nat
        } else {
            0
        },
    ensures
        http2::header_fragment(flags, if flags.has(0x08) {
            padded(priority + block, padding)
        } else {
            priority + block
        }) == Ok::<Seq<u8>, ErrorView>(block),
{
    law_padding_taken_off(flags, priority + block, padding);
    if flags.has(0x20) {
        assert((priority + block).skip(5) =~= block);
    } else {
        assert(priority + block =~= block);
    }
}

/// A HEADERS payload is refused for its padding, or where there are fewer than the five
/// bytes of priority that the flags announce, and for nothing else.
pub proof fn law_header_block_refused(flags: HeadFlags, payload: Seq<u8>)
    ensures
        match http2::without_padding(flags, payload) {
            Err(e) => http2::header_fragment(flags, payload) == Err::<Seq<u8>, ErrorView>(e),
            Ok(rest) => {
                &&& http2::header_fragment(flags, payload) is Err <==> flags.has(0x20)
                    && rest.len() < 5
                &&& http2::header_fragment(flags, payload) matches Err(e) ==> e
                    == ErrorView::InvalidHttp2("HEADERS too short for priority"@)
            },
        },
{
}

/// A gRPC message has a flag that says it is not compressed, its length in four bytes, and
/// itself behind them.
pub proof fn law_message_framing(reply: Seq<u8>)
    requires
        reply.len() < 0x1_0000_0000,
    ensures
        http2::message_bytes(reply).len() == 5 + reply.len(),
        http2::message_bytes(reply)[0] == 0,
        value_of(http2::message_bytes(reply).subrange(1, 5)) == reply.len(),
        http2::message_bytes(reply).skip(5) == reply,
{
    let all = http2::message_bytes(reply);
    assert(all.subrange(1, 5) =~= http2::be32_bytes(reply.len() as u32));
    law_be32_value(reply.len() as u32, 0, 0, 0, 0);
    assert(all.skip(5) =~= reply);
}

/// An end of a stream reads back as that, with its code.
pub proof fn law_rst_stream_read(stream_id: u32, code: u32)
    requires
        stream_id < 0x8000_0000,
    ensures
        http2::rst_stream_bytes(stream_id, code).len() == 13,
        http2::read_frame(http2::rst_stream_bytes(stream_id, code)) is Some,
        ({
            let f = http2::read_frame(http2::rst_stream_bytes(stream_id, code))->0;
            &&& f.kind == FrameKind::Reset
            &&& f.flags == HeadFlags(0)
            &&& f.stream_id == stream_id
            &&& f.payload.len() == 4
            &&& value_of(f.payload) == code
        }),
{
    lemma_alone(3, 0, stream_id, http2::be32_bytes(code));
    law_be32_value(code, 0, 0, 0, 0);
}

/// Acknowledgements read back as such: that of SETTINGS is empty, that of a PING has the
/// payload that the PING had.
pub proof fn law_acknowledgements_read(payload: Seq<u8>)
    requires
        payload.len() < 0x100_0000,
    ensures
        http2::settings_ack_bytes().len() == 9,
        http2::read_frame(http2::settings_ack_bytes()) == Some(
            Frame {
                kind: FrameKind::Settings,
                flags: HeadFlags(0x01),
                stream_id: 0,
                payload: Seq::empty(),
            },
        ),
        http2::ping_ack_bytes(payload).len() == 9 + payload.len(),
        http2::read_frame(http2::ping_ack_bytes(payload)) == Some(
            Frame { kind: FrameKind::Ping, flags: HeadFlags(0x01), stream_id: 0, payload },
        ),
{
    lemma_alone(4, 1, 0, Seq::empty());
    lemma_alone(6, 1, 0, payload);
}

/// A window update reads back as room for as many bytes as it was made for.
pub proof fn law_window_update_read(len: usize, stream_id: u32)
    requires
        stream_id < 0x8000_0000,
        len <= u32::MAX,
    ensures
        http2::window_update_bytes(len, stream_id).len() == 13,
        http2::read_frame(http2::window_update_bytes(len, stream_id)) is Some,
        ({
            let f = http2::read_frame(http2::window_update_bytes(len, stream_id))->0;
            &&& f.kind == FrameKind::WindowUpdate
            &&& f.flags == HeadFlags(0)
            &&& f.stream_id == stream_id
            &&& f.payload.len() == 4
            &&& value_of(f.payload) == len
        }),
{
    lemma_alone(8, 0, stream_id, http2::be32_bytes(len as u32));
    law_be32_value(len as u32, 0, 0, 0, 0);
}

/// The server's SETTINGS say how many streams a client may have open, and nothing else.
pub proof fn law_settings_read(max_streams: usize)
    requires
        max_streams <= u32::MAX,
    ensures
        http2::read_frame(http2::settings_bytes(max_streams)) is Some,
        ({
            let f = http2::read_frame(http2::settings_bytes(max_streams))->0;
            &&& f.kind == FrameKind::Settings
            &&& f.flags == HeadFlags(0)
            &&& f.stream_id == 0
            &&& f.payload.len() == 6
            &&& value_of(f.payload.subrange(0, 2)) == 3
            &&& value_of(f.payload.subrange(2, 6)) == max_streams
        }),
        http2::settings_bytes(max_streams).len() == 15,
{
    let value = http2::be32_bytes(max_streams as u32);
    let payload = seq![0u8, 3u8] + value;
    lemma_alone(4, 0, 0, payload);
    law_be32_value(max_streams as u32, 0, 0, 0, 0);
    assert(payload.subrange(2, 6) =~= value);
    let ident = payload.subrange(0, 2);
    assert(ident =~= seq![0u8, 3u8]);
    reveal_with_fuel(value_of, 3);
    assert(ident.drop_last().drop_last() =~= Seq::empty());
}

/// A frame of any size: its kind, its flags and its stream stand in its header, with the
/// low 24 bits of the length, and behind the header comes the whole payload.
pub proof fn law_frame_of_any_size(kind: u8, flags: u8, stream_id: u32, payload: Seq<u8>)
    ensures
        ({
            let all = http2::frame_bytes(kind, flags, stream_id, payload);
            &&& all.len() == 9 + payload.len()
            &&& value_of(all.subrange(0, 3)) == payload.len() % 0x100_0000
            &&& all[3] == kind
            &&& all[4] == flags
            &&& value_of(all.subrange(5, 9)) == stream_id
            &&& all.skip(9) == payload
        }),
{
    let all = http2::frame_bytes(kind, flags, stream_id, payload);
    let n = payload.len() as int;
    let len = all.subrange(0, 3);
    lemma_value_of_three(len);
    assert(len[0] == n / 0x1_0000 % 0x100);
    assert(len[1] == n / 0x100 % 0x100);
    assert(len[2] == n % 0x100);
    assert(n % 0x100_0000 == n / 0x1_0000 % 0x100 * 0x1_0000 + n / 0x100 % 0x100 * 0x100 + n
        % 0x100);
    law_be32_value(stream_id, 0, 0, 0, 0);
    assert(all.subrange(5, 9) =~= http2::be32_bytes(stream_id));
    assert(all.skip(9) =~= payload);
}

proof fn lemma_alone(kind: u8, flags: u8, stream_id: u32, payload: Seq<u8>)
    requires
        payload.len() < 0x100_0000,
        stream_id < 0x8000_0000,
    ensures
        http2::frame_bytes(kind, flags, stream_id, payload).len() == 9 + payload.len(),
        http2::read_frame(http2::frame_bytes(kind, flags, stream_id, payload)) == Some(
            Frame {
                kind: FrameKind::of_byte(kind),
                flags: HeadFlags(flags),
                stream_id,
                payload,
            },
        ),
{
    let bytes = http2::frame_bytes(kind, flags, stream_id, payload);
    http2::law_frame_read_back(kind, flags, stream_id, payload, Seq::empty());
    assert(bytes + Seq::<u8>::empty() =~= bytes);
}

} // verus!
