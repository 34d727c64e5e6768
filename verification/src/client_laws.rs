//! What a client reads of all that the server writes on a connection, one job after the
//! other.
use crate::decimal;
use crate::hpack_encoder;
use crate::hpack_encoder::HeaderField;
use crate::hpack_reading;
use crate::http2;
use crate::http2::{Frame, FrameKind, HeadFlags};
use crate::response_end;
use crate::response_end::JobView;
use crate::response_laws;
use crate::status::StatusView;
use vstd::prelude::*;
use vstd::utf8;

verus! {

/// The header blocks among the frames, in order, as a client with this header table
/// reads them, and its table afterwards.
pub open spec fn header_blocks(table: Seq<HeaderField>, frames: Seq<Frame>) -> Option<
    (Seq<Seq<HeaderField>>, Seq<HeaderField>),
>
    decreases frames.len(),
{
    if frames.len() == 0 {
        Some((Seq::empty(), table))
    } else if frames[0].kind == FrameKind::Headers {
        match hpack_reading::read_block(table, frames[0].payload) {
            Some((fields, next)) => match header_blocks(next, frames.skip(1)) {
                Some((blocks, end)) => Some((seq![fields] + blocks, end)),
                None => None,
            },
            None => None,
        }
    } else {
        header_blocks(table, frames.skip(1))
    }
}

/// What is written are whole frames, none of which has headers.
pub open spec fn is_control(buf: Seq<u8>) -> bool {
    response_laws::read_frames(buf) matches Some(frames) && forall|i: int|
        0 <= i < frames.len() ==> (#[trigger] frames[i]).kind != FrameKind::Headers
}

/// Whether what a job writes fits into frames.
pub open spec fn fits(job: JobView) -> bool {
    match job {
        JobView::Reply { stream_id, reply } => stream_id < 0x8000_0000 && reply.len() + 5
            < 0x100_0000,
        JobView::Status { stream_id, status } => stream_id < 0x8000_0000 && utf8::encode_utf8(
            status.message,
        ).len() < 0xff_0000,
        JobView::WindowUpdate { stream_data_lens, .. } => forall|i: int|
            0 <= i < stream_data_lens.len() ==> (#[trigger] stream_data_lens[i]).0 < 0x8000_0000,
        JobView::Write { buf } => is_control(buf),
    }
}

/// A WINDOW_UPDATE frame.
pub open spec fn window_update_frame(len: usize, stream_id: u32) -> Frame {
    Frame {
        kind: FrameKind::WindowUpdate,
        flags: HeadFlags(0),
        stream_id,
        payload: http2::be32_bytes(len as u32),
    }
}

/// The frames that a job is meant to be.
pub open spec fn frames_of(table: Seq<HeaderField>, job: JobView) -> Seq<Frame> {
    match job {
        JobView::Reply { stream_id, reply } => seq![
            Frame {
                kind: FrameKind::Headers,
                flags: HeadFlags(0x04),
                stream_id,
                payload: http2::reply_headers(table),
            },
            Frame {
                kind: FrameKind::Data,
                flags: HeadFlags(0),
                stream_id,
                payload: http2::message_bytes(reply),
            },
            Frame {
                kind: FrameKind::Headers,
                flags: HeadFlags(0x05),
                stream_id,
                payload: hpack_encoder::stored_field_bytes(
                    http2::table_after_headers(table),
                    hpack_encoder::grpc_status_zero_field(),
                ),
            },
        ],
        JobView::Status { stream_id, status } => seq![
            Frame {
                kind: FrameKind::Headers,
                flags: HeadFlags(0x05),
                stream_id,
                payload: http2::status_headers(table, status),
            },
        ],
        JobView::WindowUpdate { len, stream_data_lens } => if len > 0 {
            seq![window_update_frame(len, 0)] + stream_data_lens.map_values(
                |l: (u32, usize)| window_update_frame(l.1, l.0),
            )
        } else {
            Seq::empty()
        },
        JobView::Write { buf } => response_laws::read_frames(buf)->0,
    }
}

/// The header blocks that a job is meant to be.
pub open spec fn blocks_of(job: JobView) -> Seq<Seq<HeaderField>> {
    match job {
        JobView::Reply { .. } => seq![
            seq![
                hpack_encoder::status_200_field(),
                hpack_encoder::content_type_field(),
                hpack_encoder::accept_encoding_field(),
            ],
            seq![hpack_encoder::grpc_status_zero_field()],
        ],
        JobView::Status { status, .. } => seq![
            seq![
                hpack_encoder::status_200_field(),
                hpack_encoder::content_type_field(),
                hpack_encoder::header_field(
                    "grpc-status"@,
                    decimal::decimal(status.code.number() as nat),
                ),
                hpack_encoder::header_field("grpc-message"@, status.message),
            ],
        ],
        _ => Seq::empty(),
    }
}

/// All that is written for the jobs, in order.
pub open spec fn all_bytes(table: Seq<HeaderField>, jobs: Seq<JobView>) -> Seq<u8>
    decreases jobs.len(),
{
    if jobs.len() == 0 {
        Seq::empty()
    } else {
        response_end::job_bytes(table, jobs[0]) + all_bytes(
            response_end::table_after_job(table, jobs[0]),
            jobs.skip(1),
        )
    }
}

/// All the frames that the jobs are meant to be.
pub open spec fn all_frames(table: Seq<HeaderField>, jobs: Seq<JobView>) -> Seq<Frame>
    decreases jobs.len(),
{
    if jobs.len() == 0 {
        Seq::empty()
    } else {
        frames_of(table, jobs[0]) + all_frames(
            response_end::table_after_job(table, jobs[0]),
            jobs.skip(1),
        )
    }
}

/// All the header blocks that the jobs are meant to be.
pub open spec fn all_blocks(jobs: Seq<JobView>) -> Seq<Seq<HeaderField>>
    decreases jobs.len(),
{
    if jobs.len() == 0 {
        Seq::empty()
    } else {
        blocks_of(jobs[0]) + all_blocks(jobs.skip(1))
    }
}

/// The header table behind all the jobs.
pub open spec fn table_after_all(table: Seq<HeaderField>, jobs: Seq<JobView>) -> Seq<HeaderField>
    decreases jobs.len(),
{
    if jobs.len() == 0 {
        table
    } else {
        table_after_all(response_end::table_after_job(table, jobs[0]), jobs.skip(1))
    }
}

proof fn lemma_empty_frames()
    ensures
        response_laws::read_frames(Seq::empty()) == Some(Seq::<Frame>::empty()),
{
    reveal_with_fuel(response_laws::read_frames, 1);
}

/// Whole frames in front of others are read first, and then the others.
proof fn lemma_frames_concat(a: Seq<u8>, b: Seq<u8>)
    requires
        response_laws::read_frames(a) is Some,
        response_laws::read_frames(b) is Some,
    ensures
        response_laws::read_frames(a + b) == Some(
            response_laws::read_frames(a)->0 + response_laws::read_frames(b)->0,
        ),
    decreases a.len(),
{
    reveal_with_fuel(response_laws::read_frames, 1);
    if a.len() == 0 {
        assert(a + b =~= b);
        assert(Seq::<Frame>::empty() + response_laws::read_frames(b)->0
            =~= response_laws::read_frames(b)->0);
    } else {
        let f = http2::read_frame(a)->0;
        let n = 9 + f.payload.len() as int;
        assert(http2::FrameHeader::of_bytes(a + b) == http2::FrameHeader::of_bytes(a));
        assert((a + b).subrange(9, n) =~= a.subrange(9, n));
        assert(http2::read_frame(a + b) == Some(f));
        assert((a + b).skip(n) =~= a.skip(n) + b);
        lemma_frames_concat(a.skip(n), b);
        let x = response_laws::read_frames(a.skip(n))->0;
        let y = response_laws::read_frames(b)->0;
        assert(seq![f] + (x + y) =~= seq![f] + x + y);
    }
}

proof fn lemma_one_frame(kind: u8, flags: u8, stream_id: u32, payload: Seq<u8>)
    requires
        payload.len() < 0x100_0000,
        stream_id < 0x8000_0000,
    ensures
        response_laws::read_frames(http2::frame_bytes(kind, flags, stream_id, payload)) == Some(
            seq![
                Frame {
                    kind: FrameKind::of_byte(kind),
                    flags: HeadFlags(flags),
                    stream_id,
                    payload,
                },
            ],
        ),
{
    lemma_empty_frames();
    let none = Seq::<u8>::empty();
    let bytes = http2::frame_bytes(kind, flags, stream_id, payload);
    response_laws::law_frames_in_order(kind, flags, stream_id, payload, none);
    assert(bytes + none =~= bytes);
    assert(response_laws::read_frames(bytes)->0 =~= seq![
        Frame { kind: FrameKind::of_byte(kind), flags: HeadFlags(flags), stream_id, payload },
    ]);
}

/// What a connection writes by itself, to refuse a request, to acknowledge SETTINGS or to
/// answer a PING, are whole frames without headers.
pub proof fn law_control_frames(stream_id: u32, error_code: u32, payload: Seq<u8>)
    requires
        stream_id < 0x8000_0000,
        payload.len() < 0x100_0000,
    ensures
        is_control(http2::rst_stream_bytes(stream_id, error_code)),
        is_control(http2::settings_ack_bytes()),
        is_control(http2::ping_ack_bytes(payload)),
{
    lemma_one_frame(3, 0, stream_id, http2::be32_bytes(error_code));
    lemma_one_frame(4, 1, 0, Seq::empty());
    lemma_one_frame(6, 1, 0, payload);
}

proof fn lemma_stream_updates(lens: Seq<(u32, usize)>)
    requires
        forall|i: int| 0 <= i < lens.len() ==> (#[trigger] lens[i]).0 < 0x8000_0000,
    ensures
        response_laws::read_frames(response_end::stream_updates(lens)) == Some(
            lens.map_values(|l: (u32, usize)| window_update_frame(l.1, l.0)),
        ),
    decreases lens.len(),
{
    let frame = |l: (u32, usize)| window_update_frame(l.1, l.0);
    if lens.len() == 0 {
        lemma_empty_frames();
        assert(lens.map_values(frame) =~= Seq::empty());
    } else {
        let front = lens.drop_last();
        assert forall|i: int| 0 <= i < front.len() implies (#[trigger] front[i]).0 < 0x8000_0000 by {
            assert(front[i] == lens[i]);
        }
        lemma_stream_updates(front);
        let last = lens.last();
        assert(last.0 < 0x8000_0000);
        lemma_one_frame(8, 0, last.0, http2::be32_bytes(last.1 as u32));
        lemma_frames_concat(
            response_end::stream_updates(front),
            http2::window_update_bytes(last.1, last.0),
        );
        assert(front.map_values(frame) + seq![frame(last)] =~= lens.map_values(frame));
    }
}

/// How long an integer is that stands in front of what fits into a frame.
proof fn lemma_int_short(value: usize, first_byte: u8)
    requires
        value < 0x100_0000,
    ensures
        1 <= hpack_encoder::int_bytes(value, 7, first_byte).len() <= 5,
        value < 127 ==> hpack_encoder::int_bytes(value, 7, first_byte).len() == 1,
{
    assert(1usize << 7usize == 128) by (bit_vector);
    reveal_with_fuel(hpack_encoder::continuation_bytes, 5);
}

/// Storing one of the two headers leads to such a table again.
proof fn lemma_table_with(table: Seq<HeaderField>, field: HeaderField)
    requires
        hpack_encoder::is_reached(table),
        field == hpack_encoder::content_type_field() || field
            == hpack_encoder::grpc_status_zero_field(),
    ensures
        hpack_encoder::is_reached(hpack_encoder::table_with(table, field)),
{
    if !table.contains(field) {
        let next = seq![field] + table;
        if table.len() == 2 {
            assert(table[0] != table[1]);
            assert(table.contains(table[0]) && table.contains(table[1]));
        }
        assert forall|i: int| 0 <= i < next.len() implies #[trigger] next[i]
            == hpack_encoder::content_type_field() || next[i]
            == hpack_encoder::grpc_status_zero_field() by {
            if i > 0 {
                assert(next[i] == table[i - 1]);
            }
        }
        assert forall|i: int, j: int| 0 <= i < j < next.len() implies next[i] != next[j] by {
            assert(next[j] == table[j - 1]);
            assert(table.contains(table[j - 1]));
            if i > 0 {
                assert(next[i] == table[i - 1]);
            }
        }
    }
}

proof fn lemma_headers_short(table: Seq<HeaderField>)
    requires
        hpack_encoder::is_reached(table),
    ensures
        http2::reply_headers(table).len() < 0x100,
        hpack_encoder::stored_field_bytes(
            http2::table_after_headers(table),
            hpack_encoder::grpc_status_zero_field(),
        ).len() < 0x100,
        hpack_encoder::stored_field_bytes(table, hpack_encoder::content_type_field()).len() < 0x80,
        hpack_encoder::is_reached(http2::table_after_headers(table)),
        hpack_encoder::is_reached(http2::table_after_reply(table)),
{
    let ct = hpack_encoder::content_type_field();
    let zero = hpack_encoder::grpc_status_zero_field();
    lemma_names_differ();
    response_laws::lemma_names_short();
    assert(1usize << 7usize == 128 && 1usize << 6usize == 64) by (bit_vector);
    lemma_table_with(table, ct);
    lemma_table_with(http2::table_after_headers(table), zero);
    lemma_int_short(8, 0x80);
    lemma_int_short(62, 0x80);
    lemma_int_short(63, 0x80);
    lemma_int_short(12, 0x00);
    lemma_int_short(16, 0x00);
    lemma_int_short(11, 0x00);
    lemma_int_short(1, 0x00);
    lemma_int_short(20, 0x00);
    lemma_int_short(17, 0x00);
    if table.contains(ct) {
        let i = table.index_of(ct);
        assert(0 <= i < table.len() <= 2);
    }
    let next = http2::table_after_headers(table);
    if next.contains(zero) {
        let i = next.index_of(zero);
        assert(0 <= i < next.len() <= 2);
    }
}

proof fn lemma_names_differ()
    ensures
        hpack_encoder::grpc_status_zero_field() != hpack_encoder::content_type_field(),
{
    response_laws::lemma_names_short();
    assert(hpack_encoder::grpc_status_zero_field().name.len()
        != hpack_encoder::content_type_field().name.len());
}

proof fn lemma_status_headers_short(table: Seq<HeaderField>, status: StatusView)
    requires
        hpack_encoder::is_reached(table),
        utf8::encode_utf8(status.message).len() < 0xff_0000,
    ensures
        http2::status_headers(table, status).len() < 0x100_0000,
{
    lemma_headers_short(table);
    response_laws::lemma_names_short();
    let code = decimal::decimal(status.code.number() as nat);
    decimal::lemma_decimal_short(status.code.number() as nat);
    assert(utf8::encode_utf8(code).len() <= 102);
    assert(1usize << 7usize == 128 && 1usize << 4usize == 16) by (bit_vector);
    lemma_int_short(8, 0x80);
    lemma_int_short(11, 0x00);
    lemma_int_short(12, 0x00);
    lemma_int_short(utf8::encode_utf8(code).len() as usize, 0x00);
    lemma_int_short(utf8::encode_utf8(status.message).len() as usize, 0x00);
    let next = http2::table_after_headers(table);
    let zero = hpack_encoder::grpc_status_zero_field();
    if next.contains(zero) {
        let i = next.index_of(zero);
        assert(0 <= i < next.len() <= 2);
        let at = hpack_encoder::dynamic_table_index(i);
        assert(62 <= at <= 63);
        assert(hpack_encoder::continuation_bytes((at - 15) as nat).len() == 1);
    }
}

/// Nothing behind the frames makes no difference.
proof fn lemma_nothing_behind(bytes: Seq<u8>, frames: Seq<Frame>)
    requires
        response_laws::read_frames(bytes + Seq::<u8>::empty()) == Some(
            frames + Seq::<Frame>::empty(),
        ),
    ensures
        response_laws::read_frames(bytes) == Some(frames),
{
    assert(bytes + Seq::<u8>::empty() =~= bytes);
    assert(frames + Seq::<Frame>::empty() =~= frames);
}

proof fn lemma_reply_frames(table: Seq<HeaderField>, stream_id: u32, reply: Seq<u8>)
    requires
        hpack_encoder::is_reached(table),
        fits(JobView::Reply { stream_id, reply }),
    ensures
        response_laws::read_frames(
            response_end::job_bytes(table, JobView::Reply { stream_id, reply }),
        ) == Some(frames_of(table, JobView::Reply { stream_id, reply })),
{
    assert(http2::reply_headers(table).len() < 0x100 && hpack_encoder::stored_field_bytes(
        http2::table_after_headers(table),
        hpack_encoder::grpc_status_zero_field(),
    ).len() < 0x100) by {
        lemma_headers_short(table);
    }
    lemma_empty_frames();
    response_laws::law_reply_frames(table, stream_id, reply, Seq::empty());
    lemma_nothing_behind(
        response_end::job_bytes(table, JobView::Reply { stream_id, reply }),
        frames_of(table, JobView::Reply { stream_id, reply }),
    );
}

proof fn lemma_status_frames(table: Seq<HeaderField>, stream_id: u32, status: StatusView)
    requires
        hpack_encoder::is_reached(table),
        fits(JobView::Status { stream_id, status }),
    ensures
        response_laws::read_frames(
            response_end::job_bytes(table, JobView::Status { stream_id, status }),
        ) == Some(frames_of(table, JobView::Status { stream_id, status })),
{
    lemma_status_headers_short(table, status);
    lemma_one_frame(1, 0x05, stream_id, http2::status_headers(table, status));
}

/// What a job writes is read as the frames that it is meant to be.
proof fn lemma_job_frames(table: Seq<HeaderField>, job: JobView)
    requires
        hpack_encoder::is_reached(table),
        fits(job),
    ensures
        response_laws::read_frames(response_end::job_bytes(table, job)) == Some(
            frames_of(table, job),
        ),
        hpack_encoder::is_reached(response_end::table_after_job(table, job)),
{
    assert(hpack_encoder::is_reached(response_end::table_after_job(table, job))) by {
        lemma_headers_short(table);
    }
    match job {
        JobView::Reply { stream_id, reply } => {
            lemma_reply_frames(table, stream_id, reply);
        },
        JobView::Status { stream_id, status } => {
            lemma_status_frames(table, stream_id, status);
        },
        JobView::WindowUpdate { len, stream_data_lens } => {
            if len > 0 {
                lemma_one_frame(8, 0, 0, http2::be32_bytes(len as u32));
                lemma_stream_updates(stream_data_lens);
                lemma_frames_concat(
                    http2::window_update_bytes(len, 0),
                    response_end::stream_updates(stream_data_lens),
                );
            } else {
                lemma_empty_frames();
            }
        },
        JobView::Write { buf } => {},
    }
}

proof fn lemma_no_blocks(table: Seq<HeaderField>, frames: Seq<Frame>)
    requires
        forall|i: int|
            0 <= i < frames.len() ==> (#[trigger] frames[i]).kind != FrameKind::Headers,
    ensures
        header_blocks(table, frames) == Some((Seq::<Seq<HeaderField>>::empty(), table)),
    decreases frames.len(),
{
    if frames.len() > 0 {
        let rest = frames.skip(1);
        assert forall|i: int| 0 <= i < rest.len() implies (#[trigger] rest[i]).kind
            != FrameKind::Headers by {
            assert(rest[i] == frames[i + 1]);
        }
        assert(frames[0].kind != FrameKind::Headers);
        lemma_no_blocks(table, rest);
    }
}

proof fn lemma_blocks_concat(table: Seq<HeaderField>, a: Seq<Frame>, b: Seq<Frame>)
    requires
        header_blocks(table, a) is Some,
        header_blocks((header_blocks(table, a)->0).1, b) is Some,
    ensures
        header_blocks(table, a + b) == Some(
            (
                (header_blocks(table, a)->0).0 + (header_blocks(
                    (header_blocks(table, a)->0).1,
                    b,
                )->0).0,
                (header_blocks((header_blocks(table, a)->0).1, b)->0).1,
            ),
        ),
    decreases a.len(),
{
    let next = (header_blocks(table, a)->0).1;
    let y = (header_blocks(next, b)->0).0;
    if a.len() == 0 {
        assert(a + b =~= b);
        assert(Seq::<Seq<HeaderField>>::empty() + y =~= y);
    } else {
        assert((a + b)[0] == a[0]);
        assert((a + b).skip(1) =~= a.skip(1) + b);
        if a[0].kind == FrameKind::Headers {
            let (fields, after) = hpack_reading::read_block(table, a[0].payload)->0;
            lemma_blocks_concat(after, a.skip(1), b);
            let x = (header_blocks(after, a.skip(1))->0).0;
            assert(seq![fields] + (x + y) =~= seq![fields] + x + y);
        } else {
            lemma_blocks_concat(table, a.skip(1), b);
        }
    }
}

/// The frames that a job is meant to be have the header blocks that it is meant to be.
proof fn lemma_job_blocks(table: Seq<HeaderField>, job: JobView)
    requires
        hpack_encoder::is_reached(table),
        fits(job),
    ensures
        header_blocks(table, frames_of(table, job)) == Some(
            (blocks_of(job), response_end::table_after_job(table, job)),
        ),
{
    reveal_with_fuel(header_blocks, 4);
    let frames = frames_of(table, job);
    match job {
        JobView::Reply { stream_id, reply } => {
            response_laws::law_reply_headers_read(table);
            response_laws::law_reply_trailers_read(http2::table_after_headers(table));
            let rest = frames.skip(1);
            assert(rest[0] == frames[1]);
            assert(rest.skip(1)[0] == frames[2]);
            assert(rest.skip(1).skip(1) =~= Seq::empty());
            assert((header_blocks(table, frames)->0).0 =~= blocks_of(job));
        },
        JobView::Status { stream_id, status } => {
            response_laws::law_status_headers_read(table, status);
            assert(frames.skip(1) =~= Seq::empty());
            assert((header_blocks(table, frames)->0).0 =~= blocks_of(job));
        },
        _ => {
            lemma_no_blocks(table, frames);
        },
    }
}

/// Each job adds its bytes behind those of the jobs before it: so what a series of
/// `write_job` calls with one encoder writes, is all that the jobs are meant to be.
pub proof fn law_next_job(table: Seq<HeaderField>, jobs: Seq<JobView>, job: JobView)
    ensures
        all_bytes(table, jobs.push(job)) == all_bytes(table, jobs) + response_end::job_bytes(
            table_after_all(table, jobs),
            job,
        ),
        table_after_all(table, jobs.push(job)) == response_end::table_after_job(
            table_after_all(table, jobs),
            job,
        ),
    decreases jobs.len(),
{
    let more = jobs.push(job);
    reveal_with_fuel(all_bytes, 2);
    reveal_with_fuel(table_after_all, 2);
    if jobs.len() == 0 {
        assert(more.skip(1) =~= Seq::empty());
        let bytes = response_end::job_bytes(table, job);
        assert(bytes + Seq::<u8>::empty() =~= bytes);
        assert(Seq::<u8>::empty() + bytes =~= bytes);
    } else {
        let next = response_end::table_after_job(table, jobs[0]);
        assert(more.skip(1) =~= jobs.skip(1).push(job));
        law_next_job(next, jobs.skip(1), job);
        let a = response_end::job_bytes(table, jobs[0]);
        let b = all_bytes(next, jobs.skip(1));
        let c = response_end::job_bytes(table_after_all(table, jobs), job);
        assert(a + (b + c) =~= a + b + c);
    }
}

/// What is written for one series of jobs and then for another is what is written for
/// both in a row.
pub proof fn law_jobs_in_a_row(table: Seq<HeaderField>, a: Seq<JobView>, b: Seq<JobView>)
    ensures
        all_bytes(table, a + b) == all_bytes(table, a) + all_bytes(table_after_all(table, a), b),
        table_after_all(table, a + b) == table_after_all(table_after_all(table, a), b),
    decreases a.len(),
{
    if a.len() == 0 {
        assert(a + b =~= b);
        assert(Seq::<u8>::empty() + all_bytes(table, b) =~= all_bytes(table, b));
    } else {
        let next = response_end::table_after_job(table, a[0]);
        assert((a + b).skip(1) =~= a.skip(1) + b);
        assert((a + b)[0] == a[0]);
        law_jobs_in_a_row(next, a.skip(1), b);
        let x = response_end::job_bytes(table, a[0]);
        let y = all_bytes(next, a.skip(1));
        let z = all_bytes(table_after_all(table, a), b);
        assert(x + (y + z) =~= x + y + z);
    }
}

/// A client that reads all that was written reads, job after job, the frames that the
/// jobs are meant to be, and in them the headers that they are meant to carry: its
/// header table never falls out of step.
pub proof fn law_client_keeps_up(table: Seq<HeaderField>, jobs: Seq<JobView>)
    requires
        hpack_encoder::is_reached(table),
        forall|i: int| 0 <= i < jobs.len() ==> #[trigger] fits(jobs[i]),
    ensures
        response_laws::read_frames(all_bytes(table, jobs)) == Some(all_frames(table, jobs)),
        header_blocks(table, all_frames(table, jobs)) == Some(
            (all_blocks(jobs), table_after_all(table, jobs)),
        ),
    decreases jobs.len(),
{
    if jobs.len() == 0 {
        lemma_empty_frames();
    } else {
        let job = jobs[0];
        let rest = jobs.skip(1);
        let next = response_end::table_after_job(table, job);
        assert(fits(job));
        assert forall|i: int| 0 <= i < rest.len() implies #[trigger] fits(rest[i]) by {
            assert(rest[i] == jobs[i + 1]);
        }
        lemma_job_frames(table, job);
        lemma_job_blocks(table, job);
        law_client_keeps_up(next, rest);
        lemma_frames_concat(response_end::job_bytes(table, job), all_bytes(next, rest));
        lemma_blocks_concat(table, frames_of(table, job), all_frames(next, rest));
    }
}

/// A reply of any size goes out as headers that do not end the stream, the whole message
/// behind its length, and trailers that do; a status goes out as headers that do. All of
/// it is on the stream of the request.
pub proof fn law_response_of_any_size(
    table: Seq<HeaderField>,
    stream_id: u32,
    reply: Seq<u8>,
    status: StatusView,
)
    ensures
        response_end::job_bytes(table, JobView::Reply { stream_id, reply }) == http2::frame_bytes(
            1,
            0x04,
            stream_id,
            http2::reply_headers(table),
        ) + http2::frame_bytes(0, 0, stream_id, http2::message_bytes(reply)) + http2::frame_bytes(
            1,
            0x05,
            stream_id,
            hpack_encoder::stored_field_bytes(
                http2::table_after_headers(table),
                hpack_encoder::grpc_status_zero_field(),
            ),
        ),
        response_end::job_bytes(table, JobView::Status { stream_id, status })
            == http2::frame_bytes(1, 0x05, stream_id, http2::status_headers(table, status)),
        http2::message_bytes(reply).len() == 5 + reply.len(),
        http2::message_bytes(reply).skip(5) == reply,
{
    assert(http2::message_bytes(reply).skip(5) =~= reply);
}

/// A header has the characters of its name and of its value in UTF-8, all of them, whatever
/// they are.
pub proof fn law_header_text(name: Seq<char>, value: Seq<char>)
    ensures
        hpack_encoder::header_field(name, value).name == utf8::encode_utf8(name),
        hpack_encoder::header_field(name, value).value == utf8::encode_utf8(value),
{
}

} // verus!
