//! What a whole connection comes to, read after read.
use crate::connection_laws;
use crate::connection_model;
use crate::connection_model::{ActionView, Answer, ConnectionView, Outcome, Parsing};
use crate::error::ErrorView;
use crate::http2;
use crate::request_laws;
use crate::route;
use vstd::prelude::*;

verus! {

/// A connection and all that came of it so far.
pub struct SessionView {
    pub state: ConnectionView,
    /// What was asked for, in order.
    pub actions: Seq<ActionView>,
    /// How many header blocks were read.
    pub asked: nat,
    /// How the connection ended, if it did: by the client, or by an error.
    pub ended: Option<Result<(), ErrorView>>,
    /// The room that the client got back: for each stream, how much.
    pub updates: Seq<(u32, usize)>,
}

/// A session with an outcome noted in it.
pub open spec fn noted(s: SessionView, o: Outcome) -> SessionView {
    match o.1 {
        Err(e) => SessionView { state: o.0, ended: Some(Err(e)), ..s },
        Ok(ActionView::Nothing) => SessionView { state: o.0, ..s },
        Ok(ActionView::Close) => SessionView { state: o.0, ended: Some(Ok(())), ..s },
        Ok(a) => SessionView { state: o.0, actions: s.actions.push(a), ..s },
    }
}

/// A session with an outcome noted and acted on. The header block behind `n` others is
/// answered with `answers(n)`.
pub open spec fn acted(
    s: SessionView,
    o: Outcome,
    answers: spec_fn(nat) -> Answer,
) -> SessionView {
    match o.1 {
        Ok(ActionView::ReadHeaders { .. }) => noted(
            SessionView { asked: s.asked + 1, ..noted(s, o) },
            connection_model::settled(o, answers(s.asked)),
        ),
        _ => noted(s, o),
    }
}

/// The session behind some more bytes.
pub open spec fn session(
    s: SessionView,
    bytes: Seq<u8>,
    answers: spec_fn(nat) -> Answer,
) -> SessionView
    decreases bytes.len(),
{
    if s.ended is Some || bytes.len() == 0 {
        s
    } else {
        session(
            acted(s, connection_model::on_byte(s.state, bytes[0]), answers),
            bytes.skip(1),
            answers,
        )
    }
}

/// Taking the bytes as far as a run of them goes, acting on what it asks for and going on
/// with the rest, is what a session does.
pub proof fn law_session_by_runs(
    s: SessionView,
    bytes: Seq<u8>,
    answers: spec_fn(nat) -> Answer,
)
    requires
        s.ended is None,
    ensures
        ({
            let run = connection_model::run(s.state, bytes);
            run.taken <= bytes.len() && session(s, bytes, answers) == session(
                acted(s, (run.state, run.result), answers),
                bytes.skip(run.taken as int),
                answers,
            )
        }),
    decreases bytes.len(),
{
    if bytes.len() == 0 {
        assert(bytes.skip(0) =~= bytes);
    } else {
        let (next, result) = connection_model::on_byte(s.state, bytes[0]);
        if result == Ok::<ActionView, ErrorView>(ActionView::Nothing) {
            law_session_by_runs(SessionView { state: next, ..s }, bytes.skip(1), answers);
            let rest = connection_model::run(next, bytes.skip(1));
            assert(bytes.skip(1).skip(rest.taken as int) =~= bytes.skip(rest.taken as int + 1));
        }
    }
}

/// What comes behind other bytes goes on where these led.
pub proof fn law_session_goes_on(
    s: SessionView,
    a: Seq<u8>,
    b: Seq<u8>,
    answers: spec_fn(nat) -> Answer,
)
    ensures
        session(s, a + b, answers) == session(session(s, a, answers), b, answers),
    decreases a.len(),
{
    if a.len() == 0 {
        assert(a + b =~= b);
    } else if s.ended is None {
        assert((a + b)[0] == a[0]);
        assert((a + b).skip(1) =~= a.skip(1) + b);
        law_session_goes_on(
            acted(s, connection_model::on_byte(s.state, a[0]), answers),
            a.skip(1),
            b,
            answers,
        );
    }
}

/// A read begins.
pub open spec fn read_begun(s: SessionView) -> SessionView {
    SessionView { state: connection_model::at_read_begin(s.state), ..s }
}

/// The room that is given back as a read ends.
pub open spec fn given_back(c: ConnectionView) -> Seq<(u32, usize)> {
    if c.data_len > 0 {
        c.stream_data_lens
    } else {
        Seq::empty()
    }
}

/// A read ends, unless the connection did.
pub open spec fn read_ended(s: SessionView) -> SessionView {
    if s.ended is Some {
        s
    } else {
        SessionView { updates: s.updates + given_back(s.state), ..s }
    }
}

/// The session behind some more reads.
pub open spec fn after_reads(
    s: SessionView,
    reads: Seq<Seq<u8>>,
    answers: spec_fn(nat) -> Answer,
) -> SessionView
    decreases reads.len(),
{
    if s.ended is Some || reads.len() == 0 {
        s
    } else {
        after_reads(
            read_ended(session(read_begun(s), reads[0], answers)),
            reads.skip(1),
            answers,
        )
    }
}

/// Two connections that differ at most in what they have counted in this read.
pub open spec fn same_but_counts(c: ConnectionView, d: ConnectionView) -> bool {
    d == ConnectionView { data_len: d.data_len, stream_data_lens: d.stream_data_lens, ..c }
}

/// What is counted in the second state and was not in the first.
pub open spec fn newly_counted(before: ConnectionView, after: ConnectionView) -> Seq<(u32, usize)> {
    after.stream_data_lens.skip(before.stream_data_lens.len() as int)
}

/// Whether a connection has counted these frames on top of what it had.
pub open spec fn counts(
    before: ConnectionView,
    after: ConnectionView,
    lens: Seq<(u32, usize)>,
) -> bool {
    &&& after.stream_data_lens == before.stream_data_lens + lens
    &&& after.data_len == before.data_len + connection_laws::total(lens)
}

proof fn lemma_total_concat(a: Seq<(u32, usize)>, b: Seq<(u32, usize)>)
    ensures
        connection_laws::total(a + b) == connection_laws::total(a) + connection_laws::total(b),
    decreases b.len(),
{
    if b.len() == 0 {
        assert(a + b =~= a);
    } else {
        assert((a + b).drop_last() =~= a + b.drop_last());
        lemma_total_concat(a, b.drop_last());
    }
}

/// A complete DATA frame is counted, whatever was counted before.
proof fn lemma_data_end_alike(
    c: ConnectionView,
    d: ConnectionView,
    stream_id: u32,
    flags: http2::HeadFlags,
    len: usize,
)
    requires
        same_but_counts(c, d),
    ensures
        ({
            let o = connection_model::on_data_end(c, stream_id, flags, len);
            let p = connection_model::on_data_end(d, stream_id, flags, len);
            &&& o.1 == p.1
            &&& same_but_counts(o.0, p.0)
            &&& counts(c, o.0, seq![(stream_id, len)])
            &&& counts(d, p.0, seq![(stream_id, len)])
        }),
{
    let one = seq![(stream_id, len)];
    assert(one.drop_last() =~= Seq::empty());
    assert(connection_laws::total(one.drop_last()) == 0);
    assert(connection_laws::total(one) == len);
    assert(c.stream_data_lens.push((stream_id, len)) =~= c.stream_data_lens + one);
    assert(d.stream_data_lens.push((stream_id, len)) =~= d.stream_data_lens + one);
}

/// Nothing is counted.
proof fn lemma_counts_none(c: ConnectionView, after: ConnectionView)
    requires
        after.stream_data_lens == c.stream_data_lens,
        after.data_len == c.data_len,
    ensures
        counts(c, after, Seq::empty()),
{
    assert(c.stream_data_lens + Seq::<(u32, usize)>::empty() =~= c.stream_data_lens);
}

/// Whether two outcomes are the same but for the counts, and have counted the same.
pub open spec fn outcomes_alike(
    c: ConnectionView,
    d: ConnectionView,
    o: Outcome,
    p: Outcome,
) -> bool {
    &&& o.1 == p.1
    &&& same_but_counts(o.0, p.0)
    &&& counts(c, o.0, newly_counted(c, o.0))
    &&& counts(d, p.0, newly_counted(c, o.0))
}

proof fn lemma_alike(
    c: ConnectionView,
    d: ConnectionView,
    o: Outcome,
    p: Outcome,
    lens: Seq<(u32, usize)>,
)
    requires
        o.1 == p.1,
        same_but_counts(o.0, p.0),
        counts(c, o.0, lens),
        counts(d, p.0, lens),
    ensures
        outcomes_alike(c, d, o, p),
{
    assert((c.stream_data_lens + lens).skip(c.stream_data_lens.len() as int) =~= lens);
}

proof fn lemma_frame_alike(
    c: ConnectionView,
    d: ConnectionView,
    kind: http2::FrameKind,
    flags: http2::HeadFlags,
    stream_id: u32,
    payload: Seq<u8>,
)
    requires
        same_but_counts(c, d),
    ensures
        outcomes_alike(
            c,
            d,
            connection_model::on_frame(c, kind, flags, stream_id, payload),
            connection_model::on_frame(d, kind, flags, stream_id, payload),
        ),
{
    let o = connection_model::on_frame(c, kind, flags, stream_id, payload);
    let p = connection_model::on_frame(d, kind, flags, stream_id, payload);
    let rejected = connection_model::out_of_turn(c, kind, stream_id) is Some
        || connection_model::misplaced(kind, stream_id) is Some || http2::without_padding(
        flags,
        payload,
    ) is Err;
    if kind == http2::FrameKind::Data && !rejected {
        let data = http2::without_padding(flags, payload)->Ok_0;
        let streams = connection_model::with_data(c.streams, stream_id, data);
        let len = payload.len() as usize;
        lemma_data_end_alike(
            ConnectionView { streams, ..c },
            ConnectionView { streams, ..d },
            stream_id,
            flags,
            len,
        );
        lemma_alike(c, d, o, p, seq![(stream_id, len)]);
    } else {
        lemma_counts_none(c, o.0);
        lemma_counts_none(d, p.0);
        lemma_alike(c, d, o, p, Seq::empty());
    }
}

proof fn lemma_byte_alike(c: ConnectionView, d: ConnectionView, b: u8)
    requires
        same_but_counts(c, d),
    ensures
        outcomes_alike(c, d, connection_model::on_byte(c, b), connection_model::on_byte(d, b)),
{
    let o = connection_model::on_byte(c, b);
    let p = connection_model::on_byte(d, b);
    let c0 = connection_model::between_frames(c);
    let d0 = connection_model::between_frames(d);
    match c.parsing {
        Parsing::Header(h) => {
            let head = http2::FrameHeader::of_bytes(h.push(b));
            if h.len() >= 8 && head.len == 0 {
                lemma_frame_alike(
                    c0,
                    d0,
                    head.kind,
                    head.flags,
                    head.stream_id,
                    Seq::empty(),
                );
                assert(newly_counted(c0, o.0) == newly_counted(c, o.0));
            } else {
                lemma_counts_none(c, o.0);
                lemma_counts_none(d, p.0);
                lemma_alike(c, d, o, p, Seq::empty());
            }
        },
        Parsing::Payload { head, direct, read, control } => {
            if read + 1 < head.len {
                lemma_counts_none(c, o.0);
                lemma_counts_none(d, p.0);
                lemma_alike(c, d, o, p, Seq::empty());
            } else if direct {
                let streams = connection_model::with_data(c.streams, head.stream_id, seq![b]);
                lemma_data_end_alike(
                    ConnectionView { streams, ..c0 },
                    ConnectionView { streams, ..d0 },
                    head.stream_id,
                    head.flags,
                    head.len,
                );
                lemma_alike(c, d, o, p, seq![(head.stream_id, head.len)]);
            } else {
                lemma_frame_alike(
                    c0,
                    d0,
                    head.kind,
                    head.flags,
                    head.stream_id,
                    control + seq![b],
                );
                assert(newly_counted(c0, o.0) == newly_counted(c, o.0));
            }
        },
    }
}

/// Whether two sessions have come to the same, but for the counts of this read and what
/// was given back.
pub open spec fn alike(s: SessionView, t: SessionView) -> bool {
    &&& same_but_counts(s.state, t.state)
    &&& s.actions == t.actions
    &&& s.asked == t.asked
    &&& s.ended == t.ended
}

/// What was counted before makes no difference to what comes of the bytes, nor to what is
/// counted for them.
pub proof fn law_counts_aside(
    s: SessionView,
    t: SessionView,
    bytes: Seq<u8>,
    answers: spec_fn(nat) -> Answer,
)
    requires
        alike(s, t),
    ensures
        alike(session(s, bytes, answers), session(t, bytes, answers)),
        session(s, bytes, answers).updates == s.updates,
        session(t, bytes, answers).updates == t.updates,
        counts(
            s.state,
            session(s, bytes, answers).state,
            newly_counted(s.state, session(s, bytes, answers).state),
        ),
        counts(
            t.state,
            session(t, bytes, answers).state,
            newly_counted(s.state, session(s, bytes, answers).state),
        ),
    decreases bytes.len(),
{
    if s.ended is Some || bytes.len() == 0 {
        lemma_counts_none(s.state, s.state);
        lemma_counts_none(t.state, t.state);
        assert(newly_counted(s.state, s.state) =~= Seq::empty());
    } else {
        lemma_byte_alike(s.state, t.state, bytes[0]);
        let o = connection_model::on_byte(s.state, bytes[0]);
        let p = connection_model::on_byte(t.state, bytes[0]);
        let s1 = acted(s, o, answers);
        let t1 = acted(t, p, answers);
        assert(s1.state.stream_data_lens == o.0.stream_data_lens);
        assert(t1.state.stream_data_lens == p.0.stream_data_lens);
        assert(s1.state.data_len == o.0.data_len && t1.state.data_len == p.0.data_len);
        law_counts_aside(s1, t1, bytes.skip(1), answers);
        let s2 = session(s1, bytes.skip(1), answers).state;
        let t2 = session(t1, bytes.skip(1), answers).state;
        let x = newly_counted(s.state, o.0);
        let y = newly_counted(s1.state, s2);
        lemma_total_concat(x, y);
        assert(s.state.stream_data_lens + x + y =~= s.state.stream_data_lens + (x + y));
        assert(t.state.stream_data_lens + x + y =~= t.state.stream_data_lens + (x + y));
        assert(newly_counted(s.state, s2) =~= x + y);
    }
}

/// What a list has for one stream.
pub open spec fn total_for(lens: Seq<(u32, usize)>, id: u32) -> nat
    decreases lens.len(),
{
    if lens.len() == 0 {
        0
    } else {
        total_for(lens.drop_last(), id) + if lens.last().0 == id {
            lens.last().1 as nat
        } else {
            0
        }
    }
}

proof fn lemma_total_for_concat(a: Seq<(u32, usize)>, b: Seq<(u32, usize)>, id: u32)
    ensures
        total_for(a + b, id) == total_for(a, id) + total_for(b, id),
    decreases b.len(),
{
    if b.len() == 0 {
        assert(a + b =~= a);
    } else {
        assert((a + b).drop_last() =~= a + b.drop_last());
        lemma_total_for_concat(a, b.drop_last(), id);
    }
}

proof fn lemma_total_for_small(lens: Seq<(u32, usize)>, id: u32)
    ensures
        total_for(lens, id) <= connection_laws::total(lens),
    decreases lens.len(),
{
    if lens.len() > 0 {
        lemma_total_for_small(lens.drop_last(), id);
    }
}

/// The reads, one by one, come to what their bytes come to at once; and what is given back
/// over the reads, for any one stream and in all, is what is counted for the bytes.
pub proof fn law_reads_as_one(
    s: SessionView,
    t: SessionView,
    reads: Seq<Seq<u8>>,
    answers: spec_fn(nat) -> Answer,
    id: u32,
)
    requires
        alike(s, t),
    ensures
        ({
            let whole = session(s, request_laws::joined(reads), answers);
            let cut = after_reads(t, reads, answers);
            &&& alike(whole, cut)
            &&& whole.ended is None ==> {
                &&& total_for(cut.updates, id) - total_for(t.updates, id) == total_for(
                    whole.state.stream_data_lens,
                    id,
                ) - total_for(s.state.stream_data_lens, id)
                &&& connection_laws::total(cut.updates) - connection_laws::total(t.updates)
                    == connection_laws::total(whole.state.stream_data_lens)
                    - connection_laws::total(s.state.stream_data_lens)
            }
        }),
    decreases reads.len(),
{
    if s.ended is None && reads.len() > 0 {
        let r = reads[0];
        let rest = reads.skip(1);
        let begun = read_begun(t);
        law_counts_aside(s, begun, r, answers);
        law_session_goes_on(s, r, request_laws::joined(rest), answers);
        let s1 = session(s, r, answers);
        let t1 = session(begun, r, answers);
        let t2 = read_ended(t1);
        law_reads_as_one(s1, t2, rest, answers, id);
        let x = newly_counted(s.state, s1.state);
        assert(Seq::<(u32, usize)>::empty() + x =~= x);
        if s1.ended is None {
            lemma_total_for_small(x, id);
            lemma_total_for_concat(s.state.stream_data_lens, x, id);
            lemma_total_concat(s.state.stream_data_lens, x);
            lemma_total_for_concat(t.updates, given_back(t1.state), id);
            lemma_total_concat(t.updates, given_back(t1.state));
        }
    }
}

/// A connection at its start.
pub open spec fn started(max_streams: usize) -> SessionView {
    SessionView {
        state: connection_model::fresh(max_streams),
        actions: Seq::empty(),
        asked: 0,
        ended: None,
        updates: Seq::empty(),
    }
}

/// However the bytes of a connection are cut into reads, it asks for the same in the same
/// order and ends in the same way. If it does not end, the client gets the same room back,
/// for each stream and in all.
pub proof fn law_reads_make_no_difference(
    max_streams: usize,
    a: Seq<Seq<u8>>,
    b: Seq<Seq<u8>>,
    answers: spec_fn(nat) -> Answer,
    id: u32,
)
    requires
        request_laws::joined(a) == request_laws::joined(b),
    ensures
        ({
            let x = after_reads(started(max_streams), a, answers);
            let y = after_reads(started(max_streams), b, answers);
            &&& x.actions == y.actions
            &&& x.ended == y.ended
            &&& x.ended is None ==> total_for(x.updates, id) == total_for(y.updates, id)
            &&& x.ended is None ==> connection_laws::total(x.updates) == connection_laws::total(
                y.updates,
            )
        }),
{
    let s = started(max_streams);
    law_reads_as_one(s, s, a, answers, id);
    law_reads_as_one(s, s, b, answers, id);
}

/// Over a whole connection the routes that are cached stay where they are.
pub proof fn law_session_keeps_routes(
    s: SessionView,
    bytes: Seq<u8>,
    answers: spec_fn(nat) -> Answer,
)
    ensures
        s.state.route_cache.is_prefix_of(session(s, bytes, answers).state.route_cache),
    decreases bytes.len(),
{
    if s.ended is None && bytes.len() > 0 {
        let o = connection_model::on_byte(s.state, bytes[0]);
        let a = answers(s.asked);
        let next = acted(s, o, answers);
        assert(o.0.route_cache == s.state.route_cache);
        route::law_cache_grows(o.0.route_cache, a.path, a.route);
        law_session_keeps_routes(next, bytes.skip(1), answers);
        let end = session(s, bytes, answers).state.route_cache;
        let was = s.state.route_cache;
        let now = next.state.route_cache;
        assert(was.is_prefix_of(now));
        assert(end.subrange(0, was.len() as int) =~= was) by {
            assert forall|i: int| 0 <= i < was.len() implies end[i] == was[i] by {
                assert(now[i] == now.subrange(0, was.len() as int)[i]);
                assert(end[i] == end.subrange(0, now.len() as int)[i]);
            }
        }
    }
}

} // verus!
