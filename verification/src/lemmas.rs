//! The laws of the tracker, stated over the functional descriptions that the
//! executable operations are pinned to: what one segment does to the table,
//! what whole segment runs can and cannot do, and how the sweeps behave.

use vstd::prelude::*;
use crate::registry::lemma_reg_insert_effect;
use crate::segment::{SegmentView, TcpSessionKey};
use crate::session::{
    session_created, session_swept, session_touched, SessionView,
};
use crate::state_machine::{
    is_closed_state, lemma_closed_state_is_sticky, spec_next_state, SegmentFlags, TcpSessionState,
};
use crate::table::{
    table_after_segment, table_contains, table_index_of, table_session, table_swept, table_wf,
};

verus! {

/// Under the table invariant the position of a present key is unique.
pub proof fn lemma_table_index(t: Seq<(TcpSessionKey, SessionView)>, key: TcpSessionKey)
    requires
        table_wf(t),
        table_contains(t, key),
    ensures
        0 <= table_index_of(t, key) < t.len(),
        t[table_index_of(t, key)].0 == key,
        forall|j: int| 0 <= j < t.len() && t[j].0 == key ==> j == table_index_of(t, key),
{
    let i = table_index_of(t, key);
    assert(0 <= i < t.len() && t[i].0 == key);
    assert forall|j: int| 0 <= j < t.len() && t[j].0 == key implies j == i by {
        if j < i {
            assert(t[j].0 != t[i].0);
        } else if i < j {
            assert(t[i].0 != t[j].0);
        }
    }
}

/// One further segment keeps a session well formed.
pub proof fn lemma_session_touched_wf(s: SessionView, g: SegmentView)
    requires
        s.wf(),
    ensures
        session_touched(s, g).wf(),
{
    lemma_reg_insert_effect(s.segments_client_to_server, g.sequence_number, g.payload);
    lemma_reg_insert_effect(s.segments_server_to_client, g.sequence_number, g.payload);
}

/// Everything one observed segment does to the table: the invariant is kept;
/// a key becomes present exactly when it was present before or the segment
/// is a flow-opening bare SYN for it; the segment's own session is advanced
/// by `session_touched` (or born as `session_created`); every other session
/// is untouched.
pub proof fn lemma_table_after_segment_effect(t: Seq<(TcpSessionKey, SessionView)>, g: SegmentView)
    requires
        table_wf(t),
    ensures
        table_wf(table_after_segment(t, g)),
        forall|k: TcpSessionKey|
            table_contains(table_after_segment(t, g), k) <==> (table_contains(t, k) || (k
                == g.session_key && g.flags.syn && !g.flags.ack)),
        table_contains(t, g.session_key) ==> table_session(table_after_segment(t, g), g.session_key)
            == session_touched(table_session(t, g.session_key), g),
        (!table_contains(t, g.session_key) && g.flags.syn && !g.flags.ack) ==> table_session(
            table_after_segment(t, g),
            g.session_key,
        ) == session_created(g),
        forall|k: TcpSessionKey|
            table_contains(t, k) && k != g.session_key ==> table_session(
                table_after_segment(t, g),
                k,
            ) == table_session(t, k),
{
    let after = table_after_segment(t, g);
    assert((spec_next_state(g.flags, None) == TcpSessionState::SynSent) == (g.flags.syn
        && !g.flags.ack));
    if table_contains(t, g.session_key) {
        lemma_table_index(t, g.session_key);
        let i = table_index_of(t, g.session_key);
        lemma_session_touched_wf(t[i].1, g);
        assert(table_wf(after)) by {
            assert(forall|j: int| 0 <= j < t.len() && j != i ==> after[j] == t[j]);
            assert(after[i].0 == t[i].0);
        }
        assert forall|k: TcpSessionKey|
            table_contains(after, k) <==> (table_contains(t, k) || (k == g.session_key
                && g.flags.syn && !g.flags.ack)) by {
            if table_contains(after, k) {
                let j = choose|j: int| 0 <= j < after.len() && after[j].0 == k;
                assert(t[j].0 == k);
            }
            if table_contains(t, k) {
                let j = choose|j: int| 0 <= j < t.len() && t[j].0 == k;
                assert(after[j].0 == k);
            }
        }
        lemma_table_index(after, g.session_key);
        assert(after[i].0 == g.session_key);
        assert(table_session(after, g.session_key) == session_touched(
            table_session(t, g.session_key),
            g,
        ));
        assert forall|k: TcpSessionKey|
            table_contains(t, k) && k != g.session_key implies table_session(after, k)
            == table_session(t, k) by {
            lemma_table_index(t, k);
            let j = table_index_of(t, k);
            assert(j != i);
            assert(after[j] == t[j]);
            lemma_table_index(after, k);
        }
    } else if g.flags.syn && !g.flags.ack {
        // A new session is appended at the end.
        let entry = (g.session_key, session_created(g));
        assert(after == t.push(entry));
        assert(table_wf(after)) by {
            assert(forall|j: int| 0 <= j < t.len() ==> after[j] == t[j]);
            assert(after[t.len() as int] == entry);
            assert(forall|j: int|
                0 <= j < t.len() ==> (#[trigger] after[j]).0 != g.session_key);
        }
        assert forall|k: TcpSessionKey|
            table_contains(after, k) <==> (table_contains(t, k) || k == g.session_key) by {
            if table_contains(after, k) {
                let j = choose|j: int| 0 <= j < after.len() && after[j].0 == k;
                if j < t.len() {
                    assert(t[j].0 == k);
                }
            }
            if table_contains(t, k) {
                let j = choose|j: int| 0 <= j < t.len() && t[j].0 == k;
                assert(after[j].0 == k);
            }
            assert(after[t.len() as int].0 == g.session_key);
        }
        lemma_table_index(after, g.session_key);
        assert(table_session(after, g.session_key) == session_created(g));
        assert forall|k: TcpSessionKey|
            table_contains(t, k) && k != g.session_key implies table_session(after, k)
            == table_session(t, k) by {
            lemma_table_index(t, k);
            let j = table_index_of(t, k);
            assert(after[j] == t[j]);
            lemma_table_index(after, k);
        }
    }
}

/// A whole observed segment run folded into the table, in arrival order.
pub open spec fn table_after_segments(
    t: Seq<(TcpSessionKey, SessionView)>,
    segs: Seq<SegmentView>,
) -> Seq<(TcpSessionKey, SessionView)>
    decreases segs.len(),
{
    if segs.len() == 0 {
        t
    } else {
        table_after_segment(table_after_segments(t, segs.drop_last()), segs.last())
    }
}

/// A segment run keeps the table invariant and never removes a session.
pub proof fn lemma_table_after_segments_wf(
    t: Seq<(TcpSessionKey, SessionView)>,
    segs: Seq<SegmentView>,
)
    requires
        table_wf(t),
    ensures
        table_wf(table_after_segments(t, segs)),
        forall|k: TcpSessionKey|
            table_contains(t, k) ==> table_contains(table_after_segments(t, segs), k),
    decreases segs.len(),
{
    if segs.len() > 0 {
        lemma_table_after_segments_wf(t, segs.drop_last());
        lemma_table_after_segment_effect(table_after_segments(t, segs.drop_last()), segs.last());
    }
}

/// Once a session's state is one of the closed states, no segment run of any
/// length and content changes its state again.
pub proof fn lemma_closed_is_sticky_under_segments(
    t: Seq<(TcpSessionKey, SessionView)>,
    segs: Seq<SegmentView>,
    key: TcpSessionKey,
)
    requires
        table_wf(t),
        table_contains(t, key),
        is_closed_state(table_session(t, key).state),
    ensures
        table_contains(table_after_segments(t, segs), key),
        table_session(table_after_segments(t, segs), key).state == table_session(t, key).state,
    decreases segs.len(),
{
    if segs.len() > 0 {
        let u = table_after_segments(t, segs.drop_last());
        let g = segs.last();
        lemma_closed_is_sticky_under_segments(t, segs.drop_last(), key);
        lemma_table_after_segments_wf(t, segs.drop_last());
        lemma_table_after_segment_effect(u, g);
        if g.session_key == key {
            lemma_closed_state_is_sticky(g.flags, table_session(u, key).state);
        }
    }
}

/// A session's `end_time`, once set, is never written again by any segment
/// run.
pub proof fn lemma_end_time_stable_under_segments(
    t: Seq<(TcpSessionKey, SessionView)>,
    segs: Seq<SegmentView>,
    key: TcpSessionKey,
)
    requires
        table_wf(t),
        table_contains(t, key),
        table_session(t, key).end_time is Some,
    ensures
        table_contains(table_after_segments(t, segs), key),
        table_session(table_after_segments(t, segs), key).end_time == table_session(
            t,
            key,
        ).end_time,
    decreases segs.len(),
{
    if segs.len() > 0 {
        let u = table_after_segments(t, segs.drop_last());
        let g = segs.last();
        lemma_end_time_stable_under_segments(t, segs.drop_last(), key);
        lemma_table_after_segments_wf(t, segs.drop_last());
        lemma_table_after_segment_effect(u, g);
    }
}

/// A session is created exactly for a first segment with SYN set and ACK
/// clear; any other first segment for an unknown key leaves the table
/// without an entry for that key, and a qualifying one stores precisely the
/// newborn `SynSent` session.
pub proof fn lemma_session_created_iff(t: Seq<(TcpSessionKey, SessionView)>, g: SegmentView)
    requires
        table_wf(t),
        !table_contains(t, g.session_key),
    ensures
        table_contains(table_after_segment(t, g), g.session_key) <==> (g.flags.syn
            && !g.flags.ack),
        (g.flags.syn && !g.flags.ack) ==> table_session(table_after_segment(t, g), g.session_key)
            == session_created(g),
{
    lemma_table_after_segment_effect(t, g);
}

/// A RST answering a flow's opening SYN refuses the session, whether or not
/// the RST also carries an ACK — its usual on-wire form. The one stated
/// exception is a segment that carries SYN+ACK, which outranks every other
/// rule.
pub proof fn lemma_rst_after_syn_refused(flags: SegmentFlags)
    requires
        flags.reset,
        !(flags.syn && flags.ack),
    ensures
        spec_next_state(flags, Some(TcpSessionState::SynSent)) == TcpSessionState::Refused,
{
}

/// A RST in any other live context closes the session as `ClosedRst` (and
/// keeps a session already at `ClosedRst` there). The two closed states that
/// are sticky by the first rule, the `SynSent` state that a RST refuses, and
/// a segment that also carries SYN+ACK are the stated exceptions.
pub proof fn lemma_rst_closes(flags: SegmentFlags, state: TcpSessionState)
    requires
        flags.reset,
        !(flags.syn && flags.ack),
        state != TcpSessionState::SynSent,
        state != TcpSessionState::ClosedFin,
        state != TcpSessionState::ClosedTimeout,
    ensures
        spec_next_state(flags, Some(state)) == TcpSessionState::ClosedRst,
{
}

/// The correctly ordered handshake drives a session through
/// `SynSent → SynReceived → Established`.
pub proof fn lemma_handshake_progression(
    syn: SegmentFlags,
    syn_ack: SegmentFlags,
    ack: SegmentFlags,
)
    requires
        syn.syn && !syn.ack,
        syn_ack.syn && syn_ack.ack,
        ack.ack && !ack.syn && !ack.reset,
    ensures
        spec_next_state(syn, None) == TcpSessionState::SynSent,
        spec_next_state(syn_ack, Some(TcpSessionState::SynSent)) == TcpSessionState::SynReceived,
        spec_next_state(ack, Some(TcpSessionState::SynReceived)) == TcpSessionState::Established,
{
}

/// The state a session is in after a run of segments, given only their
/// flags.
pub open spec fn run_states(s: TcpSessionState, fs: Seq<SegmentFlags>) -> TcpSessionState
    decreases fs.len(),
{
    if fs.len() == 0 {
        s
    } else {
        spec_next_state(fs.last(), Some(run_states(s, fs.drop_last())))
    }
}

/// An ordinary data segment: no SYN, no FIN, no RST.
pub open spec fn is_plain_data(f: SegmentFlags) -> bool {
    !f.syn && !f.fin && !f.reset
}

/// Arrival-order jitter of payload-bearing segments does not derail the
/// handshake: from any handshake state, a run made of data segments and
/// SYN/ACKs in any order ends `Established`, provided it ends on a data
/// segment (such as the handshake's final ACK).
pub proof fn lemma_handshake_tolerates_jitter(s: TcpSessionState, fs: Seq<SegmentFlags>)
    requires
        s == TcpSessionState::SynSent || s == TcpSessionState::SynReceived || s
            == TcpSessionState::Established,
        forall|i: int|
            0 <= i < fs.len() ==> is_plain_data(#[trigger] fs[i]) || (fs[i].syn && fs[i].ack),
        fs.len() > 0,
        is_plain_data(fs.last()),
    ensures
        run_states(s, fs) == TcpSessionState::Established,
    decreases fs.len(),
{
    let prev = run_states(s, fs.drop_last());
    assert(prev == TcpSessionState::SynSent || prev == TcpSessionState::SynReceived || prev
        == TcpSessionState::Established) by {
        lemma_handshake_states_stay(s, fs.drop_last());
    }
}

/// Helper for the jitter law: data segments and SYN/ACKs never leave the
/// three handshake states.
pub proof fn lemma_handshake_states_stay(s: TcpSessionState, fs: Seq<SegmentFlags>)
    requires
        s == TcpSessionState::SynSent || s == TcpSessionState::SynReceived || s
            == TcpSessionState::Established,
        forall|i: int|
            0 <= i < fs.len() ==> is_plain_data(#[trigger] fs[i]) || (fs[i].syn && fs[i].ack),
    ensures
        run_states(s, fs) == TcpSessionState::SynSent || run_states(s, fs)
            == TcpSessionState::SynReceived || run_states(s, fs) == TcpSessionState::Established,
    decreases fs.len(),
{
    if fs.len() > 0 {
        lemma_handshake_states_stay(s, fs.drop_last());
    }
}

/// The correctly ordered teardown drives a session through
/// `Established → FinWait1 → FinWait2 → ClosedFin`.
pub proof fn lemma_teardown_progression(fin: SegmentFlags, ack1: SegmentFlags, ack2: SegmentFlags)
    requires
        fin.fin && !fin.reset && !(fin.syn && fin.ack),
        ack1.ack && !ack1.syn && !ack1.reset,
        ack2.ack && !ack2.syn && !ack2.reset,
    ensures
        spec_next_state(fin, Some(TcpSessionState::Established)) == TcpSessionState::FinWait1,
        spec_next_state(ack1, Some(TcpSessionState::FinWait1)) == TcpSessionState::FinWait2,
        spec_next_state(ack2, Some(TcpSessionState::FinWait2)) == TcpSessionState::ClosedFin,
{
}

/// The segment that closes a session stamps its `end_time`: a session
/// without one, driven into `ClosedFin` or `ClosedRst`, carries that
/// segment's timestamp from then on.
pub proof fn lemma_end_time_set_on_close(s: SessionView, g: SegmentView)
    requires
        s.end_time is None,
        spec_next_state(g.flags, Some(s.state)) == TcpSessionState::ClosedFin || spec_next_state(
            g.flags,
            Some(s.state),
        ) == TcpSessionState::ClosedRst,
    ensures
        session_touched(s, g).end_time == Some(g.timestamp),
{
}

/// A set `end_time` is never overwritten by a later segment.
pub proof fn lemma_end_time_write_once(s: SessionView, g: SegmentView)
    requires
        s.end_time is Some,
    ensures
        session_touched(s, g).end_time == s.end_time,
{
}

/// Running the timeout sweep twice at one clock reading, with no segments in
/// between, is the same as running it once: the sweep does not move the
/// recency timestamps it judges by.
pub proof fn lemma_timeout_sweep_idempotent(
    t: Seq<(TcpSessionKey, SessionView)>,
    now_millis: i64,
    idle_millis: i64,
)
    ensures
        table_swept(table_swept(t, now_millis, idle_millis), now_millis, idle_millis)
            == table_swept(t, now_millis, idle_millis),
{
    let once = table_swept(t, now_millis, idle_millis);
    let twice = table_swept(once, now_millis, idle_millis);
    assert forall|i: int| 0 <= i < twice.len() implies twice[i] == once[i] by {
        assert(once[i] == (t[i].0, session_swept(t[i].1, now_millis, idle_millis)));
        assert(twice[i] == (once[i].0, session_swept(once[i].1, now_millis, idle_millis)));
    }
    assert(twice =~= once);
}

} // verus!
