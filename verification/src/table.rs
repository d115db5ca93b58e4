//! The session table: one session per flow key, advanced segment by segment,
//! closed by the timeout sweep and emptied of terminal sessions by the
//! retention sweep.
//!
//! Every mutating operation is pinned to a functional description of the
//! whole table, so that the sweep and ingestion laws can be stated and
//! proved over those descriptions.

use vstd::prelude::*;
use crate::segment::{SegmentView, TcpSegment, TcpSessionKey};
use crate::session::{
    session_created, session_swept, session_touched, SessionView, TcpSession,
};
use crate::state_machine::{is_closed_state, spec_next_state, TcpSessionState};
use crate::tags::Tag;
use crate::registry::SegmentRegistry;
use crate::clock::current_time_millis;

verus! {

/// The default idle threshold of the timeout sweep, in seconds. It is a
/// default, not a fixture: the sweep takes the threshold as a parameter.
pub const SESSION_TIMEOUT: i64 = 60;

/// Every key occurs at most once and every session satisfies its own
/// invariant.
pub open spec fn table_wf(t: Seq<(TcpSessionKey, SessionView)>) -> bool {
    &&& forall|i: int, j: int| 0 <= i < j < t.len() ==> t[i].0 != t[j].0
    &&& forall|i: int| 0 <= i < t.len() ==> (#[trigger] t[i]).1.wf()
}

/// Whether the table holds a session for `key`.
pub open spec fn table_contains(t: Seq<(TcpSessionKey, SessionView)>, key: TcpSessionKey) -> bool {
    exists|i: int| 0 <= i < t.len() && t[i].0 == key
}

/// The position of the session for `key` (meaningful only when present; under
/// `table_wf` it is unique).
pub open spec fn table_index_of(t: Seq<(TcpSessionKey, SessionView)>, key: TcpSessionKey) -> int {
    choose|i: int| 0 <= i < t.len() && t[i].0 == key
}

/// The session stored for `key` (meaningful only when present).
pub open spec fn table_session(
    t: Seq<(TcpSessionKey, SessionView)>,
    key: TcpSessionKey,
) -> SessionView {
    t[table_index_of(t, key)].1
}

/// The table after one observed segment: a present session is advanced by
/// `session_touched`; an absent key gains a session exactly when the state
/// machine classifies the segment, seen without a prior session, as
/// `SynSent`; any other segment for an absent key leaves the table as it
/// was.
pub open spec fn table_after_segment(
    t: Seq<(TcpSessionKey, SessionView)>,
    g: SegmentView,
) -> Seq<(TcpSessionKey, SessionView)> {
    if table_contains(t, g.session_key) {
        let i = table_index_of(t, g.session_key);
        t.update(i, (g.session_key, session_touched(t[i].1, g)))
    } else if spec_next_state(g.flags, None) == TcpSessionState::SynSent {
        t.push((g.session_key, session_created(g)))
    } else {
        t
    }
}

/// The table after the timeout sweep has run at time `now`: every session is
/// looked at, idle ones move to `ClosedTimeout`, the rest stay as they are.
pub open spec fn table_swept(
    t: Seq<(TcpSessionKey, SessionView)>,
    now_millis: i64,
    idle_millis: i64,
) -> Seq<(TcpSessionKey, SessionView)> {
    t.map_values(
        |e: (TcpSessionKey, SessionView)| (e.0, session_swept(e.1, now_millis, idle_millis)),
    )
}

/// The table after the retention sweep: exactly the sessions whose state is
/// not one of the three closed states, in their original order.
pub open spec fn table_retained(
    t: Seq<(TcpSessionKey, SessionView)>,
) -> Seq<(TcpSessionKey, SessionView)>
    decreases t.len(),
{
    if t.len() == 0 {
        Seq::empty()
    } else {
        let rest = table_retained(t.drop_last());
        if is_closed_state(t.last().1.state) {
            rest
        } else {
            rest.push(t.last())
        }
    }
}

/// The store of all in-flight sessions. Concurrent callers are expected to
/// serialize access behind one lock covering the whole table; the table
/// itself is a plain value.
pub struct TcpTable {
    pub sessions: Vec<(TcpSessionKey, TcpSession)>,
}

impl View for TcpTable {
    type V = Seq<(TcpSessionKey, SessionView)>;

    open spec fn view(&self) -> Seq<(TcpSessionKey, SessionView)> {
        self.sessions@.map_values(|e: (TcpSessionKey, TcpSession)| (e.0, e.1@))
    }
}

impl TcpTable {
    pub open spec fn wf(self) -> bool {
        table_wf(self@)
    }

    /// An empty table.
    pub fn new() -> (r: Self)
        ensures
            r@ == Seq::<(TcpSessionKey, SessionView)>::empty(),
            r.wf(),
    {
        let r = TcpTable { sessions: Vec::new() };
        proof {
            assert(r@ =~= Seq::<(TcpSessionKey, SessionView)>::empty());
        }
        r
    }

    /// Number of sessions currently tracked.
    pub fn len(&self) -> (n: usize)
        ensures
            n == self@.len(),
    {
        self.sessions.len()
    }

    /// The position of the session for `key`, if one is tracked.
    fn find_index(&self, key: &TcpSessionKey) -> (r: Option<usize>)
        ensures
            match r {
                Some(i) => i < self@.len() && self@[i as int].0 == *key,
                None => !table_contains(self@, *key),
            },
    {
        let mut i: usize = 0;
        while i < self.sessions.len()
            invariant
                i <= self.sessions.len(),
                forall|k: int| 0 <= k < i ==> self@[k].0 != *key,
            decreases self.sessions.len() - i,
        {
            if self.sessions[i].0 == *key {
                proof {
                    assert(self@[i as int].0 == *key);
                }
                return Some(i);
            }
            i = i + 1;
        }
        None
    }

    /// Read access to the session tracked for `key`, for diagnostics and
    /// tests.
    pub fn get_session(&self, key: &TcpSessionKey) -> (r: Option<&TcpSession>)
        requires
            self.wf(),
        ensures
            match r {
                Some(s) => table_contains(self@, *key) && s@ == table_session(self@, *key),
                None => !table_contains(self@, *key),
            },
    {
        match self.find_index(key) {
            Some(i) => {
                let s = &self.sessions[i].1;
                proof {
                    let j = table_index_of(self@, *key);
                    assert(self@[i as int].0 == *key);
                    assert(j == i as int);
                }
                Some(s)
            },
            None => None,
        }
    }

    /// The state machine step: the next state for a segment, given the
    /// session the table currently holds for its key, if any.
    pub fn determine_session_state(segment: &TcpSegment, session: Option<&TcpSession>) -> (r:
        TcpSessionState)
        ensures
            r == spec_next_state(
                segment.flags,
                match session {
                    Some(s) => Some(s@.state),
                    None => None,
                },
            ),
    {
        crate::state_machine::next_state(
            segment.flags,
            match session {
                Some(s) => Some(s.state),
                None => None,
            },
        )
    }

    /// Ingest one observed segment, exactly as `table_after_segment`
    /// describes: advance the session tracked for its key, or create one when
    /// the segment is a flow-opening bare SYN; any other segment for an
    /// unknown key is observed but not recorded. No segment content is ever
    /// an error.
    pub fn register_segment(&mut self, segment: &TcpSegment)
        requires
            old(self).wf(),
            table_contains(old(self)@, segment.session_key) ==> table_session(
                old(self)@,
                segment.session_key,
            ).segment_count + 1 <= u64::MAX,
            table_contains(old(self)@, segment.session_key) ==> table_session(
                old(self)@,
                segment.session_key,
            ).bytes_count + segment.size <= u64::MAX,
        ensures
            final(self).wf(),
            final(self)@ == table_after_segment(old(self)@, segment@),
    {
        let ghost orig = self@;
        match self.find_index(&segment.session_key) {
            Some(i) => {
                proof {
                    let j = table_index_of(orig, segment.session_key);
                    assert(orig[i as int].0 == segment.session_key);
                    assert(j == i as int);
                    assert(orig[i as int] == (
                        self.sessions@[i as int].0,
                        self.sessions@[i as int].1@,
                    ));
                }
                let (key, mut session) = self.sessions.remove(i);
                session.apply_segment(segment);
                self.sessions.insert(i, (key, session));
                proof {
                    let updated = (segment.session_key, session_touched(orig[i as int].1, segment@));
                    assert(self@ =~= orig.update(i as int, updated));
                    assert(forall|k: int|
                        0 <= k < self@.len() && k != i ==> self@[k] == orig[k]);
                }
            },
            None => {
                let state = TcpTable::determine_session_state(segment, None);
                if state == TcpSessionState::SynSent {
                    // First segment of a new flow: record it. Flows first
                    // observed mid-stream are deliberately never tracked.
                    let session = TcpSession {
                        state,
                        source_address: segment.source_address,
                        source_port: segment.source_port,
                        destination_address: segment.destination_address,
                        destination_port: segment.destination_port,
                        start_time: segment.timestamp,
                        end_time: None,
                        most_recent_segment_time: segment.timestamp,
                        segment_count: 1,
                        bytes_count: segment.size as u64,
                        segments_client_to_server: SegmentRegistry::new(),
                        segments_server_to_client: SegmentRegistry::new(),
                        tags: None,
                    };
                    self.sessions.push((segment.session_key, session));
                    proof {
                        assert(session@ == session_created(segment@));
                        assert(self@ =~= orig.push((segment.session_key, session_created(segment@))));
                    }
                }
            },
        }
    }

    /// Attach the tagging collaborator's verdict to the session tracked for
    /// `key`: its `tags` are replaced, everything else — other fields, other
    /// sessions, the order — is untouched. Returns whether a session for
    /// `key` was found.
    pub fn set_session_tags(&mut self, key: &TcpSessionKey, tags: Vec<Tag>) -> (r: bool)
        requires
            old(self).wf(),
        ensures
            final(self).wf(),
            r == table_contains(old(self)@, *key),
            r ==> final(self)@ == old(self)@.update(
                table_index_of(old(self)@, *key),
                (
                    *key,
                    (SessionView { tags: Some(tags@), ..table_session(old(self)@, *key) }),
                ),
            ),
            !r ==> final(self)@ == old(self)@,
    {
        let ghost orig = self@;
        match self.find_index(key) {
            Some(i) => {
                proof {
                    let j = table_index_of(orig, *key);
                    assert(orig[i as int].0 == *key);
                    assert(j == i as int);
                }
                let (k, mut session) = self.sessions.remove(i);
                session.tags = Some(tags);
                self.sessions.insert(i, (k, session));
                proof {
                    assert(self@ =~= orig.update(
                        i as int,
                        (*key, (SessionView { tags: Some(tags@), ..orig[i as int].1 })),
                    ));
                }
                true
            },
            None => false,
        }
    }
}

/// The timeout sweep at a given clock reading: every session whose last
/// segment is older than the idle threshold — relative to `now_millis` — is
/// moved to `ClosedTimeout`; all other sessions, and every other field of
/// the swept ones, stay untouched. The sweep never sets `end_time`.
pub fn timeout_sweep_at(sessions: &mut TcpTable, now_millis: i64, idle_millis: i64)
    requires
        old(sessions).wf(),
    ensures
        final(sessions).wf(),
        final(sessions)@ == table_swept(old(sessions)@, now_millis, idle_millis),
{
    let ghost orig = sessions@;
    let mut i: usize = 0;
    while i < sessions.sessions.len()
        invariant
            i <= sessions.sessions.len(),
            sessions@.len() == orig.len(),
            forall|k: int| 0 <= k < i ==> sessions@[k] == (
                orig[k].0,
                session_swept(orig[k].1, now_millis, idle_millis),
            ),
            forall|k: int| i <= k < orig.len() ==> sessions@[k] == orig[k],
        decreases sessions.sessions.len() - i,
    {
        proof {
            assert(sessions@[i as int] == (
                sessions.sessions@[i as int].0,
                sessions.sessions@[i as int].1@,
            ));
        }
        let recent = sessions.sessions[i].1.most_recent_segment_time;
        let elapsed: i128 = (now_millis as i128) - (recent as i128);
        if elapsed > (idle_millis as i128) {
            let ghost pre = sessions@;
            let (k, mut session) = sessions.sessions.remove(i);
            session.state = TcpSessionState::ClosedTimeout;
            sessions.sessions.insert(i, (k, session));
            proof {
                assert(sessions@ =~= pre.update(i as int, (k, session@)));
                assert((k, session@) == (
                    orig[i as int].0,
                    session_swept(orig[i as int].1, now_millis, idle_millis),
                ));
            }
        } else {
            proof {
                assert(session_swept(orig[i as int].1, now_millis, idle_millis) == orig[
                    i as int
                ].1);
            }
        }
        i = i + 1;
    }
    proof {
        assert(sessions@ =~= table_swept(orig, now_millis, idle_millis));
    }
}

/// The timeout sweep against the system clock: as `timeout_sweep_at`, for
/// the clock reading the call observed.
pub fn timeout_sweep(sessions: &mut TcpTable, idle_millis: i64)
    requires
        old(sessions).wf(),
    ensures
        final(sessions).wf(),
        exists|now_millis: i64|
            final(sessions)@ == #[trigger] table_swept(old(sessions)@, now_millis, idle_millis),
{
    let now = current_time_millis();
    timeout_sweep_at(sessions, now, idle_millis);
}

/// Every entry the retention sweep keeps is an entry of the original table.
pub proof fn lemma_table_retained_membership(t: Seq<(TcpSessionKey, SessionView)>)
    ensures
        forall|k: int|
            0 <= k < table_retained(t).len() ==> t.contains(#[trigger] table_retained(t)[k]),
    decreases t.len(),
{
    if t.len() > 0 {
        let rest = t.drop_last();
        lemma_table_retained_membership(rest);
        assert forall|k: int|
            0 <= k < table_retained(t).len() implies t.contains(
            #[trigger] table_retained(t)[k],
        ) by {
            if k < table_retained(rest).len() {
                let i = choose|i: int| 0 <= i < rest.len() && rest[i] == table_retained(rest)[k];
                assert(t[i] == table_retained(t)[k]);
            } else {
                assert(t[t.len() - 1] == table_retained(t)[k]);
            }
        }
    }
}

/// The retention sweep preserves the table invariant: the kept entries are a
/// subsequence of a table with unique keys and well-formed sessions.
pub proof fn lemma_table_retained_wf(t: Seq<(TcpSessionKey, SessionView)>)
    requires
        table_wf(t),
    ensures
        table_wf(table_retained(t)),
    decreases t.len(),
{
    if t.len() > 0 {
        let rest = t.drop_last();
        assert(table_wf(rest)) by {
            assert(forall|i: int| 0 <= i < rest.len() ==> #[trigger] rest[i] == t[i]);
        }
        lemma_table_retained_wf(rest);
        lemma_table_retained_membership(rest);
        if !is_closed_state(t.last().1.state) {
            let kept = table_retained(rest);
            assert forall|k: int| 0 <= k < kept.len() implies kept[k].0 != t.last().0 by {
                let i = choose|i: int| 0 <= i < rest.len() && rest[i] == kept[k];
                assert(t[i] == kept[k]);
            }
            assert forall|i: int, j: int|
                0 <= i < j < table_retained(t).len() implies table_retained(t)[i].0
                != table_retained(t)[j].0 by {
                if j < kept.len() {
                    assert(table_retained(t)[i] == kept[i] && table_retained(t)[j] == kept[j]);
                } else {
                    assert(table_retained(t)[i] == kept[i]);
                    assert(table_retained(t)[j] == t.last());
                }
            }
        }
    }
}

/// The retention sweep: remove every session whose state is one of the
/// closed states (`ClosedTimeout`, `ClosedRst`, `ClosedFin`); every other
/// session is retained, in order, for the next cycle.
pub fn retention_sweep(sessions: &mut TcpTable)
    requires
        old(sessions).wf(),
    ensures
        final(sessions).wf(),
        final(sessions)@ == table_retained(old(sessions)@),
{
    let ghost orig = sessions@;
    let mut kept: Vec<(TcpSessionKey, TcpSession)> = Vec::new();
    proof {
        assert(kept@.map_values(|e: (TcpSessionKey, TcpSession)| (e.0, e.1@)) =~= table_retained(
            orig.subrange(0, 0),
        ));
    }
    while sessions.sessions.len() > 0
        invariant
            sessions@.len() <= orig.len(),
            sessions@ == orig.subrange(orig.len() - sessions@.len(), orig.len() as int),
            kept@.map_values(|e: (TcpSessionKey, TcpSession)| (e.0, e.1@)) == table_retained(
                orig.subrange(0, orig.len() - sessions@.len()),
            ),
        decreases sessions.sessions.len(),
    {
        let ghost p = orig.len() - sessions@.len();
        proof {
            assert(sessions@[0] == orig[p]);
            assert(orig[p] == (sessions.sessions@[0].0, sessions.sessions@[0].1@));
        }
        let ghost pre_vec = sessions.sessions@;
        let ghost pre_map = sessions@;
        let (key, session) = sessions.sessions.remove(0);
        proof {
            pre_vec.remove_ensures(0);
            assert forall|k: int|
                0 <= k < sessions@.len() implies sessions@[k] == orig[p + 1 + k] by {
                assert(sessions.sessions@[k] == pre_vec[k + 1]);
                assert(sessions@[k] == (sessions.sessions@[k].0, sessions.sessions@[k].1@));
                assert(pre_map[k + 1] == (pre_vec[k + 1].0, pre_vec[k + 1].1@));
                assert(pre_map[k + 1] == orig.subrange(p, orig.len() as int)[k + 1]);
            }
            assert(sessions@ =~= orig.subrange(p + 1, orig.len() as int));
            assert(orig.subrange(0, p + 1).drop_last() =~= orig.subrange(0, p));
            assert(orig.subrange(0, p + 1).last() == orig[p]);
        }
        let closed = session.state.is_closed();
        if !closed {
            let ghost before = kept@.map_values(|e: (TcpSessionKey, TcpSession)| (e.0, e.1@));
            kept.push((key, session));
            proof {
                assert(kept@.map_values(|e: (TcpSessionKey, TcpSession)| (e.0, e.1@)) =~= before
                    .push((orig[p].0, orig[p].1)));
            }
        }
    }
    proof {
        assert(orig.subrange(0, orig.len() as int) =~= orig);
        lemma_table_retained_wf(orig);
    }
    sessions.sessions = kept;
}

} // verus!
