//! The per-direction segment registry: payload bytes keyed by sequence
//! number, held in ascending sequence-number order.
//!
//! The only mutating operation is "insert if absent": a segment whose
//! sequence number is already present is a retransmission and is dropped, so
//! no stored payload is ever overwritten.

use vstd::prelude::*;
use crate::segment::TcpSegment;

verus! {

/// Sequence numbers strictly ascend, so each occurs at most once.
pub open spec fn reg_sorted(s: Seq<(u32, Seq<u8>)>) -> bool {
    forall|i: int, j: int| 0 <= i < j < s.len() ==> s[i].0 < s[j].0
}

/// Whether an entry with sequence number `n` is present.
pub open spec fn reg_contains(s: Seq<(u32, Seq<u8>)>, n: u32) -> bool {
    exists|i: int| 0 <= i < s.len() && s[i].0 == n
}

/// The stored payload for sequence number `n` (meaningful only when an entry
/// with `n` is present).
pub open spec fn reg_payload_of(s: Seq<(u32, Seq<u8>)>, n: u32) -> Seq<u8> {
    let i = choose|i: int| 0 <= i < s.len() && s[i].0 == n;
    s[i].1
}

/// Number of leading entries whose sequence number is below `n`: the position
/// at which an entry for `n` stands or would be inserted.
pub open spec fn reg_position(s: Seq<(u32, Seq<u8>)>, n: u32) -> int
    decreases s.len(),
{
    if s.len() == 0 {
        0
    } else if s[0].0 < n {
        1 + reg_position(s.drop_first(), n)
    } else {
        0
    }
}

/// The registry after an "insert if absent" of `(n, p)`: unchanged when `n`
/// is already present, else with `(n, p)` inserted at its ordered position.
pub open spec fn reg_insert(s: Seq<(u32, Seq<u8>)>, n: u32, p: Seq<u8>) -> Seq<(u32, Seq<u8>)> {
    let i = reg_position(s, n);
    if i < s.len() && s[i].0 == n {
        s
    } else {
        s.insert(i, (n, p))
    }
}

/// In a sorted registry, `reg_position` is the unique split point: everything
/// before it is below `n`, everything from it on is at or above `n`.
pub proof fn lemma_reg_position(s: Seq<(u32, Seq<u8>)>, n: u32)
    requires
        reg_sorted(s),
    ensures
        0 <= reg_position(s, n) <= s.len(),
        forall|k: int| 0 <= k < reg_position(s, n) ==> s[k].0 < n,
        reg_position(s, n) < s.len() ==> s[reg_position(s, n)].0 >= n,
    decreases s.len(),
{
    if s.len() > 0 && s[0].0 < n {
        let rest = s.drop_first();
        assert(reg_sorted(rest)) by {
            assert(forall|i: int, j: int|
                0 <= i < j < rest.len() ==> rest[i].0 == s[i + 1].0 && rest[j].0 == s[j + 1].0);
        }
        lemma_reg_position(rest, n);
        assert(forall|k: int| 1 <= k < reg_position(s, n) ==> s[k].0 == rest[k - 1].0);
    }
}

/// In a sorted registry the stored payload of the key at position `j` is the
/// payload at `j`.
pub proof fn lemma_reg_payload_at(t: Seq<(u32, Seq<u8>)>, j: int)
    requires
        reg_sorted(t),
        0 <= j < t.len(),
    ensures
        reg_contains(t, t[j].0),
        reg_payload_of(t, t[j].0) == t[j].1,
{
    let m = t[j].0;
    assert(reg_contains(t, m));
    let i = choose|i: int| 0 <= i < t.len() && t[i].0 == m;
    assert(i == j) by {
        if i < j {
            assert(t[i].0 < t[j].0);
        } else if j < i {
            assert(t[j].0 < t[i].0);
        }
    }
}

/// Everything one "insert if absent" does to a sorted registry: order is
/// kept; exactly the submitted sequence number becomes present; a registry
/// that already held it is unchanged, otherwise it grows by one entry whose
/// payload is the submitted one; no other stored payload moves.
pub proof fn lemma_reg_insert_effect(s: Seq<(u32, Seq<u8>)>, n: u32, p: Seq<u8>)
    requires
        reg_sorted(s),
    ensures
        reg_sorted(reg_insert(s, n, p)),
        forall|m: u32| reg_contains(reg_insert(s, n, p), m) <==> (reg_contains(s, m) || m == n),
        reg_contains(s, n) ==> reg_insert(s, n, p) == s,
        !reg_contains(s, n) ==> reg_insert(s, n, p).len() == s.len() + 1,
        !reg_contains(s, n) ==> reg_payload_of(reg_insert(s, n, p), n) == p,
        forall|m: u32|
            m != n && reg_contains(s, m) ==> reg_payload_of(reg_insert(s, n, p), m)
                == reg_payload_of(s, m),
{
    lemma_reg_position(s, n);
    let pos = reg_position(s, n);
    if pos < s.len() && s[pos].0 == n {
        // Already present: by definition nothing changes.
        assert(reg_contains(s, n));
        assert(forall|m: u32|
            reg_contains(reg_insert(s, n, p), m) <==> (reg_contains(s, m) || m == n));
    } else {
        assert(!reg_contains(s, n)) by {
            if reg_contains(s, n) {
                let j = choose|j: int| 0 <= j < s.len() && s[j].0 == n;
                if j < pos {
                    assert(s[j].0 < n);
                } else if pos < j {
                    assert(s[pos].0 < s[j].0);
                }
            }
        }
        let t = s.insert(pos, (n, p));
        s.insert_ensures(pos, (n, p));
        assert(reg_sorted(t)) by {
            assert forall|a: int, b: int| 0 <= a < b < t.len() implies t[a].0 < t[b].0 by {
                if a < pos && b > pos {
                    assert(t[a] == s[a] && t[b] == s[b - 1]);
                }
            }
        }
        assert forall|m: u32| reg_contains(t, m) <==> (reg_contains(s, m) || m == n) by {
            if reg_contains(t, m) {
                let i = choose|i: int| 0 <= i < t.len() && t[i].0 == m;
                if i < pos {
                    assert(s[i].0 == m);
                } else if i > pos {
                    assert(s[i - 1].0 == m);
                }
            }
            if reg_contains(s, m) {
                let i = choose|i: int| 0 <= i < s.len() && s[i].0 == m;
                if i < pos {
                    assert(t[i].0 == m);
                } else {
                    assert(t[i + 1].0 == m);
                }
            }
        }
        lemma_reg_payload_at(t, pos);
        assert forall|m: u32|
            m != n && reg_contains(s, m) implies reg_payload_of(t, m) == reg_payload_of(
            s,
            m,
        ) by {
            let i = choose|i: int| 0 <= i < s.len() && s[i].0 == m;
            lemma_reg_payload_at(s, i);
            if i < pos {
                lemma_reg_payload_at(t, i);
            } else {
                lemma_reg_payload_at(t, i + 1);
            }
        }
    }
}

/// A payload arriving under an already-stored sequence number is dropped:
/// inserting twice under one number keeps exactly the first payload.
pub proof fn lemma_registry_retransmission_dropped(
    s: Seq<(u32, Seq<u8>)>,
    n: u32,
    p1: Seq<u8>,
    p2: Seq<u8>,
)
    requires
        reg_sorted(s),
    ensures
        reg_insert(reg_insert(s, n, p1), n, p2) == reg_insert(s, n, p1),
        !reg_contains(s, n) ==> reg_payload_of(reg_insert(reg_insert(s, n, p1), n, p2), n) == p1,
{
    lemma_reg_insert_effect(s, n, p1);
    let t = reg_insert(s, n, p1);
    lemma_reg_insert_effect(t, n, p2);
}

/// A whole batch of submissions folded into a registry, in order.
pub open spec fn reg_after_inserts(
    s: Seq<(u32, Seq<u8>)>,
    subs: Seq<(u32, Seq<u8>)>,
) -> Seq<(u32, Seq<u8>)>
    decreases subs.len(),
{
    if subs.len() == 0 {
        s
    } else {
        reg_insert(reg_after_inserts(s, subs.drop_last()), subs.last().0, subs.last().1)
    }
}

/// The submitted sequence numbers of a batch, in order.
pub open spec fn submitted_sequence(subs: Seq<(u32, Seq<u8>)>) -> Seq<u32> {
    subs.map_values(|e: (u32, Seq<u8>)| e.0)
}

/// The set of distinct sequence numbers a batch submits.
pub open spec fn submitted_numbers(subs: Seq<(u32, Seq<u8>)>) -> Set<u32> {
    submitted_sequence(subs).to_set()
}

/// Submitting a batch to an empty registry stores exactly one entry per
/// distinct submitted sequence number: the entry count equals the
/// cardinality of the set of submitted numbers, and exactly the submitted
/// numbers are present.
pub proof fn lemma_registry_distinct_count(subs: Seq<(u32, Seq<u8>)>)
    ensures
        reg_sorted(reg_after_inserts(Seq::empty(), subs)),
        forall|m: u32|
            reg_contains(reg_after_inserts(Seq::empty(), subs), m) <==> submitted_numbers(
                subs,
            ).contains(m),
        reg_after_inserts(Seq::empty(), subs).len() == submitted_numbers(subs).len(),
    decreases subs.len(),
{
    if subs.len() == 0 {
        assert(submitted_numbers(subs) =~= Set::<u32>::empty());
    } else {
        let rest = subs.drop_last();
        lemma_registry_distinct_count(rest);
        let prev = reg_after_inserts(Seq::empty(), rest);
        let n = subs.last().0;
        lemma_reg_insert_effect(prev, n, subs.last().1);
        assert(submitted_sequence(subs) =~= submitted_sequence(rest).push(n));
        submitted_sequence(rest).lemma_push_to_set_commute(n);
        vstd::seq_lib::seq_to_set_is_finite::<u32>(submitted_sequence(rest));
        vstd::set::axiom_set_insert_len(submitted_numbers(rest), n);
        assert(submitted_numbers(subs) == submitted_numbers(rest).insert(n));
    }
}

/// The ordered store of one direction's payload-bearing segments.
pub struct SegmentRegistry {
    pub entries: Vec<(u32, Vec<u8>)>,
}

impl View for SegmentRegistry {
    type V = Seq<(u32, Seq<u8>)>;

    open spec fn view(&self) -> Seq<(u32, Seq<u8>)> {
        self.entries@.map_values(|e: (u32, Vec<u8>)| (e.0, e.1@))
    }
}

impl SegmentRegistry {
    /// The registry's invariant: entries ascend strictly by sequence number.
    pub open spec fn wf(self) -> bool {
        reg_sorted(self@)
    }

    /// An empty registry.
    pub fn new() -> (r: Self)
        ensures
            r@ == Seq::<(u32, Seq<u8>)>::empty(),
            r.wf(),
    {
        let r = SegmentRegistry { entries: Vec::new() };
        proof {
            assert(r@ =~= Seq::<(u32, Seq<u8>)>::empty());
        }
        r
    }

    /// Number of distinct sequence numbers stored.
    pub fn len(&self) -> (n: usize)
        ensures
            n == self@.len(),
    {
        self.entries.len()
    }

    /// The entry at position `i` in ascending sequence-number order, as the
    /// sequence number and a reference to the stored payload.
    pub fn entry_at(&self, i: usize) -> (r: (u32, &Vec<u8>))
        requires
            i < self@.len(),
        ensures
            r.0 == self@[i as int].0,
            r.1@ == self@[i as int].1,
    {
        let e = &self.entries[i];
        (e.0, &e.1)
    }

    /// Whether a payload is already stored under sequence number `n`.
    pub fn contains_sequence_number(&self, n: u32) -> (r: bool)
        ensures
            r == reg_contains(self@, n),
    {
        let mut i: usize = 0;
        while i < self.entries.len()
            invariant
                i <= self.entries.len(),
                forall|k: int| 0 <= k < i ==> self@[k].0 != n,
            decreases self.entries.len() - i,
        {
            if self.entries[i].0 == n {
                proof {
                    assert(self@[i as int].0 == n);
                }
                return true;
            }
            i = i + 1;
        }
        false
    }

    /// Insert `payload` under sequence number `n` unless an entry for `n`
    /// already exists; an existing entry is never overwritten.
    pub fn insert(&mut self, n: u32, payload: Vec<u8>)
        requires
            old(self).wf(),
        ensures
            final(self).wf(),
            final(self)@ == reg_insert(old(self)@, n, payload@),
    {
        proof {
            lemma_reg_position(self@, n);
        }
        let ghost pos = reg_position(self@, n);
        let mut i: usize = 0;
        while i < self.entries.len() && self.entries[i].0 < n
            invariant
                i <= self.entries.len(),
                forall|k: int| 0 <= k < i ==> self@[k].0 < n,
            decreases self.entries.len() - i,
        {
            i = i + 1;
        }
        proof {
            // `i` satisfies the same split-point characterization as `pos`,
            // and in a sorted registry that point is unique.
            assert(i as int == pos) by {
                if (i as int) < pos {
                    assert(self@[i as int].0 < n);
                    assert(self@[i as int].0 >= n);
                } else if pos < i as int {
                    assert(self@[pos].0 < n);
                }
            }
        }
        if i < self.entries.len() && self.entries[i].0 == n {
            // Retransmission of a segment already recorded: drop it.
            return;
        }
        let ghost pre = self@;
        proof {
            if pos < pre.len() {
                assert(pre[pos].0 > n);
            }
        }
        self.entries.insert(i, (n, payload));
        proof {
            assert(self@ =~= pre.insert(pos, (n, payload@)));
            pre.insert_ensures(pos, (n, payload@));
            assert forall|a: int, b: int|
                0 <= a < b < self@.len() implies self@[a].0 < self@[b].0 by {
                if a < pos && b > pos {
                    assert(self@[a] == pre[a] && self@[b] == pre[b - 1]);
                }
            }
        }
    }
}

/// Route one payload-bearing segment into a direction's registry: stored
/// under its sequence number unless that number is already present, in which
/// case the segment is treated as a retransmission and dropped.
pub fn insert_session_segment(segment: &TcpSegment, segments: &mut SegmentRegistry)
    requires
        old(segments).wf(),
    ensures
        final(segments).wf(),
        final(segments)@ == reg_insert(old(segments)@, segment.sequence_number, segment@.payload),
{
    let payload = clone_bytes(&segment.payload);
    segments.insert(segment.sequence_number, payload);
}

/// A plain copy of a byte vector.
fn clone_bytes(bytes: &Vec<u8>) -> (r: Vec<u8>)
    ensures
        r@ == bytes@,
{
    let mut r: Vec<u8> = Vec::new();
    let mut i: usize = 0;
    while i < bytes.len()
        invariant
            i <= bytes.len(),
            r@ == bytes@.subrange(0, i as int),
        decreases bytes.len() - i,
    {
        r.push(bytes[i]);
        proof {
            assert(r@ =~= bytes@.subrange(0, i + 1));
        }
        i = i + 1;
    }
    proof {
        assert(r@ =~= bytes@);
    }
    r
}

} // verus!
