//! Merging the verdicts of the per-protocol advertisement taggers into one
//! tag collection for a device advertisement.
//!
//! Each tagger hands in at most one tag; the verdicts are merged by tag
//! name, a later verdict for the same name replacing the earlier one, and an
//! advertisement that no tagger recognized yields no collection at all.

use vstd::prelude::*;
use crate::tags::Tag;

verus! {

/// Whether some tag in `s` carries `name`.
pub open spec fn tag_names_contain(s: Seq<Tag>, name: Seq<char>) -> bool {
    exists|i: int| 0 <= i < s.len() && s[i].name@ == name
}

/// The position of the tag named `name` (meaningful only when present; under
/// `tag_names_unique` it is unique).
pub open spec fn tag_index_of(s: Seq<Tag>, name: Seq<char>) -> int {
    choose|i: int| 0 <= i < s.len() && s[i].name@ == name
}

/// Every tag name occurs at most once.
pub open spec fn tag_names_unique(s: Seq<Tag>) -> bool {
    forall|i: int, j: int| 0 <= i < j < s.len() ==> s[i].name@ != s[j].name@
}

/// A collection with one more verdict merged in: a tag of the same name is
/// replaced, a new name is appended.
pub open spec fn tags_with(s: Seq<Tag>, t: Tag) -> Seq<Tag> {
    if tag_names_contain(s, t.name@) {
        s.update(tag_index_of(s, t.name@), t)
    } else {
        s.push(t)
    }
}

/// The whole candidate list merged into a collection, in order.
pub open spec fn tags_merged(s: Seq<Tag>) -> Seq<Tag>
    decreases s.len(),
{
    if s.len() == 0 {
        Seq::empty()
    } else {
        tags_with(tags_merged(s.drop_last()), s.last())
    }
}

/// Merging keeps names unique, and yields an empty collection only for an
/// empty candidate list.
pub proof fn lemma_tags_merged_shape(s: Seq<Tag>)
    ensures
        tag_names_unique(tags_merged(s)),
        tags_merged(s).len() == 0 <==> s.len() == 0,
    decreases s.len(),
{
    if s.len() > 0 {
        lemma_tags_merged_shape(s.drop_last());
        let prev = tags_merged(s.drop_last());
        let t = s.last();
        if tag_names_contain(prev, t.name@) {
            let i = tag_index_of(prev, t.name@);
            assert(0 <= i < prev.len() && prev[i].name@ == t.name@);
            assert(tag_names_unique(prev.update(i, t)));
        }
    }
}

/// The position of the tag named `name` in `tags`, if any.
fn tag_position(tags: &Vec<Tag>, name: &String) -> (r: Option<usize>)
    ensures
        match r {
            Some(i) => i < tags@.len() && tags@[i as int].name@ == name@,
            None => !tag_names_contain(tags@, name@),
        },
{
    let mut i: usize = 0;
    while i < tags.len()
        invariant
            i <= tags.len(),
            forall|k: int| 0 <= k < i ==> tags@[k].name@ != name@,
        decreases tags.len() - i,
    {
        if tags[i].name.eq(name) {
            return Some(i);
        }
        i = i + 1;
    }
    None
}

/// Merge the taggers' verdicts for one device advertisement: each candidate
/// tag is taken up in order, a later candidate replacing an earlier one of
/// the same name; an advertisement no tagger recognized — an empty candidate
/// list — produces no collection.
pub fn tag_device_advertisement(candidates: Vec<Tag>) -> (r: Option<Vec<Tag>>)
    ensures
        candidates@.len() == 0 <==> r is None,
        r is Some ==> r->Some_0@ == tags_merged(candidates@),
        r is Some ==> tag_names_unique(r->Some_0@),
{
    let ghost orig = candidates@;
    let mut remaining = candidates;
    let mut merged: Vec<Tag> = Vec::new();
    proof {
        assert(orig.subrange(0, 0) =~= Seq::<Tag>::empty());
        lemma_tags_merged_shape(orig.subrange(0, 0));
    }
    while remaining.len() > 0
        invariant
            remaining@.len() <= orig.len(),
            remaining@ == orig.subrange(orig.len() - remaining@.len(), orig.len() as int),
            merged@ == tags_merged(orig.subrange(0, orig.len() - remaining@.len())),
            tag_names_unique(merged@),
        decreases remaining.len(),
    {
        let ghost p = orig.len() - remaining@.len();
        let ghost pre = remaining@;
        proof {
            assert(remaining@[0] == orig[p]);
        }
        let t = remaining.remove(0);
        proof {
            pre.remove_ensures(0);
            assert(remaining@ =~= orig.subrange(p + 1, orig.len() as int));
            assert(orig.subrange(0, p + 1).drop_last() =~= orig.subrange(0, p));
            assert(orig.subrange(0, p + 1).last() == orig[p]);
        }
        let ghost before = merged@;
        match tag_position(&merged, &t.name) {
            Some(i) => {
                proof {
                    let j = tag_index_of(before, t.name@);
                    assert(before[i as int].name@ == t.name@);
                    assert(j == i as int);
                }
                let ghost pre_merged = merged@;
                let _ = merged.remove(i);
                merged.insert(i, t);
                proof {
                    pre_merged.remove_ensures(i as int);
                    assert(merged@ =~= before.update(i as int, orig[p]));
                    assert(tag_names_unique(merged@));
                }
            },
            None => {
                merged.push(t);
                proof {
                    assert(merged@ =~= before.push(orig[p]));
                    assert(tag_names_unique(merged@));
                }
            },
        }
    }
    proof {
        assert(orig.subrange(0, orig.len() as int) =~= orig);
        lemma_tags_merged_shape(orig);
    }
    if merged.len() == 0 {
        None
    } else {
        Some(merged)
    }
}

} // verus!
