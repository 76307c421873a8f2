//! Grouping of conditions: which groups a document uses, in which order they
//! are shown, and which conditions belong to each.

use crate::model::{views_of, SptView, SPT};
use vstd::prelude::*;
use vstd::seq_lib::to_multiset_contains;

verus! {

/// Whether some condition belongs to the group.
pub open spec fn has_group(conditions: Seq<SptView>, group: u8) -> bool {
    exists|i: int| 0 <= i < conditions.len() && (#[trigger] conditions[i]).group == group
}

/// The test for the groups that the conditions use.
pub open spec fn in_use(conditions: Seq<SptView>) -> spec_fn(u8) -> bool {
    |group: u8| has_group(conditions, group)
}

/// Every group number, in ascending order.
pub open spec fn all_groups() -> Seq<u8> {
    Seq::new(256, |g: int| g as u8)
}

/// The groups that the conditions use: each once, in ascending order.
pub open spec fn group_ids(conditions: Seq<SptView>) -> Seq<u8> {
    all_groups().filter(in_use(conditions))
}

/// The test for the conditions of one group.
pub open spec fn in_group(group: u8) -> spec_fn(SptView) -> bool {
    |c: SptView| c.group == group
}

/// The conditions of one group, in document order.
pub open spec fn members(conditions: Seq<SptView>, group: u8) -> Seq<SptView> {
    conditions.filter(in_group(group))
}

/// Whether each element is smaller than the next.
pub open spec fn ascending(keys: Seq<u8>) -> bool {
    forall|i: int, j: int| 0 <= i < j < keys.len() ==> keys[i] < keys[j]
}

/// One more condition adds its own group to those in use, and no other.
proof fn lemma_has_group_step(conditions: Seq<SptView>, i: int, group: u8)
    requires
        0 <= i < conditions.len(),
    ensures
        has_group(conditions.take(i + 1), group) <==> (has_group(conditions.take(i), group)
            || conditions[i].group == group),
{
    let before = conditions.take(i);
    let after = conditions.take(i + 1);
    if has_group(after, group) {
        let k = choose|k: int| 0 <= k < after.len() && (#[trigger] after[k]).group == group;
        if k < i {
            assert(before[k].group == group);
        }
    }
    if has_group(before, group) {
        let k = choose|k: int| 0 <= k < before.len() && (#[trigger] before[k]).group == group;
        assert(after[k].group == group);
    }
    if conditions[i].group == group {
        assert(after[i].group == group);
    }
}

/// The groups in use, in ascending order.
pub fn group_keys(spts: &Vec<SPT>) -> (keys: Vec<u8>)
    ensures
        keys@ == group_ids(views_of(spts@)),
{
    let ghost conditions = views_of(spts@);
    let mut present: Vec<bool> = Vec::new();
    let mut g: usize = 0;
    while g < 256
        invariant
            g <= 256,
            present.len() == g,
            forall|k: int| 0 <= k < g ==> !present[k],
        decreases 256 - g,
    {
        present.push(false);
        g += 1;
    }
    let mut i: usize = 0;
    while i < spts.len()
        invariant
            i <= spts.len(),
            present.len() == 256,
            conditions == views_of(spts@),
            forall|k: int|
                0 <= k < 256 ==> present[k] == has_group(conditions.take(i as int), k as u8),
        decreases spts.len() - i,
    {
        let ghost before = present@;
        present.set(spts[i].group as usize, true);
        proof {
            assert forall|k: int| 0 <= k < 256 implies present[k] == has_group(
                conditions.take(i + 1),
                k as u8,
            ) by {
                lemma_has_group_step(conditions, i as int, k as u8);
                assert(before[k] == has_group(conditions.take(i as int), k as u8));
            }
        }
        i += 1;
    }
    proof {
        assert(conditions.take(i as int) =~= conditions);
    }
    let mut keys: Vec<u8> = Vec::new();
    let mut g: usize = 0;
    while g < 256
        invariant
            g <= 256,
            present.len() == 256,
            forall|k: int| 0 <= k < 256 ==> present[k] == has_group(conditions, k as u8),
            keys@ == all_groups().take(g as int).filter(in_use(conditions)),
        decreases 256 - g,
    {
        proof {
            let prefix = all_groups().take(g as int);
            assert(all_groups().take(g + 1) =~= prefix.push(g as u8));
            prefix.lemma_filter_push(g as u8, in_use(conditions));
        }
        if present[g] {
            keys.push(g as u8);
        }
        g += 1;
    }
    proof {
        assert(all_groups().take(256) =~= all_groups());
    }
    keys
}

/// What the first `n` group numbers contribute to the groups in use: the
/// numbers below `n` that some condition carries, in ascending order.
proof fn lemma_group_prefix(conditions: Seq<SptView>, n: int)
    requires
        0 <= n <= 256,
    ensures
        ascending(all_groups().take(n).filter(in_use(conditions))),
        forall|g: u8|
            all_groups().take(n).filter(in_use(conditions)).contains(g) <==> (g < n
                && has_group(conditions, g)),
    decreases n,
{
    let kept = all_groups().take(n).filter(in_use(conditions));
    if n == 0 {
        assert(all_groups().take(0) =~= Seq::<u8>::empty());
        reveal(Seq::filter);
        assert(kept =~= Seq::<u8>::empty());
    } else {
        let last = (n - 1) as u8;
        let prefix = all_groups().take(n - 1);
        let rest = prefix.filter(in_use(conditions));
        lemma_group_prefix(conditions, n - 1);
        assert(all_groups().take(n) =~= prefix.push(last));
        prefix.lemma_filter_push(last, in_use(conditions));
        if has_group(conditions, last) {
            assert(kept == rest.push(last));
            assert forall|i: int, j: int| 0 <= i < j < kept.len() implies kept[i] < kept[j] by {
                if j == rest.len() {
                    assert(rest.contains(rest[i]));
                }
            }
            assert forall|g: u8| kept.contains(g) <==> (g < n && has_group(conditions, g)) by {
                if kept.contains(g) {
                    let k = choose|k: int| 0 <= k < kept.len() && kept[k] == g;
                    if k < rest.len() {
                        assert(rest.contains(rest[k]));
                    }
                }
                if g < n && has_group(conditions, g) {
                    if g == last {
                        assert(kept[rest.len() as int] == g);
                    } else {
                        assert(rest.contains(g));
                        let k = choose|k: int| 0 <= k < rest.len() && rest[k] == g;
                        assert(kept[k] == g);
                    }
                }
            }
        } else {
            assert(kept == rest);
        }
    }
}

/// The groups are shown in ascending order of their number, each group that
/// a condition carries exactly once, and no other.
pub proof fn lemma_group_ids_ascending_distinct(conditions: Seq<SptView>)
    ensures
        ascending(group_ids(conditions)),
        forall|g: u8| group_ids(conditions).contains(g) <==> has_group(conditions, g),
{
    lemma_group_prefix(conditions, 256);
    assert(all_groups().take(256) =~= all_groups());
}

/// Every condition is shown: its group is among the groups in use, and it is
/// a member of that group and of no other.
pub proof fn lemma_condition_in_its_group(conditions: Seq<SptView>, i: int)
    requires
        0 <= i < conditions.len(),
    ensures
        group_ids(conditions).contains(conditions[i].group),
        members(conditions, conditions[i].group).contains(conditions[i]),
        forall|g: u8| g != conditions[i].group ==> !members(conditions, g).contains(conditions[i]),
{
    lemma_group_ids_ascending_distinct(conditions);
    assert(has_group(conditions, conditions[i].group));
    conditions.lemma_filter_contains(in_group(conditions[i].group), i);
    assert forall|g: u8| g != conditions[i].group implies !members(conditions, g).contains(
        conditions[i],
    ) by {
        let kept = members(conditions, g);
        if kept.contains(conditions[i]) {
            let k = choose|k: int| 0 <= k < kept.len() && kept[k] == conditions[i];
            conditions.lemma_filter_pred(in_group(g), k);
        }
    }
}

/// A group is in use exactly when it has members.
pub proof fn lemma_group_in_use_has_members(conditions: Seq<SptView>, group: u8)
    ensures
        has_group(conditions, group) <==> members(conditions, group).len() > 0,
{
    let kept = members(conditions, group);
    if has_group(conditions, group) {
        let i = choose|i: int| 0 <= i < conditions.len() && (#[trigger] conditions[i]).group == group;
        conditions.lemma_filter_contains(in_group(group), i);
    }
    if kept.len() > 0 {
        conditions.lemma_filter_pred(in_group(group), 0);
        assert(kept.contains(kept[0]));
        conditions.lemma_filter_contains_rev(in_group(group), kept[0]);
        let i = choose|i: int| 0 <= i < conditions.len() && conditions[i] == kept[0];
        assert(conditions[i].group == group);
    }
}

/// Two ascending sequences with the same elements are the same sequence.
proof fn lemma_ascending_unique(a: Seq<u8>, b: Seq<u8>)
    requires
        ascending(a),
        ascending(b),
        forall|g: u8| a.contains(g) <==> b.contains(g),
    ensures
        a == b,
    decreases a.len(),
{
    if a.len() == 0 {
        if b.len() > 0 {
            assert(b.contains(b[0]));
        }
        assert(a =~= b);
    } else {
        assert(a.contains(a.last()));
        assert(b.contains(a.last()));
        assert(b.len() > 0);
        assert(b.contains(b.last()));
        assert(a.contains(b.last()));
        assert(a.last() == b.last());
        let a0 = a.drop_last();
        let b0 = b.drop_last();
        assert forall|g: u8| a0.contains(g) <==> b0.contains(g) by {
            if a0.contains(g) {
                let k = choose|k: int| 0 <= k < a0.len() && a0[k] == g;
                assert(a[k] == g);
                assert(a.contains(g));
                let m = choose|m: int| 0 <= m < b.len() && b[m] == g;
                assert(g < a.last());
                assert(b0[m] == g);
            }
            if b0.contains(g) {
                let k = choose|k: int| 0 <= k < b0.len() && b0[k] == g;
                assert(b[k] == g);
                assert(b.contains(g));
                let m = choose|m: int| 0 <= m < a.len() && a[m] == g;
                assert(g < b.last());
                assert(a0[m] == g);
            }
        }
        lemma_ascending_unique(a0, b0);
        assert(a =~= a0.push(a.last()));
        assert(b =~= b0.push(b.last()));
    }
}

/// The order of the groups is the ascending order of the distinct group
/// numbers, and nothing else: any ascending sequence that holds exactly the
/// groups in use is the sequence of the groups shown.
pub proof fn lemma_group_ids_characterized(conditions: Seq<SptView>, keys: Seq<u8>)
    requires
        ascending(keys),
        forall|g: u8| keys.contains(g) <==> has_group(conditions, g),
    ensures
        keys == group_ids(conditions),
{
    lemma_group_ids_ascending_distinct(conditions);
    lemma_ascending_unique(keys, group_ids(conditions));
}

/// The order of the groups does not depend on the order of the conditions in
/// the document: documents that use the same groups show them in the same
/// order.
pub proof fn lemma_group_ids_ignore_document_order(a: Seq<SptView>, b: Seq<SptView>)
    requires
        forall|g: u8| has_group(a, g) <==> has_group(b, g),
    ensures
        group_ids(a) == group_ids(b),
{
    lemma_group_ids_ascending_distinct(a);
    lemma_group_ids_characterized(b, group_ids(a));
}

/// In particular, reordering the conditions of a document leaves the order
/// of the groups as it is.
pub proof fn lemma_group_ids_of_reordering(a: Seq<SptView>, b: Seq<SptView>)
    requires
        a.to_multiset() == b.to_multiset(),
    ensures
        group_ids(a) == group_ids(b),
{
    assert forall|g: u8| has_group(a, g) <==> has_group(b, g) by {
        if has_group(a, g) {
            let i = choose|i: int| 0 <= i < a.len() && (#[trigger] a[i]).group == g;
            assert(a.contains(a[i]));
            to_multiset_contains(a, a[i]);
            to_multiset_contains(b, a[i]);
            let j = choose|j: int| 0 <= j < b.len() && b[j] == a[i];
            assert(b[j].group == g);
        }
        if has_group(b, g) {
            let i = choose|i: int| 0 <= i < b.len() && (#[trigger] b[i]).group == g;
            assert(b.contains(b[i]));
            to_multiset_contains(b, b[i]);
            to_multiset_contains(a, b[i]);
            let j = choose|j: int| 0 <= j < a.len() && a[j] == b[i];
            assert(a[j].group == g);
        }
    }
    lemma_group_ids_ignore_document_order(a, b);
}

} // verus!
