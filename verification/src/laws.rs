//! The laws of the store: what holds of every store state and every
//! run of operations, proved from the operation specifications alone.

use vstd::prelude::*;
use vstd::multiset::Multiset;
use crate::store::Filter;
use crate::store::TodoView;
use crate::store::create_spec;
use crate::store::delete_spec;
use crate::store::filtered;
use crate::store::toggle_spec;

verus! {

/// The store after a run of creations, oldest message first.
pub open spec fn create_all(s: Seq<TodoView>, msgs: Seq<Seq<u8>>) -> Seq<TodoView>
    decreases msgs.len(),
{
    if msgs.len() == 0 {
        s
    } else {
        create_all(create_spec(s, msgs[0]), msgs.drop_first())
    }
}

/// A run of creations with non-empty messages appends them all, in
/// insertion order and unmarked, and the unfiltered view shows exactly
/// that.
pub proof fn lemma_creates_in_insertion_order(s: Seq<TodoView>, msgs: Seq<Seq<u8>>)
    requires
        forall|i: int| 0 <= i < msgs.len() ==> msgs[i].len() > 0,
    ensures
        filtered(create_all(s, msgs), Filter::All) == s + msgs.map_values(
            |m: Seq<u8>| TodoView { message: m, marked: false },
        ),
    decreases msgs.len(),
{
    let item = |m: Seq<u8>| TodoView { message: m, marked: false };
    if msgs.len() == 0 {
        assert(s + msgs.map_values(item) =~= s);
    } else {
        let s1 = s.push(item(msgs[0]));
        assert(create_spec(s, msgs[0]) == s1);
        lemma_creates_in_insertion_order(s1, msgs.drop_first());
        assert(s1 + msgs.drop_first().map_values(item) =~= s + msgs.map_values(item));
    }
}

/// Creating with an empty message leaves the store exactly as it was,
/// so its size never grows.
pub proof fn lemma_create_empty_keeps_store(s: Seq<TodoView>, m: Seq<u8>)
    requires
        m.len() == 0,
    ensures
        create_spec(s, m) == s,
        create_spec(s, m).len() == s.len(),
{
}

/// Toggling a valid index flips exactly that mark, keeping every
/// message and the count; toggling it twice restores the store.
pub proof fn lemma_toggle_idempotent(s: Seq<TodoView>, i: int)
    requires
        0 <= i < s.len(),
    ensures
        toggle_spec(s, i).len() == s.len(),
        toggle_spec(s, i)[i].message == s[i].message,
        toggle_spec(s, i)[i].marked == !s[i].marked,
        forall|j: int| 0 <= j < s.len() && j != i ==> toggle_spec(s, i)[j] == s[j],
        toggle_spec(toggle_spec(s, i), i) == s,
{
    assert(toggle_spec(toggle_spec(s, i), i) =~~= s);
}

/// Deleting a valid index removes exactly that item and shifts every
/// later one down by one position; deleting out of range changes
/// nothing.
pub proof fn lemma_delete_shifts(s: Seq<TodoView>, i: int)
    ensures
        0 <= i < s.len() ==> {
            &&& delete_spec(s, i).len() == s.len() - 1
            &&& forall|j: int| 0 <= j < i ==> delete_spec(s, i)[j] == s[j]
            &&& forall|j: int| i <= j < s.len() - 1 ==> delete_spec(s, i)[j] == s[j + 1]
        },
        !(0 <= i < s.len()) ==> delete_spec(s, i) == s,
{
}

/// The messages of the items of `s`, in order.
pub open spec fn messages_of(s: Seq<TodoView>) -> Seq<Seq<u8>> {
    s.map_values(|t: TodoView| t.message)
}

/// The active and the completed view together carry, as a multiset,
/// exactly the messages of the full view: the two filters partition
/// the store.
pub proof fn lemma_views_partition_messages(s: Seq<TodoView>)
    ensures
        messages_of(filtered(s, Filter::Active)).to_multiset().add(
            messages_of(filtered(s, Filter::Completed)).to_multiset(),
        ) == messages_of(filtered(s, Filter::All)).to_multiset(),
    decreases s.len(),
{
    broadcast use vstd::seq_lib::group_to_multiset_ensures;
    broadcast use vstd::multiset::group_multiset_axioms;

    reveal(Seq::filter);
    if s.len() == 0 {
        assert(filtered(s, Filter::Active) =~= Seq::<TodoView>::empty());
        assert(filtered(s, Filter::Completed) =~= Seq::<TodoView>::empty());
        assert(messages_of(Seq::<TodoView>::empty()) =~= Seq::<Seq<u8>>::empty());
        let e = Seq::<Seq<u8>>::empty().to_multiset();
        assert(e =~= Multiset::<Seq<u8>>::empty());
        assert(e.add(e) =~= e);
    } else {
        let q = s.drop_last();
        let t = s.last();
        lemma_views_partition_messages(q);
        let qa = messages_of(filtered(q, Filter::Active)).to_multiset();
        let qc = messages_of(filtered(q, Filter::Completed)).to_multiset();
        let qm = messages_of(q).to_multiset();
        assert(messages_of(q).push(t.message) =~= messages_of(s));
        assert(messages_of(s).to_multiset() == qm.insert(t.message));
        if !t.marked {
            assert(filtered(s, Filter::Active) == filtered(q, Filter::Active).push(t));
            assert(messages_of(filtered(q, Filter::Active)).push(t.message) =~= messages_of(
                filtered(s, Filter::Active),
            ));
            assert(messages_of(filtered(s, Filter::Active)).to_multiset() == qa.insert(
                t.message,
            ));
            assert(filtered(s, Filter::Completed) == filtered(q, Filter::Completed));
            assert(qa.insert(t.message).add(qc) =~= qa.add(qc).insert(t.message));
        } else {
            assert(filtered(s, Filter::Completed) == filtered(q, Filter::Completed).push(t));
            assert(messages_of(filtered(q, Filter::Completed)).push(t.message) =~= messages_of(
                filtered(s, Filter::Completed),
            ));
            assert(messages_of(filtered(s, Filter::Completed)).to_multiset() == qc.insert(
                t.message,
            ));
            assert(filtered(s, Filter::Active) == filtered(q, Filter::Active));
            assert(qa.add(qc.insert(t.message)) =~= qa.add(qc).insert(t.message));
        }
    }
}

} // verus!
