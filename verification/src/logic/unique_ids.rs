use vstd::multiset::Multiset;
use vstd::prelude::*;
use crate::logic::dotevery_editor::DotEveryEditorOperationIndex;
use crate::logic::laws::{lemma_has_id_add, lemma_nodes_head};
use crate::logic::model::{
    add_at, add_in_list, add_in_slots, container_nodes, fill, has_id, index_of_id, index_of_occupant,
    insert_child, lemma_first_with_id, lemma_index_of_id, lemma_index_of_occupant, list_nodes,
    nth_counted, remove_at, remove_from_list, remove_in_list, remove_in_slots, slot_nodes, slots_nodes,
    Block, Container, Document, Slot,
};

verus! {

/// The ids below a slot, each as often as it occurs.
pub open spec fn slot_bag<T>(s: Slot<T>) -> Multiset<u128>
    decreases s,
{
    match s {
        Slot::Hole(Some(b)) => id_bag(b),
        _ => Multiset::empty(),
    }
}

/// The ids below a run of slots, each as often as it occurs.
pub open spec fn slots_bag<T>(s: Seq<Slot<T>>) -> Multiset<u128>
    decreases s,
{
    if s.len() == 0 {
        Multiset::empty()
    } else {
        slots_bag(s.drop_last()).add(slot_bag(s.last()))
    }
}

/// The ids of a list of blocks, each as often as it occurs.
pub open spec fn list_bag<T>(l: Seq<Block<T>>) -> Multiset<u128>
    decreases l,
{
    if l.len() == 0 {
        Multiset::empty()
    } else {
        list_bag(l.drop_last()).add(id_bag(l.last()))
    }
}

/// The ids inside a container, each as often as it occurs.
pub open spec fn container_bag<T>(c: Container<T>) -> Multiset<u128>
    decreases c,
{
    match c {
        Container::NoBlock => Multiset::empty(),
        Container::Vertical(l) => list_bag(l),
        Container::Horizontal(l) => list_bag(l),
    }
}

/// The ids of a subtree, each as often as it occurs.
pub open spec fn id_bag<T>(b: Block<T>) -> Multiset<u128>
    decreases b,
{
    Multiset::singleton(b.id).add(slots_bag(b.slots)).add(container_bag(b.child))
}

/// Whether no id occurs twice in the subtree.
pub open spec fn unique_ids<T>(b: Block<T>) -> bool {
    forall|id: u128| id_bag(b).count(id) <= 1
}

/// Whether two collections of ids have no id in common.
pub open spec fn apart(a: Multiset<u128>, b: Multiset<u128>) -> bool {
    forall|id: u128| !(a.count(id) > 0 && b.count(id) > 0)
}

impl<T> Document<T> {
    /// The ids of the document, its own included, each as often as it occurs.
    pub open spec fn id_bag(self) -> Multiset<u128> {
        Multiset::singleton(self.id).add(list_bag(self.list))
    }

    /// Whether no id occurs twice in the document.
    pub open spec fn unique_ids(self) -> bool {
        forall|id: u128| self.id_bag().count(id) <= 1
    }
}

// ---------------------------------------------------------------------------
// Bags and traversal
// ---------------------------------------------------------------------------

proof fn lemma_bag_nodes_slots<T>(s: Seq<Slot<T>>, id: u128)
    ensures
        slots_bag(s).count(id) > 0 <==> has_id(slots_nodes(s), id),
    decreases s, 0nat,
{
    if s.len() > 0 {
        lemma_bag_nodes_slots(s.drop_last(), id);
        lemma_has_id_add(slots_nodes(s.drop_last()), slot_nodes(s.last()), id);
        assert(slots_bag(s) == slots_bag(s.drop_last()).add(slot_bag(s.last())));
        match s.last() {
            Slot::Hole(Some(b)) => {
                lemma_bag_nodes(b, id);
                assert(slot_bag(s.last()) == id_bag(b));
                assert(slot_nodes(s.last()) == b.nodes());
            },
            _ => {
                assert(slot_bag(s.last()) =~= Multiset::<u128>::empty());
                assert(slot_nodes(s.last()) =~= Seq::<Block<T>>::empty());
            },
        }
    }
}

proof fn lemma_bag_nodes_list<T>(l: Seq<Block<T>>, id: u128)
    ensures
        list_bag(l).count(id) > 0 <==> has_id(list_nodes(l), id),
    decreases l, 0nat,
{
    if l.len() > 0 {
        lemma_bag_nodes_list(l.drop_last(), id);
        lemma_has_id_add(list_nodes(l.drop_last()), l.last().nodes(), id);
        lemma_bag_nodes(l.last(), id);
    }
}

/// An id is in the bag of a subtree exactly when a node of the subtree carries it.
pub proof fn lemma_bag_nodes<T>(b: Block<T>, id: u128)
    ensures
        id_bag(b).count(id) > 0 <==> b.contains_id(id),
    decreases b,
{
    lemma_nodes_head(b);
    lemma_has_id_add(seq![b], b.descendants(), id);
    lemma_has_id_add(slots_nodes(b.slots), container_nodes(b.child), id);
    lemma_bag_nodes_slots(b.slots, id);
    match b.child {
        Container::NoBlock => {},
        Container::Vertical(l) => {
            lemma_bag_nodes_list(l, id);
        },
        Container::Horizontal(l) => {
            lemma_bag_nodes_list(l, id);
        },
    }
    if b.id == id {
        assert(seq![b][0].id == id);
    }
    if has_id(seq![b], id) {
        let i = choose|i: int| 0 <= i < seq![b].len() && (#[trigger] seq![b][i]).id == id;
        assert(seq![b][i] == b);
    }
}

/// An id is in the bag of a document's blocks exactly when a node of the
/// document carries it.
pub proof fn lemma_document_bag_nodes<T>(d: Document<T>, id: u128)
    ensures
        list_bag(d.list).count(id) > 0 <==> has_id(d.nodes(), id),
        list_bag(d.list).count(id) > 0 <==> d.find(id) is Some,
{
    lemma_bag_nodes_list(d.list, id);
    lemma_first_with_id(d.nodes(), id);
}

// ---------------------------------------------------------------------------
// Exchange of one member
// ---------------------------------------------------------------------------

proof fn lemma_slots_bag_update<T>(s: Seq<Slot<T>>, k: int, v: Slot<T>)
    requires
        0 <= k < s.len(),
    ensures
        slots_bag(s.update(k, v)).add(slot_bag(s[k])) =~= slots_bag(s).add(slot_bag(v)),
    decreases s.len(),
{
    let u = s.update(k, v);
    let d = s.drop_last();
    assert(u.len() == s.len());
    assert(slots_bag(u) == slots_bag(u.drop_last()).add(slot_bag(u.last())));
    assert(slots_bag(s) == slots_bag(d).add(slot_bag(s.last())));
    if k == s.len() - 1 {
        assert(u.drop_last() =~= d);
        assert(u.last() == v);
        assert(s.last() == s[k]);
        assert forall|j: u128|
            slots_bag(u).add(slot_bag(s[k])).count(j) == slots_bag(s).add(slot_bag(v)).count(j) by {
            assert(slots_bag(u).count(j) == slots_bag(d).count(j) + slot_bag(v).count(j));
            assert(slots_bag(s).count(j) == slots_bag(d).count(j) + slot_bag(s[k]).count(j));
        }
    } else {
        lemma_slots_bag_update(d, k, v);
        let du = d.update(k, v);
        assert(u.drop_last() =~= du);
        assert(u.last() == s.last());
        assert(d[k] == s[k]);
        assert forall|j: u128|
            slots_bag(u).add(slot_bag(s[k])).count(j) == slots_bag(s).add(slot_bag(v)).count(j) by {
            assert(slots_bag(u).count(j) == slots_bag(du).count(j) + slot_bag(s.last()).count(j));
            assert(slots_bag(s).count(j) == slots_bag(d).count(j) + slot_bag(s.last()).count(j));
            assert(slots_bag(du).add(slot_bag(d[k])).count(j) == slots_bag(d).add(slot_bag(v)).count(j));
        }
    }
}

proof fn lemma_list_bag_insert<T>(l: Seq<Block<T>>, i: int, y: Block<T>)
    requires
        0 <= i <= l.len(),
    ensures
        list_bag(l.insert(i, y)) =~= list_bag(l).add(id_bag(y)),
    decreases l.len(),
{
    let u = l.insert(i, y);
    if i == l.len() {
        assert(u.drop_last() =~= l);
        assert(u.last() == y);
    } else {
        lemma_list_bag_insert(l.drop_last(), i, y);
        assert(u.drop_last() =~= l.drop_last().insert(i, y));
        assert(u.last() == l.last());
    }
}

proof fn lemma_list_bag_remove<T>(l: Seq<Block<T>>, k: int)
    requires
        0 <= k < l.len(),
    ensures
        list_bag(l.remove(k)).add(id_bag(l[k])) =~= list_bag(l),
    decreases l.len(),
{
    let u = l.remove(k);
    if k == l.len() - 1 {
        assert(u =~= l.drop_last());
    } else {
        lemma_list_bag_remove(l.drop_last(), k);
        assert(u.drop_last() =~= l.drop_last().remove(k));
        assert(u.last() == l.last());
    }
}

/// The bag of a block does not depend on the block's parent.
proof fn lemma_bag_with_parent<T>(x: Block<T>, p: Option<u128>)
    ensures
        id_bag(x.with_parent(p)) == id_bag(x),
{
}

// ---------------------------------------------------------------------------
// Insertion
// ---------------------------------------------------------------------------

proof fn lemma_add_bag_slots<T>(s: Seq<Slot<T>>, target: u128, index: DotEveryEditorOperationIndex, x: Block<T>)
    requires
        add_in_slots(s, target, index, x) is Some,
        add_in_slots(s, target, index, x)->0 is Ok,
    ensures
        slots_bag(add_in_slots(s, target, index, x)->0->Ok_0) =~= slots_bag(s).add(id_bag(x)),
    decreases s, 0nat,
{
    let s2 = add_in_slots(s, target, index, x)->0->Ok_0;
    let d = s.drop_last();
    match add_in_slots(d, target, index, x) {
        Some(Ok(p)) => {
            lemma_add_bag_slots(d, target, index, x);
            assert(s2.drop_last() =~= p);
            assert(s2.last() == s.last());
            assert(slots_bag(s2) == slots_bag(p).add(slot_bag(s.last())));
            assert(slots_bag(s) == slots_bag(d).add(slot_bag(s.last())));
        },
        Some(Err(_)) => {},
        None => {
            match s.last() {
                Slot::Hole(Some(m)) => {
                    let m2 = add_at(m, target, index, x)->Ok_0;
                    lemma_add_bag(m, target, index, x);
                    assert(s2.drop_last() =~= d);
                    assert(s2.last() == Slot::Hole(Some(m2)));
                    assert(slot_bag(s.last()) == id_bag(m));
                    assert(slot_bag(s2.last()) == id_bag(m2));
                    assert(slots_bag(s2) == slots_bag(d).add(id_bag(m2)));
                    assert(slots_bag(s) == slots_bag(d).add(id_bag(m)));
                },
                _ => {},
            }
        },
    }
}

proof fn lemma_add_bag_list<T>(l: Seq<Block<T>>, target: u128, index: DotEveryEditorOperationIndex, x: Block<T>)
    requires
        add_in_list(l, target, index, x) is Some,
        add_in_list(l, target, index, x)->0 is Ok,
    ensures
        list_bag(add_in_list(l, target, index, x)->0->Ok_0) =~= list_bag(l).add(id_bag(x)),
    decreases l, 0nat,
{
    let l2 = add_in_list(l, target, index, x)->0->Ok_0;
    let d = l.drop_last();
    match add_in_list(d, target, index, x) {
        Some(Ok(p)) => {
            lemma_add_bag_list(d, target, index, x);
            assert(l2.drop_last() =~= p);
            assert(l2.last() == l.last());
        },
        Some(Err(_)) => {},
        None => {
            lemma_add_bag(l.last(), target, index, x);
            assert(l2.drop_last() =~= d);
            assert(l2.last() == add_at(l.last(), target, index, x)->Ok_0);
        },
    }
}

proof fn lemma_fill_bag<T>(b: Block<T>, k: int, y: Block<T>)
    requires
        fill(b, k, y) is Ok,
    ensures
        id_bag(fill(b, k, y)->Ok_0) =~= id_bag(b).add(id_bag(y)),
{
    lemma_slots_bag_update(b.slots, k, Slot::Hole(Some(y)));
    let b2 = fill(b, k, y)->Ok_0;
    assert(b2.slots == b.slots.update(k, Slot::Hole(Some(y))));
    assert(slot_bag(b.slots[k]) =~= Multiset::<u128>::empty());
    assert(slot_bag(Slot::Hole(Some(y))) == id_bag(y));
    assert(slots_bag(b2.slots) =~= slots_bag(b.slots).add(id_bag(y)));
}

proof fn lemma_insert_child_bag<T>(b: Block<T>, i: int, y: Block<T>)
    requires
        insert_child(b, i, y) is Ok,
    ensures
        id_bag(insert_child(b, i, y)->Ok_0) =~= id_bag(b).add(id_bag(y)),
{
    lemma_list_bag_insert(b.child.list(), i, y);
}

/// After an insertion a subtree holds the ids it held before and those of
/// the block that came in, and no others.
pub proof fn lemma_add_bag<T>(b: Block<T>, target: u128, index: DotEveryEditorOperationIndex, x: Block<T>)
    requires
        add_at(b, target, index, x) is Ok,
    ensures
        id_bag(add_at(b, target, index, x)->Ok_0) =~= id_bag(b).add(id_bag(x)),
    decreases b,
{
    if b.id == target {
        let y = x.with_parent(Some(b.id));
        lemma_bag_with_parent(x, Some(b.id));
        match index {
            DotEveryEditorOperationIndex::OptionAbsolute(i) => {
                lemma_fill_bag(b, i as int, y);
            },
            DotEveryEditorOperationIndex::OptionInputFiltered(i) => {
                lemma_fill_bag(b, nth_counted(b.slots, 0, i as nat, false)->0, y);
            },
            DotEveryEditorOperationIndex::OptionProgramModuleFiltered(i) => {
                lemma_fill_bag(b, nth_counted(b.slots, 0, i as nat, true)->0, y);
            },
            DotEveryEditorOperationIndex::Child(i) => {
                lemma_insert_child_bag(b, i as int, y);
            },
        }
    } else {
        match add_in_slots(b.slots, target, index, x) {
            Some(Ok(slots)) => {
                lemma_add_bag_slots(b.slots, target, index, x);
            },
            Some(Err(_)) => {},
            None => {
                match b.child {
                    Container::NoBlock => {},
                    Container::Vertical(l) => {
                        lemma_add_bag_list(l, target, index, x);
                    },
                    Container::Horizontal(l) => {
                        lemma_add_bag_list(l, target, index, x);
                    },
                }
            },
        }
    }
}

// ---------------------------------------------------------------------------
// Removal
// ---------------------------------------------------------------------------

/// Whether `after` is `before` without some ids, `id` among them.
pub open spec fn lost(before: Multiset<u128>, after: Multiset<u128>, id: u128) -> bool {
    &&& after.count(id) + 1 <= before.count(id)
    &&& forall|j: u128| after.count(j) <= before.count(j)
}

proof fn lemma_remove_bag_slots<T>(s: Seq<Slot<T>>, id: u128)
    requires
        remove_in_slots(s, id) is Some,
    ensures
        lost(slots_bag(s), slots_bag(remove_in_slots(s, id)->0), id),
    decreases s, 0nat,
{
    let s2 = remove_in_slots(s, id)->0;
    let d = s.drop_last();
    match remove_in_slots(d, id) {
        Some(p) => {
            lemma_remove_bag_slots(d, id);
            assert(s2.drop_last() =~= p);
            assert(s2.last() == s.last());
            assert(slots_bag(s2) == slots_bag(p).add(slot_bag(s.last())));
            assert(slots_bag(s) == slots_bag(d).add(slot_bag(s.last())));
        },
        None => {
            match s.last() {
                Slot::Hole(Some(m)) => {
                    let m2 = remove_at(m, id)->Ok_0;
                    lemma_remove_bag(m, id);
                    assert(s2.drop_last() =~= d);
                    assert(s2.last() == Slot::Hole(Some(m2)));
                    assert(slot_bag(s.last()) == id_bag(m));
                    assert(slot_bag(s2.last()) == id_bag(m2));
                    assert(slots_bag(s2) == slots_bag(d).add(id_bag(m2)));
                    assert(slots_bag(s) == slots_bag(d).add(id_bag(m)));
                },
                _ => {},
            }
        },
    }
}

proof fn lemma_remove_bag_in_list<T>(l: Seq<Block<T>>, id: u128)
    requires
        remove_in_list(l, id) is Some,
    ensures
        lost(list_bag(l), list_bag(remove_in_list(l, id)->0), id),
    decreases l, 0nat,
{
    let l2 = remove_in_list(l, id)->0;
    let d = l.drop_last();
    match remove_in_list(d, id) {
        Some(p) => {
            lemma_remove_bag_in_list(d, id);
            assert(l2.drop_last() =~= p);
            assert(l2.last() == l.last());
        },
        None => {
            lemma_remove_bag(l.last(), id);
            assert(l2.drop_last() =~= d);
            assert(l2.last() == remove_at(l.last(), id)->Ok_0);
        },
    }
}

proof fn lemma_remove_bag_list<T>(l: Seq<Block<T>>, id: u128)
    requires
        remove_from_list(l, id) is Some,
    ensures
        lost(list_bag(l), list_bag(remove_from_list(l, id)->0), id),
    decreases l, 1nat,
{
    match index_of_id(l, id) {
        Some(k) => {
            lemma_index_of_id(l, id);
            lemma_list_bag_remove(l, k);
        },
        None => {
            lemma_remove_bag_in_list(l, id);
        },
    }
}

/// After a removal a subtree holds no id more often than before, and the
/// removed id less often.
pub proof fn lemma_remove_bag<T>(b: Block<T>, id: u128)
    requires
        remove_at(b, id) is Ok,
    ensures
        lost(id_bag(b), id_bag(remove_at(b, id)->Ok_0), id),
    decreases b,
{
    match index_of_occupant(b.slots, id) {
        Some(k) => {
            lemma_index_of_occupant(b.slots, id);
            lemma_slots_bag_update(b.slots, k, Slot::Hole(None));
            let m = b.slots[k].occupant()->0;
            lemma_nodes_head(m);
            assert(slot_bag(b.slots[k]) == id_bag(m));
            assert(id_bag(m).count(id) >= 1);
            assert(slot_bag(Slot::<T>::Hole(None)) =~= Multiset::<u128>::empty());
            assert(slots_bag(b.slots.update(k, Slot::Hole(None))).add(id_bag(m)) =~= slots_bag(b.slots));
        },
        None => match remove_in_slots(b.slots, id) {
            Some(slots) => {
                lemma_remove_bag_slots(b.slots, id);
            },
            None => match b.child {
                Container::NoBlock => {},
                Container::Vertical(l) => {
                    lemma_remove_bag_list(l, id);
                },
                Container::Horizontal(l) => {
                    lemma_remove_bag_list(l, id);
                },
            },
        },
    }
}

// ---------------------------------------------------------------------------
// The laws
// ---------------------------------------------------------------------------

/// Ids stay unique through an insertion: where no id occurs twice in the
/// block, nor in the block that comes in, and the two have no id in common,
/// no id occurs twice afterwards.
pub proof fn law_add_keeps_ids_unique<T>(
    b: Block<T>,
    target: u128,
    index: DotEveryEditorOperationIndex,
    x: Block<T>,
)
    requires
        unique_ids(b),
        unique_ids(x),
        apart(id_bag(b), id_bag(x)),
        add_at(b, target, index, x) is Ok,
    ensures
        unique_ids(add_at(b, target, index, x)->Ok_0),
{
    lemma_add_bag(b, target, index, x);
}

/// Ids stay unique through a removal, and where they are unique the id that
/// was removed is gone from the block.
pub proof fn law_remove_keeps_ids_unique<T>(b: Block<T>, id: u128)
    requires
        unique_ids(b),
        remove_at(b, id) is Ok,
    ensures
        unique_ids(remove_at(b, id)->Ok_0),
        !remove_at(b, id)->Ok_0.contains_id(id) || remove_at(b, id)->Ok_0.id == id,
{
    let b2 = remove_at(b, id)->Ok_0;
    lemma_remove_bag(b, id);
    assert forall|j: u128| id_bag(b2).count(j) <= 1 by {
        assert(id_bag(b2).count(j) <= id_bag(b).count(j));
    }
    assert(id_bag(b2).count(id) == 0);
    lemma_bag_nodes(b2, id);
}

/// Ids stay unique in a document through an insertion of a block with new
/// ids and through a removal; and a removed id can be found no more.
pub proof fn law_document_keeps_ids_unique<T>(
    d: Document<T>,
    target: u128,
    index: DotEveryEditorOperationIndex,
    x: Block<T>,
    id: u128,
)
    requires
        d.unique_ids(),
    ensures
        unique_ids(x) && apart(d.id_bag(), id_bag(x)) && d.add(target, index, x) is Ok ==> d.add(
            target,
            index,
            x,
        )->Ok_0.unique_ids(),
        d.remove(id) is Ok ==> d.remove(id)->Ok_0.unique_ids() && d.remove(id)->Ok_0.find(id) is None,
{
    if unique_ids(x) && apart(d.id_bag(), id_bag(x)) && d.add(target, index, x) is Ok {
        let d2 = d.add(target, index, x)->Ok_0;
        if d.is_root(target) {
            let i = index->Child_0 as int;
            lemma_bag_with_parent(x, Some(d.id));
            lemma_list_bag_insert(d.list, i, x.with_parent(Some(d.id)));
        } else {
            lemma_add_bag_list(d.list, target, index, x);
        }
        assert(d2.id_bag() =~= d.id_bag().add(id_bag(x)));
        assert forall|j: u128| d2.id_bag().count(j) <= 1 by {
            assert(d.id_bag().count(j) <= 1);
            assert(id_bag(x).count(j) <= 1);
        }
    }
    if d.remove(id) is Ok {
        let d2 = d.remove(id)->Ok_0;
        lemma_remove_bag_list(d.list, id);
        assert forall|j: u128| d2.id_bag().count(j) <= 1 by {
            assert(list_bag(d2.list).count(j) <= list_bag(d.list).count(j));
            assert(d.id_bag().count(j) <= 1);
        }
        assert(d.id_bag().count(id) <= 1);
        assert(list_bag(d2.list).count(id) == 0);
        lemma_document_bag_nodes(d2, id);
    }
}

} // verus!
