use vstd::prelude::*;
use crate::logic::dotevery_editor::{DotEveryEditorErrorMessage, DotEveryEditorOperationIndex};
use crate::logic::model::{
    add_at, add_in_list, add_in_slots, container_nodes, fill, first_with_id, has_id, index_of_id,
    index_of_occupant, insert_child, isomorphic, lemma_find_unfold, lemma_first_with_id,
    lemma_first_with_id_add, lemma_index_of_id, lemma_index_of_id_is, lemma_index_of_occupant,
    lemma_index_of_occupant_is, lemma_isomorphic_with_parent, lemma_list_first_hit, lemma_slots_first_hit,
    list_isomorphic, list_linked, list_nodes, nth_counted, place, remove_at, remove_from_container,
    remove_from_list, remove_in_list, remove_in_slots, slot_isomorphic, slot_nodes, slots_isomorphic,
    slots_linked, slots_nodes, well_linked, Block, Container, Document, Slot,
};

verus! {

// ---------------------------------------------------------------------------
// Facts on which the laws rest
// ---------------------------------------------------------------------------

/// An id occurs in two runs laid end to end exactly when it occurs in one.
pub proof fn lemma_has_id_add<T>(a: Seq<Block<T>>, b: Seq<Block<T>>, id: u128)
    ensures
        has_id(a + b, id) <==> has_id(a, id) || has_id(b, id),
{
    if has_id(a + b, id) {
        let i = choose|i: int| 0 <= i < (a + b).len() && (#[trigger] (a + b)[i]).id == id;
        if i < a.len() {
            assert(a[i] == (a + b)[i]);
        } else {
            assert(b[i - a.len()] == (a + b)[i]);
        }
    }
    if has_id(a, id) {
        let i = choose|i: int| 0 <= i < a.len() && (#[trigger] a[i]).id == id;
        assert((a + b)[i] == a[i]);
    }
    if has_id(b, id) {
        let i = choose|i: int| 0 <= i < b.len() && (#[trigger] b[i]).id == id;
        assert((a + b)[i + a.len()] == b[i]);
    }
}

/// A block is the first of its own nodes.
pub proof fn lemma_nodes_head<T>(b: Block<T>)
    ensures
        b.nodes().len() > 0,
        b.nodes()[0] == b,
        b.nodes() == seq![b] + b.descendants(),
{
    assert(b.nodes() =~= seq![b] + b.descendants());
}

/// An id that does not occur in a block's subtree is neither the block's own
/// nor that of a node below it.
pub proof fn lemma_absent_parts<T>(b: Block<T>, id: u128)
    requires
        !has_id(b.nodes(), id),
    ensures
        b.id != id,
        !has_id(slots_nodes(b.slots), id),
        !has_id(container_nodes(b.child), id),
{
    lemma_nodes_head(b);
    lemma_has_id_add(seq![b], b.descendants(), id);
    lemma_has_id_add(slots_nodes(b.slots), container_nodes(b.child), id);
    assert(seq![b][0].id == b.id);
}

/// An id that does not occur below a run of slots occurs below none of them,
/// nor below a shorter run.
pub proof fn lemma_absent_slot<T>(s: Seq<Slot<T>>, id: u128, j: int)
    requires
        !has_id(slots_nodes(s), id),
        0 <= j < s.len(),
    ensures
        !has_id(slot_nodes(s[j]), id),
        !has_id(slots_nodes(s.drop_last()), id),
    decreases s.len(),
{
    lemma_has_id_add(slots_nodes(s.drop_last()), slot_nodes(s.last()), id);
    if j < s.len() - 1 {
        lemma_absent_slot(s.drop_last(), id, j);
    }
}

/// An id that does not occur in a list of blocks occurs in none of their
/// subtrees, nor in a shorter list.
pub proof fn lemma_absent_member<T>(l: Seq<Block<T>>, id: u128, j: int)
    requires
        !has_id(list_nodes(l), id),
        0 <= j < l.len(),
    ensures
        !has_id(l[j].nodes(), id),
        !has_id(list_nodes(l.drop_last()), id),
    decreases l.len(),
{
    lemma_has_id_add(list_nodes(l.drop_last()), l.last().nodes(), id);
    if j < l.len() - 1 {
        lemma_absent_member(l.drop_last(), id, j);
    }
}

/// Nothing can be removed under an id that does not occur below the slots.
pub proof fn lemma_remove_absent_slots<T>(s: Seq<Slot<T>>, id: u128)
    requires
        !has_id(slots_nodes(s), id),
    ensures
        index_of_occupant(s, id) is None,
        remove_in_slots(s, id) is None,
    decreases s, 0nat,
{
    if s.len() > 0 {
        lemma_absent_slot(s, id, s.len() - 1);
        lemma_remove_absent_slots(s.drop_last(), id);
        match s.last() {
            Slot::Hole(Some(m)) => {
                lemma_absent_parts(m, id);
                lemma_remove_absent(m, id);
            },
            _ => {},
        }
    }
}

/// Nothing can be removed under an id that does not occur in the list.
pub proof fn lemma_remove_absent_list<T>(l: Seq<Block<T>>, id: u128)
    requires
        !has_id(list_nodes(l), id),
    ensures
        index_of_id(l, id) is None,
        remove_in_list(l, id) is None,
        remove_from_list(l, id) is None,
    decreases l, 0nat,
{
    if l.len() > 0 {
        lemma_absent_member(l, id, l.len() - 1);
        lemma_remove_absent_list(l.drop_last(), id);
        lemma_absent_parts(l.last(), id);
        lemma_remove_absent(l.last(), id);
    }
}

/// Removal fails where no node below the block carries the id.
pub proof fn lemma_remove_absent<T>(b: Block<T>, id: u128)
    requires
        !has_id(slots_nodes(b.slots), id),
        !has_id(container_nodes(b.child), id),
    ensures
        remove_at(b, id) == Err::<Block<T>, _>(DotEveryEditorErrorMessage::NotFound),
    decreases b,
{
    lemma_remove_absent_slots(b.slots, id);
    match b.child {
        Container::NoBlock => {},
        Container::Vertical(l) => {
            lemma_remove_absent_list(l, id);
        },
        Container::Horizontal(l) => {
            lemma_remove_absent_list(l, id);
        },
    }
}

/// The nodes of a container are those of its list.
pub proof fn lemma_container_nodes<T>(c: Container<T>)
    ensures
        container_nodes(c) == list_nodes(c.list()),
{
}

// ---------------------------------------------------------------------------
// Insertion, then removal
// ---------------------------------------------------------------------------

proof fn lemma_add_remove_slots<T>(
    s: Seq<Slot<T>>,
    target: u128,
    index: DotEveryEditorOperationIndex,
    x: Block<T>,
)
    requires
        !has_id(slots_nodes(s), x.id),
        add_in_slots(s, target, index, x) is Some,
        add_in_slots(s, target, index, x)->0 is Ok,
    ensures
        index_of_occupant(add_in_slots(s, target, index, x)->0->Ok_0, x.id) is None,
        remove_in_slots(add_in_slots(s, target, index, x)->0->Ok_0, x.id) == Some(s),
    decreases s, 0nat,
{
    let s2 = add_in_slots(s, target, index, x)->0->Ok_0;
    let d = s.drop_last();
    lemma_absent_slot(s, x.id, s.len() - 1);
    match add_in_slots(d, target, index, x) {
        Some(Ok(p)) => {
            lemma_add_remove_slots(d, target, index, x);
            assert(s2.drop_last() =~= p);
            assert(s2.last() == s.last());
            match s.last() {
                Slot::Hole(Some(m)) => {
                    lemma_absent_parts(m, x.id);
                },
                _ => {},
            }
            assert(d.push(s.last()) =~= s);
        },
        Some(Err(_)) => {},
        None => {
            match s.last() {
                Slot::Hole(Some(m)) => {
                    let m2 = add_at(m, target, index, x)->Ok_0;
                    lemma_absent_parts(m, x.id);
                    lemma_add_remove(m, target, index, x);
                    lemma_remove_absent_slots(d, x.id);
                    assert(s2.drop_last() =~= d);
                    assert(s2.last() == Slot::Hole(Some(m2)));
                    assert(d.push(Slot::Hole(Some(m))) =~= s);
                },
                _ => {},
            }
        },
    }
}

proof fn lemma_add_remove_list<T>(
    l: Seq<Block<T>>,
    target: u128,
    index: DotEveryEditorOperationIndex,
    x: Block<T>,
)
    requires
        !has_id(list_nodes(l), x.id),
        add_in_list(l, target, index, x) is Some,
        add_in_list(l, target, index, x)->0 is Ok,
    ensures
        remove_from_list(add_in_list(l, target, index, x)->0->Ok_0, x.id) == Some(l),
        index_of_id(add_in_list(l, target, index, x)->0->Ok_0, x.id) is None,
        remove_in_list(add_in_list(l, target, index, x)->0->Ok_0, x.id) == Some(l),
    decreases l, 0nat,
{
    let l2 = add_in_list(l, target, index, x)->0->Ok_0;
    let d = l.drop_last();
    lemma_absent_member(l, x.id, l.len() - 1);
    lemma_absent_parts(l.last(), x.id);
    match add_in_list(d, target, index, x) {
        Some(Ok(p)) => {
            lemma_add_remove_list(d, target, index, x);
            assert(l2.drop_last() =~= p);
            assert(l2.last() == l.last());
            lemma_remove_absent(l.last(), x.id);
            assert(d.push(l.last()) =~= l);
        },
        Some(Err(_)) => {},
        None => {
            let m2 = add_at(l.last(), target, index, x)->Ok_0;
            lemma_add_remove(l.last(), target, index, x);
            lemma_remove_absent_list(d, x.id);
            assert(l2.drop_last() =~= d);
            assert(l2.last() == m2);
            assert(d.push(l.last()) =~= l);
        },
    }
}

/// A hole that has just been filled is emptied again by removing its occupant.
proof fn lemma_fill_remove<T>(b: Block<T>, k: int, y: Block<T>)
    requires
        !b.contains_id(y.id),
        fill(b, k, y) is Ok,
    ensures
        remove_at(fill(b, k, y)->Ok_0, y.id) == Ok::<_, DotEveryEditorErrorMessage>(b),
{
    let id = y.id;
    let b2 = fill(b, k, y)->Ok_0;
    lemma_absent_parts(b, id);
    assert(b2.slots == b.slots.update(k, Slot::Hole(Some(y))));
    assert forall|j: int| 0 <= j < k implies !((#[trigger] b2.slots[j]).occupant() is Some
        && b2.slots[j].occupant()->0.id == id) by {
        if b.slots[j].occupant() is Some {
            lemma_absent_slot(b.slots, id, j);
            lemma_nodes_head(b.slots[j].occupant()->0);
            assert(b.slots[j].occupant()->0.nodes()[0].id != id);
        }
    }
    lemma_index_of_occupant_is(b2.slots, id, k);
    assert(b2.slots.update(k, Slot::Hole(None)) =~= b.slots);
}

/// A block that has just been put into a container list leaves it again
/// when it is removed.
proof fn lemma_insert_child_remove<T>(b: Block<T>, i: int, y: Block<T>)
    requires
        !b.contains_id(y.id),
        insert_child(b, i, y) is Ok,
    ensures
        remove_at(insert_child(b, i, y)->Ok_0, y.id) == Ok::<_, DotEveryEditorErrorMessage>(b),
{
    let id = y.id;
    let b2 = insert_child(b, i, y)->Ok_0;
    lemma_absent_parts(b, id);
    lemma_remove_absent_slots(b.slots, id);
    lemma_container_nodes(b.child);
    let l = b.child.list();
    let l2 = l.insert(i, y);
    assert(b2.child.list() == l2);
    assert forall|j: int| 0 <= j < i implies (#[trigger] l2[j]).id != id by {
        lemma_absent_member(l, id, j);
        lemma_nodes_head(l[j]);
        assert(l[j].nodes()[0].id != id);
    }
    lemma_index_of_id_is(l2, id, i);
    assert(l2.remove(i) =~= l);
    assert(remove_from_list(l2, id) == Some(l));
    match b.child {
        Container::NoBlock => {},
        Container::Vertical(_) => {
            assert(remove_from_container(b2.child, id) == Some(b.child));
        },
        Container::Horizontal(_) => {
            assert(remove_from_container(b2.child, id) == Some(b.child));
        },
    }
}

/// A block that did not hold the new node's id is itself again once the node
/// that was added has been removed.
pub proof fn lemma_add_remove<T>(b: Block<T>, target: u128, index: DotEveryEditorOperationIndex, x: Block<T>)
    requires
        !b.contains_id(x.id),
        add_at(b, target, index, x) is Ok,
    ensures
        remove_at(add_at(b, target, index, x)->Ok_0, x.id) == Ok::<_, DotEveryEditorErrorMessage>(b),
        add_at(b, target, index, x)->Ok_0.id == b.id,
    decreases b,
{
    let b2 = add_at(b, target, index, x)->Ok_0;
    let id = x.id;
    lemma_absent_parts(b, id);
    lemma_remove_absent_slots(b.slots, id);
    lemma_container_nodes(b.child);
    lemma_remove_absent_list(b.child.list(), id);
    if b.id == target {
        let y = x.with_parent(Some(b.id));
        match index {
            DotEveryEditorOperationIndex::OptionAbsolute(i) => {
                lemma_fill_remove(b, i as int, y);
            },
            DotEveryEditorOperationIndex::OptionInputFiltered(i) => {
                lemma_fill_remove(b, nth_counted(b.slots, 0, i as nat, false)->0, y);
            },
            DotEveryEditorOperationIndex::OptionProgramModuleFiltered(i) => {
                lemma_fill_remove(b, nth_counted(b.slots, 0, i as nat, true)->0, y);
            },
            DotEveryEditorOperationIndex::Child(i) => {
                lemma_insert_child_remove(b, i as int, y);
            },
        }
    } else {
        match add_in_slots(b.slots, target, index, x) {
            Some(Ok(slots)) => {
                lemma_add_remove_slots(b.slots, target, index, x);
                assert(b2 == Block { slots, ..b });
                assert(remove_at(b2, id) == Ok::<_, DotEveryEditorErrorMessage>(Block { slots: b.slots, ..b2 }));
            },
            Some(Err(_)) => {},
            None => {
                assert(b2.slots == b.slots);
                match b.child {
                    Container::NoBlock => {},
                    Container::Vertical(l) => {
                        lemma_add_remove_list(l, target, index, x);
                        let l2 = add_in_list(l, target, index, x)->0->Ok_0;
                        assert(b2.child == Container::Vertical(l2));
                        assert(remove_from_container(b2.child, id) == Some(b.child));
                    },
                    Container::Horizontal(l) => {
                        lemma_add_remove_list(l, target, index, x);
                        let l2 = add_in_list(l, target, index, x)->0->Ok_0;
                        assert(b2.child == Container::Horizontal(l2));
                        assert(remove_from_container(b2.child, id) == Some(b.child));
                    },
                }
            },
        }
    }
}

/// `add` followed by `remove` of the node that was added gives back the
/// block as it was, whichever addressing mode placed the node, provided the
/// node's id was new to the block.
pub proof fn law_add_then_remove_restores<T>(
    b: Block<T>,
    target: u128,
    index: DotEveryEditorOperationIndex,
    x: Block<T>,
)
    requires
        !b.contains_id(x.id),
        add_at(b, target, index, x) is Ok,
    ensures
        remove_at(add_at(b, target, index, x)->Ok_0, x.id) == Ok::<_, DotEveryEditorErrorMessage>(b),
{
    lemma_add_remove(b, target, index, x);
}

/// `add` followed by `remove` of the node that was added gives back the
/// document as it was, provided the node's id was new to the document.
pub proof fn law_document_add_then_remove_restores<T>(
    d: Document<T>,
    target: u128,
    index: DotEveryEditorOperationIndex,
    x: Block<T>,
)
    requires
        !has_id(d.nodes(), x.id),
        d.add(target, index, x) is Ok,
    ensures
        d.add(target, index, x)->Ok_0.remove(x.id) == Ok::<_, DotEveryEditorErrorMessage>(d),
{
    let id = x.id;
    if d.is_root(target) {
        let i = index->Child_0 as int;
        let y = x.with_parent(Some(d.id));
        let l2 = d.list.insert(i, y);
        assert forall|j: int| 0 <= j < i implies (#[trigger] l2[j]).id != id by {
            lemma_absent_member(d.list, id, j);
            lemma_nodes_head(d.list[j]);
        }
        lemma_index_of_id_is(l2, id, i);
        assert(l2.remove(i) =~= d.list);
    } else {
        lemma_add_remove_list(d.list, target, index, x);
    }
}

// ---------------------------------------------------------------------------
// Which node an insertion reaches, and when it fails
// ---------------------------------------------------------------------------

/// Placing a block directly under a node never fails with `NotFound`.
pub proof fn lemma_place_errors<T>(n: Block<T>, index: DotEveryEditorOperationIndex, x: Block<T>)
    ensures
        place(n, index, x) != Err::<Block<T>, _>(DotEveryEditorErrorMessage::NotFound),
{
}

proof fn lemma_add_by_target_slots<T>(
    s: Seq<Slot<T>>,
    target: u128,
    index: DotEveryEditorOperationIndex,
    x: Block<T>,
)
    ensures
        match first_with_id(slots_nodes(s), target) {
            None => add_in_slots(s, target, index, x) is None,
            Some(n) => match place(n, index, x) {
                Ok(_) => add_in_slots(s, target, index, x) is Some && add_in_slots(s, target, index, x)->0 is Ok,
                Err(e) => add_in_slots(s, target, index, x) == Some(Err::<Seq<Slot<T>>, _>(e)),
            },
        },
    decreases s, 0nat,
{
    if s.len() > 0 {
        let d = s.drop_last();
        lemma_add_by_target_slots(d, target, index, x);
        lemma_first_with_id_add(slots_nodes(d), slot_nodes(s.last()), target);
        match s.last() {
            Slot::Hole(Some(m)) => {
                lemma_add_by_target(m, target, index, x);
                if m.find(target) is Some {
                    lemma_place_errors(m.find(target)->0, index, x);
                }
            },
            _ => {},
        }
    }
}

proof fn lemma_add_by_target_list<T>(
    l: Seq<Block<T>>,
    target: u128,
    index: DotEveryEditorOperationIndex,
    x: Block<T>,
)
    ensures
        match first_with_id(list_nodes(l), target) {
            None => add_in_list(l, target, index, x) is None,
            Some(n) => match place(n, index, x) {
                Ok(_) => add_in_list(l, target, index, x) is Some && add_in_list(l, target, index, x)->0 is Ok,
                Err(e) => add_in_list(l, target, index, x) == Some(Err::<Seq<Block<T>>, _>(e)),
            },
        },
    decreases l, 0nat,
{
    if l.len() > 0 {
        let d = l.drop_last();
        lemma_add_by_target_list(d, target, index, x);
        lemma_first_with_id_add(list_nodes(d), l.last().nodes(), target);
        lemma_add_by_target(l.last(), target, index, x);
        if l.last().find(target) is Some {
            lemma_place_errors(l.last().find(target)->0, index, x);
        }
    }
}

/// An insertion reaches the first node, in traversal order, whose id is the
/// target: it fails with `NotFound` exactly when there is no such node, and
/// otherwise succeeds or fails as placing the block under that node does.
pub proof fn lemma_add_by_target<T>(b: Block<T>, target: u128, index: DotEveryEditorOperationIndex, x: Block<T>)
    ensures
        match b.find(target) {
            None => add_at(b, target, index, x) == Err::<Block<T>, _>(DotEveryEditorErrorMessage::NotFound),
            Some(n) => match place(n, index, x) {
                Ok(_) => add_at(b, target, index, x) is Ok,
                Err(e) => add_at(b, target, index, x) == Err::<Block<T>, _>(e),
            },
        },
    decreases b,
{
    lemma_find_unfold(b, target);
    if b.id != target {
        lemma_add_by_target_slots(b.slots, target, index, x);
        match b.child {
            Container::NoBlock => {},
            Container::Vertical(l) => {
                lemma_add_by_target_list(l, target, index, x);
            },
            Container::Horizontal(l) => {
                lemma_add_by_target_list(l, target, index, x);
            },
        }
    }
}

/// Whether the position that `index` addresses in `n` is a hole that holds a block.
pub open spec fn addresses_occupied_hole<T>(n: Block<T>, index: DotEveryEditorOperationIndex) -> bool {
    match index {
        DotEveryEditorOperationIndex::OptionAbsolute(i) => i < n.slots.len() && n.slots[i as int].occupant() is Some,
        DotEveryEditorOperationIndex::OptionInputFiltered(i) => {
            let k = nth_counted(n.slots, 0, i as nat, false);
            k is Some && n.slots[k->0].occupant() is Some
        },
        DotEveryEditorOperationIndex::OptionProgramModuleFiltered(i) => {
            let k = nth_counted(n.slots, 0, i as nat, true);
            k is Some && n.slots[k->0].occupant() is Some
        },
        DotEveryEditorOperationIndex::Child(_) => false,
    }
}

/// The position that `nth_counted` gives lies within the slots.
pub proof fn lemma_nth_counted_range<T>(slots: Seq<Slot<T>>, from: int, n: nat, holes_only: bool)
    requires
        0 <= from,
    ensures
        nth_counted(slots, from, n, holes_only) is Some ==> from <= nth_counted(slots, from, n, holes_only)->0
            < slots.len() && slots[nth_counted(slots, from, n, holes_only)->0].counts(holes_only),
    decreases slots.len() - from,
{
    if from < slots.len() {
        if slots[from].counts(holes_only) {
            if n > 0 {
                lemma_nth_counted_range(slots, from + 1, (n - 1) as nat, holes_only);
            }
        } else {
            lemma_nth_counted_range(slots, from + 1, n, holes_only);
        }
    }
}

/// An insertion into a hole that already holds a block always fails with
/// `CanNotReplace`, whichever of the three slot addressing modes names the hole.
pub proof fn law_occupied_hole_refuses<T>(
    b: Block<T>,
    target: u128,
    index: DotEveryEditorOperationIndex,
    x: Block<T>,
)
    requires
        b.find(target) is Some,
        addresses_occupied_hole(b.find(target)->0, index),
    ensures
        add_at(b, target, index, x) == Err::<Block<T>, _>(DotEveryEditorErrorMessage::CanNotReplace),
{
    let n = b.find(target)->0;
    lemma_add_by_target(b, target, index, x);
    lemma_nth_counted_range(n.slots, 0, index_number(index) as nat, false);
    lemma_nth_counted_range(n.slots, 0, index_number(index) as nat, true);
}

/// The number that an index carries.
pub open spec fn index_number(index: DotEveryEditorOperationIndex) -> usize {
    match index {
        DotEveryEditorOperationIndex::OptionAbsolute(i) => i,
        DotEveryEditorOperationIndex::OptionInputFiltered(i) => i,
        DotEveryEditorOperationIndex::OptionProgramModuleFiltered(i) => i,
        DotEveryEditorOperationIndex::Child(i) => i,
    }
}

/// An insertion into an occupied hole of a document's node always fails
/// with `CanNotReplace`.
pub proof fn law_document_occupied_hole_refuses<T>(
    d: Document<T>,
    target: u128,
    index: DotEveryEditorOperationIndex,
    x: Block<T>,
)
    requires
        !d.is_root(target),
        d.find(target) is Some,
        addresses_occupied_hole(d.find(target)->0, index),
    ensures
        d.add(target, index, x) == Err::<Document<T>, _>(DotEveryEditorErrorMessage::CanNotReplace),
{
    let n = d.find(target)->0;
    lemma_add_by_target_list(d.list, target, index, x);
    lemma_nth_counted_range(n.slots, 0, index_number(index) as nat, false);
    lemma_nth_counted_range(n.slots, 0, index_number(index) as nat, true);
}

// ---------------------------------------------------------------------------
// Insertion, then lookup
// ---------------------------------------------------------------------------

/// Every block is like itself.
pub proof fn lemma_isomorphic_reflexive<T>(b: Block<T>)
    ensures
        isomorphic(b, b),
    decreases b,
{
    assert forall|i: int| 0 <= i < b.slots.len() implies slot_isomorphic(#[trigger] b.slots[i], b.slots[i]) by {
        match b.slots[i] {
            Slot::Hole(Some(m)) => {
                lemma_isomorphic_reflexive(m);
            },
            _ => {},
        }
    }
    assert(slots_isomorphic(b.slots, b.slots));
    match b.child {
        Container::NoBlock => {},
        Container::Vertical(l) => {
            assert forall|i: int| 0 <= i < l.len() implies isomorphic(#[trigger] l[i], l[i]) by {
                lemma_isomorphic_reflexive(l[i]);
            }
            assert(list_isomorphic(l, l));
        },
        Container::Horizontal(l) => {
            assert forall|i: int| 0 <= i < l.len() implies isomorphic(#[trigger] l[i], l[i]) by {
                lemma_isomorphic_reflexive(l[i]);
            }
            assert(list_isomorphic(l, l));
        },
    }
}

/// Below slots none of which holds the id, lookup finds nothing.
proof fn lemma_absent_slots_lookup<T>(s: Seq<Slot<T>>, id: u128)
    requires
        !has_id(slots_nodes(s), id),
    ensures
        first_with_id(slots_nodes(s), id) is None,
        forall|j: int| 0 <= j < s.len() ==> first_with_id(slot_nodes(#[trigger] s[j]), id) is None,
{
    lemma_first_with_id(slots_nodes(s), id);
    assert forall|j: int| 0 <= j < s.len() implies first_with_id(slot_nodes(#[trigger] s[j]), id) is None by {
        lemma_absent_slot(s, id, j);
        lemma_first_with_id(slot_nodes(s[j]), id);
    }
}

/// In a list none of whose blocks holds the id, lookup finds nothing.
proof fn lemma_absent_list_lookup<T>(l: Seq<Block<T>>, id: u128)
    requires
        !has_id(list_nodes(l), id),
    ensures
        first_with_id(list_nodes(l), id) is None,
        forall|j: int| 0 <= j < l.len() ==> first_with_id((#[trigger] l[j]).nodes(), id) is None,
{
    lemma_first_with_id(list_nodes(l), id);
    assert forall|j: int| 0 <= j < l.len() implies first_with_id((#[trigger] l[j]).nodes(), id) is None by {
        lemma_absent_member(l, id, j);
        lemma_first_with_id(l[j].nodes(), id);
    }
}

/// Lookup of a block's own id in its own nodes finds the block.
proof fn lemma_find_self<T>(y: Block<T>)
    ensures
        first_with_id(y.nodes(), y.id) == Some(y),
{
    lemma_nodes_head(y);
}

proof fn lemma_fill_find<T>(b: Block<T>, k: int, y: Block<T>)
    requires
        !b.contains_id(y.id),
        fill(b, k, y) is Ok,
    ensures
        fill(b, k, y)->Ok_0.find(y.id) == Some(y),
{
    let id = y.id;
    let b2 = fill(b, k, y)->Ok_0;
    lemma_absent_parts(b, id);
    lemma_absent_slots_lookup(b.slots, id);
    lemma_find_self(y);
    assert forall|j: int| 0 <= j < k implies first_with_id(slot_nodes(#[trigger] b2.slots[j]), id) is None by {
        assert(b2.slots[j] == b.slots[j]);
    }
    lemma_slots_first_hit(b2.slots, k, id, y);
    lemma_find_unfold(b2, id);
}

proof fn lemma_insert_child_find<T>(b: Block<T>, i: int, y: Block<T>)
    requires
        !b.contains_id(y.id),
        insert_child(b, i, y) is Ok,
    ensures
        insert_child(b, i, y)->Ok_0.find(y.id) == Some(y),
{
    let id = y.id;
    let b2 = insert_child(b, i, y)->Ok_0;
    lemma_absent_parts(b, id);
    lemma_absent_slots_lookup(b.slots, id);
    lemma_container_nodes(b.child);
    lemma_container_nodes(b2.child);
    let l = b.child.list();
    let l2 = l.insert(i, y);
    assert(b2.child.list() == l2);
    lemma_absent_list_lookup(l, id);
    lemma_find_self(y);
    assert forall|j: int| 0 <= j < i implies first_with_id((#[trigger] l2[j]).nodes(), id) is None by {
        assert(l2[j] == l[j]);
    }
    lemma_list_first_hit(l2, i, id, y);
    lemma_find_unfold(b2, id);
}

proof fn lemma_add_find_slots<T>(s: Seq<Slot<T>>, target: u128, index: DotEveryEditorOperationIndex, x: Block<T>)
    requires
        !has_id(slots_nodes(s), x.id),
        add_in_slots(s, target, index, x) is Some,
        add_in_slots(s, target, index, x)->0 is Ok,
    ensures
        first_with_id(slots_nodes(add_in_slots(s, target, index, x)->0->Ok_0), x.id) == Some(
            x.with_parent(Some(target)),
        ),
    decreases s, 0nat,
{
    let s2 = add_in_slots(s, target, index, x)->0->Ok_0;
    let d = s.drop_last();
    lemma_absent_slot(s, x.id, s.len() - 1);
    match add_in_slots(d, target, index, x) {
        Some(Ok(p)) => {
            lemma_add_find_slots(d, target, index, x);
            assert(s2.drop_last() =~= p);
            assert(s2.last() == s.last());
            lemma_first_with_id_add(slots_nodes(p), slot_nodes(s.last()), x.id);
        },
        Some(Err(_)) => {},
        None => {
            match s.last() {
                Slot::Hole(Some(m)) => {
                    let m2 = add_at(m, target, index, x)->Ok_0;
                    lemma_add_find(m, target, index, x);
                    lemma_absent_slots_lookup(d, x.id);
                    assert(s2.drop_last() =~= d);
                    assert(s2.last() == Slot::Hole(Some(m2)));
                    lemma_first_with_id_add(slots_nodes(d), slot_nodes(s2.last()), x.id);
                },
                _ => {},
            }
        },
    }
}

proof fn lemma_add_find_list<T>(l: Seq<Block<T>>, target: u128, index: DotEveryEditorOperationIndex, x: Block<T>)
    requires
        !has_id(list_nodes(l), x.id),
        add_in_list(l, target, index, x) is Some,
        add_in_list(l, target, index, x)->0 is Ok,
    ensures
        first_with_id(list_nodes(add_in_list(l, target, index, x)->0->Ok_0), x.id) == Some(
            x.with_parent(Some(target)),
        ),
    decreases l, 0nat,
{
    let l2 = add_in_list(l, target, index, x)->0->Ok_0;
    let d = l.drop_last();
    lemma_absent_member(l, x.id, l.len() - 1);
    match add_in_list(d, target, index, x) {
        Some(Ok(p)) => {
            lemma_add_find_list(d, target, index, x);
            assert(l2.drop_last() =~= p);
            assert(l2.last() == l.last());
            lemma_first_with_id_add(list_nodes(p), l.last().nodes(), x.id);
        },
        Some(Err(_)) => {},
        None => {
            let m2 = add_at(l.last(), target, index, x)->Ok_0;
            lemma_add_find(l.last(), target, index, x);
            lemma_absent_list_lookup(d, x.id);
            assert(l2.drop_last() =~= d);
            assert(l2.last() == m2);
            lemma_first_with_id_add(list_nodes(d), m2.nodes(), x.id);
        },
    }
}

/// After an insertion, lookup of the new node's id finds the new node,
/// with the target as its parent, provided the id was new to the block.
pub proof fn lemma_add_find<T>(b: Block<T>, target: u128, index: DotEveryEditorOperationIndex, x: Block<T>)
    requires
        !b.contains_id(x.id),
        add_at(b, target, index, x) is Ok,
    ensures
        add_at(b, target, index, x)->Ok_0.find(x.id) == Some(x.with_parent(Some(target))),
    decreases b,
{
    let b2 = add_at(b, target, index, x)->Ok_0;
    let id = x.id;
    lemma_absent_parts(b, id);
    if b.id == target {
        let y = x.with_parent(Some(b.id));
        match index {
            DotEveryEditorOperationIndex::OptionAbsolute(i) => {
                lemma_fill_find(b, i as int, y);
            },
            DotEveryEditorOperationIndex::OptionInputFiltered(i) => {
                lemma_fill_find(b, nth_counted(b.slots, 0, i as nat, false)->0, y);
            },
            DotEveryEditorOperationIndex::OptionProgramModuleFiltered(i) => {
                lemma_fill_find(b, nth_counted(b.slots, 0, i as nat, true)->0, y);
            },
            DotEveryEditorOperationIndex::Child(i) => {
                lemma_insert_child_find(b, i as int, y);
            },
        }
    } else {
        lemma_find_unfold(b2, id);
        match add_in_slots(b.slots, target, index, x) {
            Some(Ok(slots)) => {
                lemma_add_find_slots(b.slots, target, index, x);
                assert(b2 == Block { slots, ..b });
            },
            Some(Err(_)) => {},
            None => {
                assert(b2.slots == b.slots);
                lemma_absent_slots_lookup(b.slots, id);
                match b.child {
                    Container::NoBlock => {},
                    Container::Vertical(l) => {
                        lemma_add_find_list(l, target, index, x);
                    },
                    Container::Horizontal(l) => {
                        lemma_add_find_list(l, target, index, x);
                    },
                }
            },
        }
    }
}

/// `get` of the new node's id after `add` finds a node that is like the one
/// handed in, under any of the four addressing modes and at the end of a
/// container list too; the node found names the target as its parent.
pub proof fn law_get_after_add<T>(b: Block<T>, target: u128, index: DotEveryEditorOperationIndex, x: Block<T>)
    requires
        !b.contains_id(x.id),
        add_at(b, target, index, x) is Ok,
    ensures
        add_at(b, target, index, x)->Ok_0.find(x.id) == Some(x.with_parent(Some(target))),
        isomorphic(add_at(b, target, index, x)->Ok_0.find(x.id)->0, x),
{
    lemma_add_find(b, target, index, x);
    lemma_isomorphic_reflexive(x);
    lemma_isomorphic_with_parent(x, x, Some(target));
}

/// `get` of the new node's id after `add` to a document finds a node that
/// is like the one handed in. Its parent is the document where the target
/// names the top level, and the target otherwise.
pub proof fn law_document_get_after_add<T>(
    d: Document<T>,
    target: u128,
    index: DotEveryEditorOperationIndex,
    x: Block<T>,
)
    requires
        !has_id(d.nodes(), x.id),
        d.add(target, index, x) is Ok,
    ensures
        d.add(target, index, x)->Ok_0.find(x.id) == Some(
            x.with_parent(
                Some(
                    if d.is_root(target) {
                        d.id
                    } else {
                        target
                    },
                ),
            ),
        ),
        isomorphic(d.add(target, index, x)->Ok_0.find(x.id)->0, x),
{
    let id = x.id;
    lemma_isomorphic_reflexive(x);
    if d.is_root(target) {
        let i = index->Child_0 as int;
        let y = x.with_parent(Some(d.id));
        let l2 = d.list.insert(i, y);
        lemma_absent_list_lookup(d.list, id);
        lemma_find_self(y);
        assert forall|j: int| 0 <= j < i implies first_with_id((#[trigger] l2[j]).nodes(), id) is None by {
            assert(l2[j] == d.list[j]);
        }
        lemma_list_first_hit(l2, i, id, y);
        lemma_isomorphic_with_parent(x, x, Some(d.id));
    } else {
        lemma_add_find_list(d.list, target, index, x);
        lemma_isomorphic_with_parent(x, x, Some(target));
    }
}

// ---------------------------------------------------------------------------
// Parent links
// ---------------------------------------------------------------------------

/// Insertion keeps the parent of the block at the top.
pub proof fn lemma_add_keeps_parent<T>(b: Block<T>, target: u128, index: DotEveryEditorOperationIndex, x: Block<T>)
    ensures
        add_at(b, target, index, x) is Ok ==> add_at(b, target, index, x)->Ok_0.parent == b.parent && add_at(
            b,
            target,
            index,
            x,
        )->Ok_0.id == b.id,
{
}

/// Removal keeps the id and the parent of the block at the top.
pub proof fn lemma_remove_keeps_parent<T>(b: Block<T>, id: u128)
    ensures
        remove_at(b, id) is Ok ==> remove_at(b, id)->Ok_0.parent == b.parent && remove_at(b, id)->Ok_0.id == b.id,
{
}

proof fn lemma_add_links_slots<T>(
    s: Seq<Slot<T>>,
    parent: u128,
    target: u128,
    index: DotEveryEditorOperationIndex,
    x: Block<T>,
)
    requires
        slots_linked(s, parent),
        well_linked(x),
        add_in_slots(s, target, index, x) is Some,
        add_in_slots(s, target, index, x)->0 is Ok,
    ensures
        slots_linked(add_in_slots(s, target, index, x)->0->Ok_0, parent),
    decreases s, 0nat,
{
    let s2 = add_in_slots(s, target, index, x)->0->Ok_0;
    let d = s.drop_last();
    assert forall|i: int| 0 <= i < d.len() implies match #[trigger] d[i] {
        Slot::Hole(Some(m)) => m.parent == Some(parent) && well_linked(m),
        _ => true,
    } by {
        assert(d[i] == s[i]);
    }
    assert(slots_linked(d, parent));
    match add_in_slots(d, target, index, x) {
        Some(Ok(p)) => {
            lemma_add_links_slots(d, parent, target, index, x);
            assert forall|i: int| 0 <= i < s2.len() implies match #[trigger] s2[i] {
                Slot::Hole(Some(m)) => m.parent == Some(parent) && well_linked(m),
                _ => true,
            } by {
                if i < p.len() {
                    assert(s2[i] == p[i]);
                } else {
                    assert(s2[i] == s[s.len() - 1]);
                }
            }
        },
        Some(Err(_)) => {},
        None => {
            match s.last() {
                Slot::Hole(Some(m)) => {
                    assert(s[s.len() - 1] == Slot::Hole(Some(m)));
                    lemma_add_links(m, target, index, x);
                    lemma_add_keeps_parent(m, target, index, x);
                    assert forall|i: int| 0 <= i < s2.len() implies match #[trigger] s2[i] {
                        Slot::Hole(Some(m)) => m.parent == Some(parent) && well_linked(m),
                        _ => true,
                    } by {
                        if i < d.len() {
                            assert(s2[i] == d[i]);
                        }
                    }
                },
                _ => {},
            }
        },
    }
}

proof fn lemma_add_links_list<T>(
    l: Seq<Block<T>>,
    parent: u128,
    target: u128,
    index: DotEveryEditorOperationIndex,
    x: Block<T>,
)
    requires
        list_linked(l, parent),
        well_linked(x),
        add_in_list(l, target, index, x) is Some,
        add_in_list(l, target, index, x)->0 is Ok,
    ensures
        list_linked(add_in_list(l, target, index, x)->0->Ok_0, parent),
    decreases l, 0nat,
{
    let l2 = add_in_list(l, target, index, x)->0->Ok_0;
    let d = l.drop_last();
    assert forall|i: int| 0 <= i < d.len() implies (#[trigger] d[i]).parent == Some(parent) && well_linked(d[i]) by {
        assert(d[i] == l[i]);
    }
    assert(list_linked(d, parent));
    assert(l[l.len() - 1].parent == Some(parent) && well_linked(l[l.len() - 1]));
    match add_in_list(d, target, index, x) {
        Some(Ok(p)) => {
            lemma_add_links_list(d, parent, target, index, x);
            assert forall|i: int| 0 <= i < l2.len() implies (#[trigger] l2[i]).parent == Some(parent) && well_linked(
                l2[i],
            ) by {
                if i < p.len() {
                    assert(l2[i] == p[i]);
                }
            }
        },
        Some(Err(_)) => {},
        None => {
            lemma_add_links(l.last(), target, index, x);
            lemma_add_keeps_parent(l.last(), target, index, x);
            assert forall|i: int| 0 <= i < l2.len() implies (#[trigger] l2[i]).parent == Some(parent) && well_linked(
                l2[i],
            ) by {
                if i < d.len() {
                    assert(l2[i] == d[i]);
                }
            }
        },
    }
}

proof fn lemma_fill_links<T>(b: Block<T>, k: int, y: Block<T>)
    requires
        well_linked(b),
        well_linked(y),
        y.parent == Some(b.id),
        fill(b, k, y) is Ok,
    ensures
        well_linked(fill(b, k, y)->Ok_0),
{
    let b2 = fill(b, k, y)->Ok_0;
    assert forall|i: int| 0 <= i < b2.slots.len() implies match #[trigger] b2.slots[i] {
        Slot::Hole(Some(m)) => m.parent == Some(b.id) && well_linked(m),
        _ => true,
    } by {
        if i != k {
            assert(b2.slots[i] == b.slots[i]);
        }
    }
}

proof fn lemma_insert_child_links<T>(b: Block<T>, i: int, y: Block<T>)
    requires
        well_linked(b),
        well_linked(y),
        y.parent == Some(b.id),
        insert_child(b, i, y) is Ok,
    ensures
        well_linked(insert_child(b, i, y)->Ok_0),
{
    let b2 = insert_child(b, i, y)->Ok_0;
    let l = b.child.list();
    let l2 = l.insert(i, y);
    assert(list_linked(l, b.id));
    assert forall|j: int| 0 <= j < l2.len() implies (#[trigger] l2[j]).parent == Some(b.id) && well_linked(l2[j]) by {
        if j < i {
            assert(l2[j] == l[j]);
        } else if j > i {
            assert(l2[j] == l[j - 1]);
        }
    }
    assert(list_linked(l2, b.id));
}

/// Insertion of a well-linked block into a well-linked block gives a
/// well-linked block.
pub proof fn lemma_add_links<T>(b: Block<T>, target: u128, index: DotEveryEditorOperationIndex, x: Block<T>)
    requires
        well_linked(b),
        well_linked(x),
        add_at(b, target, index, x) is Ok,
    ensures
        well_linked(add_at(b, target, index, x)->Ok_0),
    decreases b,
{
    let b2 = add_at(b, target, index, x)->Ok_0;
    if b.id == target {
        let y = x.with_parent(Some(b.id));
        lemma_isomorphic_with_parent(x, x, Some(b.id));
        match index {
            DotEveryEditorOperationIndex::OptionAbsolute(i) => {
                lemma_fill_links(b, i as int, y);
            },
            DotEveryEditorOperationIndex::OptionInputFiltered(i) => {
                lemma_fill_links(b, nth_counted(b.slots, 0, i as nat, false)->0, y);
            },
            DotEveryEditorOperationIndex::OptionProgramModuleFiltered(i) => {
                lemma_fill_links(b, nth_counted(b.slots, 0, i as nat, true)->0, y);
            },
            DotEveryEditorOperationIndex::Child(i) => {
                lemma_insert_child_links(b, i as int, y);
            },
        }
    } else {
        match add_in_slots(b.slots, target, index, x) {
            Some(Ok(slots)) => {
                lemma_add_links_slots(b.slots, b.id, target, index, x);
            },
            Some(Err(_)) => {},
            None => {
                match b.child {
                    Container::NoBlock => {},
                    Container::Vertical(l) => {
                        lemma_add_links_list(l, b.id, target, index, x);
                    },
                    Container::Horizontal(l) => {
                        lemma_add_links_list(l, b.id, target, index, x);
                    },
                }
            },
        }
    }
}

proof fn lemma_remove_links_slots<T>(s: Seq<Slot<T>>, parent: u128, id: u128)
    requires
        slots_linked(s, parent),
        remove_in_slots(s, id) is Some,
    ensures
        slots_linked(remove_in_slots(s, id)->0, parent),
    decreases s, 0nat,
{
    let s2 = remove_in_slots(s, id)->0;
    let d = s.drop_last();
    assert forall|i: int| 0 <= i < d.len() implies match #[trigger] d[i] {
        Slot::Hole(Some(m)) => m.parent == Some(parent) && well_linked(m),
        _ => true,
    } by {
        assert(d[i] == s[i]);
    }
    assert(slots_linked(d, parent));
    match remove_in_slots(d, id) {
        Some(p) => {
            lemma_remove_links_slots(d, parent, id);
            assert forall|i: int| 0 <= i < s2.len() implies match #[trigger] s2[i] {
                Slot::Hole(Some(m)) => m.parent == Some(parent) && well_linked(m),
                _ => true,
            } by {
                if i < p.len() {
                    assert(s2[i] == p[i]);
                } else {
                    assert(s2[i] == s[s.len() - 1]);
                }
            }
        },
        None => {
            match s.last() {
                Slot::Hole(Some(m)) => {
                    assert(s[s.len() - 1] == Slot::Hole(Some(m)));
                    lemma_remove_links(m, id);
                    lemma_remove_keeps_parent(m, id);
                    assert forall|i: int| 0 <= i < s2.len() implies match #[trigger] s2[i] {
                        Slot::Hole(Some(m)) => m.parent == Some(parent) && well_linked(m),
                        _ => true,
                    } by {
                        if i < d.len() {
                            assert(s2[i] == d[i]);
                        }
                    }
                },
                _ => {},
            }
        },
    }
}

proof fn lemma_remove_links_in_list<T>(l: Seq<Block<T>>, parent: u128, id: u128)
    requires
        list_linked(l, parent),
        remove_in_list(l, id) is Some,
    ensures
        list_linked(remove_in_list(l, id)->0, parent),
    decreases l, 0nat,
{
    let l2 = remove_in_list(l, id)->0;
    let d = l.drop_last();
    assert forall|i: int| 0 <= i < d.len() implies (#[trigger] d[i]).parent == Some(parent) && well_linked(d[i]) by {
        assert(d[i] == l[i]);
    }
    assert(list_linked(d, parent));
    assert(l[l.len() - 1].parent == Some(parent) && well_linked(l[l.len() - 1]));
    match remove_in_list(d, id) {
        Some(p) => {
            lemma_remove_links_in_list(d, parent, id);
            assert forall|i: int| 0 <= i < l2.len() implies (#[trigger] l2[i]).parent == Some(parent) && well_linked(
                l2[i],
            ) by {
                if i < p.len() {
                    assert(l2[i] == p[i]);
                }
            }
        },
        None => {
            lemma_remove_links(l.last(), id);
            lemma_remove_keeps_parent(l.last(), id);
            assert forall|i: int| 0 <= i < l2.len() implies (#[trigger] l2[i]).parent == Some(parent) && well_linked(
                l2[i],
            ) by {
                if i < d.len() {
                    assert(l2[i] == d[i]);
                }
            }
        },
    }
}

proof fn lemma_remove_links_list<T>(l: Seq<Block<T>>, parent: u128, id: u128)
    requires
        list_linked(l, parent),
        remove_from_list(l, id) is Some,
    ensures
        list_linked(remove_from_list(l, id)->0, parent),
    decreases l, 1nat,
{
    let l2 = remove_from_list(l, id)->0;
    match index_of_id(l, id) {
        Some(k) => {
            lemma_index_of_id(l, id);
            assert forall|j: int| 0 <= j < l2.len() implies (#[trigger] l2[j]).parent == Some(parent) && well_linked(
                l2[j],
            ) by {
                if j < k {
                    assert(l2[j] == l[j]);
                } else {
                    assert(l2[j] == l[j + 1]);
                }
            }
        },
        None => {
            lemma_remove_links_in_list(l, parent, id);
        },
    }
}

/// Removal from a well-linked block gives a well-linked block.
pub proof fn lemma_remove_links<T>(b: Block<T>, id: u128)
    requires
        well_linked(b),
        remove_at(b, id) is Ok,
    ensures
        well_linked(remove_at(b, id)->Ok_0),
    decreases b,
{
    let b2 = remove_at(b, id)->Ok_0;
    match index_of_occupant(b.slots, id) {
        Some(k) => {
            lemma_index_of_occupant(b.slots, id);
            assert forall|i: int| 0 <= i < b2.slots.len() implies match #[trigger] b2.slots[i] {
                Slot::Hole(Some(m)) => m.parent == Some(b.id) && well_linked(m),
                _ => true,
            } by {
                if i != k {
                    assert(b2.slots[i] == b.slots[i]);
                }
            }
        },
        None => match remove_in_slots(b.slots, id) {
            Some(slots) => {
                lemma_remove_links_slots(b.slots, b.id, id);
            },
            None => match b.child {
                Container::NoBlock => {},
                Container::Vertical(l) => {
                    lemma_remove_links_list(l, b.id, id);
                },
                Container::Horizontal(l) => {
                    lemma_remove_links_list(l, b.id, id);
                },
            },
        },
    }
}

/// The parent links of a document hold on through an insertion: where every
/// node names the node that holds it as its parent, and the same is true
/// below the block that comes in, it is true afterwards.
pub proof fn law_document_add_keeps_links<T>(
    d: Document<T>,
    target: u128,
    index: DotEveryEditorOperationIndex,
    x: Block<T>,
)
    requires
        d.well_linked(),
        well_linked(x),
        d.add(target, index, x) is Ok,
    ensures
        d.add(target, index, x)->Ok_0.well_linked(),
{
    if d.is_root(target) {
        let i = index->Child_0 as int;
        let y = x.with_parent(Some(d.id));
        lemma_isomorphic_with_parent(x, x, Some(d.id));
        let l2 = d.list.insert(i, y);
        assert forall|j: int| 0 <= j < l2.len() implies (#[trigger] l2[j]).parent == Some(d.id) && well_linked(
            l2[j],
        ) by {
            if j < i {
                assert(l2[j] == d.list[j]);
            } else if j > i {
                assert(l2[j] == d.list[j - 1]);
            }
        }
    } else {
        lemma_add_links_list(d.list, d.id, target, index, x);
    }
}

/// The parent links of a document hold on through a removal.
pub proof fn law_document_remove_keeps_links<T>(d: Document<T>, id: u128)
    requires
        d.well_linked(),
        d.remove(id) is Ok,
    ensures
        d.remove(id)->Ok_0.well_linked(),
{
    lemma_remove_links_list(d.list, d.id, id);
}

/// The parent links of a block's subtree hold on through an insertion of a
/// block whose own links hold.
pub proof fn law_add_keeps_links<T>(b: Block<T>, target: u128, index: DotEveryEditorOperationIndex, x: Block<T>)
    requires
        well_linked(b),
        well_linked(x),
        add_at(b, target, index, x) is Ok,
    ensures
        well_linked(add_at(b, target, index, x)->Ok_0),
{
    lemma_add_links(b, target, index, x);
}

/// The parent links of a block's subtree hold on through a removal.
pub proof fn law_remove_keeps_links<T>(b: Block<T>, id: u128)
    requires
        well_linked(b),
        remove_at(b, id) is Ok,
    ensures
        well_linked(remove_at(b, id)->Ok_0),
{
    lemma_remove_links(b, id);
}

} // verus!
