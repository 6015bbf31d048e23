use vstd::prelude::*;
use vstd::std_specs::cmp::PartialEqSpec;
use crate::ids::is_random_id;
use crate::logic::dotevery_editor::{DotEveryEditorErrorMessage, DotEveryEditorOperationIndex};

verus! {

/// Mathematical snapshot of one node of the document tree.
pub struct Block<T> {
    pub id: u128,
    pub parent: Option<u128>,
    pub slots: Seq<Slot<T>>,
    pub child: Container<T>,
    pub tag: T,
}

/// One of a block's ordered fields.
pub enum Slot<T> {
    Sign(Seq<char>),
    Input(Seq<char>),
    Hole(Option<Block<T>>),
}

/// A block's nested block sequence.
pub enum Container<T> {
    NoBlock,
    Vertical(Seq<Block<T>>),
    Horizontal(Seq<Block<T>>),
}

/// Mathematical snapshot of a whole document.
pub struct Document<T> {
    pub id: u128,
    pub list: Seq<Block<T>>,
}

/// Whether cloning a tag gives back the same tag.
pub open spec fn obeys_tag_clone<T: Clone>() -> bool {
    forall|a: T, b: T| #[trigger] cloned::<T>(a, b) ==> a == b
}

/// Whether `==` on tags decides equality.
pub open spec fn obeys_tag_eq<T: PartialEq>() -> bool {
    &&& T::obeys_eq_spec()
    &&& forall|a: T, b: T| #[trigger] a.eq_spec(&b) <==> (a == b)
}

impl<T> Slot<T> {
    /// Whether the slot counts for `OptionInputFiltered`.
    pub open spec fn is_editable(self) -> bool {
        !(self is Sign)
    }

    /// Whether the slot counts under the given addressing mode.
    pub open spec fn counts(self, holes_only: bool) -> bool {
        if holes_only {
            self is Hole
        } else {
            self.is_editable()
        }
    }

    /// The block that sits in the slot, if the slot is an occupied hole.
    pub open spec fn occupant(self) -> Option<Block<T>> {
        match self {
            Slot::Hole(o) => o,
            _ => None,
        }
    }
}

impl<T> Container<T> {
    /// The nested blocks, in order; empty where the block has no container.
    pub open spec fn list(self) -> Seq<Block<T>> {
        match self {
            Container::NoBlock => Seq::empty(),
            Container::Vertical(l) => l,
            Container::Horizontal(l) => l,
        }
    }

    /// The same kind of container around another list.
    pub open spec fn with_list(self, l: Seq<Block<T>>) -> Container<T> {
        match self {
            Container::NoBlock => Container::NoBlock,
            Container::Vertical(_) => Container::Vertical(l),
            Container::Horizontal(_) => Container::Horizontal(l),
        }
    }
}

// ---------------------------------------------------------------------------
// Traversal order
// ---------------------------------------------------------------------------

/// The nodes below a slot, depth first.
pub open spec fn slot_nodes<T>(s: Slot<T>) -> Seq<Block<T>>
    decreases s,
{
    match s {
        Slot::Hole(Some(b)) => b.nodes(),
        _ => Seq::empty(),
    }
}

/// The nodes below a run of slots, slot by slot.
pub open spec fn slots_nodes<T>(s: Seq<Slot<T>>) -> Seq<Block<T>>
    decreases s,
{
    if s.len() == 0 {
        Seq::empty()
    } else {
        slots_nodes(s.drop_last()) + slot_nodes(s.last())
    }
}

/// The nodes of a list of blocks, block by block.
pub open spec fn list_nodes<T>(l: Seq<Block<T>>) -> Seq<Block<T>>
    decreases l,
{
    if l.len() == 0 {
        Seq::empty()
    } else {
        list_nodes(l.drop_last()) + l.last().nodes()
    }
}

/// The nodes inside a container.
pub open spec fn container_nodes<T>(c: Container<T>) -> Seq<Block<T>>
    decreases c,
{
    match c {
        Container::NoBlock => Seq::empty(),
        Container::Vertical(l) => list_nodes(l),
        Container::Horizontal(l) => list_nodes(l),
    }
}

/// The first block of `s` that carries `id`.
pub open spec fn first_with_id<T>(s: Seq<Block<T>>, id: u128) -> Option<Block<T>>
    decreases s.len(),
{
    if s.len() == 0 {
        None
    } else if s[0].id == id {
        Some(s[0])
    } else {
        first_with_id(s.drop_first(), id)
    }
}

/// Whether some block of `s` carries `id`.
pub open spec fn has_id<T>(s: Seq<Block<T>>, id: u128) -> bool {
    exists|i: int| 0 <= i < s.len() && (#[trigger] s[i]).id == id
}

/// The test for a tag.
pub open spec fn tag_is<T>(tag: T) -> spec_fn(Block<T>) -> bool {
    |b: Block<T>| b.tag == tag
}

/// The blocks of `s` that carry `tag`, in the order of `s`.
pub open spec fn with_tag<T>(s: Seq<Block<T>>, tag: T) -> Seq<Block<T>> {
    s.filter(tag_is(tag))
}

impl<T> Block<T> {
    /// Every node of the subtree in traversal order: the block itself, then
    /// what sits in its holes, then its container list, each depth first.
    pub open spec fn nodes(self) -> Seq<Block<T>>
        decreases self,
    {
        seq![self] + slots_nodes(self.slots) + container_nodes(self.child)
    }

    /// Every node strictly below the block, in traversal order.
    pub open spec fn descendants(self) -> Seq<Block<T>> {
        slots_nodes(self.slots) + container_nodes(self.child)
    }

    /// Whether the subtree holds a node with this id.
    pub open spec fn contains_id(self, id: u128) -> bool {
        has_id(self.nodes(), id)
    }

    /// The first node of the subtree, in traversal order, with this id.
    pub open spec fn find(self, id: u128) -> Option<Block<T>> {
        first_with_id(self.nodes(), id)
    }

    /// The block under another parent.
    pub open spec fn with_parent(self, parent: Option<u128>) -> Block<T> {
        Block { parent, ..self }
    }
}

impl<T> Document<T> {
    /// Every node of the document in traversal order.
    pub open spec fn nodes(self) -> Seq<Block<T>> {
        list_nodes(self.list)
    }

    /// The first node of the document with this id.
    pub open spec fn find(self, id: u128) -> Option<Block<T>> {
        first_with_id(self.nodes(), id)
    }

    /// Whether a target id names the document itself: its own id does, and
    /// so does the nil id.
    pub open spec fn is_root(self, target: u128) -> bool {
        target == 0 || target == self.id
    }

    /// The blocks of the document that carry `tag`, in traversal order.
    pub open spec fn with_tag(self, tag: T) -> Seq<Block<T>> {
        with_tag(self.nodes(), tag)
    }

    /// The document after `x` has been placed under the first node whose id
    /// is `target`, or at the top level where the target names the document
    /// itself; or why that cannot be done. At the top level only `Child`
    /// positions exist.
    pub open spec fn add(self, target: u128, index: DotEveryEditorOperationIndex, x: Block<T>) -> Result<
        Document<T>,
        DotEveryEditorErrorMessage,
    > {
        if self.is_root(target) {
            match index {
                DotEveryEditorOperationIndex::Child(i) => if i <= self.list.len() {
                    Ok(Document { list: self.list.insert(i as int, x.with_parent(Some(self.id))), ..self })
                } else {
                    Err(DotEveryEditorErrorMessage::IndexOutOfRange)
                },
                _ => Err(DotEveryEditorErrorMessage::IndexOutOfRange),
            }
        } else {
            match add_in_list(self.list, target, index, x) {
                Some(Ok(list)) => Ok(Document { list, ..self }),
                Some(Err(e)) => Err(e),
                None => Err(DotEveryEditorErrorMessage::NotFound),
            }
        }
    }

    /// The document after one node with this id has left it: the first
    /// top-level block that carries the id, or else the first such node
    /// below the top-level blocks.
    pub open spec fn remove(self, id: u128) -> Result<Document<T>, DotEveryEditorErrorMessage> {
        match remove_from_list(self.list, id) {
            Some(list) => Ok(Document { list, ..self }),
            None => Err(DotEveryEditorErrorMessage::NotFound),
        }
    }

    /// The document with its first node that carries `id` replaced by `nb`.
    pub open spec fn replace(self, id: u128, nb: Block<T>) -> Document<T> {
        match replace_in_list(self.list, id, nb) {
            Some(list) => Document { list, ..self },
            None => self,
        }
    }

    /// Whether every top-level block names the document as its parent and
    /// is well linked.
    pub open spec fn well_linked(self) -> bool {
        list_linked(self.list, self.id)
    }
}

// ---------------------------------------------------------------------------
// Insertion
// ---------------------------------------------------------------------------

/// Position of the `n`-th slot, at or after `from`, that counts under the
/// addressing mode: holes only, or holes and text inputs.
pub open spec fn nth_counted<T>(slots: Seq<Slot<T>>, from: int, n: nat, holes_only: bool) -> Option<int>
    decreases slots.len() - from,
{
    if from < 0 || from >= slots.len() {
        None
    } else if slots[from].counts(holes_only) {
        if n == 0 {
            Some(from)
        } else {
            nth_counted(slots, from + 1, (n - 1) as nat, holes_only)
        }
    } else {
        nth_counted(slots, from + 1, n, holes_only)
    }
}

/// Puts `x` into slot `k` of `b`, which has to be an empty hole.
pub open spec fn fill<T>(b: Block<T>, k: int, x: Block<T>) -> Result<Block<T>, DotEveryEditorErrorMessage> {
    if !(0 <= k < b.slots.len()) {
        Err(DotEveryEditorErrorMessage::IndexOutOfRange)
    } else {
        match b.slots[k] {
            Slot::Hole(None) => Ok(Block { slots: b.slots.update(k, Slot::Hole(Some(x))), ..b }),
            Slot::Hole(Some(_)) => Err(DotEveryEditorErrorMessage::CanNotReplace),
            _ => Err(DotEveryEditorErrorMessage::OptionDoesNotExpectProgramModule),
        }
    }
}

/// Puts `x` at position `i` of the container list of `b`.
pub open spec fn insert_child<T>(b: Block<T>, i: int, x: Block<T>) -> Result<Block<T>, DotEveryEditorErrorMessage> {
    match b.child {
        Container::NoBlock => Err(DotEveryEditorErrorMessage::ChildDoesNotExpectProgramModule),
        _ => if 0 <= i <= b.child.list().len() {
            Ok(Block { child: b.child.with_list(b.child.list().insert(i, x)), ..b })
        } else {
            Err(DotEveryEditorErrorMessage::IndexOutOfRange)
        },
    }
}

/// Places `x` directly under `b` at the addressed position; `x` becomes a
/// child of `b`.
pub open spec fn place<T>(b: Block<T>, index: DotEveryEditorOperationIndex, x: Block<T>) -> Result<
    Block<T>,
    DotEveryEditorErrorMessage,
> {
    let x = x.with_parent(Some(b.id));
    match index {
        DotEveryEditorOperationIndex::OptionAbsolute(i) => fill(b, i as int, x),
        DotEveryEditorOperationIndex::OptionInputFiltered(i) => match nth_counted(b.slots, 0, i as nat, false) {
            Some(k) => fill(b, k, x),
            None => Err(DotEveryEditorErrorMessage::IndexOutOfRange),
        },
        DotEveryEditorOperationIndex::OptionProgramModuleFiltered(i) => match nth_counted(
            b.slots,
            0,
            i as nat,
            true,
        ) {
            Some(k) => fill(b, k, x),
            None => Err(DotEveryEditorErrorMessage::IndexOutOfRange),
        },
        DotEveryEditorOperationIndex::Child(i) => insert_child(b, i as int, x),
    }
}

/// Insertion below the first slot, in order, whose occupant's subtree holds
/// the target; `None` when no slot's does.
pub open spec fn add_in_slots<T>(
    s: Seq<Slot<T>>,
    target: u128,
    index: DotEveryEditorOperationIndex,
    x: Block<T>,
) -> Option<Result<Seq<Slot<T>>, DotEveryEditorErrorMessage>>
    decreases s, 0nat,
{
    if s.len() == 0 {
        None
    } else {
        match add_in_slots(s.drop_last(), target, index, x) {
            Some(Ok(p)) => Some(Ok(p.push(s.last()))),
            Some(Err(e)) => Some(Err(e)),
            None => match s.last() {
                Slot::Hole(Some(m)) => match add_at(m, target, index, x) {
                    Ok(m2) => Some(Ok(s.drop_last().push(Slot::Hole(Some(m2))))),
                    Err(DotEveryEditorErrorMessage::NotFound) => None,
                    Err(e) => Some(Err(e)),
                },
                _ => None,
            },
        }
    }
}

/// Insertion below the first block of the list, in order, whose subtree holds
/// the target; `None` when no block's does.
pub open spec fn add_in_list<T>(
    l: Seq<Block<T>>,
    target: u128,
    index: DotEveryEditorOperationIndex,
    x: Block<T>,
) -> Option<Result<Seq<Block<T>>, DotEveryEditorErrorMessage>>
    decreases l, 0nat,
{
    if l.len() == 0 {
        None
    } else {
        match add_in_list(l.drop_last(), target, index, x) {
            Some(Ok(p)) => Some(Ok(p.push(l.last()))),
            Some(Err(e)) => Some(Err(e)),
            None => match add_at(l.last(), target, index, x) {
                Ok(m2) => Some(Ok(l.drop_last().push(m2))),
                Err(DotEveryEditorErrorMessage::NotFound) => None,
                Err(e) => Some(Err(e)),
            },
        }
    }
}

/// Insertion inside a container.
pub open spec fn add_in_container<T>(
    c: Container<T>,
    target: u128,
    index: DotEveryEditorOperationIndex,
    x: Block<T>,
) -> Option<Result<Container<T>, DotEveryEditorErrorMessage>>
    decreases c, 1nat,
{
    match c {
        Container::NoBlock => None,
        Container::Vertical(l) => match add_in_list(l, target, index, x) {
            Some(Ok(l2)) => Some(Ok(Container::Vertical(l2))),
            Some(Err(e)) => Some(Err(e)),
            None => None,
        },
        Container::Horizontal(l) => match add_in_list(l, target, index, x) {
            Some(Ok(l2)) => Some(Ok(Container::Horizontal(l2))),
            Some(Err(e)) => Some(Err(e)),
            None => None,
        },
    }
}

/// The subtree of `b` after `x` has been placed under its first node, in
/// traversal order, whose id is `target`; or why that cannot be done.
pub open spec fn add_at<T>(b: Block<T>, target: u128, index: DotEveryEditorOperationIndex, x: Block<T>) -> Result<
    Block<T>,
    DotEveryEditorErrorMessage,
>
    decreases b,
{
    if b.id == target {
        place(b, index, x)
    } else {
        match add_in_slots(b.slots, target, index, x) {
            Some(Ok(slots)) => Ok(Block { slots, ..b }),
            Some(Err(e)) => Err(e),
            None => match add_in_container(b.child, target, index, x) {
                Some(Ok(child)) => Ok(Block { child, ..b }),
                Some(Err(e)) => Err(e),
                None => Err(DotEveryEditorErrorMessage::NotFound),
            },
        }
    }
}

/// What the insertion at one slot means for the whole run of slots.
pub proof fn lemma_add_in_slots_at<T>(
    s: Seq<Slot<T>>,
    i: int,
    target: u128,
    index: DotEveryEditorOperationIndex,
    x: Block<T>,
)
    requires
        0 <= i < s.len(),
        add_in_slots(s.take(i), target, index, x) is None,
    ensures
        match s[i] {
            Slot::Hole(Some(m)) => match add_at(m, target, index, x) {
                Ok(m2) => add_in_slots(s, target, index, x) == Some(
                    Ok::<_, DotEveryEditorErrorMessage>(s.update(i, Slot::Hole(Some(m2)))),
                ),
                Err(DotEveryEditorErrorMessage::NotFound) => add_in_slots(s.take(i + 1), target, index, x) is None,
                Err(e) => add_in_slots(s, target, index, x) == Some(Err::<Seq<Slot<T>>, _>(e)),
            },
            _ => add_in_slots(s.take(i + 1), target, index, x) is None,
        },
    decreases s.len(),
{
    if i == s.len() - 1 {
        assert(s.drop_last() =~= s.take(i));
        assert(s.take(i + 1) =~= s);
        match s[i] {
            Slot::Hole(Some(m)) => match add_at(m, target, index, x) {
                Ok(m2) => {
                    assert(s.drop_last().push(Slot::Hole(Some(m2))) =~= s.update(i, Slot::Hole(Some(m2))));
                },
                _ => {},
            },
            _ => {},
        }
    } else {
        let d = s.drop_last();
        assert(d.take(i) =~= s.take(i));
        assert(d.take(i + 1) =~= s.take(i + 1));
        lemma_add_in_slots_at(d, i, target, index, x);
        match s[i] {
            Slot::Hole(Some(m)) => match add_at(m, target, index, x) {
                Ok(m2) => {
                    assert(d.update(i, Slot::Hole(Some(m2))).push(s.last()) =~= s.update(i, Slot::Hole(Some(m2))));
                },
                _ => {},
            },
            _ => {},
        }
    }
}

/// What the insertion at one block means for the whole list.
pub proof fn lemma_add_in_list_at<T>(
    l: Seq<Block<T>>,
    i: int,
    target: u128,
    index: DotEveryEditorOperationIndex,
    x: Block<T>,
)
    requires
        0 <= i < l.len(),
        add_in_list(l.take(i), target, index, x) is None,
    ensures
        match add_at(l[i], target, index, x) {
            Ok(m2) => add_in_list(l, target, index, x) == Some(Ok::<_, DotEveryEditorErrorMessage>(l.update(i, m2))),
            Err(DotEveryEditorErrorMessage::NotFound) => add_in_list(l.take(i + 1), target, index, x) is None,
            Err(e) => add_in_list(l, target, index, x) == Some(Err::<Seq<Block<T>>, _>(e)),
        },
    decreases l.len(),
{
    if i == l.len() - 1 {
        assert(l.drop_last() =~= l.take(i));
        assert(l.take(i + 1) =~= l);
        match add_at(l[i], target, index, x) {
            Ok(m2) => {
                assert(l.drop_last().push(m2) =~= l.update(i, m2));
            },
            _ => {},
        }
    } else {
        let d = l.drop_last();
        assert(d.take(i) =~= l.take(i));
        assert(d.take(i + 1) =~= l.take(i + 1));
        lemma_add_in_list_at(d, i, target, index, x);
        match add_at(l[i], target, index, x) {
            Ok(m2) => {
                assert(d.update(i, m2).push(l.last()) =~= l.update(i, m2));
            },
            _ => {},
        }
    }
}

// ---------------------------------------------------------------------------
// Removal
// ---------------------------------------------------------------------------

/// Position of the first block of the list that carries `id`.
pub open spec fn index_of_id<T>(l: Seq<Block<T>>, id: u128) -> Option<int>
    decreases l.len(),
{
    if l.len() == 0 {
        None
    } else {
        match index_of_id(l.drop_last(), id) {
            Some(k) => Some(k),
            None => if l.last().id == id {
                Some(l.len() - 1)
            } else {
                None
            },
        }
    }
}

/// Position of the first hole whose occupant carries `id`.
pub open spec fn index_of_occupant<T>(s: Seq<Slot<T>>, id: u128) -> Option<int>
    decreases s.len(),
{
    if s.len() == 0 {
        None
    } else {
        match index_of_occupant(s.drop_last(), id) {
            Some(k) => Some(k),
            None => match s.last().occupant() {
                Some(m) => if m.id == id {
                    Some(s.len() - 1)
                } else {
                    None
                },
                None => None,
            },
        }
    }
}

/// Removal strictly below the occupants of the slots: the first slot, in
/// order, below whose occupant a node is removed; `None` when there is none.
pub open spec fn remove_in_slots<T>(s: Seq<Slot<T>>, id: u128) -> Option<Seq<Slot<T>>>
    decreases s, 0nat,
{
    if s.len() == 0 {
        None
    } else {
        match remove_in_slots(s.drop_last(), id) {
            Some(p) => Some(p.push(s.last())),
            None => match s.last() {
                Slot::Hole(Some(m)) => match remove_at(m, id) {
                    Ok(m2) => Some(s.drop_last().push(Slot::Hole(Some(m2)))),
                    Err(_) => None,
                },
                _ => None,
            },
        }
    }
}

/// Removal strictly below the blocks of a list.
pub open spec fn remove_in_list<T>(l: Seq<Block<T>>, id: u128) -> Option<Seq<Block<T>>>
    decreases l, 0nat,
{
    if l.len() == 0 {
        None
    } else {
        match remove_in_list(l.drop_last(), id) {
            Some(p) => Some(p.push(l.last())),
            None => match remove_at(l.last(), id) {
                Ok(m2) => Some(l.drop_last().push(m2)),
                Err(_) => None,
            },
        }
    }
}

/// Removal from a list: the first member that carries `id` leaves; where no
/// member does, the search goes on below the members, in order.
pub open spec fn remove_from_list<T>(l: Seq<Block<T>>, id: u128) -> Option<Seq<Block<T>>>
    decreases l, 1nat,
{
    match index_of_id(l, id) {
        Some(k) => Some(l.remove(k)),
        None => remove_in_list(l, id),
    }
}

/// Removal from a container.
pub open spec fn remove_from_container<T>(c: Container<T>, id: u128) -> Option<Container<T>>
    decreases c, 2nat,
{
    match c {
        Container::NoBlock => None,
        Container::Vertical(l) => match remove_from_list(l, id) {
            Some(l2) => Some(Container::Vertical(l2)),
            None => None,
        },
        Container::Horizontal(l) => match remove_from_list(l, id) {
            Some(l2) => Some(Container::Horizontal(l2)),
            None => None,
        },
    }
}

/// The subtree of `b` after one node with this id has left it. A hole whose
/// occupant carries the id is emptied; else the search goes on below the
/// occupants, then in the container list. The block `b` itself never leaves.
pub open spec fn remove_at<T>(b: Block<T>, id: u128) -> Result<Block<T>, DotEveryEditorErrorMessage>
    decreases b,
{
    match index_of_occupant(b.slots, id) {
        Some(k) => Ok(Block { slots: b.slots.update(k, Slot::Hole(None)), ..b }),
        None => match remove_in_slots(b.slots, id) {
            Some(slots) => Ok(Block { slots, ..b }),
            None => match remove_from_container(b.child, id) {
                Some(child) => Ok(Block { child, ..b }),
                None => Err(DotEveryEditorErrorMessage::NotFound),
            },
        },
    }
}

/// `index_of_id` finds a position that holds the id, and nothing before it does.
pub proof fn lemma_index_of_id<T>(l: Seq<Block<T>>, id: u128)
    ensures
        match index_of_id(l, id) {
            Some(k) => 0 <= k < l.len() && l[k].id == id && forall|j: int| 0 <= j < k ==> (#[trigger] l[j]).id != id,
            None => forall|j: int| 0 <= j < l.len() ==> (#[trigger] l[j]).id != id,
        },
    decreases l.len(),
{
    if l.len() > 0 {
        lemma_index_of_id(l.drop_last(), id);
        match index_of_id(l.drop_last(), id) {
            Some(k) => {
                assert(l.drop_last()[k] == l[k]);
                assert forall|j: int| 0 <= j < k implies (#[trigger] l[j]).id != id by {
                    assert(l.drop_last()[j] == l[j]);
                }
            },
            None => {
                assert forall|j: int| 0 <= j < l.len() - 1 implies (#[trigger] l[j]).id != id by {
                    assert(l.drop_last()[j] == l[j]);
                }
            },
        }
    }
}

/// `index_of_occupant` finds a hole whose occupant holds the id, and no hole
/// before it does.
pub proof fn lemma_index_of_occupant<T>(s: Seq<Slot<T>>, id: u128)
    ensures
        match index_of_occupant(s, id) {
            Some(k) => 0 <= k < s.len() && s[k].occupant() is Some && s[k].occupant()->0.id == id && forall|j: int|
                0 <= j < k ==> !((#[trigger] s[j]).occupant() is Some && s[j].occupant()->0.id == id),
            None => forall|j: int|
                0 <= j < s.len() ==> !((#[trigger] s[j]).occupant() is Some && s[j].occupant()->0.id == id),
        },
    decreases s.len(),
{
    if s.len() > 0 {
        lemma_index_of_occupant(s.drop_last(), id);
        match index_of_occupant(s.drop_last(), id) {
            Some(k) => {
                assert(s.drop_last()[k] == s[k]);
                assert forall|j: int| 0 <= j < k implies !((#[trigger] s[j]).occupant() is Some
                    && s[j].occupant()->0.id == id) by {
                    assert(s.drop_last()[j] == s[j]);
                }
            },
            None => {
                assert forall|j: int| 0 <= j < s.len() - 1 implies !((#[trigger] s[j]).occupant() is Some
                    && s[j].occupant()->0.id == id) by {
                    assert(s.drop_last()[j] == s[j]);
                }
            },
        }
    }
}

/// The position that `index_of_id` gives is the first that holds the id.
pub proof fn lemma_index_of_id_is<T>(l: Seq<Block<T>>, id: u128, k: int)
    requires
        0 <= k < l.len(),
        l[k].id == id,
        forall|j: int| 0 <= j < k ==> (#[trigger] l[j]).id != id,
    ensures
        index_of_id(l, id) == Some(k),
{
    lemma_index_of_id(l, id);
}

/// The position that `index_of_occupant` gives is the first whose occupant
/// holds the id.
pub proof fn lemma_index_of_occupant_is<T>(s: Seq<Slot<T>>, id: u128, k: int)
    requires
        0 <= k < s.len(),
        s[k].occupant() is Some,
        s[k].occupant()->0.id == id,
        forall|j: int| 0 <= j < k ==> !((#[trigger] s[j]).occupant() is Some && s[j].occupant()->0.id == id),
    ensures
        index_of_occupant(s, id) == Some(k),
{
    lemma_index_of_occupant(s, id);
}

/// What the removal below one slot means for the whole run of slots.
pub proof fn lemma_remove_in_slots_at<T>(s: Seq<Slot<T>>, i: int, id: u128)
    requires
        0 <= i < s.len(),
        remove_in_slots(s.take(i), id) is None,
    ensures
        match s[i] {
            Slot::Hole(Some(m)) => match remove_at(m, id) {
                Ok(m2) => remove_in_slots(s, id) == Some(s.update(i, Slot::Hole(Some(m2)))),
                Err(_) => remove_in_slots(s.take(i + 1), id) is None,
            },
            _ => remove_in_slots(s.take(i + 1), id) is None,
        },
    decreases s.len(),
{
    if i == s.len() - 1 {
        assert(s.drop_last() =~= s.take(i));
        assert(s.take(i + 1) =~= s);
        match s[i] {
            Slot::Hole(Some(m)) => match remove_at(m, id) {
                Ok(m2) => {
                    assert(s.drop_last().push(Slot::Hole(Some(m2))) =~= s.update(i, Slot::Hole(Some(m2))));
                },
                _ => {},
            },
            _ => {},
        }
    } else {
        let d = s.drop_last();
        assert(d.take(i) =~= s.take(i));
        assert(d.take(i + 1) =~= s.take(i + 1));
        lemma_remove_in_slots_at(d, i, id);
        match s[i] {
            Slot::Hole(Some(m)) => match remove_at(m, id) {
                Ok(m2) => {
                    assert(d.update(i, Slot::Hole(Some(m2))).push(s.last()) =~= s.update(i, Slot::Hole(Some(m2))));
                },
                _ => {},
            },
            _ => {},
        }
    }
}

/// What the removal below one block means for the whole list.
pub proof fn lemma_remove_in_list_at<T>(l: Seq<Block<T>>, i: int, id: u128)
    requires
        0 <= i < l.len(),
        remove_in_list(l.take(i), id) is None,
    ensures
        match remove_at(l[i], id) {
            Ok(m2) => remove_in_list(l, id) == Some(l.update(i, m2)),
            Err(_) => remove_in_list(l.take(i + 1), id) is None,
        },
    decreases l.len(),
{
    if i == l.len() - 1 {
        assert(l.drop_last() =~= l.take(i));
        assert(l.take(i + 1) =~= l);
        match remove_at(l[i], id) {
            Ok(m2) => {
                assert(l.drop_last().push(m2) =~= l.update(i, m2));
            },
            _ => {},
        }
    } else {
        let d = l.drop_last();
        assert(d.take(i) =~= l.take(i));
        assert(d.take(i + 1) =~= l.take(i + 1));
        lemma_remove_in_list_at(d, i, id);
        match remove_at(l[i], id) {
            Ok(m2) => {
                assert(d.update(i, m2).push(l.last()) =~= l.update(i, m2));
            },
            _ => {},
        }
    }
}

// ---------------------------------------------------------------------------
// Lookup
// ---------------------------------------------------------------------------

/// In two runs of blocks laid end to end, the first match is the first
/// run's, or else the second's.
pub proof fn lemma_first_with_id_add<T>(a: Seq<Block<T>>, b: Seq<Block<T>>, id: u128)
    ensures
        first_with_id(a + b, id) == match first_with_id(a, id) {
            Some(x) => Some(x),
            None => first_with_id(b, id),
        },
    decreases a.len(),
{
    if a.len() == 0 {
        assert(a + b =~= b);
    } else {
        assert((a + b)[0] == a[0]);
        assert((a + b).drop_first() =~= a.drop_first() + b);
        lemma_first_with_id_add(a.drop_first(), b, id);
    }
}

/// `first_with_id` finds a block exactly when one carries the id, and the
/// block it finds carries it.
pub proof fn lemma_first_with_id<T>(s: Seq<Block<T>>, id: u128)
    ensures
        first_with_id(s, id) is Some <==> has_id(s, id),
        first_with_id(s, id) is Some ==> first_with_id(s, id)->0.id == id && s.contains(first_with_id(s, id)->0),
    decreases s.len(),
{
    if s.len() > 0 {
        if s[0].id == id {
            assert(has_id(s, id));
        } else {
            let d = s.drop_first();
            lemma_first_with_id(d, id);
            if has_id(s, id) {
                let i = choose|i: int| 0 <= i < s.len() && (#[trigger] s[i]).id == id;
                assert(d[i - 1] == s[i]);
                assert(has_id(d, id));
            }
            if has_id(d, id) {
                let i = choose|i: int| 0 <= i < d.len() && (#[trigger] d[i]).id == id;
                assert(s[i + 1] == d[i]);
            }
            if first_with_id(d, id) is Some {
                let x = first_with_id(d, id)->0;
                let i = choose|i: int| 0 <= i < d.len() && d[i] == x;
                assert(s[i + 1] == x);
            }
        }
    }
}

/// The nodes below a run of slots, cut at any position.
pub proof fn lemma_slots_nodes_split<T>(s: Seq<Slot<T>>, k: int)
    requires
        0 <= k <= s.len(),
    ensures
        slots_nodes(s) == slots_nodes(s.take(k)) + slots_nodes(s.skip(k)),
    decreases s.len(),
{
    if k == s.len() {
        assert(s.take(k) =~= s);
        assert(s.skip(k) =~= Seq::<Slot<T>>::empty());
        assert(slots_nodes(s) + Seq::<Block<T>>::empty() =~= slots_nodes(s));
    } else {
        let d = s.drop_last();
        lemma_slots_nodes_split(d, k);
        assert(d.take(k) =~= s.take(k));
        assert(s.skip(k).drop_last() =~= d.skip(k));
        assert(s.skip(k).last() == s.last());
        assert(slots_nodes(s.take(k)) + (slots_nodes(d.skip(k)) + slot_nodes(s.last())) =~= (slots_nodes(s.take(k))
            + slots_nodes(d.skip(k))) + slot_nodes(s.last()));
    }
}

/// The nodes of a list of blocks, cut at any position.
pub proof fn lemma_list_nodes_split<T>(l: Seq<Block<T>>, k: int)
    requires
        0 <= k <= l.len(),
    ensures
        list_nodes(l) == list_nodes(l.take(k)) + list_nodes(l.skip(k)),
    decreases l.len(),
{
    if k == l.len() {
        assert(l.take(k) =~= l);
        assert(l.skip(k) =~= Seq::<Block<T>>::empty());
        assert(list_nodes(l) + Seq::<Block<T>>::empty() =~= list_nodes(l));
    } else {
        let d = l.drop_last();
        lemma_list_nodes_split(d, k);
        assert(d.take(k) =~= l.take(k));
        assert(l.skip(k).drop_last() =~= d.skip(k));
        assert(l.skip(k).last() == l.last());
        assert(list_nodes(l.take(k)) + (list_nodes(d.skip(k)) + l.last().nodes()) =~= (list_nodes(l.take(k))
            + list_nodes(d.skip(k))) + l.last().nodes());
    }
}

/// One more slot adds its nodes at the end.
pub proof fn lemma_slots_nodes_step<T>(s: Seq<Slot<T>>, i: int)
    requires
        0 <= i < s.len(),
    ensures
        slots_nodes(s.take(i + 1)) == slots_nodes(s.take(i)) + slot_nodes(s[i]),
{
    assert(s.take(i + 1).drop_last() =~= s.take(i));
    assert(s.take(i + 1).last() == s[i]);
}

/// One more block adds its nodes at the end.
pub proof fn lemma_list_nodes_step<T>(l: Seq<Block<T>>, i: int)
    requires
        0 <= i < l.len(),
    ensures
        list_nodes(l.take(i + 1)) == list_nodes(l.take(i)) + l[i].nodes(),
{
    assert(l.take(i + 1).drop_last() =~= l.take(i));
    assert(l.take(i + 1).last() == l[i]);
}

/// A match in slot `i`, with none before it, is the match of the whole run.
pub proof fn lemma_first_in_slots<T>(s: Seq<Slot<T>>, i: int, id: u128)
    requires
        0 <= i < s.len(),
        first_with_id(slots_nodes(s.take(i)), id) is None,
    ensures
        first_with_id(slot_nodes(s[i]), id) is Some ==> first_with_id(slots_nodes(s), id) == first_with_id(
            slot_nodes(s[i]),
            id,
        ),
        first_with_id(slot_nodes(s[i]), id) is None ==> first_with_id(slots_nodes(s.take(i + 1)), id) is None,
{
    lemma_slots_nodes_step(s, i);
    lemma_first_with_id_add(slots_nodes(s.take(i)), slot_nodes(s[i]), id);
    lemma_slots_nodes_split(s, i + 1);
    lemma_first_with_id_add(slots_nodes(s.take(i + 1)), slots_nodes(s.skip(i + 1)), id);
}

/// A match in block `i`, with none before it, is the match of the whole list.
pub proof fn lemma_first_in_list<T>(l: Seq<Block<T>>, i: int, id: u128)
    requires
        0 <= i < l.len(),
        first_with_id(list_nodes(l.take(i)), id) is None,
    ensures
        first_with_id(l[i].nodes(), id) is Some ==> first_with_id(list_nodes(l), id) == first_with_id(
            l[i].nodes(),
            id,
        ),
        first_with_id(l[i].nodes(), id) is None ==> first_with_id(list_nodes(l.take(i + 1)), id) is None,
{
    lemma_list_nodes_step(l, i);
    lemma_first_with_id_add(list_nodes(l.take(i)), l[i].nodes(), id);
    lemma_list_nodes_split(l, i + 1);
    lemma_first_with_id_add(list_nodes(l.take(i + 1)), list_nodes(l.skip(i + 1)), id);
}

/// How lookup in a block goes through its parts.
pub proof fn lemma_find_unfold<T>(b: Block<T>, id: u128)
    ensures
        b.find(id) == if b.id == id {
            Some(b)
        } else {
            match first_with_id(slots_nodes(b.slots), id) {
                Some(x) => Some(x),
                None => first_with_id(container_nodes(b.child), id),
            }
        },
{
    let rest = slots_nodes(b.slots) + container_nodes(b.child);
    assert(b.nodes() =~= seq![b] + rest);
    assert((seq![b] + rest)[0] == b);
    assert((seq![b] + rest).drop_first() =~= rest);
    lemma_first_with_id_add(slots_nodes(b.slots), container_nodes(b.child), id);
}

// ---------------------------------------------------------------------------
// Shape
// ---------------------------------------------------------------------------

/// Structural likeness of two slots.
pub open spec fn slot_isomorphic<T>(a: Slot<T>, b: Slot<T>) -> bool
    decreases a,
{
    match (a, b) {
        (Slot::Sign(s), Slot::Sign(t)) => s == t,
        (Slot::Input(_), Slot::Input(_)) => true,
        (Slot::Hole(None), Slot::Hole(None)) => true,
        (Slot::Hole(Some(x)), Slot::Hole(Some(y))) => isomorphic(x, y),
        _ => false,
    }
}

/// Structural likeness of two runs of slots.
pub open spec fn slots_isomorphic<T>(a: Seq<Slot<T>>, b: Seq<Slot<T>>) -> bool
    decreases a,
{
    &&& a.len() == b.len()
    &&& forall|i: int| 0 <= i < a.len() ==> slot_isomorphic(#[trigger] a[i], b[i])
}

/// Structural likeness of two lists of blocks.
pub open spec fn list_isomorphic<T>(a: Seq<Block<T>>, b: Seq<Block<T>>) -> bool
    decreases a,
{
    &&& a.len() == b.len()
    &&& forall|i: int| 0 <= i < a.len() ==> isomorphic(#[trigger] a[i], b[i])
}

/// Structural likeness of two containers.
pub open spec fn container_isomorphic<T>(a: Container<T>, b: Container<T>) -> bool
    decreases a,
{
    match (a, b) {
        (Container::NoBlock, Container::NoBlock) => true,
        (Container::Vertical(l), Container::Vertical(m)) => list_isomorphic(l, m),
        (Container::Horizontal(l), Container::Horizontal(m)) => list_isomorphic(l, m),
        _ => false,
    }
}

/// Structural likeness of two blocks: the same tag, slot for slot the same
/// kind with the same label text and likeness of what sits in the holes, and
/// the same kind of container with likeness block for block. Ids, parents and
/// the text of inputs play no part.
pub open spec fn isomorphic<T>(a: Block<T>, b: Block<T>) -> bool
    decreases a,
{
    &&& a.tag == b.tag
    &&& slots_isomorphic(a.slots, b.slots)
    &&& container_isomorphic(a.child, b.child)
}

/// Two slots that differ in ids and parents only.
pub open spec fn slot_same_content<T>(a: Slot<T>, b: Slot<T>) -> bool
    decreases a,
{
    match (a, b) {
        (Slot::Sign(s), Slot::Sign(t)) => s == t,
        (Slot::Input(s), Slot::Input(t)) => s == t,
        (Slot::Hole(None), Slot::Hole(None)) => true,
        (Slot::Hole(Some(x)), Slot::Hole(Some(y))) => same_content(x, y),
        _ => false,
    }
}

/// Two runs of slots that differ in ids and parents only.
pub open spec fn slots_same_content<T>(a: Seq<Slot<T>>, b: Seq<Slot<T>>) -> bool
    decreases a,
{
    &&& a.len() == b.len()
    &&& forall|i: int| 0 <= i < a.len() ==> slot_same_content(#[trigger] a[i], b[i])
}

/// Two lists of blocks that differ in ids and parents only.
pub open spec fn list_same_content<T>(a: Seq<Block<T>>, b: Seq<Block<T>>) -> bool
    decreases a,
{
    &&& a.len() == b.len()
    &&& forall|i: int| 0 <= i < a.len() ==> same_content(#[trigger] a[i], b[i])
}

/// Two containers that differ in ids and parents only.
pub open spec fn container_same_content<T>(a: Container<T>, b: Container<T>) -> bool
    decreases a,
{
    match (a, b) {
        (Container::NoBlock, Container::NoBlock) => true,
        (Container::Vertical(l), Container::Vertical(m)) => list_same_content(l, m),
        (Container::Horizontal(l), Container::Horizontal(m)) => list_same_content(l, m),
        _ => false,
    }
}

/// Two blocks that differ in ids and parents only: what a copy under new ids
/// has in common with what it was copied from.
pub open spec fn same_content<T>(a: Block<T>, b: Block<T>) -> bool
    decreases a,
{
    &&& a.tag == b.tag
    &&& slots_same_content(a.slots, b.slots)
    &&& container_same_content(a.child, b.child)
}

/// Two slots, over tags of two types, that agree in all but the tags below them.
pub open spec fn slot_same_frame<T, U>(a: Slot<T>, b: Slot<U>) -> bool
    decreases a,
{
    match (a, b) {
        (Slot::Sign(s), Slot::Sign(t)) => s == t,
        (Slot::Input(s), Slot::Input(t)) => s == t,
        (Slot::Hole(None), Slot::Hole(None)) => true,
        (Slot::Hole(Some(x)), Slot::Hole(Some(y))) => same_frame(x, y),
        _ => false,
    }
}

/// Two runs of slots that agree in all but the tags below them.
pub open spec fn slots_same_frame<T, U>(a: Seq<Slot<T>>, b: Seq<Slot<U>>) -> bool
    decreases a,
{
    &&& a.len() == b.len()
    &&& forall|i: int| 0 <= i < a.len() ==> slot_same_frame(#[trigger] a[i], b[i])
}

/// Two lists of blocks that agree in all but their tags.
pub open spec fn list_same_frame<T, U>(a: Seq<Block<T>>, b: Seq<Block<U>>) -> bool
    decreases a,
{
    &&& a.len() == b.len()
    &&& forall|i: int| 0 <= i < a.len() ==> same_frame(#[trigger] a[i], b[i])
}

/// Two containers that agree in all but the tags in them.
pub open spec fn container_same_frame<T, U>(a: Container<T>, b: Container<U>) -> bool
    decreases a,
{
    match (a, b) {
        (Container::NoBlock, Container::NoBlock) => true,
        (Container::Vertical(l), Container::Vertical(m)) => list_same_frame(l, m),
        (Container::Horizontal(l), Container::Horizontal(m)) => list_same_frame(l, m),
        _ => false,
    }
}

/// Two blocks, over tags of two types, that agree in all but their tags:
/// the same ids and parents, the same texts, the same shape.
pub open spec fn same_frame<T, U>(a: Block<T>, b: Block<U>) -> bool
    decreases a,
{
    &&& a.id == b.id
    &&& a.parent == b.parent
    &&& slots_same_frame(a.slots, b.slots)
    &&& container_same_frame(a.child, b.child)
}

/// Whether every block of the list, with all below it, has a random id.
pub open spec fn list_random<T>(l: Seq<Block<T>>) -> bool
    decreases l,
{
    forall|i: int| 0 <= i < l.len() ==> all_random(#[trigger] l[i])
}

/// Whether every block below the slots has a random id.
pub open spec fn slots_random<T>(s: Seq<Slot<T>>) -> bool
    decreases s,
{
    forall|i: int|
        0 <= i < s.len() ==> match #[trigger] s[i] {
            Slot::Hole(Some(m)) => all_random(m),
            _ => true,
        }
}

/// Whether every block in the container has a random id.
pub open spec fn container_random<T>(c: Container<T>) -> bool
    decreases c,
{
    match c {
        Container::NoBlock => true,
        Container::Vertical(l) => list_random(l),
        Container::Horizontal(l) => list_random(l),
    }
}

/// Whether every node of the subtree has the layout of a random id.
pub open spec fn all_random<T>(b: Block<T>) -> bool
    decreases b,
{
    is_random_id(b.id) && slots_random(b.slots) && container_random(b.child)
}

/// A block assembled under a random id from parts whose ids are random has
/// random ids throughout.
pub proof fn lemma_assemble_random<T>(id: u128, slots: Seq<Slot<T>>, child: Container<T>, tag: T)
    requires
        is_random_id(id),
        slots_random(slots),
        container_random(child),
    ensures
        all_random(assemble(id, slots, child, tag)),
{
    let r = assemble(id, slots, child, tag);
    assert forall|i: int| 0 <= i < r.slots.len() implies match #[trigger] r.slots[i] {
        Slot::Hole(Some(m)) => all_random(m),
        _ => true,
    } by {
        match slots[i] {
            Slot::Hole(Some(m)) => {
                assert(all_random(m));
                assert(all_random(m.with_parent(Some(id))));
            },
            _ => {},
        }
    }
    assert(slots_random(r.slots));
    match child {
        Container::NoBlock => {},
        Container::Vertical(l) => {
            assert(list_random(l));
            let n = r.child.list();
            assert forall|i: int| 0 <= i < n.len() implies all_random(#[trigger] n[i]) by {
                assert(all_random(l[i]));
                assert(all_random(l[i].with_parent(Some(id))));
            }
            assert(list_random(n));
        },
        Container::Horizontal(l) => {
            assert(list_random(l));
            let n = r.child.list();
            assert forall|i: int| 0 <= i < n.len() implies all_random(#[trigger] n[i]) by {
                assert(all_random(l[i]));
                assert(all_random(l[i].with_parent(Some(id))));
            }
            assert(list_random(n));
        },
    }
}

/// Whether every block that sits in the slots names `id` as its parent and
/// is itself well linked.
pub open spec fn slots_linked<T>(s: Seq<Slot<T>>, id: u128) -> bool
    decreases s,
{
    forall|i: int|
        0 <= i < s.len() ==> match #[trigger] s[i] {
            Slot::Hole(Some(m)) => m.parent == Some(id) && well_linked(m),
            _ => true,
        }
}

/// Whether every block of the list names `id` as its parent and is itself
/// well linked.
pub open spec fn list_linked<T>(l: Seq<Block<T>>, id: u128) -> bool
    decreases l,
{
    forall|i: int| 0 <= i < l.len() ==> (#[trigger] l[i]).parent == Some(id) && well_linked(l[i])
}

/// Whether every block of the container names `id` as its parent and is
/// itself well linked.
pub open spec fn container_linked<T>(c: Container<T>, id: u128) -> bool
    decreases c,
{
    match c {
        Container::NoBlock => true,
        Container::Vertical(l) => list_linked(l, id),
        Container::Horizontal(l) => list_linked(l, id),
    }
}

/// Whether, throughout the subtree, each node's parent is the id of the node
/// that holds it.
pub open spec fn well_linked<T>(b: Block<T>) -> bool
    decreases b,
{
    slots_linked(b.slots, b.id) && container_linked(b.child, b.id)
}

/// A slot whose occupant, if any, has been given the parent `id`.
pub open spec fn adopt_slot<T>(s: Slot<T>, id: u128) -> Slot<T> {
    match s {
        Slot::Hole(Some(m)) => Slot::Hole(Some(m.with_parent(Some(id)))),
        _ => s,
    }
}

/// Slots whose occupants have been given the parent `id`.
pub open spec fn adopt_slots<T>(s: Seq<Slot<T>>, id: u128) -> Seq<Slot<T>> {
    Seq::new(s.len(), |i: int| adopt_slot(s[i], id))
}

/// Blocks that have been given the parent `id`.
pub open spec fn adopt_list<T>(l: Seq<Block<T>>, id: u128) -> Seq<Block<T>> {
    Seq::new(l.len(), |i: int| l[i].with_parent(Some(id)))
}

/// A container whose blocks have been given the parent `id`.
pub open spec fn adopt_container<T>(c: Container<T>, id: u128) -> Container<T> {
    c.with_list(adopt_list(c.list(), id))
}

/// The block with this id that is built from the given parts: it has no
/// parent yet, and its direct children name it as theirs.
pub open spec fn assemble<T>(id: u128, slots: Seq<Slot<T>>, child: Container<T>, tag: T) -> Block<T> {
    Block { id, parent: None, slots: adopt_slots(slots, id), child: adopt_container(child, id), tag }
}

/// Likeness does not see a block's parent.
pub proof fn lemma_isomorphic_with_parent<T>(a: Block<T>, b: Block<T>, p: Option<u128>)
    ensures
        isomorphic(a, b.with_parent(p)) == isomorphic(a, b),
        isomorphic(a.with_parent(p), b) == isomorphic(a, b),
        same_content(a, b.with_parent(p)) == same_content(a, b),
        well_linked(b.with_parent(p)) == well_linked(b),
{
}

/// Blocks that differ in ids and parents only are alike.
pub proof fn lemma_same_content_isomorphic<T>(a: Block<T>, b: Block<T>)
    requires
        same_content(a, b),
    ensures
        isomorphic(a, b),
    decreases a,
{
    assert(slots_same_content(a.slots, b.slots));
    assert forall|i: int| 0 <= i < a.slots.len() implies slot_isomorphic(#[trigger] a.slots[i], b.slots[i]) by {
        assert(slot_same_content(a.slots[i], b.slots[i]));
        match (a.slots[i], b.slots[i]) {
            (Slot::Hole(Some(x)), Slot::Hole(Some(y))) => {
                lemma_same_content_isomorphic(x, y);
            },
            _ => {},
        }
    }
    assert(slots_isomorphic(a.slots, b.slots));
    match (a.child, b.child) {
        (Container::Vertical(l), Container::Vertical(m)) => {
            assert(container_same_content(a.child, b.child));
            assert(list_same_content(l, m));
            assert forall|i: int| 0 <= i < l.len() implies isomorphic(#[trigger] l[i], m[i]) by {
                assert(same_content(l[i], m[i]));
                lemma_same_content_isomorphic(l[i], m[i]);
            }
            assert(list_isomorphic(l, m));
        },
        (Container::Horizontal(l), Container::Horizontal(m)) => {
            assert(container_same_content(a.child, b.child));
            assert(list_same_content(l, m));
            assert forall|i: int| 0 <= i < l.len() implies isomorphic(#[trigger] l[i], m[i]) by {
                assert(same_content(l[i], m[i]));
                lemma_same_content_isomorphic(l[i], m[i]);
            }
            assert(list_isomorphic(l, m));
        },
        _ => {},
    }
}

/// Whether the parent links hold below each block of the list.
pub open spec fn each_linked<T>(l: Seq<Block<T>>) -> bool {
    forall|i: int| 0 <= i < l.len() ==> well_linked(#[trigger] l[i])
}

/// Whether the parent links hold below each block that is handed in as a
/// direct child.
pub open spec fn parts_linked<T>(slots: Seq<Slot<T>>, child: Container<T>) -> bool {
    &&& forall|i: int|
        0 <= i < slots.len() ==> match #[trigger] slots[i] {
            Slot::Hole(Some(m)) => well_linked(m),
            _ => true,
        }
    &&& each_linked(child.list())
}

/// Blocks below which the links hold, given a common parent, are linked to it.
pub proof fn lemma_adopt_list_linked<T>(l: Seq<Block<T>>, id: u128)
    requires
        each_linked(l),
    ensures
        list_linked(adopt_list(l, id), id),
{
    let a = adopt_list(l, id);
    assert forall|i: int| 0 <= i < a.len() implies (#[trigger] a[i]).parent == Some(id) && well_linked(a[i]) by {
        lemma_isomorphic_with_parent(l[i], l[i], Some(id));
    }
}

/// A block assembled from well-linked children is well linked.
pub proof fn lemma_assemble_linked<T>(id: u128, slots: Seq<Slot<T>>, child: Container<T>, tag: T)
    requires
        parts_linked(slots, child),
    ensures
        well_linked(assemble(id, slots, child, tag)),
{
    let r = assemble(id, slots, child, tag);
    assert forall|i: int| 0 <= i < r.slots.len() implies match #[trigger] r.slots[i] {
        Slot::Hole(Some(m)) => m.parent == Some(id) && well_linked(m),
        _ => true,
    } by {
        match slots[i] {
            Slot::Hole(Some(m)) => {
                lemma_isomorphic_with_parent(m, m, Some(id));
            },
            _ => {},
        }
    }
    assert(slots_linked(r.slots, id));
    let l = r.child.list();
    assert forall|i: int| 0 <= i < l.len() implies (#[trigger] l[i]).parent == Some(id) && well_linked(l[i]) by {
        let m = child.list()[i];
        lemma_isomorphic_with_parent(m, m, Some(id));
    }
    assert(list_linked(l, id));
    assert(container_linked(r.child, id));
}

/// A block assembled from parts that differ from those of `a` in ids and
/// parents only, under the tag of `a`, differs from `a` in ids and parents only.
pub proof fn lemma_assemble_same_content<T>(a: Block<T>, id: u128, slots: Seq<Slot<T>>, child: Container<T>, tag: T)
    requires
        a.tag == tag,
        slots_same_content(a.slots, slots),
        container_same_content(a.child, child),
    ensures
        same_content(a, assemble(id, slots, child, tag)),
{
    let r = assemble(id, slots, child, tag);
    assert forall|i: int| 0 <= i < a.slots.len() implies slot_same_content(#[trigger] a.slots[i], r.slots[i]) by {
        assert(slot_same_content(a.slots[i], slots[i]));
        match (a.slots[i], slots[i]) {
            (Slot::Hole(Some(x)), Slot::Hole(Some(y))) => {
                lemma_isomorphic_with_parent(x, y, Some(id));
            },
            _ => {},
        }
    }
    assert(slots_same_content(a.slots, r.slots));
    match (a.child, child) {
        (Container::Vertical(l), Container::Vertical(m)) => {
            assert(list_same_content(l, m));
            let n = r.child.list();
            assert forall|i: int| 0 <= i < l.len() implies same_content(#[trigger] l[i], n[i]) by {
                assert(same_content(l[i], m[i]));
                lemma_isomorphic_with_parent(l[i], m[i], Some(id));
            }
            assert(list_same_content(l, n));
        },
        (Container::Horizontal(l), Container::Horizontal(m)) => {
            assert(list_same_content(l, m));
            let n = r.child.list();
            assert forall|i: int| 0 <= i < l.len() implies same_content(#[trigger] l[i], n[i]) by {
                assert(same_content(l[i], m[i]));
                lemma_isomorphic_with_parent(l[i], m[i], Some(id));
            }
            assert(list_same_content(l, n));
        },
        _ => {},
    }
    assert(container_same_content(a.child, r.child));
}

/// Selection by tag goes through two runs laid end to end.
pub proof fn lemma_with_tag_add<T>(a: Seq<Block<T>>, b: Seq<Block<T>>, tag: T)
    ensures
        with_tag(a + b, tag) == with_tag(a, tag) + with_tag(b, tag),
{
    Seq::filter_distributes_over_add(a, b, tag_is(tag));
}

/// Selection by tag from a single block.
pub proof fn lemma_with_tag_one<T>(b: Block<T>, tag: T)
    ensures
        with_tag(seq![b], tag) == if b.tag == tag {
            seq![b]
        } else {
            Seq::empty()
        },
{
    reveal_with_fuel(Seq::filter, 2);
    let s = seq![b];
    assert(s.drop_last() =~= Seq::<Block<T>>::empty());
    assert(s.last() == b);
    assert(Seq::<Block<T>>::empty().push(b) =~= seq![b]);
}

// ---------------------------------------------------------------------------
// Replacement in place
// ---------------------------------------------------------------------------

/// The slots after the first node with this id below them has been replaced;
/// `None` when there is no such node.
pub open spec fn replace_in_slots<T>(s: Seq<Slot<T>>, id: u128, nb: Block<T>) -> Option<Seq<Slot<T>>>
    decreases s, 0nat,
{
    if s.len() == 0 {
        None
    } else {
        match replace_in_slots(s.drop_last(), id, nb) {
            Some(p) => Some(p.push(s.last())),
            None => match s.last() {
                Slot::Hole(Some(m)) => if first_with_id(m.nodes(), id) is Some {
                    Some(s.drop_last().push(Slot::Hole(Some(replace_at(m, id, nb)))))
                } else {
                    None
                },
                _ => None,
            },
        }
    }
}

/// The list after its first node with this id has been replaced; `None`
/// when there is no such node.
pub open spec fn replace_in_list<T>(l: Seq<Block<T>>, id: u128, nb: Block<T>) -> Option<Seq<Block<T>>>
    decreases l, 0nat,
{
    if l.len() == 0 {
        None
    } else {
        match replace_in_list(l.drop_last(), id, nb) {
            Some(p) => Some(p.push(l.last())),
            None => if first_with_id(l.last().nodes(), id) is Some {
                Some(l.drop_last().push(replace_at(l.last(), id, nb)))
            } else {
                None
            },
        }
    }
}

/// The container after its first node with this id has been replaced.
pub open spec fn replace_in_container<T>(c: Container<T>, id: u128, nb: Block<T>) -> Option<Container<T>>
    decreases c, 1nat,
{
    match c {
        Container::NoBlock => None,
        Container::Vertical(l) => match replace_in_list(l, id, nb) {
            Some(l2) => Some(Container::Vertical(l2)),
            None => None,
        },
        Container::Horizontal(l) => match replace_in_list(l, id, nb) {
            Some(l2) => Some(Container::Horizontal(l2)),
            None => None,
        },
    }
}

/// The subtree with its first node, in traversal order, that carries `id`
/// replaced by `nb`; the subtree itself where no node carries the id.
pub open spec fn replace_at<T>(b: Block<T>, id: u128, nb: Block<T>) -> Block<T>
    decreases b,
{
    if b.id == id {
        nb
    } else {
        match replace_in_slots(b.slots, id, nb) {
            Some(slots) => Block { slots, ..b },
            None => match replace_in_container(b.child, id, nb) {
                Some(child) => Block { child, ..b },
                None => b,
            },
        }
    }
}

/// Where no slot holds the id, the run of slots does not.
pub proof fn lemma_slots_none<T>(s: Seq<Slot<T>>, id: u128, nb: Block<T>)
    requires
        forall|j: int| 0 <= j < s.len() ==> first_with_id(slot_nodes(#[trigger] s[j]), id) is None,
    ensures
        first_with_id(slots_nodes(s), id) is None,
        replace_in_slots(s, id, nb) is None,
    decreases s.len(),
{
    if s.len() > 0 {
        let d = s.drop_last();
        assert forall|j: int| 0 <= j < d.len() implies first_with_id(slot_nodes(#[trigger] d[j]), id) is None by {
            assert(d[j] == s[j]);
        }
        lemma_slots_none(d, id, nb);
        assert(first_with_id(slot_nodes(s[s.len() - 1]), id) is None);
        lemma_first_with_id_add(slots_nodes(d), slot_nodes(s.last()), id);
    }
}

/// Where no block of the list holds the id, the list does not.
pub proof fn lemma_list_none<T>(l: Seq<Block<T>>, id: u128, nb: Block<T>)
    requires
        forall|j: int| 0 <= j < l.len() ==> first_with_id((#[trigger] l[j]).nodes(), id) is None,
    ensures
        first_with_id(list_nodes(l), id) is None,
        replace_in_list(l, id, nb) is None,
    decreases l.len(),
{
    if l.len() > 0 {
        let d = l.drop_last();
        assert forall|j: int| 0 <= j < d.len() implies first_with_id((#[trigger] d[j]).nodes(), id) is None by {
            assert(d[j] == l[j]);
        }
        lemma_list_none(d, id, nb);
        assert(first_with_id(l[l.len() - 1].nodes(), id) is None);
        lemma_first_with_id_add(list_nodes(d), l.last().nodes(), id);
    }
}

/// The first slot that holds the id decides lookup and replacement for the
/// whole run of slots.
pub proof fn lemma_slots_first_hit<T>(s: Seq<Slot<T>>, i: int, id: u128, nb: Block<T>)
    requires
        0 <= i < s.len(),
        forall|j: int| 0 <= j < i ==> first_with_id(slot_nodes(#[trigger] s[j]), id) is None,
        first_with_id(slot_nodes(s[i]), id) is Some,
    ensures
        s[i] is Hole,
        s[i]->Hole_0 is Some,
        first_with_id(slots_nodes(s), id) == first_with_id(s[i]->Hole_0->0.nodes(), id),
        replace_in_slots(s, id, nb) == Some(s.update(i, Slot::Hole(Some(replace_at(s[i]->Hole_0->0, id, nb))))),
    decreases s.len(),
{
    let t = s.take(i);
    assert forall|j: int| 0 <= j < t.len() implies first_with_id(slot_nodes(#[trigger] t[j]), id) is None by {
        assert(t[j] == s[j]);
    }
    lemma_slots_none(t, id, nb);
    lemma_first_in_slots(s, i, id);
    let m = s[i]->Hole_0->0;
    let filled = Slot::Hole(Some(replace_at(m, id, nb)));
    if i == s.len() - 1 {
        assert(s.drop_last() =~= t);
        assert(s.drop_last().push(filled) =~= s.update(i, filled));
    } else {
        let d = s.drop_last();
        assert forall|j: int| 0 <= j < i implies first_with_id(slot_nodes(#[trigger] d[j]), id) is None by {
            assert(d[j] == s[j]);
        }
        assert(d[i] == s[i]);
        lemma_slots_first_hit(d, i, id, nb);
        assert(d.update(i, filled).push(s.last()) =~= s.update(i, filled));
    }
}

/// The first block that holds the id decides lookup and replacement for the
/// whole list.
pub proof fn lemma_list_first_hit<T>(l: Seq<Block<T>>, i: int, id: u128, nb: Block<T>)
    requires
        0 <= i < l.len(),
        forall|j: int| 0 <= j < i ==> first_with_id((#[trigger] l[j]).nodes(), id) is None,
        first_with_id(l[i].nodes(), id) is Some,
    ensures
        first_with_id(list_nodes(l), id) == first_with_id(l[i].nodes(), id),
        replace_in_list(l, id, nb) == Some(l.update(i, replace_at(l[i], id, nb))),
    decreases l.len(),
{
    let t = l.take(i);
    assert forall|j: int| 0 <= j < t.len() implies first_with_id((#[trigger] t[j]).nodes(), id) is None by {
        assert(t[j] == l[j]);
    }
    lemma_list_none(t, id, nb);
    lemma_first_in_list(l, i, id);
    let filled = replace_at(l[i], id, nb);
    if i == l.len() - 1 {
        assert(l.drop_last() =~= t);
        assert(l.drop_last().push(filled) =~= l.update(i, filled));
    } else {
        let d = l.drop_last();
        assert forall|j: int| 0 <= j < i implies first_with_id((#[trigger] d[j]).nodes(), id) is None by {
            assert(d[j] == l[j]);
        }
        assert(d[i] == l[i]);
        lemma_list_first_hit(d, i, id, nb);
        assert(d.update(i, filled).push(l.last()) =~= l.update(i, filled));
    }
}

} // verus!
