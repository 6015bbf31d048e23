use vstd::prelude::*;
use vstd::std_specs::cmp::PartialEqSpec;
use crate::ids::{fresh_id, is_random_id, lemma_random_id_not_nil};
use crate::logic::dotevery_editor::{
    DotEveryEditorErrorMessage, DotEveryEditorOperationIndex, DotEveryEditorResult,
};
use crate::logic::laws::{law_add_keeps_links, law_remove_keeps_links};
use crate::logic::model::{
    add_at, add_in_list, add_in_slots, adopt_slot, all_random, assemble, container_isomorphic,
    container_nodes, container_random, container_same_content, container_same_frame, fill, first_with_id,
    index_of_id, index_of_occupant, isomorphic, lemma_add_in_list_at, lemma_add_in_slots_at,
    lemma_assemble_linked, lemma_assemble_random, lemma_assemble_same_content, lemma_find_unfold,
    lemma_first_in_list, lemma_first_in_slots, lemma_index_of_id, lemma_index_of_id_is,
    lemma_index_of_occupant, lemma_index_of_occupant_is, lemma_list_first_hit, lemma_list_nodes_step,
    lemma_list_none, lemma_remove_in_list_at, lemma_remove_in_slots_at, lemma_same_content_isomorphic,
    lemma_slots_first_hit, lemma_slots_nodes_step, lemma_slots_none, lemma_with_tag_add,
    lemma_with_tag_one, list_isomorphic, list_nodes, list_random, list_same_content, list_same_frame,
    nth_counted, obeys_tag_clone, obeys_tag_eq, parts_linked, place, remove_at, remove_from_list,
    remove_in_list, remove_in_slots, replace_at, replace_in_list, replace_in_slots, same_content,
    same_frame, slot_isomorphic, slot_nodes, slot_same_content, slot_same_frame, slots_isomorphic,
    slots_nodes, slots_random, slots_same_content, slots_same_frame, well_linked, with_tag, Block,
    Container, Slot,
};
use crate::logic::unique_ids::{
    apart, id_bag, law_add_keeps_ids_unique, law_remove_keeps_ids_unique, unique_ids,
};
use crate::util::Isomorphism;

verus! {

// ---------------------------------------------------------------------------
// The tree and its snapshot
// ---------------------------------------------------------------------------

/// One of a block's ordered fields.
#[derive(Debug, PartialEq)]
pub enum ProgramModuleOption<T: 'static + Clone + PartialEq> {
    /// A label that is shown and never changes.
    StringSign(String),
    /// A text that the user edits in place.
    StringInput(String),
    /// A hole for one block: empty, or occupied.
    ProgramModule(Option<ProgramModule<T>>),
}

/// A block's nested sequence of blocks.
#[derive(Debug, PartialEq)]
pub enum ProgramModuleChildItems<T: 'static + Clone + PartialEq> {
    /// The block nests no sequence.
    NoBlock,
    /// A sequence laid out from top to bottom.
    BlockVertical(Vec<ProgramModule<T>>),
    /// A sequence laid out from left to right.
    BlockHorizontal(Vec<ProgramModule<T>>),
}

/// A node of the document tree.
#[derive(Debug, PartialEq)]
pub struct ProgramModule<Type: 'static + Clone + PartialEq = ()> {
    /// The node's identity.
    pub id: u128,
    /// The id of the node or document that holds this node; none while the
    /// node is not placed.
    pub parent: Option<u128>,
    /// The node's fields, in order.
    pub options: Vec<ProgramModuleOption<Type>>,
    /// The node's nested sequence of blocks.
    pub child: ProgramModuleChildItems<Type>,
    /// What the node stands for; the tree only compares it.
    pub type_data: Type,
}

/// The snapshot of a slot.
pub open spec fn option_view<T: 'static + Clone + PartialEq>(o: ProgramModuleOption<T>) -> Slot<T>
    decreases o,
{
    match o {
        ProgramModuleOption::StringSign(s) => Slot::Sign(s@),
        ProgramModuleOption::StringInput(s) => Slot::Input(s@),
        ProgramModuleOption::ProgramModule(None) => Slot::Hole(None),
        ProgramModuleOption::ProgramModule(Some(m)) => Slot::Hole(Some(module_view(m))),
    }
}

/// The snapshots of a run of slots.
pub open spec fn options_view<T: 'static + Clone + PartialEq>(s: Seq<ProgramModuleOption<T>>) -> Seq<Slot<T>>
    decreases s,
{
    Seq::new(s.len(), |i: int| if 0 <= i < s.len() { option_view(s[i]) } else { arbitrary() })
}

/// The snapshots of a list of blocks.
pub open spec fn list_view<T: 'static + Clone + PartialEq>(s: Seq<ProgramModule<T>>) -> Seq<Block<T>>
    decreases s,
{
    Seq::new(s.len(), |i: int| if 0 <= i < s.len() { module_view(s[i]) } else { arbitrary() })
}

/// The snapshot of a container.
pub open spec fn child_view<T: 'static + Clone + PartialEq>(c: ProgramModuleChildItems<T>) -> Container<T>
    decreases c,
{
    match c {
        ProgramModuleChildItems::NoBlock => Container::NoBlock,
        ProgramModuleChildItems::BlockVertical(l) => Container::Vertical(list_view(l@)),
        ProgramModuleChildItems::BlockHorizontal(l) => Container::Horizontal(list_view(l@)),
    }
}

/// The snapshot of a block with all that is below it.
pub open spec fn module_view<T: 'static + Clone + PartialEq>(m: ProgramModule<T>) -> Block<T>
    decreases m,
{
    Block {
        id: m.id,
        parent: m.parent,
        slots: options_view(m.options@),
        child: child_view(m.child),
        tag: m.type_data,
    }
}

impl<T: 'static + Clone + PartialEq> View for ProgramModule<T> {
    type V = Block<T>;

    open spec fn view(&self) -> Block<T> {
        module_view(*self)
    }
}

/// The snapshots of the blocks that a list of references points at.
pub open spec fn refs_view<T: 'static + Clone + PartialEq>(s: Seq<&ProgramModule<T>>) -> Seq<Block<T>> {
    Seq::new(s.len(), |i: int| s[i]@)
}

/// The snapshot of a run of slots after one slot has been exchanged.
proof fn lemma_options_view_update<T: 'static + Clone + PartialEq>(
    s: Seq<ProgramModuleOption<T>>,
    i: int,
    o: ProgramModuleOption<T>,
)
    requires
        0 <= i < s.len(),
    ensures
        options_view(s.update(i, o)) == options_view(s).update(i, option_view(o)),
{
    assert(options_view(s.update(i, o)) =~= options_view(s).update(i, option_view(o)));
}

// ---------------------------------------------------------------------------
// Construction
// ---------------------------------------------------------------------------

/// Makes `id` the parent of every block of the list.
pub(crate) fn set_parent_to_list<T: 'static + Clone + PartialEq>(id: u128, list: &mut Vec<ProgramModule<T>>)
    ensures
        final(list).len() == old(list).len(),
        forall|j: int| 0 <= j < old(list).len() ==> (#[trigger] final(list)@[j])@ == old(list)@[j]@.with_parent(Some(id)),
{
    let mut i: usize = 0;
    while i < list.len()
        invariant
            0 <= i <= list.len(),
            list.len() == old(list).len(),
            forall|j: int| 0 <= j < i ==> (#[trigger] list@[j])@ == old(list)@[j]@.with_parent(Some(id)),
            forall|j: int| i <= j < list.len() ==> list@[j] == old(list)@[j],
        decreases list.len() - i,
    {
        list[i].parent = Some(id);
        i += 1;
    }
}

/// Makes `id` the parent of every block that sits in a hole.
fn set_parent_to_options<T: 'static + Clone + PartialEq>(id: u128, options: &mut Vec<ProgramModuleOption<T>>)
    ensures
        final(options).len() == old(options).len(),
        forall|j: int|
            0 <= j < old(options).len() ==> option_view(#[trigger] final(options)@[j]) == adopt_slot(
                option_view(old(options)@[j]),
                id,
            ),
{
    let mut i: usize = 0;
    while i < options.len()
        invariant
            0 <= i <= options.len(),
            options.len() == old(options).len(),
            forall|j: int|
                0 <= j < i ==> option_view(#[trigger] options@[j]) == adopt_slot(option_view(old(options)@[j]), id),
            forall|j: int| i <= j < options.len() ==> options@[j] == old(options)@[j],
        decreases options.len() - i,
    {
        match &mut options[i] {
            ProgramModuleOption::ProgramModule(Some(module)) => {
                module.parent = Some(id);
            },
            _ => {},
        }
        i += 1;
    }
}

impl<T: 'static + Clone + PartialEq + Default> ProgramModule<T> {
    /// A new block, under a new random id, with the default tag.
    pub fn new_default(options: Vec<ProgramModuleOption<T>>, child: ProgramModuleChildItems<T>) -> (r: Self)
        ensures
            is_random_id(r@.id),
            exists|tag: T| r@ == assemble(r@.id, options_view(options@), child_view(child), tag),
            parts_linked(options_view(options@), child_view(child)) ==> well_linked(r@),
    {
        Self::new(options, child, Default::default())
    }

    /// A new block, under the given id, with the default tag.
    pub fn new_default_with_id(id: u128, options: Vec<ProgramModuleOption<T>>, child: ProgramModuleChildItems<T>) -> (r:
        Self)
        ensures
            exists|tag: T| r@ == assemble(id, options_view(options@), child_view(child), tag),
            parts_linked(options_view(options@), child_view(child)) ==> well_linked(r@),
    {
        Self::new_with_id(id, options, child, Default::default())
    }
}

impl<T: 'static + Clone + PartialEq> ProgramModule<T> {
    /// A new block under a new random id. It has no parent yet; the blocks
    /// handed in as its direct children get it as theirs.
    pub fn new(options: Vec<ProgramModuleOption<T>>, child: ProgramModuleChildItems<T>, type_data: T) -> (r: Self)
        ensures
            is_random_id(r@.id),
            r@.id != 0,
            r@ == assemble(r@.id, options_view(options@), child_view(child), type_data),
            parts_linked(options_view(options@), child_view(child)) ==> well_linked(r@),
    {
        let id = fresh_id();
        proof {
            lemma_random_id_not_nil(id);
        }
        Self::new_with_id(id, options, child, type_data)
    }

    /// A new block under the given id. It has no parent yet; the blocks
    /// handed in as its direct children get it as theirs.
    pub fn new_with_id(
        id: u128,
        options: Vec<ProgramModuleOption<T>>,
        child: ProgramModuleChildItems<T>,
        type_data: T,
    ) -> (r: Self)
        ensures
            r@ == assemble(id, options_view(options@), child_view(child), type_data),
            parts_linked(options_view(options@), child_view(child)) ==> well_linked(r@),
    {
        proof {
            if parts_linked(options_view(options@), child_view(child)) {
                lemma_assemble_linked(id, options_view(options@), child_view(child), type_data);
            }
        }
        let mut slots = options;
        let mut nested = child;
        set_parent_to_options(id, &mut slots);
        match &mut nested {
            ProgramModuleChildItems::NoBlock => {},
            ProgramModuleChildItems::BlockVertical(list) => set_parent_to_list(id, list),
            ProgramModuleChildItems::BlockHorizontal(list) => set_parent_to_list(id, list),
        }
        let r = Self { id, parent: None, options: slots, child: nested, type_data };
        proof {
            let want = assemble(id, options_view(options@), child_view(child), type_data);
            assert(r@.slots =~= want.slots);
            assert(child_view(r.child).list() =~= want.child.list());
        }
        r
    }
}

// ---------------------------------------------------------------------------
// Copies that keep ids
// ---------------------------------------------------------------------------

impl<T: 'static + Clone + PartialEq> Clone for ProgramModuleOption<T> {
    fn clone(&self) -> (r: Self)
        ensures
            obeys_tag_clone::<T>() ==> option_view(r) == option_view(*self),
        decreases self,
    {
        match self {
            ProgramModuleOption::StringSign(s) => ProgramModuleOption::StringSign(s.clone()),
            ProgramModuleOption::StringInput(s) => ProgramModuleOption::StringInput(s.clone()),
            ProgramModuleOption::ProgramModule(None) => ProgramModuleOption::ProgramModule(None),
            ProgramModuleOption::ProgramModule(Some(m)) => {
                ProgramModuleOption::ProgramModule(Some(m.clone()))
            },
        }
    }
}

impl<T: 'static + Clone + PartialEq> Clone for ProgramModuleChildItems<T> {
    fn clone(&self) -> (r: Self)
        ensures
            obeys_tag_clone::<T>() ==> child_view(r) == child_view(*self),
    {
        match self {
            ProgramModuleChildItems::NoBlock => ProgramModuleChildItems::NoBlock,
            ProgramModuleChildItems::BlockVertical(l) => ProgramModuleChildItems::BlockVertical(clone_list(l)),
            ProgramModuleChildItems::BlockHorizontal(l) => ProgramModuleChildItems::BlockHorizontal(clone_list(l)),
        }
    }
}

impl<T: 'static + Clone + PartialEq> Clone for ProgramModule<T> {
    fn clone(&self) -> (r: Self)
        ensures
            obeys_tag_clone::<T>() ==> r@ == self@,
        decreases self,
    {
        let mut options: Vec<ProgramModuleOption<T>> = Vec::new();
        let mut i: usize = 0;
        while i < self.options.len()
            invariant
                0 <= i <= self.options.len(),
                options.len() == i,
                obeys_tag_clone::<T>() ==> forall|j: int|
                    0 <= j < i ==> option_view(#[trigger] options@[j]) == option_view(self.options@[j]),
            decreases self.options.len() - i,
        {
            let o = self.options[i].clone();
            options.push(o);
            i += 1;
        }
        let child = match &self.child {
            ProgramModuleChildItems::NoBlock => ProgramModuleChildItems::NoBlock,
            ProgramModuleChildItems::BlockVertical(l) => ProgramModuleChildItems::BlockVertical(clone_list(l)),
            ProgramModuleChildItems::BlockHorizontal(l) => ProgramModuleChildItems::BlockHorizontal(clone_list(l)),
        };
        let type_data = self.type_data.clone();
        proof {
            if obeys_tag_clone::<T>() {
                assert(cloned::<T>(self.type_data, type_data));
                assert(options_view(options@) =~= options_view(self.options@));
            }
        }
        ProgramModule { id: self.id, parent: self.parent, options, child, type_data }
    }
}

/// A copy of the list that keeps every id.
pub(crate) fn clone_list<T: 'static + Clone + PartialEq>(list: &Vec<ProgramModule<T>>) -> (r: Vec<ProgramModule<T>>)
    ensures
        r.len() == list.len(),
        obeys_tag_clone::<T>() ==> list_view(r@) == list_view(list@),
    decreases list,
{
    let mut out: Vec<ProgramModule<T>> = Vec::new();
    let mut i: usize = 0;
    while i < list.len()
        invariant
            0 <= i <= list.len(),
            out.len() == i,
            obeys_tag_clone::<T>() ==> forall|j: int| 0 <= j < i ==> (#[trigger] out@[j])@ == list@[j]@,
        decreases list.len() - i,
    {
        let m = list[i].clone();
        out.push(m);
        i += 1;
    }
    proof {
        if obeys_tag_clone::<T>() {
            assert(list_view(out@) =~= list_view(list@));
        }
    }
    out
}

// ---------------------------------------------------------------------------
// Copies under new ids
// ---------------------------------------------------------------------------

/// A copy of the list in which every node has a new random id.
fn deep_clone_list<T: 'static + Clone + PartialEq>(list: &Vec<ProgramModule<T>>) -> (r: Vec<ProgramModule<T>>)
    ensures
        r.len() == list.len(),
        forall|j: int| 0 <= j < r.len() ==> well_linked(#[trigger] list_view(r@)[j]),
        list_random(list_view(r@)),
        obeys_tag_clone::<T>() ==> list_same_content(list_view(list@), list_view(r@)),
    decreases list,
{
    let mut out: Vec<ProgramModule<T>> = Vec::new();
    let mut i: usize = 0;
    while i < list.len()
        invariant
            0 <= i <= list.len(),
            out.len() == i,
            forall|j: int| 0 <= j < i ==> well_linked((#[trigger] out@[j])@),
            forall|j: int| 0 <= j < i ==> all_random((#[trigger] out@[j])@),
            obeys_tag_clone::<T>() ==> forall|j: int| 0 <= j < i ==> same_content(list@[j]@, (#[trigger] out@[j])@),
        decreases list.len() - i,
    {
        let m = list[i].deep_clone();
        out.push(m);
        i += 1;
    }
    proof {
        if obeys_tag_clone::<T>() {
            assert forall|j: int| 0 <= j < list.len() implies same_content(
                #[trigger] list_view(list@)[j],
                list_view(out@)[j],
            ) by {
                assert(same_content(list@[j]@, out@[j]@));
            }
        }
        assert forall|j: int| 0 <= j < out.len() implies well_linked(#[trigger] list_view(out@)[j]) by {
            assert(well_linked(out@[j]@));
        }
        assert forall|j: int| 0 <= j < out.len() implies all_random(#[trigger] list_view(out@)[j]) by {
            assert(all_random(out@[j]@));
        }
    }
    out
}

impl<T: 'static + Clone + PartialEq> ProgramModule<T> {
    /// A copy of the subtree in which every node has a new random id. The
    /// copy has no parent; below it each node's parent is the node that holds
    /// it. Shape, label and input texts and tags are those of this subtree.
    pub fn deep_clone(&self) -> (r: Self)
        ensures
            all_random(r@),
            r@.parent is None,
            well_linked(r@),
            obeys_tag_clone::<T>() ==> same_content(self@, r@),
            obeys_tag_clone::<T>() ==> isomorphic(self@, r@),
        decreases self,
    {
        let mut options: Vec<ProgramModuleOption<T>> = Vec::new();
        let mut i: usize = 0;
        while i < self.options.len()
            invariant
                0 <= i <= self.options.len(),
                options.len() == i,
                forall|j: int|
                    0 <= j < i ==> match option_view(#[trigger] options@[j]) {
                        Slot::Hole(Some(m)) => well_linked(m) && all_random(m),
                        _ => true,
                    },
                obeys_tag_clone::<T>() ==> forall|j: int|
                    0 <= j < i ==> slot_same_content(option_view(self.options@[j]), option_view(#[trigger] options@[j])),
            decreases self.options.len() - i,
        {
            let o = match &self.options[i] {
                ProgramModuleOption::StringSign(s) => ProgramModuleOption::StringSign(s.clone()),
                ProgramModuleOption::StringInput(s) => ProgramModuleOption::StringInput(s.clone()),
                ProgramModuleOption::ProgramModule(None) => ProgramModuleOption::ProgramModule(None),
                ProgramModuleOption::ProgramModule(Some(m)) => ProgramModuleOption::ProgramModule(
                    Some(m.deep_clone()),
                ),
            };
            options.push(o);
            i += 1;
        }
        let child = match &self.child {
            ProgramModuleChildItems::NoBlock => ProgramModuleChildItems::NoBlock,
            ProgramModuleChildItems::BlockVertical(list) => ProgramModuleChildItems::BlockVertical(
                deep_clone_list(list),
            ),
            ProgramModuleChildItems::BlockHorizontal(list) => ProgramModuleChildItems::BlockHorizontal(
                deep_clone_list(list),
            ),
        };
        let type_data = self.type_data.clone();
        let ghost slots = options_view(options@);
        let ghost nested = child_view(child);
        proof {
            assert forall|j: int| 0 <= j < slots.len() implies match #[trigger] slots[j] {
                Slot::Hole(Some(m)) => well_linked(m) && all_random(m),
                _ => true,
            } by {
                assert(slots[j] == option_view(options@[j]));
            }
            assert(slots_random(slots));
            assert(container_random(nested));
            assert forall|j: int| 0 <= j < nested.list().len() implies well_linked(#[trigger] nested.list()[j]) by {
                match child {
                    ProgramModuleChildItems::NoBlock => {},
                    ProgramModuleChildItems::BlockVertical(l) => {
                        assert(well_linked(list_view(l@)[j]));
                    },
                    ProgramModuleChildItems::BlockHorizontal(l) => {
                        assert(well_linked(list_view(l@)[j]));
                    },
                }
            }
        }
        let r = Self::new(options, child, type_data);
        proof {
            lemma_assemble_linked(r@.id, slots, nested, type_data);
            lemma_assemble_random(r@.id, slots, nested, type_data);
            if obeys_tag_clone::<T>() {
                assert(cloned::<T>(self.type_data, type_data));
                assert forall|j: int| 0 <= j < slots.len() implies slot_same_content(
                    #[trigger] self@.slots[j],
                    slots[j],
                ) by {
                    assert(slot_same_content(option_view(self.options@[j]), option_view(options@[j])));
                }
                assert(slots_same_content(self@.slots, slots));
                assert(container_same_content(self@.child, nested));
                lemma_assemble_same_content(self@, r@.id, slots, nested, type_data);
                lemma_same_content_isomorphic(self@, r@);
            }
        }
        r
    }
}

// ---------------------------------------------------------------------------
// Likeness
// ---------------------------------------------------------------------------

/// Whether two runs of slots of one length are alike, slot for slot.
fn options_isomorphisms<T: 'static + Clone + PartialEq>(
    a: &Vec<ProgramModuleOption<T>>,
    b: &Vec<ProgramModuleOption<T>>,
) -> (r: bool)
    requires
        a.len() == b.len(),
    ensures
        obeys_tag_eq::<T>() ==> r == slots_isomorphic(options_view(a@), options_view(b@)),
    decreases a,
{
    let mut i: usize = 0;
    while i < a.len()
        invariant
            0 <= i <= a.len(),
            a.len() == b.len(),
            obeys_tag_eq::<T>() ==> forall|j: int|
                0 <= j < i ==> slot_isomorphic(#[trigger] options_view(a@)[j], options_view(b@)[j]),
        decreases a.len() - i,
    {
        let alike = match (&a[i], &b[i]) {
            (ProgramModuleOption::StringSign(s), ProgramModuleOption::StringSign(t)) => *s == *t,
            (ProgramModuleOption::StringInput(_), ProgramModuleOption::StringInput(_)) => true,
            (ProgramModuleOption::ProgramModule(None), ProgramModuleOption::ProgramModule(None)) => true,
            (ProgramModuleOption::ProgramModule(Some(x)), ProgramModuleOption::ProgramModule(Some(y))) => {
                x.isomorphisms(y)
            },
            _ => false,
        };
        if !alike {
            proof {
                if obeys_tag_eq::<T>() {
                    assert(!slot_isomorphic(options_view(a@)[i as int], options_view(b@)[i as int]));
                }
            }
            return false;
        }
        i += 1;
    }
    true
}

/// Whether two lists of blocks are alike, block for block.
fn list_isomorphisms<T: 'static + Clone + PartialEq>(a: &Vec<ProgramModule<T>>, b: &Vec<ProgramModule<T>>) -> (r:
    bool)
    ensures
        obeys_tag_eq::<T>() ==> r == list_isomorphic(list_view(a@), list_view(b@)),
    decreases a,
{
    if a.len() != b.len() {
        return false;
    }
    let mut i: usize = 0;
    while i < a.len()
        invariant
            0 <= i <= a.len(),
            a.len() == b.len(),
            obeys_tag_eq::<T>() ==> forall|j: int|
                0 <= j < i ==> isomorphic(#[trigger] list_view(a@)[j], list_view(b@)[j]),
        decreases a.len() - i,
    {
        if !a[i].isomorphisms(&b[i]) {
            proof {
                if obeys_tag_eq::<T>() {
                    assert(!isomorphic(list_view(a@)[i as int], list_view(b@)[i as int]));
                }
            }
            return false;
        }
        i += 1;
    }
    true
}

impl<T: 'static + Clone + PartialEq> Isomorphism for ProgramModule<T> {
    /// Whether the two subtrees have the same shape: the same tags, the same
    /// kinds of slots with the same label texts, likeness of what sits in the
    /// holes, and the same kinds of containers with likeness block for block.
    fn isomorphisms(&self, other: &Self) -> (r: bool)
        ensures
            obeys_tag_eq::<T>() ==> r == isomorphic(self@, other@),
        decreases self,
    {
        if self.options.len() != other.options.len() {
            return false;
        }
        let same_tag = self.type_data == other.type_data;
        proof {
            if obeys_tag_eq::<T>() {
                assert(same_tag == self.type_data.eq_spec(&other.type_data));
                assert(same_tag == (self@.tag == other@.tag));
            }
        }
        if !same_tag {
            return false;
        }
        let same_slots = options_isomorphisms(&self.options, &other.options);
        if !same_slots {
            return false;
        }
        let r = match (&self.child, &other.child) {
            (ProgramModuleChildItems::NoBlock, ProgramModuleChildItems::NoBlock) => true,
            (ProgramModuleChildItems::BlockVertical(l), ProgramModuleChildItems::BlockVertical(m)) => {
                list_isomorphisms(l, m)
            },
            (ProgramModuleChildItems::BlockHorizontal(l), ProgramModuleChildItems::BlockHorizontal(m)) => {
                list_isomorphisms(l, m)
            },
            _ => false,
        };
        proof {
            if obeys_tag_eq::<T>() {
                assert(r == container_isomorphic(self@.child, other@.child));
            }
        }
        r
    }
}

/// The list with every tag replaced by the default of another tag type.
fn isomorphic_transform_list<T: 'static + Clone + PartialEq, U: 'static + Clone + PartialEq + Default>(
    list: &Vec<ProgramModule<T>>,
) -> (r: Vec<ProgramModule<U>>)
    ensures
        list_same_frame(list_view(list@), list_view(r@)),
    decreases list,
{
    let mut out: Vec<ProgramModule<U>> = Vec::new();
    let mut i: usize = 0;
    while i < list.len()
        invariant
            0 <= i <= list.len(),
            out.len() == i,
            forall|j: int| 0 <= j < i ==> same_frame(list@[j]@, (#[trigger] out@[j])@),
        decreases list.len() - i,
    {
        let m = list[i].isomorphic_transform();
        out.push(m);
        i += 1;
    }
    proof {
        assert forall|j: int| 0 <= j < list.len() implies same_frame(
            #[trigger] list_view(list@)[j],
            list_view(out@)[j],
        ) by {
            assert(same_frame(list@[j]@, out@[j]@));
        }
    }
    out
}

impl<T: 'static + Clone + PartialEq> ProgramModule<T> {
    /// The same tree over another tag type: ids, parents, texts and shape
    /// stay, and every tag becomes the default of the other type.
    pub fn isomorphic_transform<U: 'static + Clone + PartialEq + Default>(&self) -> (r: ProgramModule<U>)
        ensures
            same_frame(self@, r@),
        decreases self,
    {
        let mut options: Vec<ProgramModuleOption<U>> = Vec::new();
        let mut i: usize = 0;
        while i < self.options.len()
            invariant
                0 <= i <= self.options.len(),
                options.len() == i,
                forall|j: int|
                    0 <= j < i ==> slot_same_frame(option_view(self.options@[j]), option_view(#[trigger] options@[j])),
            decreases self.options.len() - i,
        {
            let o = match &self.options[i] {
                ProgramModuleOption::StringSign(s) => ProgramModuleOption::StringSign(s.clone()),
                ProgramModuleOption::StringInput(s) => ProgramModuleOption::StringInput(s.clone()),
                ProgramModuleOption::ProgramModule(None) => ProgramModuleOption::ProgramModule(None),
                ProgramModuleOption::ProgramModule(Some(m)) => ProgramModuleOption::ProgramModule(
                    Some(m.isomorphic_transform()),
                ),
            };
            options.push(o);
            i += 1;
        }
        let child = match &self.child {
            ProgramModuleChildItems::NoBlock => ProgramModuleChildItems::NoBlock,
            ProgramModuleChildItems::BlockVertical(list) => ProgramModuleChildItems::BlockVertical(
                isomorphic_transform_list(list),
            ),
            ProgramModuleChildItems::BlockHorizontal(list) => ProgramModuleChildItems::BlockHorizontal(
                isomorphic_transform_list(list),
            ),
        };
        let r = ProgramModule { id: self.id, parent: self.parent, options, child, type_data: Default::default() };
        proof {
            assert forall|j: int| 0 <= j < self@.slots.len() implies slot_same_frame(
                #[trigger] self@.slots[j],
                r@.slots[j],
            ) by {
                assert(slot_same_frame(option_view(self.options@[j]), option_view(r.options@[j])));
            }
            assert(slots_same_frame(self@.slots, r@.slots));
            assert(container_same_frame(self@.child, r@.child));
        }
        r
    }
}

// ---------------------------------------------------------------------------
// Lookup
// ---------------------------------------------------------------------------

/// The first node with this id below the occupied holes, in traversal order.
fn get_module_from_options<T: 'static + Clone + PartialEq>(id: u128, options: &Vec<ProgramModuleOption<T>>) -> (r:
    Option<&ProgramModule<T>>)
    ensures
        match first_with_id(slots_nodes(options_view(options@)), id) {
            Some(b) => r is Some && r->0@ == b,
            None => r is None,
        },
    decreases options,
{
    let ghost slots = options_view(options@);
    let mut i: usize = 0;
    while i < options.len()
        invariant
            0 <= i <= options.len(),
            slots == options_view(options@),
            first_with_id(slots_nodes(slots.take(i as int)), id) is None,
        decreases options.len() - i,
    {
        proof {
            lemma_first_in_slots(slots, i as int, id);
        }
        match &options[i] {
            ProgramModuleOption::ProgramModule(Some(m)) => {
                match m.get_module(id) {
                    Ok(found) => {
                        return Some(found);
                    },
                    Err(_) => {},
                }
            },
            _ => {},
        }
        i += 1;
    }
    proof {
        assert(slots.take(i as int) =~= slots);
    }
    None
}

/// The first node with this id in a list of blocks, in traversal order.
pub(crate) fn get_module_from_list<T: 'static + Clone + PartialEq>(id: u128, list: &Vec<ProgramModule<T>>) -> (r:
    Option<&ProgramModule<T>>)
    ensures
        match first_with_id(list_nodes(list_view(list@)), id) {
            Some(b) => r is Some && r->0@ == b,
            None => r is None,
        },
    decreases list,
{
    let ghost blocks = list_view(list@);
    let mut i: usize = 0;
    while i < list.len()
        invariant
            0 <= i <= list.len(),
            blocks == list_view(list@),
            first_with_id(list_nodes(blocks.take(i as int)), id) is None,
        decreases list.len() - i,
    {
        proof {
            lemma_first_in_list(blocks, i as int, id);
        }
        match list[i].get_module(id) {
            Ok(found) => {
                return Some(found);
            },
            Err(_) => {},
        }
        i += 1;
    }
    proof {
        assert(blocks.take(i as int) =~= blocks);
    }
    None
}

impl<T: 'static + Clone + PartialEq> ProgramModule<T> {
    /// This block's id.
    pub fn id(&self) -> (r: u128)
        ensures
            r == self@.id,
    {
        self.id
    }

    /// The first node of this subtree, in traversal order, with this id:
    /// the block itself, else below its holes, else in its container list.
    pub fn get_module(&self, id: u128) -> (r: DotEveryEditorResult<&ProgramModule<T>>)
        ensures
            match self@.find(id) {
                Some(b) => r is Ok && r->Ok_0@ == b,
                None => r is Err && r->Err_0 == DotEveryEditorErrorMessage::NotFound,
            },
        decreases self,
    {
        proof {
            lemma_find_unfold(self@, id);
        }
        if self.id == id {
            return Ok(self);
        }
        match get_module_from_options(id, &self.options) {
            Some(found) => {
                return Ok(found);
            },
            None => {},
        }
        let found = match &self.child {
            ProgramModuleChildItems::NoBlock => None,
            ProgramModuleChildItems::BlockVertical(list) => get_module_from_list(id, list),
            ProgramModuleChildItems::BlockHorizontal(list) => get_module_from_list(id, list),
        };
        match found {
            Some(m) => Ok(m),
            None => Err(DotEveryEditorErrorMessage::NotFound),
        }
    }
}

/// Every node with this tag below the occupied holes, in traversal order.
fn get_modules_by_type_from_options<'a, T: 'static + Clone + PartialEq>(
    options: &'a Vec<ProgramModuleOption<T>>,
    type_data: &T,
) -> (r: Vec<&'a ProgramModule<T>>)
    ensures
        obeys_tag_eq::<T>() ==> refs_view(r@) == with_tag(slots_nodes(options_view(options@)), *type_data),
    decreases options,
{
    let ghost slots = options_view(options@);
    let mut result: Vec<&ProgramModule<T>> = Vec::new();
    let mut i: usize = 0;
    proof {
        assert(refs_view(result@) =~= with_tag(slots_nodes(slots.take(0)), *type_data));
    }
    while i < options.len()
        invariant
            0 <= i <= options.len(),
            slots == options_view(options@),
            obeys_tag_eq::<T>() ==> refs_view(result@) == with_tag(slots_nodes(slots.take(i as int)), *type_data),
        decreases options.len() - i,
    {
        let ghost before = result@;
        proof {
            lemma_slots_nodes_step(slots, i as int);
            lemma_with_tag_add(slots_nodes(slots.take(i as int)), slot_nodes(slots[i as int]), *type_data);
        }
        match &options[i] {
            ProgramModuleOption::ProgramModule(Some(m)) => {
                let mut found = m.get_modules_by_type(type_data);
                let ghost added = found@;
                result.append(&mut found);
                proof {
                    assert(refs_view(result@) =~= refs_view(before) + refs_view(added));
                }
            },
            _ => {
                proof {
                    assert(refs_view(result@) + Seq::<Block<T>>::empty() =~= refs_view(result@));
                }
            },
        }
        i += 1;
    }
    proof {
        assert(slots.take(i as int) =~= slots);
    }
    result
}

/// Every node with this tag in a list of blocks, in traversal order.
pub(crate) fn get_modules_by_type_from_list<'a, T: 'static + Clone + PartialEq>(
    list: &'a Vec<ProgramModule<T>>,
    type_data: &T,
) -> (r: Vec<&'a ProgramModule<T>>)
    ensures
        obeys_tag_eq::<T>() ==> refs_view(r@) == with_tag(list_nodes(list_view(list@)), *type_data),
    decreases list,
{
    let ghost blocks = list_view(list@);
    let mut result: Vec<&ProgramModule<T>> = Vec::new();
    let mut i: usize = 0;
    proof {
        assert(refs_view(result@) =~= with_tag(list_nodes(blocks.take(0)), *type_data));
    }
    while i < list.len()
        invariant
            0 <= i <= list.len(),
            blocks == list_view(list@),
            obeys_tag_eq::<T>() ==> refs_view(result@) == with_tag(list_nodes(blocks.take(i as int)), *type_data),
        decreases list.len() - i,
    {
        let ghost before = result@;
        proof {
            lemma_list_nodes_step(blocks, i as int);
            lemma_with_tag_add(list_nodes(blocks.take(i as int)), blocks[i as int].nodes(), *type_data);
        }
        let mut found = list[i].get_modules_by_type(type_data);
        let ghost added = found@;
        result.append(&mut found);
        proof {
            assert(refs_view(result@) =~= refs_view(before) + refs_view(added));
        }
        i += 1;
    }
    proof {
        assert(blocks.take(i as int) =~= blocks);
    }
    result
}

impl<T: 'static + Clone + PartialEq> ProgramModule<T> {
    /// Every node of the subtree that carries this tag, in traversal order.
    pub fn get_modules_by_type(&self, type_data: &T) -> (r: Vec<&ProgramModule<T>>)
        ensures
            obeys_tag_eq::<T>() ==> refs_view(r@) == with_tag(self@.nodes(), *type_data),
        decreases self,
    {
        let mut result: Vec<&ProgramModule<T>> = Vec::new();
        let same_tag = self.type_data == *type_data;
        if same_tag {
            result.push(self);
        }
        proof {
            if obeys_tag_eq::<T>() {
                assert(same_tag == self.type_data.eq_spec(type_data));
                lemma_with_tag_one(self@, *type_data);
                assert(refs_view(result@) =~= with_tag(seq![self@], *type_data));
            }
        }
        let ghost first = result@;
        let mut option = get_modules_by_type_from_options(&self.options, type_data);
        let ghost second = option@;
        let mut child = match &self.child {
            ProgramModuleChildItems::NoBlock => Vec::new(),
            ProgramModuleChildItems::BlockVertical(list) => get_modules_by_type_from_list(list, type_data),
            ProgramModuleChildItems::BlockHorizontal(list) => get_modules_by_type_from_list(list, type_data),
        };
        let ghost third = child@;
        result.append(&mut option);
        result.append(&mut child);
        proof {
            if obeys_tag_eq::<T>() {
                let a = seq![self@];
                let b = slots_nodes(self@.slots);
                let c = container_nodes(self@.child);
                assert(refs_view(third) =~= with_tag(c, *type_data));
                assert(refs_view(result@) =~= refs_view(first) + refs_view(second) + refs_view(third));
                lemma_with_tag_add(a, b, *type_data);
                lemma_with_tag_add(a + b, c, *type_data);
            }
        }
        result
    }
}

// ---------------------------------------------------------------------------
// Lookup for change in place
// ---------------------------------------------------------------------------

/// Position of the first hole below whose occupant, the occupant included, a
/// node carries `id`.
fn position_holding_in_options<T: 'static + Clone + PartialEq>(options: &Vec<ProgramModuleOption<T>>, id: u128) -> (r:
    Option<usize>)
    ensures
        match r {
            Some(i) => i < options.len() && first_with_id(slot_nodes(options_view(options@)[i as int]), id) is Some
                && forall|j: int|
                0 <= j < i ==> first_with_id(slot_nodes(#[trigger] options_view(options@)[j]), id) is None,
            None => forall|j: int|
                0 <= j < options.len() ==> first_with_id(slot_nodes(#[trigger] options_view(options@)[j]), id) is None,
        },
{
    let mut i: usize = 0;
    while i < options.len()
        invariant
            0 <= i <= options.len(),
            forall|j: int| 0 <= j < i ==> first_with_id(slot_nodes(#[trigger] options_view(options@)[j]), id) is None,
        decreases options.len() - i,
    {
        let hit = match &options[i] {
            ProgramModuleOption::ProgramModule(Some(m)) => m.get_module(id).is_ok(),
            _ => false,
        };
        if hit {
            return Some(i);
        }
        i += 1;
    }
    None
}

/// Position of the first block of the list in whose subtree a node carries `id`.
fn position_holding_in_list<T: 'static + Clone + PartialEq>(list: &Vec<ProgramModule<T>>, id: u128) -> (r: Option<
    usize,
>)
    ensures
        match r {
            Some(i) => i < list.len() && first_with_id(list_view(list@)[i as int].nodes(), id) is Some && forall|j: int|
                0 <= j < i ==> first_with_id((#[trigger] list_view(list@)[j]).nodes(), id) is None,
            None => forall|j: int|
                0 <= j < list.len() ==> first_with_id((#[trigger] list_view(list@)[j]).nodes(), id) is None,
        },
{
    let mut i: usize = 0;
    while i < list.len()
        invariant
            0 <= i <= list.len(),
            forall|j: int| 0 <= j < i ==> first_with_id((#[trigger] list_view(list@)[j]).nodes(), id) is None,
        decreases list.len() - i,
    {
        if list[i].get_module(id).is_ok() {
            return Some(i);
        }
        i += 1;
    }
    None
}

/// The first node with this id in a list of blocks, for changing in place.
pub(crate) fn get_module_mut_from_list<T: 'static + Clone + PartialEq>(
    id: u128,
    list: &mut Vec<ProgramModule<T>>,
) -> (r: DotEveryEditorResult<&mut ProgramModule<T>>)
    ensures
        match first_with_id(list_nodes(list_view(old(list)@)), id) {
            Some(b) => match r {
                Ok(m) => m@ == b && replace_in_list(list_view(old(list)@), id, final(m)@) == Some(
                    list_view(final(list)@),
                ),
                Err(_) => false,
            },
            None => r is Err && r->Err_0 == DotEveryEditorErrorMessage::NotFound && list_view(final(list)@)
                == list_view(old(list)@),
        },
    decreases *old(list),
{
    let ghost blocks = list_view(list@);
    match position_holding_in_list(list, id) {
        Some(i) => {
            match list[i].get_module_mut(id) {
                Ok(m) => {
                    proof {
                        lemma_list_first_hit(blocks, i as int, id, final(m)@);
                    }
                    Ok(m)
                },
                Err(e) => {
                    proof {
                        lemma_list_first_hit(blocks, i as int, id, blocks[0]);
                    }
                    Err(e)
                },
            }
        },
        None => {
            proof {
                lemma_list_none(blocks, id, arbitrary());
            }
            Err(DotEveryEditorErrorMessage::NotFound)
        },
    }
}

/// The first node with this id below one slot, for changing in place.
fn get_module_mut_from_option<T: 'static + Clone + PartialEq>(id: u128, option: &mut ProgramModuleOption<T>) -> (r:
    DotEveryEditorResult<&mut ProgramModule<T>>)
    ensures
        match first_with_id(slot_nodes(option_view(*old(option))), id) {
            Some(b) => match r {
                Ok(m) => m@ == b && option_view(*old(option)) is Hole && option_view(*old(option))->Hole_0 is Some
                    && option_view(*final(option)) == Slot::Hole(
                    Some(replace_at(option_view(*old(option))->Hole_0->0, id, final(m)@)),
                ),
                Err(_) => false,
            },
            None => r is Err && r->Err_0 == DotEveryEditorErrorMessage::NotFound && option_view(*final(option))
                == option_view(*old(option)),
        },
    decreases *old(option),
{
    match option {
        ProgramModuleOption::ProgramModule(Some(m)) => m.get_module_mut(id),
        _ => Err(DotEveryEditorErrorMessage::NotFound),
    }
}

/// The first node with this id below the occupied holes, for changing in place.
fn get_module_mut_from_options<T: 'static + Clone + PartialEq>(
    id: u128,
    options: &mut Vec<ProgramModuleOption<T>>,
) -> (r: DotEveryEditorResult<&mut ProgramModule<T>>)
    ensures
        match first_with_id(slots_nodes(options_view(old(options)@)), id) {
            Some(b) => match r {
                Ok(m) => m@ == b && replace_in_slots(options_view(old(options)@), id, final(m)@) == Some(
                    options_view(final(options)@),
                ),
                Err(_) => false,
            },
            None => r is Err && r->Err_0 == DotEveryEditorErrorMessage::NotFound && options_view(final(options)@)
                == options_view(old(options)@),
        },
    decreases *old(options),
{
    let ghost slots = options_view(options@);
    match position_holding_in_options(options, id) {
        Some(i) => {
            proof {
                assert forall|o: ProgramModuleOption<T>| #[trigger]
                    options_view(old(options)@.update(i as int, o)) == slots.update(i as int, option_view(o)) by {
                    lemma_options_view_update(old(options)@, i as int, o);
                }
            }
            match get_module_mut_from_option(id, &mut options[i]) {
                Ok(m) => {
                    proof {
                        lemma_slots_first_hit(slots, i as int, id, final(m)@);
                    }
                    Ok(m)
                },
                Err(e) => {
                    proof {
                        lemma_slots_first_hit(slots, i as int, id, arbitrary());
                    }
                    Err(e)
                },
            }
        },
        None => {
            proof {
                lemma_slots_none(slots, id, arbitrary());
            }
            Err(DotEveryEditorErrorMessage::NotFound)
        },
    }
}

impl<T: 'static + Clone + PartialEq> ProgramModule<T> {
    /// The first node of this subtree, in traversal order, with this id, for
    /// changing in place: what the caller leaves in it takes that node's
    /// place in the subtree.
    pub fn get_module_mut(&mut self, id: u128) -> (r: DotEveryEditorResult<&mut ProgramModule<T>>)
        ensures
            match old(self)@.find(id) {
                Some(b) => match r {
                    Ok(m) => m@ == b && final(self)@ == replace_at(old(self)@, id, final(m)@),
                    Err(_) => false,
                },
                None => r is Err && r->Err_0 == DotEveryEditorErrorMessage::NotFound && final(self)@ == old(self)@,
            },
        decreases *old(self),
    {
        proof {
            lemma_find_unfold(self@, id);
        }
        if self.id == id {
            return Ok(self);
        }
        let ghost slots = options_view(self.options@);
        match position_holding_in_options(&self.options, id) {
            Some(i) => {
                proof {
                    lemma_slots_first_hit(slots, i as int, id, arbitrary());
                }
                return get_module_mut_from_options(id, &mut self.options);
            },
            None => {},
        }
        proof {
            lemma_slots_none(slots, id, arbitrary());
        }
        match &mut self.child {
            ProgramModuleChildItems::NoBlock => Err(DotEveryEditorErrorMessage::NotFound),
            ProgramModuleChildItems::BlockVertical(list) => {
                match get_module_mut_from_list(id, list) {
                    Ok(x) => {
                        proof {
                            lemma_slots_none(slots, id, final(x)@);
                        }
                        Ok(x)
                    },
                    Err(e) => Err(e),
                }
            },
            ProgramModuleChildItems::BlockHorizontal(list) => {
                match get_module_mut_from_list(id, list) {
                    Ok(x) => {
                        proof {
                            lemma_slots_none(slots, id, final(x)@);
                        }
                        Ok(x)
                    },
                    Err(e) => Err(e),
                }
            },
        }
    }
}

// ---------------------------------------------------------------------------
// Insertion
// ---------------------------------------------------------------------------

/// Position of the `n`-th slot that counts under the addressing mode.
fn nth_counted_option<T: 'static + Clone + PartialEq>(
    options: &Vec<ProgramModuleOption<T>>,
    n: usize,
    holes_only: bool,
) -> (r: Option<usize>)
    ensures
        match nth_counted(options_view(options@), 0, n as nat, holes_only) {
            Some(k) => r == Some(k as usize) && 0 <= k < options.len(),
            None => r is None,
        },
{
    let mut left: usize = n;
    let mut i: usize = 0;
    while i < options.len()
        invariant
            0 <= i <= options.len(),
            nth_counted(options_view(options@), 0, n as nat, holes_only) == nth_counted(
                options_view(options@),
                i as int,
                left as nat,
                holes_only,
            ),
        decreases options.len() - i,
    {
        let counted = match &options[i] {
            ProgramModuleOption::StringSign(_) => false,
            ProgramModuleOption::StringInput(_) => !holes_only,
            ProgramModuleOption::ProgramModule(_) => true,
        };
        if counted {
            if left == 0 {
                return Some(i);
            }
            left -= 1;
        }
        i += 1;
    }
    None
}

/// Puts `module` at position `index` of a container list.
fn add_inner<T: 'static + Clone + PartialEq>(
    list: &mut Vec<ProgramModule<T>>,
    index: usize,
    module: ProgramModule<T>,
) -> (r: DotEveryEditorResult<()>)
    ensures
        index <= old(list).len() ==> r is Ok && final(list)@ == old(list)@.insert(index as int, module),
        index > old(list).len() ==> r == Err::<(), _>(DotEveryEditorErrorMessage::IndexOutOfRange) && *final(list)
            == *old(list),
{
    if list.len() >= index {
        list.insert(index, module);
        Ok(())
    } else {
        Err(DotEveryEditorErrorMessage::IndexOutOfRange)
    }
}

impl<T: 'static + Clone + PartialEq> ProgramModule<T> {
    /// Puts `module` into slot `k`, which has to be an empty hole.
    fn fill(&mut self, k: usize, module: ProgramModule<T>) -> (r: DotEveryEditorResult<()>)
        ensures
            match fill(old(self)@, k as int, module@) {
                Ok(b) => r is Ok && final(self)@ == b,
                Err(e) => r == Err::<(), _>(e) && final(self)@ == old(self)@,
            },
    {
        if k >= self.options.len() {
            return Err(DotEveryEditorErrorMessage::IndexOutOfRange);
        }
        match &self.options[k] {
            ProgramModuleOption::ProgramModule(None) => {},
            ProgramModuleOption::ProgramModule(Some(_)) => {
                return Err(DotEveryEditorErrorMessage::CanNotReplace);
            },
            _ => {
                return Err(DotEveryEditorErrorMessage::OptionDoesNotExpectProgramModule);
            },
        }
        self.options[k] = ProgramModuleOption::ProgramModule(Some(module));
        proof {
            assert(options_view(self.options@) =~= options_view(old(self).options@).update(
                k as int,
                Slot::Hole(Some(module@)),
            ));
        }
        Ok(())
    }

    /// Places `module` directly under this block.
    fn place(&mut self, index: DotEveryEditorOperationIndex, module: ProgramModule<T>) -> (r: DotEveryEditorResult<()>)
        requires
            module.parent == Some(old(self).id),
        ensures
            match place(old(self)@, index, module@) {
                Ok(b) => r is Ok && final(self)@ == b,
                Err(e) => r == Err::<(), _>(e) && final(self)@ == old(self)@,
            },
    {
        match index {
            DotEveryEditorOperationIndex::OptionAbsolute(i) => self.fill(i, module),
            DotEveryEditorOperationIndex::OptionInputFiltered(i) => {
                match nth_counted_option(&self.options, i, false) {
                    Some(k) => self.fill(k, module),
                    None => Err(DotEveryEditorErrorMessage::IndexOutOfRange),
                }
            },
            DotEveryEditorOperationIndex::OptionProgramModuleFiltered(i) => {
                match nth_counted_option(&self.options, i, true) {
                    Some(k) => self.fill(k, module),
                    None => Err(DotEveryEditorErrorMessage::IndexOutOfRange),
                }
            },
            DotEveryEditorOperationIndex::Child(i) => {
                let ghost x = module@;
                let r = match &mut self.child {
                    ProgramModuleChildItems::NoBlock => Err(
                        DotEveryEditorErrorMessage::ChildDoesNotExpectProgramModule,
                    ),
                    ProgramModuleChildItems::BlockVertical(list) => add_inner(list, i, module),
                    ProgramModuleChildItems::BlockHorizontal(list) => add_inner(list, i, module),
                };
                proof {
                    if r is Ok {
                        assert(child_view(self.child).list() =~= child_view(old(self).child).list().insert(
                            i as int,
                            x,
                        ));
                    }
                }
                r
            },
        }
    }

    /// Places a copy of `module` under the first node of this subtree, in
    /// traversal order, whose id is `target`. The copy's parent becomes
    /// `target`. On any error the subtree is left as it was.
    pub fn add(&mut self, target: u128, index: DotEveryEditorOperationIndex, module: &ProgramModule<T>) -> (r:
        DotEveryEditorResult<()>)
        ensures
            obeys_tag_clone::<T>() ==> match add_at(old(self)@, target, index, module@) {
                Ok(b) => r is Ok && final(self)@ == b,
                Err(e) => r == Err::<(), _>(e) && final(self)@ == old(self)@,
            },
            obeys_tag_clone::<T>() && well_linked(old(self)@) && well_linked(module@) ==> well_linked(final(self)@),
            obeys_tag_clone::<T>() && unique_ids(old(self)@) && unique_ids(module@) && apart(
                id_bag(old(self)@),
                id_bag(module@),
            ) ==> unique_ids(final(self)@),
        decreases *old(self),
    {
        proof {
            if add_at(self@, target, index, module@) is Ok {
                if well_linked(self@) && well_linked(module@) {
                    law_add_keeps_links(self@, target, index, module@);
                }
                if unique_ids(self@) && unique_ids(module@) && apart(id_bag(self@), id_bag(module@)) {
                    law_add_keeps_ids_unique(self@, target, index, module@);
                }
            }
        }
        if self.id == target {
            let mut module = module.clone();
            module.parent = Some(self.id);
            self.place(index, module)
        } else {
            match add_to_options(&mut self.options, target, index, module) {
                Some(r) => r,
                None => {
                    let found = match &mut self.child {
                        ProgramModuleChildItems::NoBlock => None,
                        ProgramModuleChildItems::BlockVertical(list) => add_to_list(list, target, index, module),
                        ProgramModuleChildItems::BlockHorizontal(list) => add_to_list(list, target, index, module),
                    };
                    match found {
                        Some(r) => r,
                        None => Err(DotEveryEditorErrorMessage::NotFound),
                    }
                },
            }
        }
    }
}

/// Tries the insertion below each occupied hole in turn; `None` when no
/// occupant's subtree holds the target.
fn add_to_options<T: 'static + Clone + PartialEq>(
    options: &mut Vec<ProgramModuleOption<T>>,
    target: u128,
    index: DotEveryEditorOperationIndex,
    module: &ProgramModule<T>,
) -> (r: Option<DotEveryEditorResult<()>>)
    ensures
        final(options).len() == old(options).len(),
        obeys_tag_clone::<T>() ==> match add_in_slots(options_view(old(options)@), target, index, module@) {
            Some(Ok(s)) => r == Some(Ok::<(), DotEveryEditorErrorMessage>(())) && options_view(final(options)@) == s,
            Some(Err(e)) => r == Some(Err::<(), _>(e)) && options_view(final(options)@) == options_view(
                old(options)@,
            ),
            None => r is None && options_view(final(options)@) == options_view(old(options)@),
        },
    decreases *old(options),
{
    let mut i: usize = 0;
    while i < options.len()
        invariant
            0 <= i <= options.len(),
            options.len() == old(options).len(),
            forall|j: int| i <= j < options.len() ==> options@[j] == old(options)@[j],
            obeys_tag_clone::<T>() ==> options_view(options@) == options_view(old(options)@),
            obeys_tag_clone::<T>() ==> add_in_slots(
                options_view(old(options)@).take(i as int),
                target,
                index,
                module@,
            ) is None,
        decreases options.len() - i,
    {
        let ghost before = options@;
        proof {
            if obeys_tag_clone::<T>() {
                lemma_add_in_slots_at(options_view(old(options)@), i as int, target, index, module@);
            }
        }
        match &mut options[i] {
            ProgramModuleOption::ProgramModule(Some(m)) => {
                match m.add(target, index, module) {
                    Ok(()) => {
                        proof {
                            if obeys_tag_clone::<T>() {
                                assert(options_view(options@) =~= options_view(old(options)@).update(
                                    i as int,
                                    option_view(options@[i as int]),
                                ));
                            }
                        }
                        return Some(Ok(()));
                    },
                    Err(DotEveryEditorErrorMessage::NotFound) => {},
                    Err(e) => {
                        proof {
                            if obeys_tag_clone::<T>() {
                                assert(options_view(options@) =~= options_view(old(options)@));
                            }
                        }
                        return Some(Err(e));
                    },
                }
            },
            _ => {},
        }
        proof {
            if obeys_tag_clone::<T>() {
                assert(options_view(options@) =~= options_view(old(options)@));
            }
        }
        i += 1;
    }
    proof {
        assert(options_view(old(options)@).take(i as int) =~= options_view(old(options)@));
    }
    None
}

/// Tries the insertion below each block of the list in turn; `None` when no
/// block's subtree holds the target.
pub(crate) fn add_to_list<T: 'static + Clone + PartialEq>(
    list: &mut Vec<ProgramModule<T>>,
    target: u128,
    index: DotEveryEditorOperationIndex,
    module: &ProgramModule<T>,
) -> (r: Option<DotEveryEditorResult<()>>)
    ensures
        final(list).len() == old(list).len(),
        obeys_tag_clone::<T>() ==> match add_in_list(list_view(old(list)@), target, index, module@) {
            Some(Ok(s)) => r == Some(Ok::<(), DotEveryEditorErrorMessage>(())) && list_view(final(list)@) == s,
            Some(Err(e)) => r == Some(Err::<(), _>(e)) && list_view(final(list)@) == list_view(old(list)@),
            None => r is None && list_view(final(list)@) == list_view(old(list)@),
        },
    decreases *old(list),
{
    let mut i: usize = 0;
    while i < list.len()
        invariant
            0 <= i <= list.len(),
            list.len() == old(list).len(),
            forall|j: int| i <= j < list.len() ==> list@[j] == old(list)@[j],
            obeys_tag_clone::<T>() ==> list_view(list@) == list_view(old(list)@),
            obeys_tag_clone::<T>() ==> add_in_list(list_view(old(list)@).take(i as int), target, index, module@) is None,
        decreases list.len() - i,
    {
        proof {
            if obeys_tag_clone::<T>() {
                lemma_add_in_list_at(list_view(old(list)@), i as int, target, index, module@);
            }
        }
        match list[i].add(target, index, module) {
            Ok(()) => {
                proof {
                    if obeys_tag_clone::<T>() {
                        assert(list_view(list@) =~= list_view(old(list)@).update(i as int, list@[i as int]@));
                    }
                }
                return Some(Ok(()));
            },
            Err(DotEveryEditorErrorMessage::NotFound) => {},
            Err(e) => {
                proof {
                    if obeys_tag_clone::<T>() {
                        assert(list_view(list@) =~= list_view(old(list)@));
                    }
                }
                return Some(Err(e));
            },
        }
        proof {
            if obeys_tag_clone::<T>() {
                assert(list_view(list@) =~= list_view(old(list)@));
            }
        }
        i += 1;
    }
    proof {
        assert(list_view(old(list)@).take(i as int) =~= list_view(old(list)@));
    }
    None
}

// ---------------------------------------------------------------------------
// Removal
// ---------------------------------------------------------------------------

/// Position of the first hole whose occupant carries `id`.
fn position_of_occupant<T: 'static + Clone + PartialEq>(options: &Vec<ProgramModuleOption<T>>, id: u128) -> (r:
    Option<usize>)
    ensures
        match index_of_occupant(options_view(options@), id) {
            Some(k) => r == Some(k as usize) && 0 <= k < options.len(),
            None => r is None,
        },
{
    let mut i: usize = 0;
    while i < options.len()
        invariant
            0 <= i <= options.len(),
            forall|j: int|
                0 <= j < i ==> !((#[trigger] options_view(options@)[j]).occupant() is Some && options_view(
                    options@,
                )[j].occupant()->0.id == id),
        decreases options.len() - i,
    {
        let hit = match &options[i] {
            ProgramModuleOption::ProgramModule(Some(m)) => m.id == id,
            _ => false,
        };
        if hit {
            proof {
                lemma_index_of_occupant_is(options_view(options@), id, i as int);
            }
            return Some(i);
        }
        i += 1;
    }
    proof {
        lemma_index_of_occupant(options_view(options@), id);
    }
    None
}

/// Position of the first block of the list that carries `id`.
fn position_of_id<T: 'static + Clone + PartialEq>(list: &Vec<ProgramModule<T>>, id: u128) -> (r: Option<usize>)
    ensures
        match index_of_id(list_view(list@), id) {
            Some(k) => r == Some(k as usize) && 0 <= k < list.len(),
            None => r is None,
        },
{
    let mut i: usize = 0;
    while i < list.len()
        invariant
            0 <= i <= list.len(),
            forall|j: int| 0 <= j < i ==> (#[trigger] list_view(list@)[j]).id != id,
        decreases list.len() - i,
    {
        if list[i].id == id {
            proof {
                lemma_index_of_id_is(list_view(list@), id, i as int);
            }
            return Some(i);
        }
        i += 1;
    }
    proof {
        lemma_index_of_id(list_view(list@), id);
    }
    None
}

/// Tries the removal below each occupied hole in turn.
fn remove_below_options<T: 'static + Clone + PartialEq>(options: &mut Vec<ProgramModuleOption<T>>, id: u128) -> (r:
    bool)
    ensures
        final(options).len() == old(options).len(),
        match remove_in_slots(options_view(old(options)@), id) {
            Some(s) => r && options_view(final(options)@) == s,
            None => !r && options_view(final(options)@) == options_view(old(options)@),
        },
    decreases *old(options),
{
    let mut i: usize = 0;
    while i < options.len()
        invariant
            0 <= i <= options.len(),
            options.len() == old(options).len(),
            forall|j: int| i <= j < options.len() ==> options@[j] == old(options)@[j],
            options_view(options@) == options_view(old(options)@),
            remove_in_slots(options_view(old(options)@).take(i as int), id) is None,
        decreases options.len() - i,
    {
        proof {
            lemma_remove_in_slots_at(options_view(old(options)@), i as int, id);
        }
        match &mut options[i] {
            ProgramModuleOption::ProgramModule(Some(m)) => {
                match m.remove(id) {
                    Ok(()) => {
                        proof {
                            assert(options_view(options@) =~= options_view(old(options)@).update(
                                i as int,
                                option_view(options@[i as int]),
                            ));
                        }
                        return true;
                    },
                    Err(_) => {},
                }
            },
            _ => {},
        }
        proof {
            assert(options_view(options@) =~= options_view(old(options)@));
        }
        i += 1;
    }
    proof {
        assert(options_view(old(options)@).take(i as int) =~= options_view(old(options)@));
    }
    false
}

/// Removes from a list the first member that carries `id`, or else the first
/// node with that id below the members.
pub(crate) fn remove_module_from_list<T: 'static + Clone + PartialEq>(
    list: &mut Vec<ProgramModule<T>>,
    id: u128,
) -> (r: bool)
    ensures
        match remove_from_list(list_view(old(list)@), id) {
            Some(s) => r && list_view(final(list)@) == s,
            None => !r && list_view(final(list)@) == list_view(old(list)@),
        },
    decreases *old(list), 1nat,
{
    match position_of_id(list, id) {
        Some(k) => {
            list.remove(k);
            proof {
                assert(list_view(list@) =~= list_view(old(list)@).remove(k as int));
            }
            true
        },
        None => remove_below_list(list, id),
    }
}

/// Tries the removal below each block of the list in turn.
fn remove_below_list<T: 'static + Clone + PartialEq>(list: &mut Vec<ProgramModule<T>>, id: u128) -> (r: bool)
    ensures
        final(list).len() == old(list).len(),
        match remove_in_list(list_view(old(list)@), id) {
            Some(s) => r && list_view(final(list)@) == s,
            None => !r && list_view(final(list)@) == list_view(old(list)@),
        },
    decreases *old(list), 0nat,
{
    let mut i: usize = 0;
    while i < list.len()
        invariant
            0 <= i <= list.len(),
            list.len() == old(list).len(),
            forall|j: int| i <= j < list.len() ==> list@[j] == old(list)@[j],
            list_view(list@) == list_view(old(list)@),
            remove_in_list(list_view(old(list)@).take(i as int), id) is None,
        decreases list.len() - i,
    {
        proof {
            lemma_remove_in_list_at(list_view(old(list)@), i as int, id);
        }
        match list[i].remove(id) {
            Ok(()) => {
                proof {
                    assert(list_view(list@) =~= list_view(old(list)@).update(i as int, list@[i as int]@));
                }
                return true;
            },
            Err(_) => {},
        }
        proof {
            assert(list_view(list@) =~= list_view(old(list)@));
        }
        i += 1;
    }
    proof {
        assert(list_view(old(list)@).take(i as int) =~= list_view(old(list)@));
    }
    false
}

impl<T: 'static + Clone + PartialEq> ProgramModule<T> {
    /// Takes one node with this id out of the subtree below this block. The
    /// block itself is never removed. Where no node below it has the id, the
    /// result is `NotFound` and the subtree is left as it was.
    pub fn remove(&mut self, id: u128) -> (r: DotEveryEditorResult<()>)
        ensures
            match remove_at(old(self)@, id) {
                Ok(b) => r is Ok && final(self)@ == b,
                Err(e) => r == Err::<(), _>(e) && final(self)@ == old(self)@,
            },
            well_linked(old(self)@) ==> well_linked(final(self)@),
            unique_ids(old(self)@) ==> unique_ids(final(self)@),
        decreases *old(self),
    {
        proof {
            if remove_at(self@, id) is Ok {
                if well_linked(self@) {
                    law_remove_keeps_links(self@, id);
                }
                if unique_ids(self@) {
                    law_remove_keeps_ids_unique(self@, id);
                }
            }
        }
        match position_of_occupant(&self.options, id) {
            Some(k) => {
                self.options[k] = ProgramModuleOption::ProgramModule(None);
                proof {
                    assert(options_view(self.options@) =~= options_view(old(self).options@).update(
                        k as int,
                        Slot::Hole(None),
                    ));
                }
                return Ok(());
            },
            None => {},
        }
        if remove_below_options(&mut self.options, id) {
            return Ok(());
        }
        let removed = match &mut self.child {
            ProgramModuleChildItems::NoBlock => false,
            ProgramModuleChildItems::BlockVertical(list) => remove_module_from_list(list, id),
            ProgramModuleChildItems::BlockHorizontal(list) => remove_module_from_list(list, id),
        };
        if removed {
            Ok(())
        } else {
            Err(DotEveryEditorErrorMessage::NotFound)
        }
    }
}

} // verus!
