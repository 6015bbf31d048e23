use vstd::prelude::*;
use std::collections::HashMap;
use crate::components::handle_map::{
    bimap_pairs, handle_map_get_by_left, handle_map_get_by_right, handle_map_insert, handle_map_new,
    handle_map_remove_by_right, handle_map_right_values, has_right, one_to_one, paired, without_right,
    HandleMap, Overwritten,
};
use crate::components::topology::{children_view, find_hovered_block, hovered_block};
use crate::logic::dotevery_editor::DotEveryEditorOperationIndex;
use crate::logic::model::{all_random, obeys_tag_clone, same_content, well_linked, Block};
use crate::logic::program_module::ProgramModule;
use crate::util::Rect;

verus! {

/// What the pointer is over during a drag.
#[derive(Copy, Clone, Debug, PartialEq, Eq, Structural)]
pub enum HoveringModuleType {
    /// A rendered block, or the top level under the nil id.
    Module(u128),
    /// The area that deletes what is dropped on it.
    TrashArea,
    /// Nothing that takes a drop.
    NoModule,
}

/// What the interface sends to the coordinator.
#[derive(Debug)]
pub enum DragModuleAgentInputMessage<T: 'static + Clone + PartialEq> {
    /// The pointer went down on a block and moved: begin to drag the block.
    /// The offset is that of the pointer from the block's top left corner.
    TryStartDrag { offset_x: i32, offset_y: i32, module: ProgramModule<T> },
    /// The pointer was released, or left the window.
    EndDrag,
    /// The sender shows the document with this id and manages the drag visual.
    SetRootId(u128),
    /// The sender shows the drag visual.
    SetDraggingComponentId,
    /// The sender shows the block with this id, which has no parent.
    SetMyId(u128),
    /// The sender shows the block `my_id`, rendered as a child of `parent_id`.
    SetParentId { my_id: u128, parent_id: u128 },
    /// The pointer is at this point of the page.
    UpdateMousePosition { x: i32, y: i32 },
    /// The sender's rectangle on the page.
    UpdateRect { x: i32, y: i32, w: i32, h: i32 },
    /// The rectangle of the area that deletes what is dropped on it.
    SetTrashArea { x: i32, y: i32, w: i32, h: i32 },
    /// The position at which the hovered block would take a drop, if any.
    UpdateHoveringIndex(Option<DotEveryEditorOperationIndex>),
}

/// What the coordinator sends to an interface element.
#[derive(Debug, PartialEq)]
pub enum DragModuleAgentOutputMessage<T: 'static + Clone + PartialEq> {
    /// Show this block as the drag visual.
    CreateDragComponent { offset_x: i32, offset_y: i32, module: ProgramModule<T> },
    /// Hide the drag visual.
    EndDrag,
    /// The pointer is at this point: the drag visual follows.
    UpdateDraggingModulePosition { x: i32, y: i32 },
    /// The receiver is hovered no longer.
    LeaveHoveringModule,
    /// The receiver is hovered at this point by a block of this size: it is
    /// to report where it would take the block.
    MoveHoveringModule { x: i32, y: i32, module_w: i32, module_h: i32 },
    /// The receiver lost its registration: it is to announce itself again.
    RequestRegisterUuid,
    /// The receiver is to report its rectangle.
    RequestUpdateRect,
}

/// What the coordinator asks its surroundings to do.
#[derive(Debug, PartialEq)]
pub enum DragModuleAgentAction<T: 'static + Clone + PartialEq> {
    /// Send a message to the interface element with this handle.
    Respond(u64, DragModuleAgentOutputMessage<T>),
    /// Place the block in the document at the target and index.
    Add(u128, DotEveryEditorOperationIndex, ProgramModule<T>),
    /// Take the block with this id out of the document.
    Remove(u128),
}

/// Mathematical form of a message to an interface element.
pub enum OutputModel<T> {
    CreateDragComponent { offset_x: i32, offset_y: i32, module: Block<T> },
    EndDrag,
    UpdateDraggingModulePosition { x: i32, y: i32 },
    LeaveHoveringModule,
    MoveHoveringModule { x: i32, y: i32, module_w: i32, module_h: i32 },
    RequestRegisterUuid,
    RequestUpdateRect,
}

/// Mathematical form of a request to the surroundings.
pub enum ActionModel<T> {
    Respond(u64, OutputModel<T>),
    Add(u128, DotEveryEditorOperationIndex, Block<T>),
    Remove(u128),
}

impl<T: 'static + Clone + PartialEq> View for DragModuleAgentOutputMessage<T> {
    type V = OutputModel<T>;

    open spec fn view(&self) -> OutputModel<T> {
        match *self {
            DragModuleAgentOutputMessage::CreateDragComponent { offset_x, offset_y, module } => {
                OutputModel::CreateDragComponent { offset_x, offset_y, module: module@ }
            },
            DragModuleAgentOutputMessage::EndDrag => OutputModel::EndDrag,
            DragModuleAgentOutputMessage::UpdateDraggingModulePosition { x, y } => {
                OutputModel::UpdateDraggingModulePosition { x, y }
            },
            DragModuleAgentOutputMessage::LeaveHoveringModule => OutputModel::LeaveHoveringModule,
            DragModuleAgentOutputMessage::MoveHoveringModule { x, y, module_w, module_h } => {
                OutputModel::MoveHoveringModule { x, y, module_w, module_h }
            },
            DragModuleAgentOutputMessage::RequestRegisterUuid => OutputModel::RequestRegisterUuid,
            DragModuleAgentOutputMessage::RequestUpdateRect => OutputModel::RequestUpdateRect,
        }
    }
}

impl<T: 'static + Clone + PartialEq> View for DragModuleAgentAction<T> {
    type V = ActionModel<T>;

    open spec fn view(&self) -> ActionModel<T> {
        match *self {
            DragModuleAgentAction::Respond(h, m) => ActionModel::Respond(h, m@),
            DragModuleAgentAction::Add(target, index, module) => ActionModel::Add(target, index, module@),
            DragModuleAgentAction::Remove(id) => ActionModel::Remove(id),
        }
    }
}

/// The mathematical forms of a run of requests.
pub open spec fn actions_view<T: 'static + Clone + PartialEq>(s: Seq<DragModuleAgentAction<T>>) -> Seq<
    ActionModel<T>,
> {
    Seq::new(s.len(), |i: int| s[i]@)
}

/// Mathematical snapshot of the coordinator.
pub struct DragState<T> {
    pub trash_area: Rect,
    pub manager_id: Option<u64>,
    pub root_module_id: Option<u128>,
    pub dragging_component: Option<u64>,
    pub dragging_module: Option<Block<T>>,
    pub hovering_module: HoveringModuleType,
    pub hovering_index: Option<DotEveryEditorOperationIndex>,
    /// The last known rectangle of each rendered block.
    pub rectangles: Map<u128, Rect>,
    /// The handle of the interface element that shows each block.
    pub handles: Map<u128, u64>,
    /// The rendered parent of each block.
    pub parents: Map<u128, u128>,
    /// The rendered children of each block, in the order in which they were announced.
    pub children: Map<u128, Seq<u128>>,
}

/// Whether `c` is a copy of `orig` under new random ids.
pub open spec fn copy_like<T: Clone>(orig: Block<T>, c: Block<T>) -> bool {
    &&& all_random(c)
    &&& c.parent is None
    &&& well_linked(c)
    &&& obeys_tag_clone::<T>() ==> same_content(orig, c)
}

/// A list with `id` at its end, unless it holds `id` already.
pub open spec fn with_member(list: Seq<u128>, id: u128) -> Seq<u128> {
    if list.contains(id) {
        list
    } else {
        list.push(id)
    }
}

/// A list without `id`, where `id` occurs in it once at most.
pub open spec fn without_member(list: Seq<u128>, id: u128) -> Seq<u128> {
    if list.contains(id) {
        list.remove(list.index_of(id))
    } else {
        list
    }
}

impl<T> DragState<T> {
    /// The state before anything was registered.
    pub open spec fn initial() -> DragState<T> {
        DragState {
            trash_area: Rect { x: 0, y: 0, w: 0, h: 0 },
            manager_id: None,
            root_module_id: None,
            dragging_component: None,
            dragging_module: None,
            hovering_module: HoveringModuleType::NoModule,
            hovering_index: None,
            rectangles: Map::empty(),
            handles: Map::empty(),
            parents: Map::empty(),
            children: Map::empty(),
        }
    }

    /// Whether the registry is sound: no handle shows two blocks, and no
    /// block is twice among the children of one parent.
    pub open spec fn wf(self) -> bool {
        &&& one_to_one(self.handles)
        &&& self.children.dom().finite()
        &&& forall|k: u128| self.children.dom().contains(k) ==> (#[trigger] self.children[k]).no_duplicates()
    }

    /// The block that the interface element with this handle shows.
    pub open spec fn owner(self, handle: u64) -> Option<u128> {
        if has_right(self.handles, handle) {
            Some(choose|k: u128| self.handles.contains_pair(k, handle))
        } else {
            None
        }
    }

    /// What the pointer is over at this point while `dragging` is dragged:
    /// the trash area if the point lies strictly inside it, whatever else is
    /// there; else the last block that a breadth-first walk from the root
    /// finds under the point.
    pub open spec fn hover_target(self, x: int, y: int, dragging: u128) -> HoveringModuleType {
        if self.trash_area.encloses_point(x, y) {
            HoveringModuleType::TrashArea
        } else {
            match self.root_module_id {
                None => HoveringModuleType::NoModule,
                Some(root) => match hovered_block(
                    root,
                    self.children,
                    self.rectangles,
                    self.handles,
                    x,
                    y,
                    dragging,
                ) {
                    Some(b) => HoveringModuleType::Module(b),
                    None => HoveringModuleType::NoModule,
                },
            }
        }
    }

    /// The state after a block has been paired with a handle.
    pub open spec fn registered(self, uuid: u128, handle: u64) -> DragState<T> {
        DragState { handles: paired(self.handles, uuid, handle), ..self }
    }

    /// The request that goes to the handle which a new pairing pushes out:
    /// the one that showed the block before, if it is another.
    pub open spec fn eviction(self, uuid: u128, handle: u64) -> Seq<ActionModel<T>> {
        if self.handles.dom().contains(uuid) && self.handles[uuid] != handle {
            seq![ActionModel::Respond(self.handles[uuid], OutputModel::RequestRegisterUuid)]
        } else {
            Seq::empty()
        }
    }

    /// The state after a block has been announced as the child of another.
    pub open spec fn adopted(self, my_id: u128, parent_id: u128, handle: u64) -> DragState<T> {
        DragState {
            handles: paired(self.handles, my_id, handle),
            parents: self.parents.insert(my_id, parent_id),
            children: self.children.insert(
                parent_id,
                with_member(
                    if self.children.dom().contains(parent_id) {
                        self.children[parent_id]
                    } else {
                        Seq::empty()
                    },
                    my_id,
                ),
            ),
            ..self
        }
    }

    /// The children after a block has left the rendered tree: its own child
    /// list goes, and it leaves the child list of its parent.
    pub open spec fn children_without(self, uuid: u128) -> Map<u128, Seq<u128>> {
        let own = self.children.remove(uuid);
        if self.parents.dom().contains(uuid) && own.dom().contains(self.parents[uuid]) {
            own.insert(self.parents[uuid], without_member(own[self.parents[uuid]], uuid))
        } else {
            own
        }
    }

    /// The state after the interface element with this handle has gone.
    pub open spec fn unregistered(self, handle: u64) -> DragState<T> {
        match self.owner(handle) {
            Some(uuid) => DragState {
                rectangles: self.rectangles.remove(uuid),
                parents: self.parents.remove(uuid),
                children: self.children_without(uuid),
                handles: without_right(self.handles, handle),
                ..self
            },
            None => self,
        }
    }

    /// The state after the interface element with this handle has reported
    /// its rectangle.
    pub open spec fn measured(self, handle: u64, rect: Rect) -> DragState<T> {
        match self.owner(handle) {
            Some(uuid) => DragState { rectangles: self.rectangles.insert(uuid, rect), ..self },
            None => self,
        }
    }

    /// Whether a pointer move counts: a drag is on, an element shows the
    /// dragged block, and the dragged block's rectangle is known.
    pub open spec fn tracks_pointer(self) -> bool {
        &&& self.dragging_module is Some
        &&& self.dragging_component is Some
        &&& self.rectangles.dom().contains(self.dragging_module->0.id)
    }

    /// The state after the pointer has moved.
    pub open spec fn pointed(self, x: i32, y: i32) -> DragState<T> {
        if self.tracks_pointer() {
            DragState { hovering_module: self.hover_target(x as int, y as int, self.dragging_module->0.id), ..self }
        } else {
            self
        }
    }

    /// The request to a hovered block to show that it is hovered no longer.
    pub open spec fn leave_request(self, hovered: HoveringModuleType) -> Seq<ActionModel<T>> {
        match hovered {
            HoveringModuleType::Module(b) => if self.handles.dom().contains(b) {
                seq![ActionModel::Respond(self.handles[b], OutputModel::LeaveHoveringModule)]
            } else {
                Seq::empty()
            },
            _ => Seq::empty(),
        }
    }

    /// The requests that a pointer move causes: the drag visual follows the
    /// pointer; where the hover target changes, the block hovered before is
    /// told so; the block hovered now is told where the pointer is and how
    /// large the dragged block is.
    pub open spec fn pointer_requests(self, x: i32, y: i32) -> Seq<ActionModel<T>> {
        if self.tracks_pointer() {
            let dragged = self.dragging_module->0.id;
            let target = self.hover_target(x as int, y as int, dragged);
            let follow = seq![
                ActionModel::Respond(self.dragging_component->0, OutputModel::UpdateDraggingModulePosition { x, y }),
            ];
            let leave = if target != self.hovering_module {
                self.leave_request(self.hovering_module)
            } else {
                Seq::empty()
            };
            let enter = match target {
                HoveringModuleType::Module(b) => if self.handles.dom().contains(b) {
                    seq![
                        ActionModel::Respond(
                            self.handles[b],
                            OutputModel::MoveHoveringModule {
                                x,
                                y,
                                module_w: self.rectangles[dragged].w,
                                module_h: self.rectangles[dragged].h,
                            },
                        ),
                    ]
                } else {
                    Seq::empty()
                },
                _ => Seq::empty(),
            };
            follow + leave + enter
        } else {
            Seq::empty()
        }
    }

    /// The state after a drop.
    pub open spec fn dropped(self) -> DragState<T> {
        if self.dragging_module is Some {
            DragState {
                dragging_module: None,
                hovering_module: HoveringModuleType::NoModule,
                hovering_index: None,
                ..self
            }
        } else {
            self
        }
    }

    /// The request that hides the drag visual.
    pub open spec fn end_request(self) -> Seq<ActionModel<T>> {
        match self.manager_id {
            Some(m) => seq![ActionModel::Respond(m, OutputModel::EndDrag)],
            None => Seq::empty(),
        }
    }
}

/// Whether `moves` is what a drop of `dragged` does to the document: over a
/// block with a known insertion index, a copy under new ids is added there
/// and the dragged block is removed; over the trash area the dragged block is removed
/// and nothing is added; anywhere else nothing happens.
pub open spec fn is_drop_of<T: Clone>(pre: DragState<T>, dragged: Block<T>, moves: Seq<ActionModel<T>>) -> bool {
    match pre.hovering_module {
        HoveringModuleType::Module(h) => match pre.hovering_index {
            Some(index) => {
                &&& moves.len() == 2
                &&& moves[0] is Add
                &&& moves[0]->Add_0 == h
                &&& moves[0]->Add_1 == index
                &&& copy_like(dragged, moves[0]->Add_2)
                &&& moves[1] == ActionModel::<T>::Remove(dragged.id)
            },
            None => moves.len() == 0,
        },
        HoveringModuleType::TrashArea => moves == seq![ActionModel::<T>::Remove(dragged.id)],
        HoveringModuleType::NoModule => moves.len() == 0,
    }
}

/// Whether `requests` asks every registered interface element, once each,
/// to report its rectangle.
pub open spec fn asks_all<T>(handles: Map<u128, u64>, requests: Seq<ActionModel<T>>) -> bool {
    &&& forall|i: int, j: int|
        0 <= i < j < requests.len() ==> (#[trigger] requests[i])->Respond_0 != (#[trigger] requests[j])->Respond_0
    &&& forall|i: int|
        0 <= i < requests.len() ==> (#[trigger] requests[i]) is Respond && requests[i]->Respond_1
            is RequestUpdateRect && has_right(handles, requests[i]->Respond_0)
    &&& forall|h: u64|
        has_right(handles, h) ==> exists|i: int|
            0 <= i < requests.len() && #[trigger] requests[i] == ActionModel::<T>::Respond(
                h,
                OutputModel::RequestUpdateRect,
            )
}

/// Whether `actions` is what a request to start a drag causes. While a drag
/// is on, nothing. Else, where a manager is registered, it is asked to show
/// a copy of the block under new ids; and every registered interface element
/// is asked for its rectangle.
pub open spec fn is_start_of<T: Clone>(
    pre: DragState<T>,
    offset_x: i32,
    offset_y: i32,
    module: Block<T>,
    actions: Seq<ActionModel<T>>,
) -> bool {
    if pre.dragging_module is Some {
        actions.len() == 0
    } else {
        match pre.manager_id {
            Some(m) => {
                &&& actions.len() >= 1
                &&& actions[0] is Respond
                &&& actions[0]->Respond_0 == m
                &&& actions[0]->Respond_1 is CreateDragComponent
                &&& actions[0]->Respond_1->CreateDragComponent_offset_x == offset_x
                &&& actions[0]->Respond_1->CreateDragComponent_offset_y == offset_y
                &&& copy_like(module, actions[0]->Respond_1->CreateDragComponent_module)
                &&& asks_all(pre.handles, actions.skip(1))
            },
            None => asks_all(pre.handles, actions),
        }
    }
}

/// The state after a request to start a drag.
pub open spec fn started<T>(pre: DragState<T>, module: Block<T>) -> DragState<T> {
    if pre.dragging_module is None && pre.manager_id is Some {
        DragState { dragging_module: Some(module), ..pre }
    } else {
        pre
    }
}

/// Pairing two values keeps a map one to one.
pub proof fn lemma_paired_one_to_one(pairs: Map<u128, u64>, left: u128, right: u64)
    requires
        one_to_one(pairs),
    ensures
        one_to_one(paired(pairs, left, right)),
        one_to_one(without_right(pairs, right)),
{
    let p = paired(pairs, left, right);
    assert forall|a: u128, b: u128|
        p.dom().contains(a) && p.dom().contains(b) && #[trigger] p[a] == #[trigger] p[b] implies a == b by {
        if a != left && b != left {
            assert(pairs[a] == pairs[b]);
        }
    }
    let w = without_right(pairs, right);
    assert forall|a: u128, b: u128|
        w.dom().contains(a) && w.dom().contains(b) && #[trigger] w[a] == #[trigger] w[b] implies a == b by {
        assert(pairs[a] == pairs[b]);
    }
}

/// In a one-to-one map the block that a handle shows is unique.
pub proof fn lemma_owner<T>(s: DragState<T>, uuid: u128, handle: u64)
    requires
        one_to_one(s.handles),
        s.handles.contains_pair(uuid, handle),
    ensures
        s.owner(handle) == Some(uuid),
{
    assert(s.handles[uuid] == handle);
    let k = choose|k: u128| s.handles.contains_pair(k, handle);
    assert(s.handles[k] == s.handles[uuid]);
}

/// Whether the list holds the id.
fn list_contains(list: &Vec<u128>, id: u128) -> (r: bool)
    ensures
        r == list@.contains(id),
{
    let mut i: usize = 0;
    while i < list.len()
        invariant
            0 <= i <= list.len(),
            forall|j: int| 0 <= j < i ==> list@[j] != id,
        decreases list.len() - i,
    {
        if list[i] == id {
            return true;
        }
        i += 1;
    }
    false
}

/// Takes the id out of a list that holds it once at most.
fn list_remove(list: &mut Vec<u128>, id: u128)
    requires
        old(list)@.no_duplicates(),
    ensures
        final(list)@ == without_member(old(list)@, id),
        final(list)@.no_duplicates(),
{
    let mut i: usize = 0;
    while i < list.len()
        invariant
            0 <= i <= list.len(),
            list@ == old(list)@,
            list@.no_duplicates(),
            forall|j: int| 0 <= j < i ==> list@[j] != id,
        decreases list.len() - i,
    {
        if list[i] == id {
            let ghost before = list@;
            proof {
                assert(before.contains(id));
                let k = before.index_of(id);
                assert(0 <= k < before.len() && before[k] == id);
                assert(k == i);
            }
            list.remove(i);
            proof {
                assert(list@ == before.remove(i as int));
                assert forall|a: int, b: int| 0 <= a < list@.len() && 0 <= b < list@.len() && a != b implies list@[a]
                    != list@[b] by {
                    let a0 = if a < i { a } else { a + 1 };
                    let b0 = if b < i { b } else { b + 1 };
                    assert(list@[a] == before[a0]);
                    assert(list@[b] == before[b0]);
                }
            }
            return ;
        }
        i += 1;
    }
    proof {
        if list@.contains(id) {
            let k = choose|k: int| 0 <= k < list@.len() && list@[k] == id;
            assert(false);
        }
    }
}

/// The coordinator of a drag: it keeps what is known of the rendered blocks
/// (their handles, rectangles and parents) and decides, from pointer events,
/// what the pointer is over and what a drop does.
pub struct DragModuleAgent<T: 'static + Clone + PartialEq> {
    trash_area: Rect,
    manager_id: Option<u64>,
    root_module_id: Option<u128>,
    dragging_component: Option<u64>,
    dragging_module: Option<ProgramModule<T>>,
    hovering_module: HoveringModuleType,
    hovering_index: Option<DotEveryEditorOperationIndex>,
    rectangles: HashMap<u128, Rect>,
    uuid_map: HandleMap,
    parent_map: HashMap<u128, u128>,
    children_map: HashMap<u128, Vec<u128>>,
}

impl<T: 'static + Clone + PartialEq> View for DragModuleAgent<T> {
    type V = DragState<T>;

    closed spec fn view(&self) -> DragState<T> {
        DragState {
            trash_area: self.trash_area,
            manager_id: self.manager_id,
            root_module_id: self.root_module_id,
            dragging_component: self.dragging_component,
            dragging_module: match self.dragging_module {
                Some(m) => Some(m@),
                None => None,
            },
            hovering_module: self.hovering_module,
            hovering_index: self.hovering_index,
            rectangles: self.rectangles@,
            handles: bimap_pairs(self.uuid_map),
            parents: self.parent_map@,
            children: children_view(self.children_map@),
        }
    }
}

impl<T: 'static + Clone + PartialEq> DragModuleAgent<T> {
    /// A coordinator that knows of no block yet.
    pub fn new() -> (r: Self)
        ensures
            r@ == DragState::<T>::initial(),
            r@.wf(),
    {
        let r = DragModuleAgent {
            trash_area: Rect { x: 0, y: 0, w: 0, h: 0 },
            manager_id: None,
            root_module_id: None,
            dragging_component: None,
            dragging_module: None,
            hovering_module: HoveringModuleType::NoModule,
            hovering_index: None,
            rectangles: HashMap::new(),
            uuid_map: handle_map_new(),
            parent_map: HashMap::new(),
            children_map: HashMap::new(),
        };
        proof {
            assert(r@.children =~= Map::<u128, Seq<u128>>::empty());
            assert(r@.children.dom() =~= r.children_map@.dom());
        }
        r
    }

    /// What the pointer was over when it last moved during a drag.
    pub fn hovering_module(&self) -> (r: HoveringModuleType)
        ensures
            r == self@.hovering_module,
    {
        self.hovering_module
    }

    /// The insertion index that the hovered block last reported.
    pub fn hovering_index(&self) -> (r: Option<DotEveryEditorOperationIndex>)
        ensures
            r == self@.hovering_index,
    {
        self.hovering_index
    }

    /// Whether a drag is on.
    pub fn is_dragging(&self) -> (r: bool)
        ensures
            r == (self@.dragging_module is Some),
    {
        self.dragging_module.is_some()
    }

    /// The last known rectangle of a block.
    pub fn rect_of(&self, uuid: u128) -> (r: Option<Rect>)
        ensures
            r == (if self@.rectangles.dom().contains(uuid) {
                Some(self@.rectangles[uuid])
            } else {
                None
            }),
    {
        match self.rectangles.get(&uuid) {
            Some(rect) => Some(*rect),
            None => None,
        }
    }

    /// The handle of the interface element that shows a block.
    pub fn handle_of(&self, uuid: u128) -> (r: Option<u64>)
        ensures
            r == (if self@.handles.dom().contains(uuid) {
                Some(self@.handles[uuid])
            } else {
                None
            }),
    {
        handle_map_get_by_left(&self.uuid_map, uuid)
    }

    /// Pairs a block with the handle of the interface element that shows it.
    /// Each of the two leaves the pair it was in; the handle that showed the
    /// block before, if it is another, is asked to register again.
    pub fn insert_uuid(&mut self, uuid: u128, handler_id: u64) -> (r: Vec<DragModuleAgentAction<T>>)
        requires
            old(self)@.wf(),
        ensures
            final(self)@.wf(),
            final(self)@ == old(self)@.registered(uuid, handler_id),
            actions_view(r@) == old(self)@.eviction(uuid, handler_id),
    {
        let mut actions: Vec<DragModuleAgentAction<T>> = Vec::new();
        proof {
            lemma_paired_one_to_one(self@.handles, uuid, handler_id);
        }
        match handle_map_insert(&mut self.uuid_map, uuid, handler_id) {
            Overwritten::Left(_, r) => {
                actions.push(DragModuleAgentAction::Respond(r, DragModuleAgentOutputMessage::RequestRegisterUuid));
            },
            Overwritten::Both((_, r), _) => {
                actions.push(DragModuleAgentAction::Respond(r, DragModuleAgentOutputMessage::RequestRegisterUuid));
            },
            _ => {},
        }
        proof {
            assert(actions_view(actions@) =~= old(self)@.eviction(uuid, handler_id));
        }
        actions
    }

    /// Registers the block that an interface element shows.
    pub fn set_my_id(&mut self, uuid: u128, id: u64) -> (r: Vec<DragModuleAgentAction<T>>)
        requires
            old(self)@.wf(),
        ensures
            final(self)@.wf(),
            final(self)@ == old(self)@.registered(uuid, id),
            actions_view(r@) == old(self)@.eviction(uuid, id),
    {
        self.insert_uuid(uuid, id)
    }

    /// Registers the document root and the interface element that manages the drag visual.
    pub fn set_root_id(&mut self, uuid: u128, id: u64) -> (r: Vec<DragModuleAgentAction<T>>)
        requires
            old(self)@.wf(),
        ensures
            final(self)@.wf(),
            final(self)@ == (DragState {
                root_module_id: Some(uuid),
                manager_id: Some(id),
                ..old(self)@.registered(uuid, id)
            }),
            actions_view(r@) == old(self)@.eviction(uuid, id),
    {
        let actions = self.insert_uuid(uuid, id);
        self.root_module_id = Some(uuid);
        self.manager_id = Some(id);
        actions
    }

    /// Registers a block, shown by an interface element, as a rendered child
    /// of another block.
    pub fn set_parent_id(&mut self, my_id: u128, parent_id: u128, id: u64) -> (r: Vec<DragModuleAgentAction<T>>)
        requires
            old(self)@.wf(),
        ensures
            final(self)@.wf(),
            final(self)@ == old(self)@.adopted(my_id, parent_id, id),
            actions_view(r@) == old(self)@.eviction(my_id, id),
    {
        let actions = self.insert_uuid(my_id, id);
        self.parent_map.insert(my_id, parent_id);
        let mut list = match self.children_map.remove(&parent_id) {
            Some(list) => list,
            None => Vec::new(),
        };
        if !list_contains(&list, my_id) {
            list.push(my_id);
        }
        proof {
            let before = if old(self)@.children.dom().contains(parent_id) {
                old(self)@.children[parent_id]
            } else {
                Seq::empty()
            };
            assert(list@ =~= with_member(before, my_id));
            assert(before.no_duplicates());
        }
        self.children_map.insert(parent_id, list);
        proof {
            assert(self@.children =~= old(self)@.adopted(my_id, parent_id, id).children);
            assert(self@.children.dom() =~= self.children_map@.dom());
        }
        actions
    }

    /// Registers the interface element that shows the drag visual.
    pub fn set_dragging_component_id(&mut self, id: u64)
        ensures
            final(self)@ == (DragState { dragging_component: Some(id), ..old(self)@ }),
    {
        self.dragging_component = Some(id);
    }

    /// Sets the area that deletes what is dropped on it.
    pub fn set_trash_area(&mut self, rect: Rect)
        ensures
            final(self)@ == (DragState { trash_area: rect, ..old(self)@ }),
    {
        self.trash_area = rect;
    }

    /// Stores the insertion index that the hovered block reports.
    pub fn update_hovering_index(&mut self, index: Option<DotEveryEditorOperationIndex>)
        ensures
            final(self)@ == (DragState { hovering_index: index, ..old(self)@ }),
    {
        self.hovering_index = index;
    }

    /// Stores the rectangle that an interface element reports, for the block
    /// that it shows; nothing where it shows none.
    pub fn update_rect(&mut self, id: u64, rect: Rect)
        requires
            old(self)@.wf(),
        ensures
            final(self)@.wf(),
            final(self)@ == old(self)@.measured(id, rect),
    {
        match handle_map_get_by_right(&self.uuid_map, id) {
            Some(uuid) => {
                proof {
                    lemma_owner(self@, uuid, id);
                }
                self.rectangles.insert(uuid, rect);
            },
            None => {},
        }
    }

    /// Forgets the interface element with this handle: the rectangle and the
    /// parent of the block that it showed, that block's child list and its
    /// place among its parent's children, and the pairing itself.
    pub fn disconnected(&mut self, id: u64)
        requires
            old(self)@.wf(),
        ensures
            final(self)@.wf(),
            final(self)@ == old(self)@.unregistered(id),
    {
        proof {
            lemma_paired_one_to_one(self@.handles, 0, id);
        }
        match handle_map_get_by_right(&self.uuid_map, id) {
            Some(uuid) => {
                proof {
                    lemma_owner(self@, uuid, id);
                }
                self.rectangles.remove(&uuid);
                let parent = self.parent_map.remove(&uuid);
                self.children_map.remove(&uuid);
                proof {
                    assert(children_view(self.children_map@) =~= old(self)@.children.remove(uuid));
                }
                match parent {
                    Some(parent_id) => {
                        match self.children_map.remove(&parent_id) {
                            Some(list) => {
                                let mut list = list;
                                list_remove(&mut list, uuid);
                                self.children_map.insert(parent_id, list);
                            },
                            None => {},
                        }
                    },
                    None => {},
                }
                proof {
                    assert(children_view(self.children_map@) =~= old(self)@.children_without(uuid));
                    assert(children_view(self.children_map@).dom() =~= self.children_map@.dom());
                }
            },
            None => {},
        }
        handle_map_remove_by_right(&mut self.uuid_map, id);
        proof {
            if !has_right(old(self)@.handles, id) {
                assert(without_right(old(self)@.handles, id) =~= old(self)@.handles);
            }
        }
    }

    /// What the pointer is over at this point while `dragging` is dragged,
    /// the trash area left aside.
    pub fn get_hovering_module_uuid(&self, x: i32, y: i32, dragging: u128) -> (r: HoveringModuleType)
        ensures
            r == match self@.root_module_id {
                None => HoveringModuleType::NoModule,
                Some(root) => match hovered_block(
                    root,
                    self@.children,
                    self@.rectangles,
                    self@.handles,
                    x as int,
                    y as int,
                    dragging,
                ) {
                    Some(b) => HoveringModuleType::Module(b),
                    None => HoveringModuleType::NoModule,
                },
            },
    {
        match self.root_module_id {
            None => HoveringModuleType::NoModule,
            Some(root) => match find_hovered_block(
                root,
                &self.children_map,
                &self.rectangles,
                &self.uuid_map,
                x,
                y,
                dragging,
            ) {
                Some(b) => HoveringModuleType::Module(b),
                None => HoveringModuleType::NoModule,
            },
        }
    }
}

/// Whether `actions` is what a drop causes. While no drag is on, nothing.
/// Else what the drop does to the document, then the request to the block
/// hovered last to show that it is hovered no longer, then the request to
/// hide the drag visual.
pub open spec fn is_end_of<T: Clone>(pre: DragState<T>, actions: Seq<ActionModel<T>>) -> bool {
    match pre.dragging_module {
        None => actions.len() == 0,
        Some(dragged) => exists|moves: Seq<ActionModel<T>>| #[trigger]
            is_drop_of(pre, dragged, moves) && actions == moves + pre.leave_request(pre.hovering_module)
                + pre.end_request(),
    }
}

/// Whether `post` and `actions` are what a message from the interface
/// element with the handle `id` leads to.
pub open spec fn is_step<T: 'static + Clone + PartialEq>(
    pre: DragState<T>,
    msg: DragModuleAgentInputMessage<T>,
    id: u64,
    post: DragState<T>,
    actions: Seq<ActionModel<T>>,
) -> bool {
    match msg {
        DragModuleAgentInputMessage::TryStartDrag { offset_x, offset_y, module } => {
            post == started(pre, module@) && is_start_of(pre, offset_x, offset_y, module@, actions)
        },
        DragModuleAgentInputMessage::EndDrag => post == pre.dropped() && is_end_of(pre, actions),
        DragModuleAgentInputMessage::SetRootId(uuid) => {
            post == (DragState { root_module_id: Some(uuid), manager_id: Some(id), ..pre.registered(uuid, id) })
                && actions == pre.eviction(uuid, id)
        },
        DragModuleAgentInputMessage::SetDraggingComponentId => {
            post == (DragState { dragging_component: Some(id), ..pre }) && actions.len() == 0
        },
        DragModuleAgentInputMessage::SetMyId(uuid) => {
            post == pre.registered(uuid, id) && actions == pre.eviction(uuid, id)
        },
        DragModuleAgentInputMessage::SetParentId { my_id, parent_id } => {
            post == pre.adopted(my_id, parent_id, id) && actions == pre.eviction(my_id, id)
        },
        DragModuleAgentInputMessage::UpdateMousePosition { x, y } => {
            post == pre.pointed(x, y) && actions == pre.pointer_requests(x, y)
        },
        DragModuleAgentInputMessage::UpdateRect { x, y, w, h } => {
            post == pre.measured(id, Rect { x, y, w, h }) && actions.len() == 0
        },
        DragModuleAgentInputMessage::SetTrashArea { x, y, w, h } => {
            post == (DragState { trash_area: Rect { x, y, w, h }, ..pre }) && actions.len() == 0
        },
        DragModuleAgentInputMessage::UpdateHoveringIndex(index) => {
            post == (DragState { hovering_index: index, ..pre }) && actions.len() == 0
        },
    }
}

impl<T: 'static + Clone + PartialEq> DragModuleAgent<T> {
    /// Starts a drag of `module`, unless a drag is on or no manager is
    /// registered. The manager is asked to show a copy of the block under
    /// new ids; every registered interface element is asked for its
    /// rectangle, since the layout changes once the block is lifted.
    pub fn try_start_drag(&mut self, offset_x: i32, offset_y: i32, module: ProgramModule<T>) -> (r: Vec<
        DragModuleAgentAction<T>,
    >)
        requires
            old(self)@.wf(),
        ensures
            final(self)@.wf(),
            final(self)@ == started(old(self)@, module@),
            is_start_of(old(self)@, offset_x, offset_y, module@, actions_view(r@)),
    {
        let mut actions: Vec<DragModuleAgentAction<T>> = Vec::new();
        if self.dragging_module.is_some() {
            return actions;
        }
        match self.manager_id {
            Some(id) => {
                let shown = module.deep_clone();
                actions.push(
                    DragModuleAgentAction::Respond(
                        id,
                        DragModuleAgentOutputMessage::CreateDragComponent { offset_x, offset_y, module: shown },
                    ),
                );
                self.dragging_module = Some(module);
            },
            None => {},
        }
        let handles = handle_map_right_values(&self.uuid_map);
        let ghost first = actions@;
        let mut i: usize = 0;
        while i < handles.len()
            invariant
                0 <= i <= handles.len(),
                actions@.len() == first.len() + i,
                forall|j: int| 0 <= j < first.len() ==> actions@[j] == first[j],
                forall|j: int|
                    0 <= j < i ==> (#[trigger] actions@[first.len() + j])@ == ActionModel::<T>::Respond(
                        handles@[j],
                        OutputModel::RequestUpdateRect,
                    ),
            decreases handles.len() - i,
        {
            actions.push(DragModuleAgentAction::Respond(handles[i], DragModuleAgentOutputMessage::RequestUpdateRect));
            i += 1;
        }
        proof {
            let all = actions_view(actions@);
            let requests = all.skip(first.len() as int);
            let pairs = old(self)@.handles;
            assert forall|j: int| 0 <= j < requests.len() implies (#[trigger] requests[j]) is Respond
                && requests[j]->Respond_1 is RequestUpdateRect && has_right(pairs, requests[j]->Respond_0) by {
                assert(requests[j] == actions@[first.len() + j]@);
                assert(handles@.contains(handles@[j]));
            }
            assert forall|h: u64| has_right(pairs, h) implies exists|j: int|
                0 <= j < requests.len() && #[trigger] requests[j] == ActionModel::<T>::Respond(
                    h,
                    OutputModel::RequestUpdateRect,
                ) by {
                assert(handles@.contains(h));
                let j = choose|j: int| 0 <= j < handles@.len() && handles@[j] == h;
                assert(requests[j] == actions@[first.len() + j]@);
            }
            assert forall|i: int, j: int| 0 <= i < j < requests.len() implies (#[trigger] requests[i])->Respond_0 != (
            #[trigger] requests[j])->Respond_0 by {
                assert(requests[i] == actions@[first.len() + i]@);
                assert(requests[j] == actions@[first.len() + j]@);
            }
            assert(asks_all(pairs, requests));
            if first.len() == 0 {
                assert(requests =~= all);
            } else {
                assert(all[0] == actions@[0]@);
                assert(actions@[0] == first[0]);
                assert(requests == all.skip(1));
            }
        }
        actions
    }

    /// Ends the drag. Over a block that has reported an insertion index, a
    /// copy of the dragged block under new ids is added there and the
    /// dragged block is removed; over the trash area the dragged block is removed;
    /// anywhere else the document stays as it is. The hover state is cleared
    /// and the drag visual is hidden.
    pub fn end_drag(&mut self) -> (r: Vec<DragModuleAgentAction<T>>)
        requires
            old(self)@.wf(),
        ensures
            final(self)@.wf(),
            final(self)@ == old(self)@.dropped(),
            is_end_of(old(self)@, actions_view(r@)),
    {
        let mut actions: Vec<DragModuleAgentAction<T>> = Vec::new();
        let module = match &self.dragging_module {
            Some(module) => module,
            None => {
                return actions;
            },
        };
        match self.hovering_module {
            HoveringModuleType::Module(hovering_id) => {
                match self.hovering_index {
                    Some(index) => {
                        actions.push(DragModuleAgentAction::Add(hovering_id, index, module.deep_clone()));
                        actions.push(DragModuleAgentAction::Remove(module.id));
                    },
                    None => {},
                }
            },
            HoveringModuleType::TrashArea => {
                actions.push(DragModuleAgentAction::Remove(module.id));
            },
            HoveringModuleType::NoModule => {},
        }
        let ghost moves = actions_view(actions@);
        proof {
            match self.hovering_module {
                HoveringModuleType::Module(hovering_id) => {
                    if self.hovering_index is Some {
                        assert(moves[0] == actions@[0]@);
                        assert(moves[1] == actions@[1]@);
                    }
                },
                HoveringModuleType::TrashArea => {
                    assert(moves =~= seq![ActionModel::<T>::Remove(module@.id)]);
                },
                HoveringModuleType::NoModule => {},
            }
            assert(is_drop_of(old(self)@, module@, moves));
        }
        match self.hovering_module {
            HoveringModuleType::Module(hovering_id) => {
                match handle_map_get_by_left(&self.uuid_map, hovering_id) {
                    Some(id) => {
                        actions.push(
                            DragModuleAgentAction::Respond(id, DragModuleAgentOutputMessage::LeaveHoveringModule),
                        );
                    },
                    None => {},
                }
            },
            _ => {},
        }
        match self.manager_id {
            Some(manager) => {
                actions.push(DragModuleAgentAction::Respond(manager, DragModuleAgentOutputMessage::EndDrag));
            },
            None => {},
        }
        proof {
            assert(actions_view(actions@) =~= moves + old(self)@.leave_request(old(self)@.hovering_module) + old(
                self,
            )@.end_request());
        }
        self.dragging_module = None;
        self.hovering_module = HoveringModuleType::NoModule;
        self.hovering_index = None;
        actions
    }

    /// Follows the pointer during a drag: works out what the pointer is over
    /// and tells the drag visual, the block hovered before and the block
    /// hovered now.
    pub fn update_mouse_position(&mut self, x: i32, y: i32) -> (r: Vec<DragModuleAgentAction<T>>)
        requires
            old(self)@.wf(),
        ensures
            final(self)@.wf(),
            final(self)@ == old(self)@.pointed(x, y),
            actions_view(r@) == old(self)@.pointer_requests(x, y),
    {
        let mut actions: Vec<DragModuleAgentAction<T>> = Vec::new();
        let dragged = match &self.dragging_module {
            Some(module) => module.id,
            None => {
                proof {
                    assert(actions_view(actions@) =~= old(self)@.pointer_requests(x, y));
                }
                return actions;
            },
        };
        let component = match self.dragging_component {
            Some(id) => id,
            None => {
                proof {
                    assert(actions_view(actions@) =~= old(self)@.pointer_requests(x, y));
                }
                return actions;
            },
        };
        let rect = match self.rectangles.get(&dragged) {
            Some(rect) => *rect,
            None => {
                proof {
                    assert(actions_view(actions@) =~= old(self)@.pointer_requests(x, y));
                }
                return actions;
            },
        };
        actions.push(
            DragModuleAgentAction::Respond(
                component,
                DragModuleAgentOutputMessage::UpdateDraggingModulePosition { x, y },
            ),
        );
        let hovering = if self.trash_area.encloses(x, y) {
            HoveringModuleType::TrashArea
        } else {
            self.get_hovering_module_uuid(x, y, dragged)
        };
        if self.hovering_module != hovering {
            match self.hovering_module {
                HoveringModuleType::Module(before) => {
                    match handle_map_get_by_left(&self.uuid_map, before) {
                        Some(id) => {
                            actions.push(
                                DragModuleAgentAction::Respond(id, DragModuleAgentOutputMessage::LeaveHoveringModule),
                            );
                        },
                        None => {},
                    }
                },
                _ => {},
            }
            self.hovering_module = hovering;
        }
        match hovering {
            HoveringModuleType::Module(now) => {
                match handle_map_get_by_left(&self.uuid_map, now) {
                    Some(id) => {
                        actions.push(
                            DragModuleAgentAction::Respond(
                                id,
                                DragModuleAgentOutputMessage::MoveHoveringModule {
                                    x,
                                    y,
                                    module_w: rect.w,
                                    module_h: rect.h,
                                },
                            ),
                        );
                    },
                    None => {},
                }
            },
            _ => {},
        }
        proof {
            assert(actions_view(actions@) =~= old(self)@.pointer_requests(x, y));
        }
        actions
    }

    /// Takes one message from the interface element with the handle `id`,
    /// moves to the next state and says what is to be done.
    pub fn handle_input(&mut self, msg: DragModuleAgentInputMessage<T>, id: u64) -> (r: Vec<DragModuleAgentAction<T>>)
        requires
            old(self)@.wf(),
        ensures
            final(self)@.wf(),
            is_step(old(self)@, msg, id, final(self)@, actions_view(r@)),
    {
        match msg {
            DragModuleAgentInputMessage::TryStartDrag { offset_x, offset_y, module } => {
                self.try_start_drag(offset_x, offset_y, module)
            },
            DragModuleAgentInputMessage::EndDrag => self.end_drag(),
            DragModuleAgentInputMessage::SetRootId(uuid) => self.set_root_id(uuid, id),
            DragModuleAgentInputMessage::SetDraggingComponentId => {
                self.set_dragging_component_id(id);
                Vec::new()
            },
            DragModuleAgentInputMessage::SetMyId(uuid) => self.set_my_id(uuid, id),
            DragModuleAgentInputMessage::SetParentId { my_id, parent_id } => self.set_parent_id(my_id, parent_id, id),
            DragModuleAgentInputMessage::UpdateMousePosition { x, y } => self.update_mouse_position(x, y),
            DragModuleAgentInputMessage::UpdateRect { x, y, w, h } => {
                self.update_rect(id, Rect { x, y, w, h });
                Vec::new()
            },
            DragModuleAgentInputMessage::SetTrashArea { x, y, w, h } => {
                self.set_trash_area(Rect { x, y, w, h });
                Vec::new()
            },
            DragModuleAgentInputMessage::UpdateHoveringIndex(index) => {
                self.update_hovering_index(index);
                Vec::new()
            },
        }
    }
}

/// The hover target is a function of what is registered and of the pointer:
/// two evaluations over the same trash area, root, rectangles, handles and
/// rendered tree, at the same point and for the same dragged block, agree,
/// whatever else has changed in between.
pub proof fn law_hover_is_determined<T>(a: DragState<T>, b: DragState<T>, x: int, y: int, dragging: u128)
    requires
        a.trash_area == b.trash_area,
        a.root_module_id == b.root_module_id,
        a.rectangles == b.rectangles,
        a.handles == b.handles,
        a.children == b.children,
    ensures
        a.hover_target(x, y, dragging) == b.hover_target(x, y, dragging),
{
}

/// A pointer strictly inside the trash area hovers the trash area, whatever
/// blocks lie under it.
pub proof fn law_trash_overrides<T>(s: DragState<T>, x: int, y: int, dragging: u128)
    requires
        s.trash_area.encloses_point(x, y),
    ensures
        s.hover_target(x, y, dragging) == HoveringModuleType::TrashArea,
{
}

/// A drop over the trash area removes the dragged block and adds nothing,
/// whatever insertion index was last reported.
pub proof fn law_drop_on_trash_only_removes<T: Clone>(pre: DragState<T>, actions: Seq<ActionModel<T>>)
    requires
        pre.dragging_module is Some,
        pre.hovering_module == HoveringModuleType::TrashArea,
        is_end_of(pre, actions),
    ensures
        actions == seq![ActionModel::<T>::Remove(pre.dragging_module->0.id)] + pre.end_request(),
        forall|i: int| 0 <= i < actions.len() ==> !(#[trigger] actions[i] is Add),
{
    let dragged = pre.dragging_module->0;
    let moves = choose|moves: Seq<ActionModel<T>>| #[trigger]
        is_drop_of(pre, dragged, moves) && actions == moves + pre.leave_request(pre.hovering_module)
            + pre.end_request();
    assert(moves + pre.leave_request(pre.hovering_module) + pre.end_request() =~= moves + pre.end_request());
}

} // verus!
