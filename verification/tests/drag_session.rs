use dotevery_editor::components::dotevery_editor_agent::{DotEveryEditorAgent, DotEveryEditorAgentInputMessage};
use dotevery_editor::components::drag_module_agent::{
    DragModuleAgent, DragModuleAgentAction, DragModuleAgentInputMessage, DragModuleAgentOutputMessage, HoveringModuleType,
};
use dotevery_editor::logic::dotevery_editor::{DotEveryEditor, DotEveryEditorErrorMessage, DotEveryEditorOperationIndex};
use dotevery_editor::logic::program_module::{ProgramModule, ProgramModuleChildItems, ProgramModuleOption};
use dotevery_editor::util::{Isomorphism, Rect};

const ROOT: u128 = 100;
const MANAGER: u64 = 1;
const VISUAL: u64 = 2;
const TOP: u64 = 3;

fn leaf(id: u128, tag: i32) -> ProgramModule<i32> {
    ProgramModule::new_with_id(id, Vec::new(), ProgramModuleChildItems::NoBlock, tag)
}

fn rect(x: i32, y: i32, w: i32, h: i32) -> Rect {
    Rect { x, y, w, h }
}

/// A registry for a document whose top level (the nil id, handle 3) spans
/// the page below the trash area; blocks register below it with handles
/// that are their ids plus ten.
fn registry() -> DragModuleAgent<i32> {
    let mut agent = DragModuleAgent::new();
    assert!(agent.set_root_id(ROOT, MANAGER).is_empty());
    agent.set_dragging_component_id(VISUAL);
    agent.set_trash_area(rect(0, 0, 100, 50));
    assert!(agent.set_parent_id(0, ROOT, TOP).is_empty());
    agent.update_rect(TOP, rect(0, 50, 400, 400));
    agent
}

fn mount(agent: &mut DragModuleAgent<i32>, id: u128, parent: u128, r: Rect) {
    assert!(agent.set_parent_id(id, parent, id as u64 + 10).is_empty());
    agent.update_rect(id as u64 + 10, r);
}

fn respond(handle: u64, msg: DragModuleAgentOutputMessage<i32>) -> DragModuleAgentAction<i32> {
    DragModuleAgentAction::Respond(handle, msg)
}

fn apply(document: &mut DotEveryEditor<i32>, actions: Vec<DragModuleAgentAction<i32>>) {
    let mut dispatcher = DotEveryEditorAgent::new();
    let palette = Vec::new();
    for action in actions {
        match action {
            DragModuleAgentAction::Add(target, index, module) => {
                dispatcher.handle_input(document, &palette, DotEveryEditorAgentInputMessage::Add(target, index, module), 0);
            }
            DragModuleAgentAction::Remove(id) => {
                dispatcher.handle_input(document, &palette, DotEveryEditorAgentInputMessage::Remove(id), 0);
            }
            DragModuleAgentAction::Respond(_, _) => {}
        }
    }
}

#[test]
fn a_new_coordinator_is_idle() {
    let mut agent = DragModuleAgent::<i32>::new();
    assert!(!agent.is_dragging());
    assert_eq!(agent.hovering_module(), HoveringModuleType::NoModule);
    assert_eq!(agent.hovering_index(), None);
    assert_eq!(agent.handle_of(1), None);
    assert_eq!(agent.rect_of(1), None);
    assert_eq!(agent.get_hovering_module_uuid(0, 0, 1), HoveringModuleType::NoModule);
    assert!(agent.end_drag().is_empty());
    assert!(agent.update_mouse_position(1, 1).is_empty());
}

#[test]
fn registering_pairs_blocks_and_handles_one_to_one() {
    let mut agent = DragModuleAgent::<i32>::new();
    assert!(agent.set_my_id(1, 11).is_empty());
    assert!(agent.insert_uuid(2, 12).is_empty());
    assert_eq!(agent.handle_of(1), Some(11));
    assert_eq!(agent.handle_of(2), Some(12));
    // The same pair again: nothing is pushed out.
    assert!(agent.set_my_id(1, 11).is_empty());
    // Another handle for block 1: the old one is asked to register again.
    assert_eq!(agent.set_my_id(1, 13), vec![respond(11, DragModuleAgentOutputMessage::RequestRegisterUuid)]);
    assert_eq!(agent.handle_of(1), Some(13));
    // A handle that showed another block: that block loses its handle, nobody is asked.
    assert!(agent.set_my_id(3, 12).is_empty());
    assert_eq!(agent.handle_of(2), None);
    assert_eq!(agent.handle_of(3), Some(12));
    // Both at once: block 1 moves to handle 12, which showed block 3.
    assert_eq!(agent.set_my_id(1, 12), vec![respond(13, DragModuleAgentOutputMessage::RequestRegisterUuid)]);
    assert_eq!(agent.handle_of(1), Some(12));
    assert_eq!(agent.handle_of(3), None);
}

#[test]
fn rectangles_belong_to_the_block_that_the_handle_shows() {
    let mut agent = DragModuleAgent::<i32>::new();
    agent.set_my_id(1, 11);
    agent.update_rect(11, rect(1, 2, 3, 4));
    agent.update_rect(12, rect(9, 9, 9, 9));
    assert_eq!(agent.rect_of(1), Some(rect(1, 2, 3, 4)));
    agent.update_rect(11, rect(5, 6, 7, 8));
    assert_eq!(agent.rect_of(1), Some(rect(5, 6, 7, 8)));
    agent.disconnected(12);
    assert_eq!(agent.rect_of(1), Some(rect(5, 6, 7, 8)));
    agent.disconnected(11);
    assert_eq!(agent.rect_of(1), None);
    assert_eq!(agent.handle_of(1), None);
    agent.update_rect(11, rect(1, 1, 1, 1));
    assert_eq!(agent.rect_of(1), None);
}

#[test]
fn hover_takes_the_last_block_of_the_breadth_first_walk() {
    let mut agent = registry();
    mount(&mut agent, 1, 0, rect(0, 50, 200, 100));
    mount(&mut agent, 2, 0, rect(0, 150, 200, 100));
    mount(&mut agent, 3, 1, rect(10, 60, 50, 50));
    mount(&mut agent, 4, 3, rect(20, 70, 10, 10));
    let at = |x: i32, y: i32| agent.get_hovering_module_uuid(x, y, 999);
    assert_eq!(at(300, 300), HoveringModuleType::Module(0));
    assert_eq!(at(150, 100), HoveringModuleType::Module(1));
    assert_eq!(at(50, 100), HoveringModuleType::Module(3));
    assert_eq!(at(25, 75), HoveringModuleType::Module(4));
    assert_eq!(at(100, 200), HoveringModuleType::Module(2));
    assert_eq!(at(500, 500), HoveringModuleType::NoModule);
    // Borders count.
    assert_eq!(at(10, 60), HoveringModuleType::Module(3));
    assert_eq!(at(400, 450), HoveringModuleType::Module(0));
    // The same question has the same answer.
    for _ in 0..5 {
        assert_eq!(at(25, 75), HoveringModuleType::Module(4));
    }
    // The dragged block and what hangs below it are passed over.
    assert_eq!(agent.get_hovering_module_uuid(25, 75, 3), HoveringModuleType::Module(1));
    assert_eq!(agent.get_hovering_module_uuid(25, 75, 1), HoveringModuleType::Module(0));
    assert_eq!(agent.get_hovering_module_uuid(25, 75, 0), HoveringModuleType::NoModule);
    // Of two siblings under the point, the one announced later wins.
    mount(&mut agent, 5, 0, rect(0, 150, 200, 100));
    assert_eq!(agent.get_hovering_module_uuid(100, 200, 999), HoveringModuleType::Module(5));
}

#[test]
fn hover_needs_a_rectangle_and_a_handle() {
    let mut agent = registry();
    mount(&mut agent, 1, 0, rect(0, 50, 200, 100));
    assert!(agent.set_parent_id(2, 1, 12).is_empty());
    assert_eq!(agent.get_hovering_module_uuid(50, 100, 999), HoveringModuleType::Module(1));
    agent.update_rect(12, rect(0, 50, 200, 100));
    assert_eq!(agent.get_hovering_module_uuid(50, 100, 999), HoveringModuleType::Module(2));
    // Handle 12 now shows another block: block 2 keeps its rectangle but cannot be hovered.
    agent.set_my_id(77, 12);
    assert_eq!(agent.rect_of(2), Some(rect(0, 50, 200, 100)));
    assert_eq!(agent.get_hovering_module_uuid(50, 100, 999), HoveringModuleType::Module(1));
}

#[test]
fn hover_walk_ends_on_a_tree_that_loops() {
    let mut agent = registry();
    mount(&mut agent, 1, 0, rect(0, 50, 10, 10));
    mount(&mut agent, 2, 1, rect(0, 50, 10, 10));
    // Block 1 is announced again, now as a child of block 2.
    mount(&mut agent, 1, 2, rect(0, 50, 10, 10));
    assert_eq!(agent.get_hovering_module_uuid(5, 55, 999), HoveringModuleType::Module(2));
}

#[test]
fn unregistering_takes_a_block_out_of_the_walk() {
    let mut agent = registry();
    mount(&mut agent, 1, 0, rect(0, 50, 200, 100));
    mount(&mut agent, 2, 1, rect(0, 50, 200, 100));
    mount(&mut agent, 3, 2, rect(0, 50, 200, 100));
    assert_eq!(agent.get_hovering_module_uuid(50, 100, 999), HoveringModuleType::Module(3));
    agent.disconnected(12);
    // Block 2 is gone, and block 3 can no longer be reached.
    assert_eq!(agent.get_hovering_module_uuid(50, 100, 999), HoveringModuleType::Module(1));
    // Mounted again, it is a child of block 1 once, and block 3 is a stranger to it.
    mount(&mut agent, 2, 1, rect(0, 50, 200, 100));
    assert_eq!(agent.get_hovering_module_uuid(50, 100, 999), HoveringModuleType::Module(2));
    mount(&mut agent, 3, 2, rect(0, 50, 200, 100));
    assert_eq!(agent.get_hovering_module_uuid(50, 100, 999), HoveringModuleType::Module(3));
}

#[test]
fn start_shows_a_copy_and_asks_every_element_for_its_rectangle() {
    let mut agent = registry();
    mount(&mut agent, 1, 0, rect(0, 50, 100, 20));
    let dragged = ProgramModule::new_with_id(1, vec![ProgramModuleOption::ProgramModule(Some(leaf(8, 0)))], ProgramModuleChildItems::NoBlock, 4);
    let actions = agent.try_start_drag(5, 6, dragged.clone());
    assert!(agent.is_dragging());
    assert_eq!(actions.len(), 4);
    match &actions[0] {
        DragModuleAgentAction::Respond(MANAGER, DragModuleAgentOutputMessage::CreateDragComponent { offset_x: 5, offset_y: 6, module }) => {
            assert!(module.isomorphisms(&dragged));
            assert_ne!(module.id, 1);
            assert_eq!(module.parent, None);
        }
        other => panic!("{:?}", other),
    }
    let mut asked: Vec<u64> = actions[1..]
        .iter()
        .map(|a| match a {
            DragModuleAgentAction::Respond(h, DragModuleAgentOutputMessage::RequestUpdateRect) => *h,
            other => panic!("{:?}", other),
        })
        .collect();
    asked.sort();
    assert_eq!(asked, vec![MANAGER, TOP, 11]);
    // A second drag is refused while the first is on.
    assert!(agent.try_start_drag(0, 0, leaf(2, 0)).is_empty());
    let end = agent.end_drag();
    assert_eq!(end, vec![respond(MANAGER, DragModuleAgentOutputMessage::EndDrag)]);
    assert!(!agent.is_dragging());
}

#[test]
fn start_without_a_manager_does_not_begin_a_drag() {
    let mut agent = DragModuleAgent::<i32>::new();
    agent.set_my_id(1, 11);
    let actions = agent.try_start_drag(0, 0, leaf(1, 0));
    assert_eq!(actions, vec![respond(11, DragModuleAgentOutputMessage::RequestUpdateRect)]);
    assert!(!agent.is_dragging());
}

#[test]
fn pointer_moves_are_followed_only_with_a_known_rectangle() {
    let mut agent = registry();
    mount(&mut agent, 1, 0, rect(0, 50, 100, 20));
    agent.try_start_drag(0, 0, leaf(7, 0));
    // Block 7 has no rectangle yet.
    assert!(agent.update_mouse_position(150, 150).is_empty());
    assert_eq!(agent.hovering_module(), HoveringModuleType::NoModule);
    mount(&mut agent, 7, 0, rect(0, 70, 31, 17));
    let actions = agent.update_mouse_position(150, 150);
    assert_eq!(
        actions,
        vec![
            respond(VISUAL, DragModuleAgentOutputMessage::UpdateDraggingModulePosition { x: 150, y: 150 }),
            respond(TOP, DragModuleAgentOutputMessage::MoveHoveringModule { x: 150, y: 150, module_w: 31, module_h: 17 }),
        ]
    );
    assert_eq!(agent.hovering_module(), HoveringModuleType::Module(0));
    // Onto block 1: the top level is left, block 1 is entered.
    let actions = agent.update_mouse_position(50, 60);
    assert_eq!(
        actions,
        vec![
            respond(VISUAL, DragModuleAgentOutputMessage::UpdateDraggingModulePosition { x: 50, y: 60 }),
            respond(TOP, DragModuleAgentOutputMessage::LeaveHoveringModule),
            respond(11, DragModuleAgentOutputMessage::MoveHoveringModule { x: 50, y: 60, module_w: 31, module_h: 17 }),
        ]
    );
    // Within block 1: no leave.
    assert_eq!(agent.update_mouse_position(51, 60).len(), 2);
    // The dragged block itself is passed over.
    agent.update_mouse_position(10, 80);
    assert_eq!(agent.hovering_module(), HoveringModuleType::Module(0));
    // Off the page.
    let actions = agent.update_mouse_position(900, 900);
    assert_eq!(
        actions,
        vec![
            respond(VISUAL, DragModuleAgentOutputMessage::UpdateDraggingModulePosition { x: 900, y: 900 }),
            respond(TOP, DragModuleAgentOutputMessage::LeaveHoveringModule),
        ]
    );
    assert_eq!(agent.hovering_module(), HoveringModuleType::NoModule);
}

#[test]
fn the_trash_area_overrides_any_block_under_the_pointer() {
    let mut agent = registry();
    // Block 1 covers the trash area.
    mount(&mut agent, 1, 0, rect(0, 0, 400, 400));
    mount(&mut agent, 7, 0, rect(0, 0, 10, 10));
    agent.try_start_drag(0, 0, leaf(7, 0));
    agent.update_mouse_position(200, 200);
    assert_eq!(agent.hovering_module(), HoveringModuleType::Module(1));
    agent.update_mouse_position(50, 25);
    assert_eq!(agent.hovering_module(), HoveringModuleType::TrashArea);
    assert_eq!(agent.get_hovering_module_uuid(50, 25, 7), HoveringModuleType::Module(1));
    // On the border of the trash area the block is hovered.
    agent.update_mouse_position(100, 25);
    assert_eq!(agent.hovering_module(), HoveringModuleType::Module(1));
    agent.update_mouse_position(50, 50);
    assert_eq!(agent.hovering_module(), HoveringModuleType::Module(1));
}

#[test]
fn dropping_between_siblings_moves_the_block() {
    let mut document = DotEveryEditor::new_with_id(ROOT, vec![leaf(1, 10), leaf(2, 20)]);
    let mut agent = registry();
    mount(&mut agent, 1, 0, rect(0, 50, 100, 20));
    mount(&mut agent, 2, 0, rect(0, 70, 100, 20));
    agent.try_start_drag(0, 0, document.list[0].clone());
    agent.update_mouse_position(50, 300);
    assert_eq!(agent.hovering_module(), HoveringModuleType::Module(0));
    agent.update_hovering_index(Some(DotEveryEditorOperationIndex::Child(2)));
    let actions = agent.end_drag();
    assert_eq!(actions.len(), 4);
    assert!(matches!(&actions[0], DragModuleAgentAction::Add(0, DotEveryEditorOperationIndex::Child(2), _)));
    assert_eq!(actions[1], DragModuleAgentAction::Remove(1));
    assert_eq!(actions[2], respond(TOP, DragModuleAgentOutputMessage::LeaveHoveringModule));
    assert_eq!(actions[3], respond(MANAGER, DragModuleAgentOutputMessage::EndDrag));
    apply(&mut document, actions);
    assert_eq!(document.list.len(), 2);
    assert_eq!(document.list[0].id, 2);
    let moved = &document.list[1];
    assert_ne!(moved.id, 1);
    assert_eq!(moved.type_data, 10);
    assert!(moved.isomorphisms(&leaf(1, 10)));
    assert_eq!(moved.parent, Some(ROOT));
    assert_eq!(document.get_module(1), Err(DotEveryEditorErrorMessage::NotFound));
    assert!(!agent.is_dragging());
    assert_eq!(agent.hovering_module(), HoveringModuleType::NoModule);
    assert_eq!(agent.hovering_index(), None);
}

#[test]
fn dropping_at_child_one_puts_the_copy_before_the_second_block() {
    let mut document = DotEveryEditor::new_with_id(ROOT, vec![leaf(1, 10), leaf(2, 20)]);
    let mut agent = registry();
    mount(&mut agent, 1, 0, rect(0, 50, 100, 20));
    agent.try_start_drag(0, 0, document.list[0].clone());
    agent.update_mouse_position(50, 300);
    agent.update_hovering_index(Some(DotEveryEditorOperationIndex::Child(1)));
    apply(&mut document, agent.end_drag());
    assert_eq!(document.list.len(), 2);
    assert_eq!(document.list[0].type_data, 10);
    assert_ne!(document.list[0].id, 1);
    assert_eq!(document.list[1].id, 2);
}

#[test]
fn dropping_onto_an_empty_hole_fills_it() {
    let holder = ProgramModule::new_with_id(
        1,
        vec![ProgramModuleOption::StringSign("print".to_string()), ProgramModuleOption::ProgramModule(None)],
        ProgramModuleChildItems::NoBlock,
        0,
    );
    let mut document = DotEveryEditor::new_with_id(ROOT, vec![holder, leaf(2, 20)]);
    let mut agent = registry();
    mount(&mut agent, 1, 0, rect(0, 50, 100, 20));
    mount(&mut agent, 2, 0, rect(0, 70, 100, 20));
    agent.try_start_drag(0, 0, document.list[1].clone());
    agent.update_mouse_position(50, 60);
    assert_eq!(agent.hovering_module(), HoveringModuleType::Module(1));
    agent.update_hovering_index(Some(DotEveryEditorOperationIndex::OptionProgramModuleFiltered(0)));
    apply(&mut document, agent.end_drag());
    assert_eq!(document.list.len(), 1);
    match &document.list[0].options[1] {
        ProgramModuleOption::ProgramModule(Some(q)) => {
            assert_eq!(q.parent, Some(1));
            assert_eq!(q.type_data, 20);
            assert_ne!(q.id, 2);
        }
        other => panic!("{:?}", other),
    }
    assert_eq!(document.get_module(2), Err(DotEveryEditorErrorMessage::NotFound));
}

#[test]
fn dropping_into_the_trash_only_removes() {
    for index in [None, Some(DotEveryEditorOperationIndex::Child(0))] {
        let mut document = DotEveryEditor::new_with_id(ROOT, vec![leaf(1, 10), leaf(2, 20)]);
        let mut agent = registry();
        mount(&mut agent, 1, 0, rect(0, 50, 100, 20));
        mount(&mut agent, 2, 0, rect(0, 70, 100, 20));
        agent.try_start_drag(0, 0, document.list[0].clone());
        // Over a block first, which reports an index, then into the trash.
        agent.update_mouse_position(50, 80);
        assert_eq!(agent.hovering_module(), HoveringModuleType::Module(2));
        agent.update_hovering_index(index);
        agent.update_mouse_position(50, 25);
        assert_eq!(agent.hovering_module(), HoveringModuleType::TrashArea);
        let actions = agent.end_drag();
        assert_eq!(actions, vec![DragModuleAgentAction::Remove(1), respond(MANAGER, DragModuleAgentOutputMessage::EndDrag)]);
        apply(&mut document, actions);
        assert_eq!(document.list.iter().map(|b| b.id).collect::<Vec<_>>(), vec![2]);
        // The hover state is cleared: a drop right after the next start does nothing.
        assert_eq!(agent.hovering_module(), HoveringModuleType::NoModule);
        agent.try_start_drag(0, 0, document.list[0].clone());
        assert_eq!(agent.end_drag(), vec![respond(MANAGER, DragModuleAgentOutputMessage::EndDrag)]);
    }
}

#[test]
fn dropping_without_an_index_or_a_target_leaves_the_document() {
    let mut agent = registry();
    mount(&mut agent, 1, 0, rect(0, 50, 100, 20));
    mount(&mut agent, 2, 0, rect(0, 70, 100, 20));
    agent.try_start_drag(0, 0, leaf(1, 10));
    agent.update_mouse_position(50, 80);
    assert_eq!(
        agent.end_drag(),
        vec![respond(12, DragModuleAgentOutputMessage::LeaveHoveringModule), respond(MANAGER, DragModuleAgentOutputMessage::EndDrag)]
    );
    agent.try_start_drag(0, 0, leaf(1, 10));
    agent.update_mouse_position(900, 900);
    agent.update_hovering_index(Some(DotEveryEditorOperationIndex::Child(0)));
    assert_eq!(agent.end_drag(), vec![respond(MANAGER, DragModuleAgentOutputMessage::EndDrag)]);
}

#[test]
fn handle_input_takes_every_message() {
    let mut agent = DragModuleAgent::<i32>::new();
    assert!(agent.handle_input(DragModuleAgentInputMessage::SetRootId(ROOT), MANAGER).is_empty());
    assert!(agent.handle_input(DragModuleAgentInputMessage::SetDraggingComponentId, VISUAL).is_empty());
    assert!(agent.handle_input(DragModuleAgentInputMessage::SetTrashArea { x: 0, y: 0, w: 100, h: 50 }, MANAGER).is_empty());
    assert!(agent.handle_input(DragModuleAgentInputMessage::SetParentId { my_id: 0, parent_id: ROOT }, TOP).is_empty());
    assert!(agent.handle_input(DragModuleAgentInputMessage::UpdateRect { x: 0, y: 50, w: 400, h: 400 }, TOP).is_empty());
    assert!(agent.handle_input(DragModuleAgentInputMessage::SetMyId(1), 11).is_empty());
    assert!(agent.handle_input(DragModuleAgentInputMessage::UpdateRect { x: 0, y: 50, w: 9, h: 9 }, 11).is_empty());
    assert_eq!(agent.rect_of(1), Some(rect(0, 50, 9, 9)));
    let actions = agent.handle_input(DragModuleAgentInputMessage::TryStartDrag { offset_x: 1, offset_y: 2, module: leaf(1, 0) }, 11);
    assert_eq!(actions.len(), 4);
    let actions = agent.handle_input(DragModuleAgentInputMessage::UpdateMousePosition { x: 200, y: 200 }, 11);
    assert_eq!(actions.len(), 2);
    assert!(agent.handle_input(DragModuleAgentInputMessage::UpdateHoveringIndex(Some(DotEveryEditorOperationIndex::Child(0))), TOP).is_empty());
    assert_eq!(agent.hovering_index(), Some(DotEveryEditorOperationIndex::Child(0)));
    let actions = agent.handle_input(DragModuleAgentInputMessage::EndDrag, 11);
    assert_eq!(actions.len(), 4);
    assert!(matches!(&actions[0], DragModuleAgentAction::Add(0, DotEveryEditorOperationIndex::Child(0), m) if m.id != 1));
    assert_eq!(actions[1], DragModuleAgentAction::Remove(1));
}
