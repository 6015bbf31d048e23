use dotevery_editor::components::dotevery_editor_agent::{
    DotEveryEditorAgent, DotEveryEditorAgentAction, DotEveryEditorAgentInputMessage, DotEveryEditorAgentOutputMessage,
};
use dotevery_editor::logic::dotevery_editor::{DotEveryEditor, DotEveryEditorErrorMessage, DotEveryEditorOperationIndex};
use dotevery_editor::logic::dotevery_editor_controller::DotEveryEditorCommand;
use dotevery_editor::logic::program_module::{ProgramModule, ProgramModuleChildItems, ProgramModuleOption};
use dotevery_editor::util::Isomorphism;

fn leaf(id: u128, tag: i32) -> ProgramModule<i32> {
    ProgramModule::new_with_id(id, Vec::new(), ProgramModuleChildItems::NoBlock, tag)
}

fn holder(id: u128, occupant: Option<ProgramModule<i32>>) -> ProgramModule<i32> {
    ProgramModule::new_with_id(
        id,
        vec![
            ProgramModuleOption::StringSign("print".to_string()),
            ProgramModuleOption::StringInput("text".to_string()),
            ProgramModuleOption::ProgramModule(occupant),
        ],
        ProgramModuleChildItems::BlockVertical(Vec::new()),
        1,
    )
}

fn sample() -> DotEveryEditor<i32> {
    DotEveryEditor::new_with_id(100, vec![leaf(1, 5), holder(2, Some(leaf(3, 5))), leaf(4, 6)])
}

fn top_ids(d: &DotEveryEditor<i32>) -> Vec<u128> {
    d.list.iter().map(|b| b.id).collect()
}

#[test]
fn new_gives_top_level_blocks_the_document_as_parent() {
    let d = sample();
    assert_eq!(d.id(), 100);
    assert!(d.list.iter().all(|b| b.parent == Some(100)));
    let fresh = DotEveryEditor::new(vec![leaf(1, 0)]);
    assert_ne!(fresh.id(), 0);
    assert_eq!((fresh.id() >> 76) & 0xf, 4);
    assert_eq!(fresh.list[0].parent, Some(fresh.id()));
}

#[test]
fn add_at_the_top_level_takes_child_positions_only() {
    for target in [0u128, 100] {
        let mut d = sample();
        assert_eq!(d.add(target, DotEveryEditorOperationIndex::Child(3), &leaf(9, 0)), Ok(()));
        assert_eq!(top_ids(&d), vec![1, 2, 4, 9]);
        assert_eq!(d.list[3].parent, Some(100));
        let mut d = sample();
        assert_eq!(d.add(target, DotEveryEditorOperationIndex::Child(0), &leaf(9, 0)), Ok(()));
        assert_eq!(top_ids(&d), vec![9, 1, 2, 4]);
        let mut d = sample();
        assert_eq!(d.add(target, DotEveryEditorOperationIndex::Child(4), &leaf(9, 0)), Err(DotEveryEditorErrorMessage::IndexOutOfRange));
        assert_eq!(d.add(target, DotEveryEditorOperationIndex::OptionAbsolute(0), &leaf(9, 0)), Err(DotEveryEditorErrorMessage::IndexOutOfRange));
        assert_eq!(d.add(target, DotEveryEditorOperationIndex::OptionInputFiltered(0), &leaf(9, 0)), Err(DotEveryEditorErrorMessage::IndexOutOfRange));
        assert_eq!(d.add(target, DotEveryEditorOperationIndex::OptionProgramModuleFiltered(0), &leaf(9, 0)), Err(DotEveryEditorErrorMessage::IndexOutOfRange));
        assert_eq!(top_ids(&d), vec![1, 2, 4]);
    }
}

#[test]
fn add_below_the_top_level_goes_through_the_blocks() {
    let mut d = sample();
    assert_eq!(d.add(2, DotEveryEditorOperationIndex::Child(0), &leaf(9, 0)), Ok(()));
    assert_eq!(d.get_module(9).unwrap().parent, Some(2));
    assert_eq!(d.add(2, DotEveryEditorOperationIndex::OptionAbsolute(2), &leaf(10, 0)), Err(DotEveryEditorErrorMessage::CanNotReplace));
    assert_eq!(d.add(55, DotEveryEditorOperationIndex::Child(0), &leaf(10, 0)), Err(DotEveryEditorErrorMessage::NotFound));
    assert_eq!(d.add(1, DotEveryEditorOperationIndex::Child(0), &leaf(10, 0)), Err(DotEveryEditorErrorMessage::ChildDoesNotExpectProgramModule));
    assert_eq!(d.get_module(10), Err(DotEveryEditorErrorMessage::NotFound));
}

#[test]
fn document_add_then_remove_restores_the_document() {
    for (target, index) in [
        (0u128, DotEveryEditorOperationIndex::Child(1)),
        (100, DotEveryEditorOperationIndex::Child(3)),
        (2, DotEveryEditorOperationIndex::Child(0)),
    ] {
        let mut d = sample();
        let x = holder(9, None);
        assert_eq!(d.add(target, index, &x), Ok(()));
        assert!(d.get_module(9).unwrap().isomorphisms(&x));
        assert_eq!(d.remove(9), Ok(()));
        assert_eq!(d.list, sample().list);
    }
}

#[test]
fn remove_finds_top_level_and_nested_blocks() {
    let mut d = sample();
    assert_eq!(d.remove(3), Ok(()));
    assert_eq!(d.list[1], holder_with_parent(2, None, 100));
    assert_eq!(d.remove(1), Ok(()));
    assert_eq!(top_ids(&d), vec![2, 4]);
    assert_eq!(d.remove(1), Err(DotEveryEditorErrorMessage::NotFound));
    assert_eq!(d.remove(100), Err(DotEveryEditorErrorMessage::NotFound));
    assert_eq!(top_ids(&d), vec![2, 4]);
}

fn holder_with_parent(id: u128, occupant: Option<ProgramModule<i32>>, parent: u128) -> ProgramModule<i32> {
    let mut h = holder(id, occupant);
    h.parent = Some(parent);
    h
}

#[test]
fn copy_adds_a_copy_under_new_ids() {
    let mut d = sample();
    assert_eq!(d.copy(2, 0, DotEveryEditorOperationIndex::Child(0)), Ok(()));
    assert_eq!(d.list.len(), 4);
    let copy = &d.list[0];
    assert!(copy.isomorphisms(&d.list[2]));
    assert_ne!(copy.id, 2);
    assert_eq!(copy.parent, Some(100));
    assert_eq!(copy.options[1], ProgramModuleOption::StringInput("text".to_string()));
    match &copy.options[2] {
        ProgramModuleOption::ProgramModule(Some(inner)) => {
            assert_ne!(inner.id, 3);
            assert_eq!(inner.parent, Some(copy.id));
        }
        _ => panic!("the hole of the copy is empty"),
    }
    assert_eq!(d.list[2], holder_with_parent(2, Some(leaf(3, 5)), 100));
}

#[test]
fn copy_wraps_the_error_of_the_step_that_failed() {
    let mut d = sample();
    assert_eq!(
        d.copy(77, 0, DotEveryEditorOperationIndex::Child(0)),
        Err(DotEveryEditorErrorMessage::ErrorInGetModule(Box::new(DotEveryEditorErrorMessage::NotFound)))
    );
    assert_eq!(
        d.copy(1, 78, DotEveryEditorOperationIndex::Child(0)),
        Err(DotEveryEditorErrorMessage::ErrorInAddModule(Box::new(DotEveryEditorErrorMessage::NotFound)))
    );
    assert_eq!(
        d.copy(1, 2, DotEveryEditorOperationIndex::OptionAbsolute(2)),
        Err(DotEveryEditorErrorMessage::ErrorInAddModule(Box::new(DotEveryEditorErrorMessage::CanNotReplace)))
    );
    assert_eq!(
        d.copy(1, 0, DotEveryEditorOperationIndex::Child(9)),
        Err(DotEveryEditorErrorMessage::ErrorInAddModule(Box::new(DotEveryEditorErrorMessage::IndexOutOfRange)))
    );
    assert_eq!(d.list, sample().list);
}

#[test]
fn error_clone_keeps_nested_errors() {
    let e = DotEveryEditorErrorMessage::ErrorInAddModule(Box::new(DotEveryEditorErrorMessage::OptionDoesNotExpectProgramModule));
    assert_eq!(e.clone(), e);
    assert_ne!(e, DotEveryEditorErrorMessage::ErrorInGetModule(Box::new(DotEveryEditorErrorMessage::OptionDoesNotExpectProgramModule)));
}

#[test]
fn document_queries_follow_traversal_order() {
    let d = sample();
    assert_eq!(d.get_module(3).unwrap().parent, Some(2));
    assert_eq!(d.get_module(100), Err(DotEveryEditorErrorMessage::NotFound));
    assert_eq!(d.get_modules_by_type(&5).iter().map(|b| b.id).collect::<Vec<_>>(), vec![1, 3]);
    assert_eq!(d.get_modules_by_type(&1).iter().map(|b| b.id).collect::<Vec<_>>(), vec![2]);
    let mut d = sample();
    d.get_module_mut(3).unwrap().type_data = 8;
    assert_eq!(d.get_modules_by_type(&8).iter().map(|b| b.id).collect::<Vec<_>>(), vec![3]);
    assert!(d.get_module_mut(100).is_err());
}

#[test]
fn set_root_children_replaces_the_list() {
    let mut d = sample();
    assert_eq!(d.set_root_children(vec![leaf(7, 0), leaf(8, 0)]), Ok(()));
    assert_eq!(top_ids(&d), vec![7, 8]);
    assert!(d.list.iter().all(|b| b.parent == Some(100)));
    assert_eq!(d.clone().list, d.list);
}

#[test]
fn dispatcher_publishes_changes_that_succeed() {
    let mut agent = DotEveryEditorAgent::new();
    let mut d = sample();
    let palette = vec![leaf(50, 0)];
    // Without a manager the controller is told, and nobody else.
    let actions = agent.handle_input(&mut d, &palette, DotEveryEditorAgentInputMessage::Remove(4), 1);
    assert_eq!(actions.len(), 1);
    assert!(matches!(actions[0], DotEveryEditorAgentAction::NotifyController));
    assert_eq!(top_ids(&d), vec![1, 2]);
    // The manager gets both snapshots when it registers.
    let actions = agent.handle_input(&mut d, &palette, DotEveryEditorAgentInputMessage::SetMeManager, 7);
    assert_eq!(agent.manager, Some(7));
    assert_eq!(actions.len(), 2);
    match &actions[0] {
        DotEveryEditorAgentAction::Respond(7, DotEveryEditorAgentOutputMessage::ModuleUpdated(snapshot)) => {
            assert_eq!(snapshot.list, d.list)
        }
        other => panic!("{:?}", other),
    }
    match &actions[1] {
        DotEveryEditorAgentAction::Respond(7, DotEveryEditorAgentOutputMessage::PaletteUpdated(p)) => assert_eq!(*p, palette),
        other => panic!("{:?}", other),
    }
    let actions = agent.handle_input(&mut d, &palette, DotEveryEditorAgentInputMessage::SetMeControllerProxy, 8);
    assert_eq!(agent.controller_proxy, Some(8));
    assert!(actions.is_empty());
    // A change that succeeds.
    let actions = agent.handle_input(&mut d, &palette, DotEveryEditorAgentInputMessage::Add(0, DotEveryEditorOperationIndex::Child(0), leaf(9, 0)), 1);
    assert_eq!(actions.len(), 2);
    assert!(matches!(actions[0], DotEveryEditorAgentAction::NotifyController));
    match &actions[1] {
        DotEveryEditorAgentAction::Respond(7, DotEveryEditorAgentOutputMessage::ModuleUpdated(snapshot)) => {
            assert_eq!(snapshot.list.iter().map(|b| b.id).collect::<Vec<_>>(), vec![9, 1, 2])
        }
        other => panic!("{:?}", other),
    }
    let actions = agent.handle_input(&mut d, &palette, DotEveryEditorAgentInputMessage::Copy(9, 2, DotEveryEditorOperationIndex::Child(0)), 1);
    assert_eq!(actions.len(), 2);
    // A change that fails publishes nothing and changes nothing.
    let before = d.clone();
    for msg in [
        DotEveryEditorAgentInputMessage::Add(2, DotEveryEditorOperationIndex::OptionAbsolute(2), leaf(10, 0)),
        DotEveryEditorAgentInputMessage::Copy(77, 0, DotEveryEditorOperationIndex::Child(0)),
        DotEveryEditorAgentInputMessage::Remove(77),
    ] {
        assert!(agent.handle_input(&mut d, &palette, msg, 1).is_empty());
        assert_eq!(d.list, before.list);
    }
}

#[test]
fn dispatcher_stores_input_text_without_publishing() {
    let mut agent = DotEveryEditorAgent::new();
    let mut d = sample();
    let palette = Vec::new();
    let update = |id: u128, index: usize, value: &str| DotEveryEditorAgentInputMessage::UpdateInput { id, index, value: value.to_string() };
    assert!(agent.handle_input(&mut d, &palette, update(2, 1, "hello"), 1).is_empty());
    assert_eq!(d.list[1].options[1], ProgramModuleOption::StringInput("hello".to_string()));
    // A sign, a hole, a slot out of range and an unknown block stay as they are.
    let before = d.clone();
    for msg in [update(2, 0, "a"), update(2, 2, "b"), update(2, 3, "c"), update(77, 1, "d")] {
        assert!(agent.handle_input(&mut d, &palette, msg, 1).is_empty());
        assert_eq!(d.list, before.list);
    }
}

#[test]
fn dispatcher_answers_the_controller_through_the_manager() {
    let mut agent = DotEveryEditorAgent::new();
    let d = sample();
    let palette = vec![leaf(50, 0), leaf(51, 0)];
    assert!(agent.update(&d, &palette, DotEveryEditorCommand::Update).is_empty());
    agent.manager = Some(3);
    let actions = agent.update(&d, &palette, DotEveryEditorCommand::Update);
    assert!(matches!(&actions[..], [DotEveryEditorAgentAction::Respond(3, DotEveryEditorAgentOutputMessage::ModuleUpdated(s))] if s.list == d.list));
    let actions = agent.update(&d, &palette, DotEveryEditorCommand::UpdatePalette);
    assert!(matches!(&actions[..], [DotEveryEditorAgentAction::Respond(3, DotEveryEditorAgentOutputMessage::PaletteUpdated(p))] if *p == palette));
}
