use dotevery_editor::logic::dotevery_editor::{DotEveryEditorErrorMessage, DotEveryEditorOperationIndex};
use dotevery_editor::logic::program_module::{ProgramModule, ProgramModuleChildItems, ProgramModuleOption};
use dotevery_editor::util::Isomorphism;

fn leaf(id: u128, tag: i32) -> ProgramModule<i32> {
    ProgramModule::new_with_id(id, Vec::new(), ProgramModuleChildItems::NoBlock, tag)
}

/// id 1: [Sign, Input, Hole(2), Hole(empty), Input, Hole(empty)], vertical list [5, 6]
/// id 2: [Hole(3)], horizontal list [4]
fn sample() -> ProgramModule<i32> {
    let inner = ProgramModule::new_with_id(
        2,
        vec![ProgramModuleOption::ProgramModule(Some(leaf(3, 7)))],
        ProgramModuleChildItems::BlockHorizontal(vec![leaf(4, 8)]),
        7,
    );
    ProgramModule::new_with_id(
        1,
        vec![
            ProgramModuleOption::StringSign("if".to_string()),
            ProgramModuleOption::StringInput("x".to_string()),
            ProgramModuleOption::ProgramModule(Some(inner)),
            ProgramModuleOption::ProgramModule(None),
            ProgramModuleOption::StringInput("y".to_string()),
            ProgramModuleOption::ProgramModule(None),
        ],
        ProgramModuleChildItems::BlockVertical(vec![leaf(5, 8), leaf(6, 7)]),
        9,
    )
}

fn hole(m: &ProgramModule<i32>, i: usize) -> Option<&ProgramModule<i32>> {
    match &m.options[i] {
        ProgramModuleOption::ProgramModule(o) => o.as_ref(),
        _ => panic!("slot {} is no hole", i),
    }
}

fn list(m: &ProgramModule<i32>) -> &Vec<ProgramModule<i32>> {
    match &m.child {
        ProgramModuleChildItems::BlockVertical(l) => l,
        ProgramModuleChildItems::BlockHorizontal(l) => l,
        ProgramModuleChildItems::NoBlock => panic!("no container"),
    }
}

#[test]
fn new_with_id_sets_parents_of_direct_children_only() {
    let m = sample();
    assert_eq!(m.id(), 1);
    assert_eq!(m.parent, None);
    let inner = hole(&m, 2).unwrap();
    assert_eq!(inner.parent, Some(1));
    assert_eq!(hole(inner, 0).unwrap().parent, Some(2));
    assert_eq!(list(inner)[0].parent, Some(2));
    assert_eq!(list(&m)[0].parent, Some(1));
    assert_eq!(list(&m)[1].parent, Some(1));
}

#[test]
fn new_draws_random_version_four_ids() {
    let a = ProgramModule::<i32>::new(Vec::new(), ProgramModuleChildItems::NoBlock, 0);
    let b = ProgramModule::<i32>::new(Vec::new(), ProgramModuleChildItems::NoBlock, 0);
    assert_ne!(a.id, b.id);
    for id in [a.id, b.id] {
        assert_ne!(id, 0);
        assert_eq!((id >> 76) & 0xf, 4);
        assert_eq!((id >> 62) & 0x3, 2);
    }
}

#[test]
fn get_module_follows_traversal_order() {
    let m = sample();
    for id in 1..=6u128 {
        assert_eq!(m.get_module(id).unwrap().id, id);
    }
    assert_eq!(m.get_module(7), Err(DotEveryEditorErrorMessage::NotFound));
    // Two nodes with one id: the one in the hole comes before the one in the list.
    let twice = ProgramModule::new_with_id(
        1,
        vec![ProgramModuleOption::ProgramModule(Some(leaf(9, 100)))],
        ProgramModuleChildItems::BlockVertical(vec![leaf(9, 200)]),
        0,
    );
    assert_eq!(twice.get_module(9).unwrap().type_data, 100);
}

#[test]
fn get_modules_by_type_lists_matches_in_traversal_order() {
    let m = sample();
    let ids = |tag: i32| m.get_modules_by_type(&tag).iter().map(|b| b.id).collect::<Vec<u128>>();
    assert_eq!(ids(7), vec![2, 3, 6]);
    assert_eq!(ids(8), vec![4, 5]);
    assert_eq!(ids(9), vec![1]);
    assert_eq!(ids(1), Vec::<u128>::new());
}

#[test]
fn get_module_mut_changes_the_node_in_place() {
    let mut m = sample();
    m.get_module_mut(4).unwrap().type_data = 42;
    assert_eq!(list(hole(&m, 2).unwrap())[0].type_data, 42);
    let mut expect = sample();
    if let ProgramModuleOption::ProgramModule(Some(inner)) = &mut expect.options[2] {
        if let ProgramModuleChildItems::BlockHorizontal(l) = &mut inner.child {
            l[0].type_data = 42;
        }
    }
    assert_eq!(m, expect);
    assert!(matches!(m.get_module_mut(77), Err(DotEveryEditorErrorMessage::NotFound)));
    assert_eq!(m, expect);
    m.get_module_mut(1).unwrap().type_data = 5;
    assert_eq!(m.type_data, 5);
}

#[test]
fn add_reaches_each_addressing_mode() {
    // OptionAbsolute counts every slot.
    let mut m = sample();
    assert_eq!(m.add(1, DotEveryEditorOperationIndex::OptionAbsolute(3), &leaf(10, 0)), Ok(()));
    assert_eq!(hole(&m, 3).unwrap().id, 10);
    assert_eq!(hole(&m, 3).unwrap().parent, Some(1));
    // OptionInputFiltered skips the sign: inputs and holes are 1, 2, 3, 4, 5.
    let mut m = sample();
    assert_eq!(m.add(1, DotEveryEditorOperationIndex::OptionInputFiltered(2), &leaf(10, 0)), Ok(()));
    assert_eq!(hole(&m, 3).unwrap().id, 10);
    let mut m = sample();
    assert_eq!(m.add(1, DotEveryEditorOperationIndex::OptionInputFiltered(4), &leaf(10, 0)), Ok(()));
    assert_eq!(hole(&m, 5).unwrap().id, 10);
    // OptionProgramModuleFiltered counts holes only: 2, 3, 5.
    let mut m = sample();
    assert_eq!(m.add(1, DotEveryEditorOperationIndex::OptionProgramModuleFiltered(2), &leaf(10, 0)), Ok(()));
    assert_eq!(hole(&m, 5).unwrap().id, 10);
    assert!(hole(&m, 3).is_none());
    // Child inserts before position i; the length appends.
    let mut m = sample();
    assert_eq!(m.add(1, DotEveryEditorOperationIndex::Child(0), &leaf(10, 0)), Ok(()));
    assert_eq!(list(&m).iter().map(|b| b.id).collect::<Vec<_>>(), vec![10, 5, 6]);
    let mut m = sample();
    assert_eq!(m.add(1, DotEveryEditorOperationIndex::Child(2), &leaf(10, 0)), Ok(()));
    assert_eq!(list(&m).iter().map(|b| b.id).collect::<Vec<_>>(), vec![5, 6, 10]);
    assert_eq!(list(&m)[2].parent, Some(1));
    // A target further down.
    let mut m = sample();
    assert_eq!(m.add(2, DotEveryEditorOperationIndex::Child(1), &leaf(10, 0)), Ok(()));
    let inner = hole(&m, 2).unwrap();
    assert_eq!(list(inner).iter().map(|b| b.id).collect::<Vec<_>>(), vec![4, 10]);
    assert_eq!(list(inner)[1].parent, Some(2));
}

#[test]
fn add_keeps_the_descendants_of_the_new_block_as_they_are() {
    let mut m = sample();
    let x = ProgramModule::new_with_id(
        20,
        vec![ProgramModuleOption::ProgramModule(Some(leaf(21, 0)))],
        ProgramModuleChildItems::NoBlock,
        0,
    );
    assert_eq!(m.add(5, DotEveryEditorOperationIndex::Child(0), &x), Err(DotEveryEditorErrorMessage::ChildDoesNotExpectProgramModule));
    assert_eq!(m.add(1, DotEveryEditorOperationIndex::Child(1), &x), Ok(()));
    let got = m.get_module(20).unwrap();
    assert_eq!(got.parent, Some(1));
    assert_eq!(hole(got, 0).unwrap().parent, Some(20));
}

#[test]
fn add_reports_each_error_and_leaves_the_tree_unchanged() {
    let cases = vec![
        (99, DotEveryEditorOperationIndex::Child(0), DotEveryEditorErrorMessage::NotFound),
        (1, DotEveryEditorOperationIndex::OptionAbsolute(6), DotEveryEditorErrorMessage::IndexOutOfRange),
        (1, DotEveryEditorOperationIndex::OptionInputFiltered(5), DotEveryEditorErrorMessage::IndexOutOfRange),
        (1, DotEveryEditorOperationIndex::OptionProgramModuleFiltered(3), DotEveryEditorErrorMessage::IndexOutOfRange),
        (1, DotEveryEditorOperationIndex::Child(3), DotEveryEditorErrorMessage::IndexOutOfRange),
        (1, DotEveryEditorOperationIndex::OptionAbsolute(0), DotEveryEditorErrorMessage::OptionDoesNotExpectProgramModule),
        (1, DotEveryEditorOperationIndex::OptionAbsolute(1), DotEveryEditorErrorMessage::OptionDoesNotExpectProgramModule),
        (1, DotEveryEditorOperationIndex::OptionInputFiltered(0), DotEveryEditorErrorMessage::OptionDoesNotExpectProgramModule),
        (1, DotEveryEditorOperationIndex::OptionInputFiltered(3), DotEveryEditorErrorMessage::OptionDoesNotExpectProgramModule),
        (3, DotEveryEditorOperationIndex::Child(0), DotEveryEditorErrorMessage::ChildDoesNotExpectProgramModule),
        (1, DotEveryEditorOperationIndex::OptionAbsolute(2), DotEveryEditorErrorMessage::CanNotReplace),
        (1, DotEveryEditorOperationIndex::OptionInputFiltered(1), DotEveryEditorErrorMessage::CanNotReplace),
        (1, DotEveryEditorOperationIndex::OptionProgramModuleFiltered(0), DotEveryEditorErrorMessage::CanNotReplace),
        (2, DotEveryEditorOperationIndex::OptionAbsolute(0), DotEveryEditorErrorMessage::CanNotReplace),
    ];
    for (target, index, error) in cases {
        let mut m = sample();
        assert_eq!(m.add(target, index, &leaf(10, 0)), Err(error), "{} {:?}", target, index);
        assert_eq!(m, sample());
    }
}

#[test]
fn add_then_remove_restores_the_tree() {
    let indices = vec![
        (1, DotEveryEditorOperationIndex::OptionAbsolute(3)),
        (1, DotEveryEditorOperationIndex::OptionInputFiltered(4)),
        (1, DotEveryEditorOperationIndex::OptionProgramModuleFiltered(1)),
        (1, DotEveryEditorOperationIndex::Child(0)),
        (1, DotEveryEditorOperationIndex::Child(1)),
        (1, DotEveryEditorOperationIndex::Child(2)),
        (2, DotEveryEditorOperationIndex::Child(0)),
        (2, DotEveryEditorOperationIndex::Child(1)),
    ];
    for (target, index) in indices {
        let mut m = sample();
        let x = leaf(10, 3);
        assert_eq!(m.add(target, index, &x), Ok(()));
        assert_ne!(m, sample());
        let got = m.get_module(10).unwrap();
        assert!(got.isomorphisms(&x));
        assert_eq!(got.parent, Some(target));
        assert_eq!(m.remove(10), Ok(()));
        assert_eq!(m, sample());
    }
}

#[test]
fn remove_empties_holes_and_shortens_lists() {
    let mut m = sample();
    assert_eq!(m.remove(2), Ok(()));
    assert!(hole(&m, 2).is_none());
    assert_eq!(m.get_module(3), Err(DotEveryEditorErrorMessage::NotFound));
    let mut m = sample();
    assert_eq!(m.remove(3), Ok(()));
    assert!(hole(hole(&m, 2).unwrap(), 0).is_none());
    let mut m = sample();
    assert_eq!(m.remove(4), Ok(()));
    assert_eq!(list(hole(&m, 2).unwrap()).len(), 0);
    let mut m = sample();
    assert_eq!(m.remove(5), Ok(()));
    assert_eq!(list(&m).iter().map(|b| b.id).collect::<Vec<_>>(), vec![6]);
    // The block at the top is never removed, and an unknown id is not found.
    let mut m = sample();
    assert_eq!(m.remove(1), Err(DotEveryEditorErrorMessage::NotFound));
    assert_eq!(m.remove(99), Err(DotEveryEditorErrorMessage::NotFound));
    assert_eq!(m, sample());
}

#[test]
fn remove_prefers_a_direct_occupant_over_a_deeper_node() {
    // The id 9 sits deep below the first hole and directly in the second.
    let deep = ProgramModule::new_with_id(
        2,
        vec![ProgramModuleOption::ProgramModule(Some(leaf(9, 100)))],
        ProgramModuleChildItems::NoBlock,
        0,
    );
    let mut m = ProgramModule::new_with_id(
        1,
        vec![
            ProgramModuleOption::ProgramModule(Some(deep)),
            ProgramModuleOption::ProgramModule(Some(leaf(9, 200))),
        ],
        ProgramModuleChildItems::NoBlock,
        0,
    );
    assert_eq!(m.remove(9), Ok(()));
    assert!(hole(&m, 1).is_none());
    assert_eq!(m.get_module(9).unwrap().type_data, 100);
}

#[test]
fn deep_clone_copies_content_under_new_ids() {
    let m = sample();
    let c = m.deep_clone();
    assert!(m.isomorphisms(&c));
    assert_ne!(m, c);
    assert_eq!(c.parent, None);
    let mut ids = Vec::new();
    let mut stack = vec![&c];
    while let Some(b) = stack.pop() {
        ids.push(b.id);
        for o in &b.options {
            if let ProgramModuleOption::ProgramModule(Some(x)) = o {
                assert_eq!(x.parent, Some(b.id));
                stack.push(x);
            }
        }
        match &b.child {
            ProgramModuleChildItems::NoBlock => {}
            ProgramModuleChildItems::BlockVertical(l) | ProgramModuleChildItems::BlockHorizontal(l) => {
                for x in l {
                    assert_eq!(x.parent, Some(b.id));
                    stack.push(x);
                }
            }
        }
    }
    assert_eq!(ids.len(), 6);
    for (i, id) in ids.iter().enumerate() {
        assert!(*id > 6);
        assert_eq!((id >> 76) & 0xf, 4);
        assert!(!ids[..i].contains(id));
    }
    // The texts of inputs are copied too.
    assert_eq!(c.options[1], ProgramModuleOption::StringInput("x".to_string()));
    assert_eq!(c.options[4], ProgramModuleOption::StringInput("y".to_string()));
    assert_eq!(c.type_data, 9);
}

#[test]
fn clone_keeps_ids() {
    let m = sample();
    assert_eq!(m.clone(), m);
}

#[test]
fn isomorphic_transform_keeps_the_frame_and_drops_the_tags() {
    let m = sample();
    let t: ProgramModule<u8> = m.isomorphic_transform();
    assert_eq!(t.id, 1);
    assert_eq!(t.type_data, 0);
    assert_eq!(t.options.len(), 6);
    assert_eq!(t.options[1], ProgramModuleOption::StringInput("x".to_string()));
    match &t.options[2] {
        ProgramModuleOption::ProgramModule(Some(inner)) => {
            assert_eq!(inner.id, 2);
            assert_eq!(inner.parent, Some(1));
            assert_eq!(inner.type_data, 0);
        }
        other => panic!("{:?}", other),
    }
    match &t.child {
        ProgramModuleChildItems::BlockVertical(l) => assert_eq!(l.iter().map(|b| b.id).collect::<Vec<_>>(), vec![5, 6]),
        other => panic!("{:?}", other),
    }
    let back: ProgramModule<i32> = t.isomorphic_transform();
    assert!(back.isomorphisms(&m.isomorphic_transform::<i32>()));
}
