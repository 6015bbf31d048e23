use std::collections::HashMap;

use dotevery_editor::components::hovering_index::{get_child_hovering_index, get_list_hovering_index, get_options_hovering_index};
use dotevery_editor::logic::dotevery_editor::DotEveryEditorOperationIndex;
use dotevery_editor::logic::program_module::{ProgramModule, ProgramModuleChildItems, ProgramModuleOption};
use dotevery_editor::util::Rect;

fn leaf(id: u128) -> ProgramModule<i32> {
    ProgramModule::new_with_id(id, Vec::new(), ProgramModuleChildItems::NoBlock, 0)
}

#[test]
fn encloses_is_strict_on_every_side() {
    let r = Rect { x: 10, y: 20, w: 30, h: 40 };
    assert!(r.encloses(11, 21));
    assert!(r.encloses(39, 59));
    assert!(r.encloses(25, 40));
    assert!(!r.encloses(10, 40));
    assert!(!r.encloses(40, 40));
    assert!(!r.encloses(25, 20));
    assert!(!r.encloses(25, 60));
    // Below the rectangle is outside, however far up the rectangle begins.
    assert!(!r.encloses(25, 61));
    assert!(!r.encloses(25, 79));
    assert!(!Rect { x: 0, y: 0, w: 0, h: 0 }.encloses(0, 0));
}

#[test]
fn contains_takes_the_border_in() {
    let r = Rect { x: 10, y: 20, w: 30, h: 40 };
    assert!(r.contains(10, 20));
    assert!(r.contains(40, 60));
    assert!(r.contains(25, 40));
    assert!(!r.contains(9, 40));
    assert!(!r.contains(41, 40));
    assert!(!r.contains(25, 19));
    assert!(!r.contains(25, 61));
    assert!(Rect { x: 0, y: 0, w: 0, h: 0 }.contains(0, 0));
}

#[test]
fn geometry_does_not_overflow_at_the_limits() {
    let r = Rect { x: i32::MAX, y: i32::MAX, w: i32::MAX, h: i32::MAX };
    assert!(r.contains(i32::MAX, i32::MAX));
    assert!(!r.encloses(i32::MAX, i32::MAX));
    assert_eq!(r.center(), (3221225470, 3221225470));
    let r = Rect { x: i32::MIN, y: i32::MIN, w: i32::MIN, h: i32::MIN };
    assert!(!r.contains(i32::MIN, i32::MIN));
    assert_eq!(r.center(), (-3221225472, -3221225472));
}

#[test]
fn center_rounds_each_half_towards_zero() {
    assert_eq!(Rect { x: 10, y: 20, w: 30, h: 40 }.center(), (25, 40));
    assert_eq!(Rect { x: 10, y: 20, w: 31, h: 41 }.center(), (25, 40));
    assert_eq!(Rect { x: -10, y: -20, w: 5, h: 1 }.center(), (-8, -20));
    assert_eq!(Rect { x: 0, y: 0, w: -3, h: -4 }.center(), (-1, -2));
}

#[test]
fn child_index_is_before_the_first_member_whose_middle_lies_beyond() {
    let list = vec![leaf(1), leaf(2), leaf(3)];
    let mut rects = HashMap::new();
    rects.insert(1, Rect { x: 0, y: 0, w: 100, h: 10 });
    rects.insert(2, Rect { x: 0, y: 10, w: 100, h: 10 });
    rects.insert(3, Rect { x: 0, y: 20, w: 100, h: 11 });
    let at = |y: i32| get_list_hovering_index(&list, &rects, true, 50, y);
    let empty: HashMap<u128, Rect> = HashMap::new();
    assert_eq!(at(-5), Some(DotEveryEditorOperationIndex::Child(0)));
    assert_eq!(at(4), Some(DotEveryEditorOperationIndex::Child(0)));
    assert_eq!(at(5), Some(DotEveryEditorOperationIndex::Child(1)));
    assert_eq!(at(14), Some(DotEveryEditorOperationIndex::Child(1)));
    assert_eq!(at(15), Some(DotEveryEditorOperationIndex::Child(2)));
    // The middle of the last member is at 25.5.
    assert_eq!(at(25), Some(DotEveryEditorOperationIndex::Child(2)));
    assert_eq!(at(26), Some(DotEveryEditorOperationIndex::Child(3)));
    assert_eq!(get_list_hovering_index(&Vec::<ProgramModule<i32>>::new(), &empty, true, 0, 0), Some(DotEveryEditorOperationIndex::Child(0)));
    // A member whose rectangle is not known stops the search.
    let mut fewer = rects.clone();
    fewer.remove(&2);
    let at = |y: i32| get_list_hovering_index(&list, &fewer, true, 50, y);
    assert_eq!(at(4), Some(DotEveryEditorOperationIndex::Child(0)));
    assert_eq!(at(5), None);
    assert_eq!(at(30), None);
}

#[test]
fn child_index_goes_by_the_kind_of_container() {
    let mut rects = HashMap::new();
    rects.insert(1, Rect { x: 0, y: 0, w: 10, h: 100 });
    rects.insert(2, Rect { x: 10, y: 0, w: 10, h: 100 });
    let horizontal = ProgramModule::new_with_id(9, Vec::new(), ProgramModuleChildItems::BlockHorizontal(vec![leaf(1), leaf(2)]), 0);
    assert_eq!(get_child_hovering_index(&horizontal, &rects, 4, 90), Some(DotEveryEditorOperationIndex::Child(0)));
    assert_eq!(get_child_hovering_index(&horizontal, &rects, 12, 90), Some(DotEveryEditorOperationIndex::Child(1)));
    assert_eq!(get_child_hovering_index(&horizontal, &rects, 15, 90), Some(DotEveryEditorOperationIndex::Child(2)));
    let vertical = ProgramModule::new_with_id(9, Vec::new(), ProgramModuleChildItems::BlockVertical(vec![leaf(1), leaf(2)]), 0);
    assert_eq!(get_child_hovering_index(&vertical, &rects, 15, 10), Some(DotEveryEditorOperationIndex::Child(0)));
    assert_eq!(get_child_hovering_index(&vertical, &rects, 15, 90), Some(DotEveryEditorOperationIndex::Child(2)));
    assert_eq!(get_child_hovering_index(&leaf(9), &rects, 15, 90), None);
}

#[test]
fn options_index_is_the_first_empty_hole_under_the_point() {
    let module = ProgramModule::new_with_id(
        9,
        vec![
            ProgramModuleOption::StringSign("a".to_string()),
            ProgramModuleOption::ProgramModule(Some(leaf(1))),
            ProgramModuleOption::ProgramModule(None),
            ProgramModuleOption::StringInput("b".to_string()),
            ProgramModuleOption::ProgramModule(None),
        ],
        ProgramModuleChildItems::NoBlock,
        0,
    );
    let slot = |i: i32| Some(Rect { x: 10 * i, y: 0, w: 10, h: 10 });
    let rects = vec![slot(0), slot(1), slot(2), slot(3), slot(4)];
    assert_eq!(get_options_hovering_index(&module, &rects, 5, 5), None);
    assert_eq!(get_options_hovering_index(&module, &rects, 15, 5), None);
    assert_eq!(get_options_hovering_index(&module, &rects, 25, 5), Some(DotEveryEditorOperationIndex::OptionAbsolute(2)));
    assert_eq!(get_options_hovering_index(&module, &rects, 35, 5), None);
    assert_eq!(get_options_hovering_index(&module, &rects, 45, 5), Some(DotEveryEditorOperationIndex::OptionAbsolute(4)));
    assert_eq!(get_options_hovering_index(&module, &rects, 45, 11), None);
    // Rectangles that are missing, or too few, propose nothing.
    assert_eq!(get_options_hovering_index(&module, &vec![slot(0), slot(1), None, slot(3), slot(4)], 25, 5), None);
    assert_eq!(get_options_hovering_index(&module, &vec![slot(0), slot(1), slot(2)], 45, 5), None);
}
