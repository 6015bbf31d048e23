use vstd::prelude::*;
use std::collections::HashMap;
use crate::logic::dotevery_editor::DotEveryEditorOperationIndex;
use crate::logic::model::{Block, Container, Slot};
use crate::logic::program_module::{
    list_view, options_view, ProgramModule, ProgramModuleChildItems, ProgramModuleOption,
};
use crate::util::Rect;

verus! {

/// Whether the middle of the rectangle lies beyond the point, downwards for
/// a vertical list and to the right for a horizontal one.
pub open spec fn middle_beyond(rect: Rect, vertical: bool, x: int, y: int) -> bool {
    if vertical {
        2 * rect.y + rect.h > 2 * y
    } else {
        2 * rect.x + rect.w > 2 * x
    }
}

/// The position in a container list at which a block dropped at the point
/// would enter, looking from member `from` on: before the first member whose
/// middle lies beyond the point, else at the end. Nothing is proposed where
/// the rectangle of a member that has to be looked at is not known.
pub open spec fn child_position<T>(
    list: Seq<Block<T>>,
    rects: Map<u128, Rect>,
    vertical: bool,
    x: int,
    y: int,
    from: int,
) -> Option<int>
    decreases list.len() - from,
{
    if from < 0 || from >= list.len() {
        Some(list.len() as int)
    } else if !rects.dom().contains(list[from].id) {
        None
    } else if middle_beyond(rects[list[from].id], vertical, x, y) {
        Some(from)
    } else {
        child_position(list, rects, vertical, x, y, from + 1)
    }
}

/// The first empty hole, from slot `from` on, whose rectangle is known and
/// holds the point.
pub open spec fn hole_position<T>(
    slots: Seq<Slot<T>>,
    rects: Seq<Option<Rect>>,
    x: int,
    y: int,
    from: int,
) -> Option<int>
    decreases slots.len() - from,
{
    if from < 0 || from >= slots.len() || from >= rects.len() {
        None
    } else if slots[from] == Slot::<T>::Hole(None) && rects[from] is Some && rects[from]->0.contains_point(x, y) {
        Some(from)
    } else {
        hole_position(slots, rects, x, y, from + 1)
    }
}

/// Whether the middle of the rectangle lies beyond the point.
fn is_middle_beyond(rect: &Rect, vertical: bool, x: i32, y: i32) -> (r: bool)
    ensures
        r == middle_beyond(*rect, vertical, x as int, y as int),
{
    if vertical {
        2 * (rect.y as i64) + rect.h as i64 > 2 * (y as i64)
    } else {
        2 * (rect.x as i64) + rect.w as i64 > 2 * (x as i64)
    }
}

/// The insertion index that a list of blocks proposes for a drop at the
/// point, from the last known rectangles of its members.
pub fn get_list_hovering_index<T: 'static + Clone + PartialEq>(
    list: &Vec<ProgramModule<T>>,
    child_rects: &HashMap<u128, Rect>,
    vertical: bool,
    x: i32,
    y: i32,
) -> (r: Option<DotEveryEditorOperationIndex>)
    ensures
        r == match child_position(list_view(list@), child_rects@, vertical, x as int, y as int, 0) {
            Some(i) => Some(DotEveryEditorOperationIndex::Child(i as usize)),
            None => None,
        },
        child_position(list_view(list@), child_rects@, vertical, x as int, y as int, 0) is Some ==> 0 <= child_position(
            list_view(list@),
            child_rects@,
            vertical,
            x as int,
            y as int,
            0,
        )->0 <= list.len(),
{
    let ghost blocks = list_view(list@);
    let mut i: usize = 0;
    while i < list.len()
        invariant
            0 <= i <= list.len(),
            blocks == list_view(list@),
            child_position(blocks, child_rects@, vertical, x as int, y as int, 0) == child_position(
                blocks,
                child_rects@,
                vertical,
                x as int,
                y as int,
                i as int,
            ),
        decreases list.len() - i,
    {
        match child_rects.get(&list[i].id) {
            Some(rect) => {
                if is_middle_beyond(rect, vertical, x, y) {
                    return Some(DotEveryEditorOperationIndex::Child(i));
                }
            },
            None => {
                return None;
            },
        }
        i += 1;
    }
    Some(DotEveryEditorOperationIndex::Child(list.len()))
}

/// The insertion index that a block's container proposes for a drop at the
/// point; none where the block has no container.
pub fn get_child_hovering_index<T: 'static + Clone + PartialEq>(
    module: &ProgramModule<T>,
    child_rects: &HashMap<u128, Rect>,
    x: i32,
    y: i32,
) -> (r: Option<DotEveryEditorOperationIndex>)
    ensures
        r == match module@.child {
            Container::NoBlock => None,
            Container::Vertical(l) => match child_position(l, child_rects@, true, x as int, y as int, 0) {
                Some(i) => Some(DotEveryEditorOperationIndex::Child(i as usize)),
                None => None,
            },
            Container::Horizontal(l) => match child_position(l, child_rects@, false, x as int, y as int, 0) {
                Some(i) => Some(DotEveryEditorOperationIndex::Child(i as usize)),
                None => None,
            },
        },
{
    match &module.child {
        ProgramModuleChildItems::NoBlock => None,
        ProgramModuleChildItems::BlockVertical(list) => get_list_hovering_index(list, child_rects, true, x, y),
        ProgramModuleChildItems::BlockHorizontal(list) => get_list_hovering_index(list, child_rects, false, x, y),
    }
}

/// The insertion index that a block's slots propose for a drop at the point:
/// the first empty hole whose rectangle is known and holds the point.
pub fn get_options_hovering_index<T: 'static + Clone + PartialEq>(
    module: &ProgramModule<T>,
    option_rects: &Vec<Option<Rect>>,
    x: i32,
    y: i32,
) -> (r: Option<DotEveryEditorOperationIndex>)
    ensures
        r == match hole_position(module@.slots, option_rects@, x as int, y as int, 0) {
            Some(i) => Some(DotEveryEditorOperationIndex::OptionAbsolute(i as usize)),
            None => None,
        },
{
    let ghost slots = module@.slots;
    let mut i: usize = 0;
    while i < module.options.len() && i < option_rects.len()
        invariant
            0 <= i <= module.options.len(),
            i <= option_rects.len(),
            slots == options_view(module.options@),
            hole_position(slots, option_rects@, x as int, y as int, 0) == hole_position(
                slots,
                option_rects@,
                x as int,
                y as int,
                i as int,
            ),
        decreases module.options.len() - i,
    {
        let empty_hole = match &module.options[i] {
            ProgramModuleOption::ProgramModule(None) => true,
            _ => false,
        };
        if empty_hole {
            match &option_rects[i] {
                Some(rect) => {
                    if rect.contains(x, y) {
                        return Some(DotEveryEditorOperationIndex::OptionAbsolute(i));
                    }
                },
                None => {},
            }
        }
        i += 1;
    }
    None
}

} // verus!
