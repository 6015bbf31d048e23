use vstd::prelude::*;
use std::collections::{HashMap, HashSet, VecDeque};
use crate::components::handle_map::{bimap_pairs, handle_map_get_by_left, HandleMap};
use crate::util::Rect;

verus! {

/// The child lists of the rendered blocks, as sequences.
pub open spec fn children_view(m: Map<u128, Vec<u128>>) -> Map<u128, Seq<u128>> {
    Map::new(|k: u128| m.dom().contains(k), |k: u128| m[k]@)
}

/// The order in which a breadth-first walk visits the blocks that can be
/// reached from the queue. A block is visited once, when it first leaves the
/// queue; its children then join the queue's end. The block `skip` is never
/// visited, so what can only be reached through it is not visited either.
pub open spec fn visit_order(
    children: Map<u128, Seq<u128>>,
    queue: Seq<u128>,
    visited: Set<u128>,
    skip: u128,
) -> Seq<u128>
    decreases children.dom().difference(visited).len(), queue.len(),
    when children.dom().finite()
    via visit_order_decreases
{
    if queue.len() == 0 {
        Seq::empty()
    } else {
        let id = queue[0];
        let rest = queue.drop_first();
        if id == skip || visited.contains(id) {
            visit_order(children, rest, visited, skip)
        } else if children.dom().contains(id) {
            seq![id] + visit_order(children, rest + children[id], visited.insert(id), skip)
        } else {
            seq![id] + visit_order(children, rest, visited.insert(id), skip)
        }
    }
}

#[via_fn]
proof fn visit_order_decreases(children: Map<u128, Seq<u128>>, queue: Seq<u128>, visited: Set<u128>, skip: u128) {
    if queue.len() > 0 {
        let id = queue[0];
        if id == skip || visited.contains(id) {
        } else if children.dom().contains(id) {
            children.dom().lemma_set_insert_diff_decreases(visited, id);
        } else {
            assert(children.dom().difference(visited.insert(id)) =~= children.dom().difference(visited));
        }
    }
}

/// Whether a block can be hovered at this point: its last known rectangle
/// holds the point, and an interface element is registered for it.
pub open spec fn is_candidate(rects: Map<u128, Rect>, pairs: Map<u128, u64>, id: u128, x: int, y: int) -> bool {
    rects.dom().contains(id) && rects[id].contains_point(x, y) && pairs.dom().contains(id)
}

/// The last block of `order` that can be hovered at this point.
pub open spec fn last_candidate(
    order: Seq<u128>,
    rects: Map<u128, Rect>,
    pairs: Map<u128, u64>,
    x: int,
    y: int,
) -> Option<u128>
    decreases order.len(),
{
    if order.len() == 0 {
        None
    } else if is_candidate(rects, pairs, order.last(), x, y) {
        Some(order.last())
    } else {
        last_candidate(order.drop_last(), rects, pairs, x, y)
    }
}

/// The block that is hovered at this point: of the blocks that a
/// breadth-first walk from the root visits, the last that can be hovered.
pub open spec fn hovered_block(
    root: u128,
    children: Map<u128, Seq<u128>>,
    rects: Map<u128, Rect>,
    pairs: Map<u128, u64>,
    x: int,
    y: int,
    skip: u128,
) -> Option<u128> {
    last_candidate(visit_order(children, seq![root], Set::empty(), skip), rects, pairs, x, y)
}

/// Walks the rendered blocks breadth first from the root and gives the last
/// block visited whose rectangle holds the point and for which an interface
/// element is registered. The block being dragged is passed over, and so is
/// what hangs below it.
pub fn find_hovered_block(
    root: u128,
    children: &HashMap<u128, Vec<u128>>,
    rectangles: &HashMap<u128, Rect>,
    handles: &HandleMap,
    x: i32,
    y: i32,
    dragging: u128,
) -> (r: Option<u128>)
    ensures
        r == hovered_block(root, children_view(children@), rectangles@, bimap_pairs(*handles), x as int, y as int, dragging),
{
    let ghost cv = children_view(children@);
    let ghost rects = rectangles@;
    let ghost pairs = bimap_pairs(*handles);
    let mut queue: VecDeque<u128> = VecDeque::new();
    queue.push_back(root);
    let mut visited: HashSet<u128> = HashSet::new();
    let mut found: Option<u128> = None;
    let ghost mut done: Seq<u128> = Seq::empty();
    proof {
        assert(cv.dom() =~= children@.dom());
        assert(queue@ =~= seq![root]);
        assert(done + visit_order(cv, queue@, visited@, dragging) =~= visit_order(cv, queue@, visited@, dragging));
    }
    loop
        invariant
            cv == children_view(children@),
            rects == rectangles@,
            pairs == bimap_pairs(*handles),
            cv.dom().finite(),
            visit_order(cv, seq![root], Set::empty(), dragging) == done + visit_order(cv, queue@, visited@, dragging),
            found == last_candidate(done, rects, pairs, x as int, y as int),
        decreases cv.dom().difference(visited@).len(), queue@.len(),
    {
        let ghost before = queue@;
        let id = match queue.pop_front() {
            Some(id) => id,
            None => {
                proof {
                    assert(done + Seq::<u128>::empty() =~= done);
                }
                return found;
            },
        };
        proof {
            assert(queue@ =~= before.drop_first());
        }
        if id == dragging || visited.contains(&id) {
            continue;
        }
        let ghost seen = visited@;
        visited.insert(id);
        let hit = match rectangles.get(&id) {
            Some(rect) => rect.contains(x, y) && handle_map_get_by_left(handles, id).is_some(),
            None => false,
        };
        if hit {
            found = Some(id);
        }
        proof {
            let longer = done.push(id);
            assert(longer.drop_last() =~= done);
            assert(done + (seq![id] + visit_order(cv, if cv.dom().contains(id) {
                before.drop_first() + cv[id]
            } else {
                before.drop_first()
            }, seen.insert(id), dragging)) =~= longer + visit_order(cv, if cv.dom().contains(id) {
                before.drop_first() + cv[id]
            } else {
                before.drop_first()
            }, seen.insert(id), dragging));
            done = longer;
            if cv.dom().contains(id) {
                cv.dom().lemma_set_insert_diff_decreases(seen, id);
            } else {
                assert(cv.dom().difference(seen.insert(id)) =~= cv.dom().difference(seen));
            }
        }
        match children.get(&id) {
            Some(list) => {
                let ghost rest = queue@;
                let mut j: usize = 0;
                while j < list.len()
                    invariant
                        0 <= j <= list.len(),
                        queue@ == rest + list@.take(j as int),
                    decreases list.len() - j,
                {
                    queue.push_back(list[j]);
                    proof {
                        assert(rest + list@.take(j as int + 1) =~= (rest + list@.take(j as int)).push(list@[j as int]));
                    }
                    j += 1;
                }
                proof {
                    assert(list@.take(j as int) =~= list@);
                }
            },
            None => {},
        }
    }
}

} // verus!
