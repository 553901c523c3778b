use vstd::prelude::*;

verus! {

/// Whether a pointer at `p` lies strictly between the two sides of a node
/// that is centred at `c` and `extent` pixels across.
pub open spec fn between(p: int, c: int, extent: int) -> bool {
    2 * c - extent < 2 * p < 2 * c + extent
}

/// The distance of `p` from the lower side of a node centred at `c` and
/// `extent` pixels across, in whole pixels.
pub open spec fn from_low_side(p: int, c: int, extent: int) -> int {
    (2 * p - 2 * c + extent) / 2
}

/// The distance of `p` from the upper side of a node centred at `c` and
/// `extent` pixels across, in whole pixels.
pub open spec fn from_high_side(p: int, c: int, extent: int) -> int {
    (2 * c + extent - 2 * p) / 2
}

/// The pointer's position inside a node, counted from the node's top left
/// corner, or `None` where there is no pointer or it lies outside the node.
/// `pointer` and `center` are in one coordinate space: the window's for a
/// layout node, where y grows downwards, and the world's for a sprite,
/// where y grows upwards.
pub open spec fn node_cursor_pos(
    pointer: Option<(i32, i32)>,
    center: (i32, i32),
    size: (i32, i32),
    is_ui_node: bool,
) -> Option<(i32, i32)> {
    match pointer {
        None => None,
        Some(pos) => if between(pos.0 as int, center.0 as int, size.0 as int) && between(
            pos.1 as int,
            center.1 as int,
            size.1 as int,
        ) {
            Some(
                (
                    from_low_side(pos.0 as int, center.0 as int, size.0 as int) as i32,
                    if is_ui_node {
                        from_low_side(pos.1 as int, center.1 as int, size.1 as int) as i32
                    } else {
                        from_high_side(pos.1 as int, center.1 as int, size.1 as int) as i32
                    },
                ),
            )
        } else {
            None
        },
    }
}

/// Finds where inside a node the pointer is. The result lies inside the
/// node's size.
pub fn get_node_cursor_pos(
    pointer: Option<(i32, i32)>,
    center: (i32, i32),
    size: (i32, i32),
    is_ui_node: bool,
) -> (found: Option<(i32, i32)>)
    ensures
        found == node_cursor_pos(pointer, center, size, is_ui_node),
        found matches Some(at) ==> 0 <= at.0 < size.0 && 0 <= at.1 < size.1,
{
    match pointer {
        None => None,
        Some(pos) => {
            let px: i64 = 2 * (pos.0 as i64);
            let py: i64 = 2 * (pos.1 as i64);
            let cx: i64 = 2 * (center.0 as i64);
            let cy: i64 = 2 * (center.1 as i64);
            let w: i64 = size.0 as i64;
            let h: i64 = size.1 as i64;
            if cx - w < px && px < cx + w && cy - h < py && py < cy + h {
                let x: i64 = (px - cx + w) / 2;
                let y: i64 = if is_ui_node {
                    (py - cy + h) / 2
                } else {
                    (cy + h - py) / 2
                };
                Some((x as i32, y as i32))
            } else {
                None
            }
        },
    }
}

} // verus!
