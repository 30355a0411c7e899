//! Cutting a sprite sheet into sprites of equal size.

use vstd::prelude::*;
use crate::grid::lemma_index_in_range;

verus! {

/// The left and top pixel of the sprite that is `across` places along the
/// inner walk and `down` places along the outer walk of a sheet. The outer
/// walk advances by the sprite's width and the inner one by its height.
pub open spec fn origin(across: int, down: int, sprite_w: int, sprite_h: int) -> (int, int) {
    (across * sprite_h, down * sprite_w)
}

/// The left and top pixel of every sprite of a sheet of `rows` by `columns`
/// sprites, row after row.
pub fn sprite_origins(columns: u32, rows: u32, sprite_w: u32, sprite_h: u32) -> (origins: Vec<
    (u32, u32),
>)
    requires
        rows > 0 && columns > 0 ==> (columns - 1) * sprite_h <= u32::MAX && (rows - 1) * sprite_w
            <= u32::MAX,
    ensures
        origins.len() == rows * columns,
        forall|across: int, down: int|
            0 <= across < columns && 0 <= down < rows ==> {
                let at = #[trigger] origin(across, down, sprite_w as int, sprite_h as int);
                &&& origins[down * columns + across].0 == at.0
                &&& origins[down * columns + across].1 == at.1
            },
{
    let mut origins: Vec<(u32, u32)> = Vec::new();
    let mut x: u32 = 0;
    while x < rows
        invariant
            x <= rows,
            rows > 0 && columns > 0 ==> (columns - 1) * sprite_h <= u32::MAX && (rows - 1)
                * sprite_w <= u32::MAX,
            origins.len() == x * columns,
            forall|across: int, down: int|
                0 <= across < columns && 0 <= down < x ==> {
                    let at = #[trigger] origin(across, down, sprite_w as int, sprite_h as int);
                    &&& origins[down * columns + across].0 == at.0
                    &&& origins[down * columns + across].1 == at.1
                },
        decreases rows - x,
    {
        let mut y: u32 = 0;
        while y < columns
            invariant
                x < rows,
                y <= columns,
                columns > 0 ==> (columns - 1) * sprite_h <= u32::MAX && (rows - 1) * sprite_w
                    <= u32::MAX,
                origins.len() == x * columns + y,
                forall|across: int, down: int|
                    0 <= across < columns && 0 <= down && (down < x || (down == x && across < y))
                        ==> {
                        let at = #[trigger] origin(across, down, sprite_w as int, sprite_h as int);
                        &&& origins[down * columns + across].0 == at.0
                        &&& origins[down * columns + across].1 == at.1
                    },
            decreases columns - y,
        {
            assert(x * sprite_w <= (rows - 1) * sprite_w) by (nonlinear_arith)
                requires
                    x <= rows - 1,
            ;
            assert(y * sprite_h <= (columns - 1) * sprite_h) by (nonlinear_arith)
                requires
                    y <= columns - 1,
            ;
            let pixel_top = x * sprite_w;
            let pixel_left = y * sprite_h;
            let ghost before = origins@;
            origins.push((pixel_left, pixel_top));
            proof {
                assert forall|across: int, down: int|
                    0 <= across < columns && 0 <= down && (down < x || (down == x && across < y
                        + 1)) implies {
                    let at = #[trigger] origin(across, down, sprite_w as int, sprite_h as int);
                    &&& origins[down * columns + across].0 == at.0
                    &&& origins[down * columns + across].1 == at.1
                } by {
                    if down < x {
                        lemma_index_in_range(across, down, columns as int, x as int);
                        assert(origins[down * columns + across] == before[down * columns + across]);
                    } else if across < y {
                        assert(origins[down * columns + across] == before[down * columns + across]);
                    }
                }
            }
            y += 1;
        }
        assert((x + 1) * columns == x * columns + columns) by (nonlinear_arith);
        x += 1;
    }
    origins
}

} // verus!
