//! The grid of the symbol search page: symbols fill columns top to bottom,
//! columns left to right, as many as the width allows.
use vstd::prelude::*;

verus! {

/// How many columns fit: the first always, each further one where it starts
/// left of the right edge.
pub open spec fn max_columns(symbol_width: int, width: int) -> int {
    if width == 0 {
        1
    } else {
        (width - 1) / (symbol_width + 1) + 1
    }
}

/// The last column that the grid fills.
pub open spec fn last_column(n: int, symbol_width: int, width: int, height: int) -> int {
    if n == 0 {
        0
    } else {
        let c = (n - 1) / height;
        let m = max_columns(symbol_width, width) - 1;
        if c < m {
            c
        } else {
            m
        }
    }
}

/// The symbol position under the cursor (0 when no shown symbol is under
/// it), and the cursor moved back into the grid. A grid of no rows shows
/// nothing.
pub open spec fn search_grid(n: int, symbol_width: int, width: int, height: int, cursor: (u16, u16)) -> (int, (int, int)) {
    if height == 0 {
        (0, (0, 0))
    } else {
        let last = last_column(n, symbol_width, width, height);
        let i = cursor.0 * height + cursor.1;
        let sel = if cursor.1 < height && cursor.0 <= last && i < n {
            i
        } else {
            0
        };
        (
            sel,
            (
                if cursor.0 > last {
                    last
                } else {
                    cursor.0 as int
                },
                if cursor.1 >= height {
                    height - 1
                } else {
                    cursor.1 as int
                },
            ),
        )
    }
}

/// Lays out `n` symbols of `symbol_width` characters in an area of
/// `width` by `height`: returns the position of the symbol under the
/// cursor and the cursor kept within the grid (see `search_grid`).
pub fn search_layout(n: usize, symbol_width: u16, width: u16, height: u16, cursor: (u16, u16)) -> (r: (usize, (u16, u16)))
    ensures
        (r.0 as int, (r.1.0 as int, r.1.1 as int)) == search_grid(n as int, symbol_width as int, width as int, height as int, cursor),
{
    if height == 0 {
        return (0, (0, 0));
    }
    let h = height as u64;
    let max_cols: u64 = if width == 0 {
        1
    } else {
        (width as u64 - 1) / (symbol_width as u64 + 1) + 1
    };
    let last: u64 = if n == 0 {
        0
    } else {
        let c = (n as u64 - 1) / h;
        if c < max_cols - 1 {
            c
        } else {
            max_cols - 1
        }
    };
    proof {
        assert(max_cols as int == max_columns(symbol_width as int, width as int));
        assert(last as int == last_column(n as int, symbol_width as int, width as int, height as int));
        assert(last <= u16::MAX) by {
            if width > 0 {
                assert((width as u64 - 1) / (symbol_width as u64 + 1) <= width as u64 - 1) by (nonlinear_arith)
                    requires width >= 1, symbol_width >= 0;
            }
        }
    }
    assert(cursor.0 as u64 * h <= 65535 * 65535) by (nonlinear_arith)
        requires cursor.0 <= 65535, h <= 65535;
    let i: u64 = cursor.0 as u64 * h + cursor.1 as u64;
    let sel: usize = if (cursor.1 as u64) < h && (cursor.0 as u64) <= last && i < n as u64 {
        i as usize
    } else {
        0
    };
    let cx: u16 = if cursor.0 as u64 > last {
        last as u16
    } else {
        cursor.0
    };
    let cy: u16 = if cursor.1 >= height {
        height - 1
    } else {
        cursor.1
    };
    (sel, (cx, cy))
}

} // verus!
