//! The textual picture of a board that the command-line front end prints:
//! one line of characters per row of each layer.
use vstd::prelude::*;
use crate::board::{Board, Cell, lemma_valid_index};
use crate::text::{digit_char, digit_str};
use crate::topology::Coord3D;

verus! {

/// The rows of layer `layer_z`, top row first.
#[derive(Debug)]
pub struct LayerSlice {
    pub layer_z: usize,
    pub rows: Vec<String>,
}

/// The character shown for a cell: `F` for a flag, `M` for an uncovered
/// mine, `.` for an uncovered cell with no mined neighbour, the digit of its
/// count (`?` past 9), and for a covered cell `?`, or `*` for a mine when
/// hidden mines are shown.
pub open spec fn glyph(c: Cell, show_hidden: bool) -> char {
    if c.is_flagged {
        'F'
    } else if c.is_revealed {
        if c.is_mine {
            'M'
        } else if c.adjacent_mines == 0 {
            '.'
        } else if c.adjacent_mines < 10 {
            digit_char(c.adjacent_mines as nat)
        } else {
            '?'
        }
    } else if show_hidden && c.is_mine {
        '*'
    } else {
        '?'
    }
}

/// The line of row `y` of layer `z`.
pub open spec fn row_text(b: Board, z: int, y: int, show_hidden: bool) -> Seq<char> {
    Seq::new(b.dims.width as nat, |x: int| glyph(b.at(Coord3D { x: x as usize, y: y as usize, z: z as usize }), show_hidden))
}

/// The character of one cell, as a one-character string.
pub fn cell_glyph(c: &Cell, show_hidden: bool) -> (s: &'static str)
    ensures
        s@ == seq![glyph(*c, show_hidden)],
{
    proof {
        reveal_strlit("F");
        reveal_strlit("M");
        reveal_strlit(".");
        reveal_strlit("?");
        reveal_strlit("*");
    }
    if c.is_flagged {
        "F"
    } else if c.is_revealed {
        if c.is_mine {
            "M"
        } else if c.adjacent_mines == 0 {
            "."
        } else if c.adjacent_mines < 10 {
            digit_str(c.adjacent_mines as u64)
        } else {
            "?"
        }
    } else if show_hidden && c.is_mine {
        "*"
    } else {
        "?"
    }
}

/// Every layer of the board, front to back, each as its rows of cell
/// characters (see `glyph`).
pub fn render_visible_grid_json(board: &Board, show_hidden: bool) -> (v: Vec<LayerSlice>)
    requires
        board.wf(),
    ensures
        v@.len() == board.dims.depth,
        forall|z: int| 0 <= z < v@.len() ==> {
            &&& (#[trigger] v@[z]).layer_z == z
            &&& v@[z].rows@.len() == board.dims.height
            &&& forall|y: int| 0 <= y < board.dims.height ==> (#[trigger] v@[z].rows@[y])@ == row_text(*board, z, y, show_hidden)
        },
{
    let dims = board.dims;
    let mut slices: Vec<LayerSlice> = Vec::new();
    let mut z: usize = 0;
    while z < dims.depth
        invariant
            board.wf(),
            dims == board.dims,
            z <= dims.depth,
            slices@.len() == z,
            forall|k: int| 0 <= k < z ==> {
                &&& (#[trigger] slices@[k]).layer_z == k
                &&& slices@[k].rows@.len() == dims.height
                &&& forall|y: int| 0 <= y < dims.height ==> (#[trigger] slices@[k].rows@[y])@ == row_text(*board, k, y, show_hidden)
            },
        decreases dims.depth - z,
    {
        let mut rows: Vec<String> = Vec::new();
        let mut y: usize = 0;
        while y < dims.height
            invariant
                board.wf(),
                dims == board.dims,
                z < dims.depth,
                y <= dims.height,
                rows@.len() == y,
                forall|k: int| 0 <= k < y ==> (#[trigger] rows@[k])@ == row_text(*board, z as int, k, show_hidden),
            decreases dims.height - y,
        {
            let mut line = String::new();
            let mut x: usize = 0;
            while x < dims.width
                invariant
                    board.wf(),
                    dims == board.dims,
                    z < dims.depth,
                    y < dims.height,
                    x <= dims.width,
                    line@.len() == x,
                    forall|k: int| 0 <= k < x ==> line@[k] == glyph(board.at(Coord3D { x: k as usize, y, z }), show_hidden),
                decreases dims.width - x,
            {
                let c = Coord3D::new(x, y, z);
                proof {
                    lemma_valid_index(dims, c);
                }
                let cell = board.get_cell(c);
                let g = cell_glyph(cell, show_hidden);
                let ghost before = line@;
                line.append(g);
                proof {
                    assert forall|k: int| 0 <= k < x + 1 implies line@[k] == glyph(board.at(Coord3D { x: k as usize, y, z }), show_hidden) by {
                        if k < x {
                            assert(line@[k] == before[k]);
                        }
                    }
                }
                x = x + 1;
            }
            proof {
                assert(line@ =~= row_text(*board, z as int, y as int, show_hidden));
            }
            rows.push(line);
            y = y + 1;
        }
        slices.push(LayerSlice { layer_z: z, rows });
        z = z + 1;
    }
    slices
}

} // verus!
