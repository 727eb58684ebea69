//! The layered keymap, the stack of active layers, and the resolution of a
//! coordinate to the action that the highest active layer gives it.

use vstd::prelude::*;
use crate::action::KeyAction;
pub use crate::layout::{
    get_default_keymap, LEFT_COL, LEFT_COL_OFFSET, LEFT_ROW, LEFT_ROW_OFFSET, NUM_LAYER, RIGHT_COL,
    RIGHT_COL_OFFSET, RIGHT_ROW, RIGHT_ROW_OFFSET, TOTAL_COL, TOTAL_ROW,
};

verus! {

/// Why a grid of cells is not a usable keymap.
#[derive(Clone, Copy, Debug, PartialEq, Eq, Structural)]
pub enum KeymapError {
    /// A dimension is zero, or the number of cells is not
    /// `layers * rows * cols`.
    BadShape,
    /// A layer key names a layer that the keymap does not have.
    UnknownLayer,
}

/// The mathematical content of a keymap: its dimensions and its cells, layer
/// by layer and row by row.
pub struct KeymapView {
    pub layers: nat,
    pub rows: nat,
    pub cols: nat,
    pub cells: Seq<KeyAction>,
}

/// A keymap: `layers` grids of `rows * cols` actions each.
#[derive(Debug)]
pub struct Keymap {
    layers: u8,
    rows: u8,
    cols: u8,
    cells: Vec<KeyAction>,
}

/// Whether the layer that the action names, if it names one, exists among
/// `layers` layers.
pub open spec fn layer_ref_ok(a: KeyAction, layers: nat) -> bool {
    match a {
        KeyAction::LayerMomentary(n) => n < layers,
        KeyAction::LayerToggle(n) => n < layers,
        _ => true,
    }
}

/// Whether the dimensions are all positive and fit the number of cells.
pub open spec fn shape_ok(layers: nat, rows: nat, cols: nat, len: nat) -> bool {
    layers >= 1 && rows >= 1 && cols >= 1 && len == layers * rows * cols
}

/// Position of a cell in the flat sequence of cells.
pub open spec fn cell_index(rows: nat, cols: nat, layer: int, row: int, col: int) -> int {
    (layer * rows + row) * cols + col
}

impl KeymapView {
    /// A usable keymap: well shaped, and every layer key names a layer of it.
    pub open spec fn wf(self) -> bool {
        &&& shape_ok(self.layers, self.rows, self.cols, self.cells.len())
        &&& self.layers <= 255 && self.rows <= 255 && self.cols <= 255
        &&& forall|i: int| 0 <= i < self.cells.len() ==> layer_ref_ok(#[trigger] self.cells[i], self.layers)
    }

    /// Whether the layer and the coordinate lie inside the keymap.
    pub open spec fn in_range(self, layer: int, row: int, col: int) -> bool {
        0 <= layer < self.layers && 0 <= row < self.rows && 0 <= col < self.cols
    }

    /// The action of a cell.
    pub open spec fn action_at(self, layer: int, row: int, col: int) -> KeyAction {
        self.cells[cell_index(self.rows, self.cols, layer, row, col)]
    }

    /// The action of a cell, where anything outside the keymap counts as
    /// transparent.
    pub open spec fn lookup(self, layer: int, row: int, col: int) -> KeyAction {
        if self.in_range(layer, row, col) {
            self.action_at(layer, row, col)
        } else {
            KeyAction::Transparent
        }
    }
}

/// The flat position of a cell inside the keymap is inside the cells.
pub proof fn lemma_cell_index_in_range(
    layers: nat,
    rows: nat,
    cols: nat,
    layer: int,
    row: int,
    col: int,
)
    requires
        0 <= layer < layers,
        0 <= row < rows,
        0 <= col < cols,
    ensures
        0 <= cell_index(rows, cols, layer, row, col) < layers * rows * cols,
        layer * rows + row < layers * rows,
        0 <= layer * rows,
{
    assert(0 <= layer * rows && layer * rows + row < layers * rows) by (nonlinear_arith)
        requires
            0 <= layer < layers,
            0 <= row < rows,
    ;
    let lr = layer * rows + row;
    let total = layers * rows;
    assert(0 <= lr * cols && lr * cols + col < total * cols) by (nonlinear_arith)
        requires
            0 <= lr < total,
            0 <= col < cols,
    ;
}

/// The action that the stack of active layers gives a coordinate: that of the
/// highest layer (the last of `stack`) whose cell is not transparent, and
/// `NoOp` if there is none.
pub open spec fn resolve_spec(km: KeymapView, stack: Seq<u8>, row: int, col: int) -> KeyAction
    decreases stack.len(),
{
    if stack.len() == 0 {
        KeyAction::NoOp
    } else {
        let a = km.lookup(stack.last() as int, row, col);
        if a != KeyAction::Transparent {
            a
        } else {
            resolve_spec(km, stack.drop_last(), row, col)
        }
    }
}

/// A coordinate that is transparent on every active layer, the base layer
/// included, resolves to `NoOp`.
pub proof fn lemma_all_transparent_is_noop(km: KeymapView, stack: Seq<u8>, row: int, col: int)
    requires
        forall|i: int|
            0 <= i < stack.len() ==> km.lookup(#[trigger] stack[i] as int, row, col)
                == KeyAction::Transparent,
    ensures
        resolve_spec(km, stack, row, col) == KeyAction::NoOp,
    decreases stack.len(),
{
    if stack.len() > 0 {
        let rest = stack.drop_last();
        assert forall|i: int| 0 <= i < rest.len() implies km.lookup(
            #[trigger] rest[i] as int,
            row,
            col,
        ) == KeyAction::Transparent by {
            assert(rest[i] == stack[i]);
        }
        lemma_all_transparent_is_noop(km, rest, row, col);
    }
}

/// Resolution never yields `Transparent`, and what it yields other than
/// `NoOp` is the cell of an active layer; in a usable keymap a layer key that
/// it yields names an existing layer.
pub proof fn lemma_resolve_is_cell(km: KeymapView, stack: Seq<u8>, row: int, col: int)
    ensures
        resolve_spec(km, stack, row, col) != KeyAction::Transparent,
        resolve_spec(km, stack, row, col) != KeyAction::NoOp ==> exists|i: int|
            0 <= i < stack.len() && km.in_range(stack[i] as int, row, col) && km.action_at(
                #[trigger] stack[i] as int,
                row,
                col,
            ) == resolve_spec(km, stack, row, col),
        km.wf() ==> layer_ref_ok(resolve_spec(km, stack, row, col), km.layers),
    decreases stack.len(),
{
    if stack.len() > 0 {
        let last = stack.len() - 1;
        let a = km.lookup(stack.last() as int, row, col);
        if a != KeyAction::Transparent {
            assert(km.in_range(stack[last] as int, row, col));
            if km.wf() {
                lemma_cell_index_in_range(
                    km.layers,
                    km.rows,
                    km.cols,
                    stack[last] as int,
                    row,
                    col,
                );
            }
        } else {
            let rest = stack.drop_last();
            lemma_resolve_is_cell(km, rest, row, col);
            if resolve_spec(km, rest, row, col) != KeyAction::NoOp {
                let i = choose|i: int|
                    0 <= i < rest.len() && km.in_range(rest[i] as int, row, col) && km.action_at(
                        #[trigger] rest[i] as int,
                        row,
                        col,
                    ) == resolve_spec(km, rest, row, col);
                assert(rest[i] == stack[i]);
            }
        }
    }
}

/// Resolution reads nothing but the keymap's cells, the stack and the
/// coordinate: on equal ones it gives the same action, however often it is
/// asked.
pub proof fn lemma_resolve_is_a_function(
    km1: KeymapView,
    stack1: Seq<u8>,
    km2: KeymapView,
    stack2: Seq<u8>,
    row: int,
    col: int,
)
    requires
        km1.layers == km2.layers,
        km1.rows == km2.rows,
        km1.cols == km2.cols,
        km1.cells =~= km2.cells,
        stack1 =~= stack2,
    ensures
        resolve_spec(km1, stack1, row, col) == resolve_spec(km2, stack2, row, col),
{
    assert(km1 == km2);
    assert(stack1 == stack2);
}

impl Keymap {
    /// The mathematical content of the keymap.
    pub closed spec fn view(&self) -> KeymapView {
        KeymapView {
            layers: self.layers as nat,
            rows: self.rows as nat,
            cols: self.cols as nat,
            cells: self.cells@,
        }
    }

    /// Makes a keymap of the cells, which come layer by layer and row by row.
    /// It is refused with `BadShape` if a dimension is zero or the number of
    /// cells does not fit, and else with `UnknownLayer` if a layer key names
    /// a layer that is not there.
    pub fn new(layers: u8, rows: u8, cols: u8, cells: Vec<KeyAction>) -> (res: Result<
        Keymap,
        KeymapError,
    >)
        ensures
            match res {
                Ok(km) => km@.wf() && km@ == (KeymapView {
                    layers: layers as nat,
                    rows: rows as nat,
                    cols: cols as nat,
                    cells: cells@,
                }),
                Err(KeymapError::BadShape) => !shape_ok(
                    layers as nat,
                    rows as nat,
                    cols as nat,
                    cells@.len(),
                ),
                Err(KeymapError::UnknownLayer) => shape_ok(
                    layers as nat,
                    rows as nat,
                    cols as nat,
                    cells@.len(),
                ) && exists|i: int|
                    0 <= i < cells@.len() && !layer_ref_ok(#[trigger] cells@[i], layers as nat),
            },
    {
        if layers == 0 || rows == 0 || cols == 0 {
            return Err(KeymapError::BadShape);
        }
        assert(layers * rows * cols <= 255 * 255 * 255) by (nonlinear_arith)
            requires
                0 <= layers <= 255,
                0 <= rows <= 255,
                0 <= cols <= 255,
        ;
        assert(0 <= layers * rows <= 255 * 255) by (nonlinear_arith)
            requires
                0 <= layers <= 255,
                0 <= rows <= 255,
        ;
        let total: usize = (layers as usize) * (rows as usize) * (cols as usize);
        if cells.len() != total {
            return Err(KeymapError::BadShape);
        }
        assert(shape_ok(layers as nat, rows as nat, cols as nat, cells@.len()));
        let mut i: usize = 0;
        while i < cells.len()
            invariant
                0 <= i <= cells@.len(),
                shape_ok(layers as nat, rows as nat, cols as nat, cells@.len()),
                forall|j: int| 0 <= j < i ==> layer_ref_ok(#[trigger] cells@[j], layers as nat),
            decreases cells@.len() - i,
        {
            let ok = match cells[i] {
                KeyAction::LayerMomentary(n) => n < layers,
                KeyAction::LayerToggle(n) => n < layers,
                _ => true,
            };
            if !ok {
                assert(!layer_ref_ok(cells@[i as int], layers as nat));
                return Err(KeymapError::UnknownLayer);
            }
            i = i + 1;
        }
        Ok(Keymap { layers, rows, cols, cells })
    }

    /// Number of layers.
    pub fn layers(&self) -> (res: u8)
        ensures
            res == self@.layers,
    {
        self.layers
    }

    /// Number of rows of each layer.
    pub fn rows(&self) -> (res: u8)
        ensures
            res == self@.rows,
    {
        self.rows
    }

    /// Number of columns of each layer.
    pub fn cols(&self) -> (res: u8)
        ensures
            res == self@.cols,
    {
        self.cols
    }

    /// The cells, layer by layer and row by row.
    pub fn cells(&self) -> (res: &Vec<KeyAction>)
        ensures
            res@ == self@.cells,
    {
        &self.cells
    }

    /// The action of a cell; anything outside the keymap counts as
    /// transparent.
    pub fn action(&self, layer: u8, row: u8, col: u8) -> (res: KeyAction)
        requires
            self@.wf(),
        ensures
            res == self@.lookup(layer as int, row as int, col as int),
    {
        if layer < self.layers && row < self.rows && col < self.cols {
            proof {
                lemma_cell_index_in_range(
                    self@.layers,
                    self@.rows,
                    self@.cols,
                    layer as int,
                    row as int,
                    col as int,
                );
                assert(self@.layers * self@.rows * self@.cols <= 255 * 255 * 255)
                    by (nonlinear_arith)
                    requires
                        self@.layers <= 255,
                        self@.rows <= 255,
                        self@.cols <= 255,
                ;
                assert(self@.layers * self@.rows <= 255 * 255) by (nonlinear_arith)
                    requires
                        self@.layers <= 255,
                        self@.rows <= 255,
                ;
            }
            let lr: usize = (layer as usize) * (self.rows as usize) + (row as usize);
            let idx: usize = lr * (self.cols as usize) + (col as usize);
            self.cells[idx]
        } else {
            KeyAction::Transparent
        }
    }

    /// The action that the active layers give a coordinate. The stack lists
    /// the active layers from the lowest precedence to the highest.
    pub fn resolve(&self, stack: &Vec<u8>, row: u8, col: u8) -> (res: KeyAction)
        requires
            self@.wf(),
        ensures
            res == resolve_spec(self@, stack@, row as int, col as int),
            res != KeyAction::Transparent,
            layer_ref_ok(res, self@.layers),
    {
        proof {
            lemma_resolve_is_cell(self@, stack@, row as int, col as int);
        }
        let mut i: usize = stack.len();
        assert(stack@.take(i as int) =~= stack@);
        while i > 0
            invariant
                self@.wf(),
                layer_ref_ok(resolve_spec(self@, stack@, row as int, col as int), self@.layers),
                0 <= i <= stack@.len(),
                resolve_spec(self@, stack@, row as int, col as int) == resolve_spec(
                    self@,
                    stack@.take(i as int),
                    row as int,
                    col as int,
                ),
            decreases i,
        {
            let a = self.action(stack[i - 1], row, col);
            proof {
                let cur = stack@.take(i as int);
                assert(cur.last() == stack@[i - 1]);
                assert(cur.drop_last() =~= stack@.take(i - 1));
            }
            if a != KeyAction::Transparent {
                return a;
            }
            i = i - 1;
        }
        KeyAction::NoOp
    }
}

/// The cell of a grid given layer by layer, each layer row by row.
pub open spec fn grid_at<const L: usize, const R: usize, const C: usize>(
    grid: &[[[KeyAction; C]; R]; L],
    layer: int,
    row: int,
    col: int,
) -> KeyAction {
    grid@[layer]@[row]@[col]
}

/// The layer, row and column of a flat position are those that the position
/// was made of.
pub proof fn lemma_cell_index_inverse(rows: int, cols: int, layer: int, row: int, col: int)
    requires
        0 <= layer,
        0 <= row < rows,
        0 <= col < cols,
    ensures
        cell_index(rows as nat, cols as nat, layer, row, col) / (rows * cols) == layer,
        (cell_index(rows as nat, cols as nat, layer, row, col) / cols) % rows == row,
        cell_index(rows as nat, cols as nat, layer, row, col) % cols == col,
{
    let idx = cell_index(rows as nat, cols as nat, layer, row, col);
    let rc = rows * cols;
    vstd::arithmetic::div_mod::lemma_fundamental_div_mod_converse(
        idx,
        cols,
        layer * rows + row,
        col,
    );
    vstd::arithmetic::div_mod::lemma_fundamental_div_mod_converse(
        layer * rows + row,
        rows,
        layer,
        row,
    );
    assert(idx == layer * rc + (row * cols + col) && 0 <= row * cols + col < rc)
        by (nonlinear_arith)
        requires
            idx == (layer * rows + row) * cols + col,
            rc == rows * cols,
            0 <= row < rows,
            0 <= col < cols,
    ;
    vstd::arithmetic::div_mod::lemma_fundamental_div_mod_converse(
        idx,
        rc,
        layer,
        row * cols + col,
    );
}

/// A flat position inside the cells splits into a layer, a row and a column
/// inside the keymap, and is the position of that cell.
pub proof fn lemma_split_index(layers: int, rows: int, cols: int, i: int)
    requires
        0 <= i < layers * rows * cols,
        rows > 0,
        cols > 0,
    ensures
        0 <= i / (rows * cols) < layers,
        0 <= (i / cols) % rows < rows,
        0 <= i % cols < cols,
        cell_index(rows as nat, cols as nat, i / (rows * cols), (i / cols) % rows, i % cols) == i,
{
    let rc = rows * cols;
    assert(rc > 0 && layers * rows * cols == rc * layers) by (nonlinear_arith)
        requires
            rc == rows * cols,
            rows > 0,
            cols > 0,
    ;
    vstd::arithmetic::div_mod::lemma_multiply_divide_lt(i, rc, layers);
    vstd::arithmetic::div_mod::lemma_div_pos_is_pos(i, rc);
    vstd::arithmetic::div_mod::lemma_div_pos_is_pos(i, cols);
    vstd::arithmetic::div_mod::lemma_mod_pos_bound(i / cols, rows);
    vstd::arithmetic::div_mod::lemma_mod_pos_bound(i, cols);
    let l = i / rc;
    let q = i / cols;
    let r = q % rows;
    let c = i % cols;
    vstd::arithmetic::div_mod::lemma_fundamental_div_mod(i, cols);
    vstd::arithmetic::div_mod::lemma_fundamental_div_mod(q, rows);
    vstd::arithmetic::div_mod::lemma_div_denominator(i, cols, rows);
    assert(cols * rows == rows * cols) by (nonlinear_arith);
    assert(q / rows == l);
    assert((l * rows + r) * cols + c == i) by (nonlinear_arith)
        requires
            i == cols * q + c,
            q == rows * l + r,
    ;
}

impl Keymap {
    /// Makes a keymap of a grid given layer by layer, each layer row by row.
    /// It is refused with `BadShape` if a dimension is zero or above 255, and
    /// else with `UnknownLayer` if a layer key names a layer that is not
    /// there.
    pub fn from_grid<const L: usize, const R: usize, const C: usize>(
        grid: &[[[KeyAction; C]; R]; L],
    ) -> (res: Result<Keymap, KeymapError>)
        ensures
            match res {
                Ok(km) => km@.wf() && km@.layers == L && km@.rows == R && km@.cols == C && forall|
                    l: int,
                    r: int,
                    c: int,
                |
                    0 <= l < L && 0 <= r < R && 0 <= c < C ==> km@.action_at(l, r, c)
                        == #[trigger] grid_at(grid, l, r, c),
                Err(KeymapError::BadShape) => L == 0 || R == 0 || C == 0 || L > 255 || R > 255 || C
                    > 255,
                Err(KeymapError::UnknownLayer) => 1 <= L <= 255 && 1 <= R <= 255 && 1 <= C <= 255
                    && exists|l: int, r: int, c: int|
                    0 <= l < L && 0 <= r < R && 0 <= c < C && !layer_ref_ok(
                        #[trigger] grid_at(grid, l, r, c),
                        L as nat,
                    ),
            },
    {
        if L == 0 || R == 0 || C == 0 || L > 255 || R > 255 || C > 255 {
            return Err(KeymapError::BadShape);
        }
        assert(0 < R * C <= 255 * 255 && L * R * C <= 255 * 255 * 255 && L * R * C == L * (R * C))
            by (nonlinear_arith)
            requires
                1 <= L <= 255,
                1 <= R <= 255,
                1 <= C <= 255,
        ;
        let per_layer: usize = R * C;
        let total: usize = L * per_layer;
        let mut cells: Vec<KeyAction> = Vec::new();
        let mut i: usize = 0;
        while i < total
            invariant
                0 <= i <= total,
                total == L * R * C,
                per_layer == R * C,
                per_layer > 0,
                1 <= L <= 255 && 1 <= R <= 255 && 1 <= C <= 255,
                cells@.len() == i,
                forall|j: int|
                    0 <= j < i ==> #[trigger] cells@[j] == grid_at(
                        grid,
                        j / (R * C),
                        (j / (C as int)) % (R as int),
                        j % (C as int),
                    ),
            decreases total - i,
        {
            proof {
                lemma_split_index(L as int, R as int, C as int, i as int);
            }
            let l: usize = i / per_layer;
            let r: usize = (i / C) % R;
            let c: usize = i % C;
            cells.push(grid[l][r][c]);
            i = i + 1;
        }
        let ghost built = cells@;
        match Keymap::new(L as u8, R as u8, C as u8, cells) {
            Ok(km) => {
                assert forall|l: int, r: int, c: int|
                    0 <= l < L && 0 <= r < R && 0 <= c < C implies km@.action_at(l, r, c)
                    == #[trigger] grid_at(grid, l, r, c) by {
                    lemma_cell_index_in_range(L as nat, R as nat, C as nat, l, r, c);
                    lemma_cell_index_inverse(R as int, C as int, l, r, c);
                }
                Ok(km)
            },
            Err(KeymapError::UnknownLayer) => {
                proof {
                    let j = choose|j: int|
                        0 <= j < built.len() && !layer_ref_ok(#[trigger] built[j], L as nat);
                    lemma_split_index(L as int, R as int, C as int, j);
                    assert(!layer_ref_ok(
                        grid_at(grid, j / (R * C), (j / (C as int)) % (R as int), j % (C as int)),
                        L as nat,
                    ));
                }
                Err(KeymapError::UnknownLayer)
            },
            Err(KeymapError::BadShape) => {
                assert(false);
                Err(KeymapError::BadShape)
            },
        }
    }
}

} // verus!
