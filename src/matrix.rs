use vstd::prelude::*;

verus! {

/// Number of rows and of columns of the key grid.
pub const GRID_SIZE: usize = 4;

/// Debounced state of one switch of the grid.
#[derive(Clone, Copy, Debug, PartialEq, Eq, Structural)]
pub enum KeyState {
    Pressed,
    Released,
    Pressing,
    Releasing,
}

/// The two-stage debounce table: the state that follows `s` when the switch
/// reads `closed`.
pub open spec fn next_state(s: KeyState, closed: bool) -> KeyState {
    match s {
        KeyState::Released => if closed { KeyState::Pressing } else { KeyState::Released },
        KeyState::Pressing => if closed { KeyState::Pressed } else { KeyState::Releasing },
        KeyState::Pressed => if closed { KeyState::Pressed } else { KeyState::Releasing },
        KeyState::Releasing => if closed { KeyState::Pressing } else { KeyState::Released },
    }
}

impl KeyState {
    /// The state that follows this one when the switch reads `closed`.
    pub fn next(self, closed: bool) -> (r: KeyState)
        ensures
            r == next_state(self, closed),
    {
        match self {
            KeyState::Released => if closed { KeyState::Pressing } else { KeyState::Released },
            KeyState::Pressing => if closed { KeyState::Pressed } else { KeyState::Releasing },
            KeyState::Pressed => if closed { KeyState::Pressed } else { KeyState::Releasing },
            KeyState::Releasing => if closed { KeyState::Pressing } else { KeyState::Released },
        }
    }
}

/// One cell of a grid indexed first by column (`y`), then by row (`x`).
pub open spec fn cell<T>(g: [[T; 4]; 4], y: int, x: int) -> T {
    g@[y]@[x]
}

/// The cell at row-major position `i` of a grid.
pub open spec fn cell_at<T>(g: [[T; 4]; 4], i: int) -> T {
    cell(g, i / 4, i % 4)
}

/// Row-major position of the cell `(y, x)`.
pub open spec fn position(y: int, x: int) -> int {
    4 * y + x
}

/// A cell of the grid that changed state, and the state it changed into.
#[derive(Clone, Copy, Debug, PartialEq, Eq, Structural)]
pub struct Change {
    /// The column of the cell: the first grid index.
    pub matrix_y: usize,
    /// The row of the cell: the second grid index.
    pub matrix_x: usize,
    /// The state the cell changed into.
    pub new_state: KeyState,
}

/// Row-major position of the cell that a change reports.
pub open spec fn change_position(c: Change) -> int {
    position(c.matrix_y as int, c.matrix_x as int)
}

/// The change reported for the cell at row-major position `i`.
pub open spec fn change_at(states: [[KeyState; 4]; 4], i: int) -> Change {
    Change {
        matrix_y: (i / 4) as usize,
        matrix_x: (i % 4) as usize,
        new_state: cell_at(states, i),
    }
}

/// What a drain reports from row-major position `i` on: one change for each
/// flagged cell, in row-major order.
pub open spec fn pending_from(states: [[KeyState; 4]; 4], flags: [[bool; 4]; 4], i: int) -> Seq<Change>
    decreases 16 - i,
{
    if i < 0 || i >= 16 {
        Seq::empty()
    } else if cell_at(flags, i) {
        seq![change_at(states, i)] + pending_from(states, flags, i + 1)
    } else {
        pending_from(states, flags, i + 1)
    }
}

/// `after` is `before` once scanned with readings `closed`, indexed by
/// column, then row: the same pins, every cell moved by the debounce table,
/// and flagged if its state changed (flags already set stay set).
pub open spec fn scanned<R, C>(before: Matrix<R, C>, after: Matrix<R, C>, closed: [[bool; 4]; 4]) -> bool {
    &&& after.row_pins() == before.row_pins()
    &&& after.column_pins() == before.column_pins()
    &&& forall|y: int, x: int|
        #![trigger cell(after.state_grid(), y, x)]
        #![trigger cell(after.flag_grid(), y, x)]
        0 <= y < 4 && 0 <= x < 4 ==> {
            let s = cell(before.state_grid(), y, x);
            let n = next_state(s, cell(closed, y, x));
            &&& cell(after.state_grid(), y, x) == n
            &&& cell(after.flag_grid(), y, x) == (cell(before.flag_grid(), y, x) || n != s)
        }
}

/// The states a key goes through from `s` when it reads `readings` in turn.
pub open spec fn key_path(s: KeyState, readings: Seq<bool>) -> Seq<KeyState>
    decreases readings.len(),
{
    if readings.len() == 0 {
        Seq::empty()
    } else {
        let n = next_state(s, readings[0]);
        seq![n] + key_path(n, readings.drop_first())
    }
}

/// A scanned key grid: the row inputs and column outputs it owns, the
/// debounced state of each cell, and which cells changed since the last drain.
pub struct Matrix<R, C> {
    rows: [R; 4],
    columns: [C; 4],
    states: [[KeyState; 4]; 4],
    states_changed: [[bool; 4]; 4],
}

impl<R, C> Matrix<R, C> {
    /// Debounced state of each cell, indexed by column, then row.
    pub closed spec fn state_grid(&self) -> [[KeyState; 4]; 4] {
        self.states
    }

    /// Which cells changed since the last drain, indexed by column, then row.
    pub closed spec fn flag_grid(&self) -> [[bool; 4]; 4] {
        self.states_changed
    }

    /// The row inputs.
    pub closed spec fn row_pins(&self) -> [R; 4] {
        self.rows
    }

    /// The column outputs.
    pub closed spec fn column_pins(&self) -> [C; 4] {
        self.columns
    }

    /// The changes that a drain would report now.
    pub open spec fn pending(&self) -> Seq<Change> {
        pending_from(self.state_grid(), self.flag_grid(), 0)
    }

    /// A matrix over the given pins, every key released and nothing flagged.
    pub fn new(rows: [R; 4], columns: [C; 4]) -> (r: Matrix<R, C>)
        ensures
            r.row_pins() == rows,
            r.column_pins() == columns,
            forall|y: int, x: int|
                #![trigger cell(r.state_grid(), y, x)]
                0 <= y < 4 && 0 <= x < 4 ==> cell(r.state_grid(), y, x) == KeyState::Released
                    && !cell(r.flag_grid(), y, x),
    {
        Matrix {
            rows,
            columns,
            states: [[KeyState::Released; 4]; 4],
            states_changed: [[false; 4]; 4],
        }
    }

    /// The debounced state of every cell, indexed by column, then row.
    pub fn get_state(&self) -> (r: &[[KeyState; 4]; 4])
        ensures
            *r == self.state_grid(),
    {
        &self.states
    }

    /// The row inputs, to be sampled while a column is driven.
    pub fn rows(&self) -> (r: &[R; 4])
        ensures
            *r == self.row_pins(),
    {
        &self.rows
    }

    /// The column outputs, to be driven one at a time during a scan.
    pub fn columns_mut(&mut self) -> (r: &mut [C; 4])
        ensures
            *r == old(self).column_pins(),
            final(self).column_pins() == *final(r),
            final(self).row_pins() == old(self).row_pins(),
            final(self).state_grid() == old(self).state_grid(),
            final(self).flag_grid() == old(self).flag_grid(),
    {
        &mut self.columns
    }

    /// Applies the readings of one column, indexed by row, to that column's
    /// cells: each follows the debounce table and is flagged if it changed.
    pub fn scan_column(&mut self, col: usize, closed: &[bool; 4])
        requires
            col < GRID_SIZE,
        ensures
            final(self).row_pins() == old(self).row_pins(),
            final(self).column_pins() == old(self).column_pins(),
            forall|y: int, x: int|
                #![trigger cell(final(self).state_grid(), y, x)]
                #![trigger cell(final(self).flag_grid(), y, x)]
                0 <= y < 4 && 0 <= x < 4 ==> {
                    let s = cell(old(self).state_grid(), y, x);
                    let f = cell(old(self).flag_grid(), y, x);
                    if y == col {
                        &&& cell(final(self).state_grid(), y, x) == next_state(s, closed@[x])
                        &&& cell(final(self).flag_grid(), y, x) == (f || next_state(s, closed@[x])
                            != s)
                    } else {
                        &&& cell(final(self).state_grid(), y, x) == s
                        &&& cell(final(self).flag_grid(), y, x) == f
                    }
                },
    {
        let mut row: usize = 0;
        while row < GRID_SIZE
            invariant
                col < 4,
                row <= 4,
                self.rows == old(self).rows,
                self.columns == old(self).columns,
                forall|y: int, x: int|
                    #![trigger cell(self.states, y, x)]
                    #![trigger cell(self.states_changed, y, x)]
                    0 <= y < 4 && 0 <= x < 4 ==> {
                        let s = cell(old(self).states, y, x);
                        let f = cell(old(self).states_changed, y, x);
                        if y == col && x < row {
                            &&& cell(self.states, y, x) == next_state(s, closed@[x])
                            &&& cell(self.states_changed, y, x) == (f || next_state(s, closed@[x])
                                != s)
                        } else {
                            &&& cell(self.states, y, x) == s
                            &&& cell(self.states_changed, y, x) == f
                        }
                    },
            decreases 4 - row,
        {
            let prev = self.states[col][row];
            let next = prev.next(closed[row]);
            if next != prev {
                self.states[col][row] = next;
                self.states_changed[col][row] = true;
            }
            row += 1;
        }
    }

    /// One full scan from readings indexed by column, then row: every cell
    /// follows the debounce table and is flagged if it changed.
    pub fn apply_scan(&mut self, closed: &[[bool; 4]; 4])
        ensures
            scanned(*old(self), *final(self), *closed),
    {
        let mut col: usize = 0;
        while col < GRID_SIZE
            invariant
                col <= 4,
                self.row_pins() == old(self).row_pins(),
                self.column_pins() == old(self).column_pins(),
                forall|y: int, x: int|
                    #![trigger cell(self.state_grid(), y, x)]
                    #![trigger cell(self.flag_grid(), y, x)]
                    0 <= y < 4 && 0 <= x < 4 ==> {
                        let s = cell(old(self).state_grid(), y, x);
                        let f = cell(old(self).flag_grid(), y, x);
                        let n = next_state(s, cell(*closed, y, x));
                        if y < col {
                            &&& cell(self.state_grid(), y, x) == n
                            &&& cell(self.flag_grid(), y, x) == (f || n != s)
                        } else {
                            &&& cell(self.state_grid(), y, x) == s
                            &&& cell(self.flag_grid(), y, x) == f
                        }
                    },
            decreases 4 - col,
        {
            self.scan_column(col, &closed[col]);
            col += 1;
        }
    }

    /// A drain over the cells flagged now, from the first cell on.
    pub fn changes(&mut self) -> (r: Changes<'_>)
        ensures
            r.wf(),
            r.cursor() == 0,
            r.states() == old(self).state_grid(),
            r.flags() == old(self).flag_grid(),
            r.remaining() == old(self).pending(),
            final(self).flag_grid() == *final(r.flags_ref()),
            final(self).state_grid() == old(self).state_grid(),
            final(self).row_pins() == old(self).row_pins(),
            final(self).column_pins() == old(self).column_pins(),
    {
        Changes {
            matrix_y: 0,
            matrix_x: 0,
            states: &self.states,
            states_changed: &mut self.states_changed,
        }
    }
}

/// `out` is what a full drain of `before` reported, and `after` is `before`
/// once drained: the same keys and pins, and no cell flagged.
pub open spec fn drained<R, C>(before: Matrix<R, C>, after: Matrix<R, C>, out: Seq<Change>) -> bool {
    &&& out == before.pending()
    &&& after.state_grid() == before.state_grid()
    &&& after.row_pins() == before.row_pins()
    &&& after.column_pins() == before.column_pins()
    &&& forall|y: int, x: int| 0 <= y < 4 && 0 <= x < 4 ==> !#[trigger] cell(after.flag_grid(), y, x)
}

impl<R, C> Matrix<R, C> {
    /// Takes every pending change, in row-major order, through one drain.
    pub fn drain(&mut self) -> (r: Vec<Change>)
        ensures
            drained(*old(self), *final(self), r@),
    {
        let mut out: Vec<Change> = Vec::new();
        let mut changes = self.changes();
        let ghost end = *final(changes.flags_ref());
        loop
            invariant
                changes.wf(),
                changes.states() == old(self).state_grid(),
                out@ + changes.remaining() == old(self).pending(),
                *final(changes.flags_ref()) == end,
            ensures
                out@ == old(self).pending(),
                *final(changes.flags_ref()) == end,
                forall|y: int, x: int|
                    0 <= y < 4 && 0 <= x < 4 ==> !#[trigger] cell(*changes.flags_ref(), y, x),
            decreases changes.remaining().len(),
        {
            match changes.next() {
                Some(c) => {
                    out.push(c);
                },
                None => {
                    assert(out@ =~= out@ + changes.remaining());
                    break ;
                },
            }
        }
        assert(self.flag_grid() == end);
        out
    }
}

/// A one-shot, forward-only drain over the flagged cells of a matrix, in
/// row-major order; each change handed out clears its cell's flag.
pub struct Changes<'a> {
    matrix_y: usize,
    matrix_x: usize,
    states: &'a [[KeyState; 4]; 4],
    states_changed: &'a mut [[bool; 4]; 4],
}

impl<'a> Changes<'a> {
    /// Row-major position of the next cell to look at.
    pub closed spec fn cursor(&self) -> int {
        position(self.matrix_y as int, self.matrix_x as int)
    }

    /// The states of the drained matrix.
    pub closed spec fn states(&self) -> [[KeyState; 4]; 4] {
        *self.states
    }

    /// The change flags of the drained matrix, as they stand now.
    pub closed spec fn flags(&self) -> [[bool; 4]; 4] {
        *self.states_changed
    }

    /// The borrow of the drained matrix's change flags.
    pub closed spec fn flags_ref(&self) -> &'a mut [[bool; 4]; 4] {
        self.states_changed
    }

    /// The cursor lies on the grid or just past it, and no cell before it is
    /// flagged.
    pub closed spec fn wf(&self) -> bool {
        &&& self.matrix_y <= 4
        &&& self.matrix_x < 4
        &&& self.matrix_y == 4 ==> self.matrix_x == 0
        &&& forall|i: int| 0 <= i < self.cursor() ==> !#[trigger] cell_at(*self.states_changed, i)
    }

    /// What the drain still has to report.
    pub open spec fn remaining(&self) -> Seq<Change> {
        pending_from(self.states(), self.flags(), self.cursor())
    }

    /// The next flagged cell in row-major order, whose flag it clears; `None`
    /// once no flagged cell is left.
    pub fn next(&mut self) -> (r: Option<Change>)
        requires
            old(self).wf(),
        ensures
            final(self).wf(),
            final(self).states() == old(self).states(),
            *final(final(self).flags_ref()) == *final(old(self).flags_ref()),
            match r {
                None => {
                    &&& old(self).remaining() == Seq::<Change>::empty()
                    &&& final(self).flags() == old(self).flags()
                    &&& final(self).remaining() == Seq::<Change>::empty()
                    &&& forall|y: int, x: int|
                        0 <= y < 4 && 0 <= x < 4 ==> !#[trigger] cell(final(self).flags(), y, x)
                },
                Some(c) => {
                    &&& old(self).remaining().len() > 0
                    &&& c == old(self).remaining()[0]
                    &&& final(self).remaining() == old(self).remaining().drop_first()
                    &&& old(self).cursor() <= change_position(c)
                    &&& final(self).cursor() == change_position(c) + 1
                    &&& forall|y: int, x: int|
                        0 <= y < 4 && 0 <= x < 4 ==> #[trigger] cell(final(self).flags(), y, x) == (
                        cell(old(self).flags(), y, x) && position(y, x) != change_position(c))
                },
            },
    {
        while self.matrix_y < GRID_SIZE
            invariant
                self.wf(),
                old(self).cursor() <= self.cursor(),
                *self.states == *old(self).states,
                *self.states_changed == *old(self).states_changed,
                *final(self.states_changed) == *final(old(self).states_changed),
                self.remaining() == old(self).remaining(),
            decreases 16 - self.cursor(),
        {
            let y = self.matrix_y;
            let x = self.matrix_x;
            assert(position(y as int, x as int) / 4 == y && position(y as int, x as int) % 4 == x);
            if x + 1 == GRID_SIZE {
                self.matrix_y = y + 1;
                self.matrix_x = 0;
            } else {
                self.matrix_x = x + 1;
            }
            if self.states_changed[y][x] {
                let ghost before = *self.states_changed;
                self.states_changed[y][x] = false;
                proof {
                    let p = position(y as int, x as int);
                    lemma_pending_frame(*self.states, before, *self.states_changed, self.cursor());
                    assert forall|j: int| 0 <= j < self.cursor() implies !#[trigger] cell_at(
                        *self.states_changed,
                        j,
                    ) by {
                        if j < p {
                            assert(!cell_at(before, j));
                            assert(j / 4 != y || j % 4 != x);
                        }
                    }
                    assert forall|yy: int, xx: int| 0 <= yy < 4 && 0 <= xx < 4 implies #[trigger] cell(
                        *self.states_changed,
                        yy,
                        xx,
                    ) == (cell(before, yy, xx) && position(yy, xx) != p) by {
                        assert(position(yy, xx) == p ==> yy == y && xx == x);
                    }
                }
                return Some(Change { matrix_y: y, matrix_x: x, new_state: self.states[y][x] });
            }
        }
        proof {
            assert forall|y: int, x: int| 0 <= y < 4 && 0 <= x < 4 implies !#[trigger] cell(
                *self.states_changed,
                y,
                x,
            ) by {
                assert(position(y, x) / 4 == y && position(y, x) % 4 == x);
                assert(!cell_at(*self.states_changed, position(y, x)));
            }
        }
        None
    }
}

/// `pending_from` reads no flag before its starting position.
proof fn lemma_pending_frame(
    states: [[KeyState; 4]; 4],
    f1: [[bool; 4]; 4],
    f2: [[bool; 4]; 4],
    i: int,
)
    requires
        forall|j: int| i <= j < 16 ==> #[trigger] cell_at(f1, j) == cell_at(f2, j),
    ensures
        pending_from(states, f1, i) == pending_from(states, f2, i),
    decreases 16 - i,
{
    if 0 <= i < 16 {
        lemma_pending_frame(states, f1, f2, i + 1);
    }
}

/// Every change pending from position `i` lies on the grid at or after `i`,
/// and the positions strictly increase.
proof fn lemma_pending_sorted(states: [[KeyState; 4]; 4], flags: [[bool; 4]; 4], i: int)
    requires
        0 <= i,
    ensures
        forall|k: int|
            #![trigger pending_from(states, flags, i)[k]]
            0 <= k < pending_from(states, flags, i).len() ==> {
                let c = pending_from(states, flags, i)[k];
                &&& c.matrix_y < 4
                &&& c.matrix_x < 4
                &&& i <= change_position(c) < 16
            },
        forall|a: int, b: int|
            0 <= a < b < pending_from(states, flags, i).len() ==> change_position(
                #[trigger] pending_from(states, flags, i)[a],
            ) < change_position(#[trigger] pending_from(states, flags, i)[b]),
    decreases 16 - i,
{
    if i < 16 {
        lemma_pending_sorted(states, flags, i + 1);
        let rest = pending_from(states, flags, i + 1);
        if cell_at(flags, i) {
            let c = change_at(states, i);
            assert(change_position(c) == i);
            assert(pending_from(states, flags, i) == seq![c] + rest);
            assert forall|k: int| 0 < k < pending_from(states, flags, i).len() implies #[trigger] pending_from(
                states,
                flags,
                i,
            )[k] == rest[k - 1] by {}
        }
    }
}

/// Nothing is pending from position `i` on when no cell is flagged.
proof fn lemma_nothing_flagged(states: [[KeyState; 4]; 4], flags: [[bool; 4]; 4], i: int)
    requires
        0 <= i,
        forall|y: int, x: int| 0 <= y < 4 && 0 <= x < 4 ==> !#[trigger] cell(flags, y, x),
    ensures
        pending_from(states, flags, i) == Seq::<Change>::empty(),
    decreases 16 - i,
{
    if i < 16 {
        assert(!cell(flags, i / 4, i % 4));
        lemma_nothing_flagged(states, flags, i + 1);
    }
}

/// A drain reports the flagged cells in strictly increasing row-major order,
/// each on the grid.
pub proof fn lemma_drain_in_row_major_order<R, C>(m: Matrix<R, C>)
    ensures
        forall|k: int|
            #![trigger m.pending()[k]]
            0 <= k < m.pending().len() ==> m.pending()[k].matrix_y < GRID_SIZE
                && m.pending()[k].matrix_x < GRID_SIZE,
        forall|a: int, b: int|
            0 <= a < b < m.pending().len() ==> change_position(#[trigger] m.pending()[a])
                < change_position(#[trigger] m.pending()[b]),
{
    lemma_pending_sorted(m.state_grid(), m.flag_grid(), 0);
}

/// Draining twice with no scan in between reports nothing the second time.
pub proof fn lemma_second_drain_is_empty<R, C>(
    m0: Matrix<R, C>,
    m1: Matrix<R, C>,
    m2: Matrix<R, C>,
    first: Seq<Change>,
    second: Seq<Change>,
)
    requires
        drained(m0, m1, first),
        drained(m1, m2, second),
    ensures
        second == Seq::<Change>::empty(),
{
    lemma_nothing_flagged(m1.state_grid(), m1.flag_grid(), 0);
}

/// A key goes through one state per reading.
proof fn lemma_key_path_len(s: KeyState, readings: Seq<bool>)
    ensures
        key_path(s, readings).len() == readings.len(),
    decreases readings.len(),
{
    if readings.len() > 0 {
        lemma_key_path_len(next_state(s, readings[0]), readings.drop_first());
    }
}

/// Over scans `scans[0..]` of a matrix that goes through `ms[0..]`, cell
/// `(y, x)` takes exactly the states of `key_path` from its first state, and
/// each scan flags it if and only if its state changed (or it was flagged).
pub proof fn lemma_scans_follow_table<R, C>(
    ms: Seq<Matrix<R, C>>,
    scans: Seq<[[bool; 4]; 4]>,
    y: int,
    x: int,
)
    requires
        0 <= y < 4,
        0 <= x < 4,
        ms.len() == scans.len() + 1,
        forall|k: int| 0 <= k < scans.len() ==> scanned(#[trigger] ms[k], ms[k + 1], scans[k]),
    ensures
        forall|k: int|
            #![trigger ms[k + 1]]
            0 <= k < scans.len() ==> {
                let path = key_path(
                    cell(ms[0].state_grid(), y, x),
                    Seq::new(scans.len(), |j: int| cell(scans[j], y, x)),
                );
                let prev = cell(ms[k].state_grid(), y, x);
                &&& cell(ms[k + 1].state_grid(), y, x) == path[k]
                &&& cell(ms[k + 1].flag_grid(), y, x) == (cell(ms[k].flag_grid(), y, x) || path[k]
                    != prev)
            },
    decreases scans.len(),
{
    if scans.len() > 0 {
        let readings = Seq::new(scans.len(), |j: int| cell(scans[j], y, x));
        let rest_ms = ms.drop_first();
        let rest_scans = scans.drop_first();
        assert forall|k: int| 0 <= k < rest_scans.len() implies scanned(
            #[trigger] rest_ms[k],
            rest_ms[k + 1],
            rest_scans[k],
        ) by {
            assert(scanned(ms[k + 1], ms[k + 2], scans[k + 1]));
        }
        lemma_scans_follow_table(rest_ms, rest_scans, y, x);
        assert(scanned(ms[0], ms[1], scans[0]));
        let first = cell(ms[1].state_grid(), y, x);
        assert(Seq::new(rest_scans.len(), |j: int| cell(rest_scans[j], y, x))
            =~= readings.drop_first());
        let path = key_path(cell(ms[0].state_grid(), y, x), readings);
        assert(path == seq![first] + key_path(first, readings.drop_first()));
        lemma_key_path_len(first, readings.drop_first());
        assert forall|k: int| 0 <= k < scans.len() implies {
            let prev = cell(ms[k].state_grid(), y, x);
            &&& cell((#[trigger] ms[k + 1]).state_grid(), y, x) == path[k]
            &&& cell(ms[k + 1].flag_grid(), y, x) == (cell(ms[k].flag_grid(), y, x) || path[k]
                != prev)
        } by {
            if k > 0 {
                let j = k - 1;
                let tail = key_path(first, readings.drop_first());
                assert(rest_ms[j + 1] == ms[k + 1]);
                assert(rest_ms[j] == ms[k]);
                assert(rest_ms[0] == ms[1]);
                assert(path[k] == tail[j]);
            }
        }
    }
}

} // verus!
