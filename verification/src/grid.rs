//! The board: a rectangle of tagged cells, and its mathematical model.

use vstd::prelude::*;

verus! {

/// What occupies one position of the board.
#[derive(Clone, Copy, Debug, PartialEq, Eq, Structural)]
pub enum Cell {
    Empty,
    Border,
    Hole,
    Player,
    Adversary,
}

/// The sign that stands for a cell on the screen.
pub open spec fn glyph_of(cell: Cell) -> char {
    match cell {
        Cell::Empty => '\u{1F7EB}',
        Cell::Border => '\u{1F7E9}',
        Cell::Hole => '\u{1F7E3}',
        Cell::Player => '\u{1F600}',
        Cell::Adversary => '\u{1F9DF}',
    }
}

impl Cell {
    /// The sign that stands for this cell on the screen: a brown square for
    /// an empty cell, a green one for the border, a purple circle for a
    /// hole, a face for the player and a zombie for a zombie.
    pub fn glyph(self) -> (sign: char)
        ensures
            sign == glyph_of(self),
    {
        match self {
            Cell::Empty => '\u{1F7EB}',
            Cell::Border => '\u{1F7E9}',
            Cell::Hole => '\u{1F7E3}',
            Cell::Player => '\u{1F600}',
            Cell::Adversary => '\u{1F9DF}',
        }
    }
}

/// The model of a board: its rows from top to bottom, each row from left to
/// right. A position is a pair `(x, y)` of a column and a row.
pub struct Grid {
    pub rows: Seq<Seq<Cell>>,
}

impl Grid {
    /// The number of rows.
    pub open spec fn height(self) -> nat {
        self.rows.len()
    }

    /// The number of columns, taken from the first row.
    pub open spec fn width(self) -> nat {
        if self.rows.len() > 0 {
            self.rows[0].len()
        } else {
            0
        }
    }

    /// A rectangle with room for a border ring around at least one cell,
    /// and with sides that a `usize` can hold.
    pub open spec fn wf(self) -> bool {
        &&& 3 <= self.height() <= usize::MAX
        &&& 3 <= self.width() <= usize::MAX
        &&& forall|y: int| 0 <= y < self.rows.len() ==> (#[trigger] self.rows[y]).len() == self.width()
    }

    /// The position lies on the grid.
    pub open spec fn contains(self, pos: (usize, usize)) -> bool {
        pos.0 < self.width() && pos.1 < self.height()
    }

    /// The positions that are not on the outer ring.
    pub open spec fn interior(self, pos: (usize, usize)) -> bool {
        &&& 1 <= pos.0
        &&& pos.0 + 1 < self.width()
        &&& 1 <= pos.1
        &&& pos.1 + 1 < self.height()
    }

    /// The positions of the first and last row and column.
    pub open spec fn on_ring(self, pos: (usize, usize)) -> bool {
        self.contains(pos) && !self.interior(pos)
    }

    /// What the grid holds at `pos`.
    pub open spec fn at(self, pos: (usize, usize)) -> Cell {
        self.rows[pos.1 as int][pos.0 as int]
    }

    /// The grid with `tag` written at `pos`.
    pub open spec fn put(self, pos: (usize, usize), tag: Cell) -> Grid {
        Grid { rows: self.rows.update(pos.1 as int, self.rows[pos.1 as int].update(pos.0 as int, tag)) }
    }

    /// Every position of the outer ring holds `Border`.
    pub open spec fn bordered(self) -> bool {
        forall|pos: (usize, usize)| self.on_ring(pos) ==> #[trigger] self.at(pos) == Cell::Border
    }

    /// An empty cell inside the ring: a place where something can be put.
    pub open spec fn free(self, pos: (usize, usize)) -> bool {
        self.interior(pos) && self.at(pos) == Cell::Empty
    }

    /// Something can still be put somewhere.
    pub open spec fn has_free(self) -> bool {
        exists|pos: (usize, usize)| self.free(pos)
    }

    /// The board as it is before anything is placed: `Border` on the ring,
    /// `Empty` inside.
    pub open spec fn fresh(width: nat, height: nat) -> Grid {
        Grid {
            rows: Seq::new(
                height,
                |y: int|
                    Seq::new(
                        width,
                        |x: int|
                            if x == 0 || x + 1 == width || y == 0 || y + 1 == height {
                                Cell::Border
                            } else {
                                Cell::Empty
                            },
                    ),
            ),
        }
    }

    /// Writing a cell keeps the shape, changes that cell and no other.
    pub proof fn lemma_put(self, pos: (usize, usize), tag: Cell)
        requires
            self.wf(),
            self.contains(pos),
        ensures
            self.put(pos, tag).wf(),
            self.put(pos, tag).width() == self.width(),
            self.put(pos, tag).height() == self.height(),
            self.put(pos, tag).at(pos) == tag,
            forall|q: (usize, usize)|
                self.contains(q) && q != pos ==> #[trigger] self.put(pos, tag).at(q) == self.at(q),
    {
        let g = self.put(pos, tag);
        assert(g.rows.len() == self.rows.len());
        assert(g.rows[0].len() == self.rows[0].len());
        assert forall|y: int| 0 <= y < g.rows.len() implies (#[trigger] g.rows[y]).len() == g.width() by {
            assert(self.rows[y].len() == self.width());
        }
    }
}

/// The board: `width * height` cells, stored row after row.
pub struct Board {
    width: usize,
    height: usize,
    cells: Vec<Cell>,
}

impl View for Board {
    type V = Grid;

    closed spec fn view(&self) -> Grid {
        Grid {
            rows: Seq::new(
                self.height as nat,
                |y: int| Seq::new(self.width as nat, |x: int| self.cells@[y * self.width + x]),
            ),
        }
    }
}

proof fn lemma_index_bound(width: int, height: int, x: int, y: int)
    requires
        0 <= x < width,
        0 <= y < height,
    ensures
        0 <= y * width + x < width * height,
        0 <= y * width,
{
    assert(y * width + width <= height * width) by (nonlinear_arith)
        requires
            0 <= y < height,
            0 < width,
    ;
    assert(0 <= y * width) by (nonlinear_arith)
        requires
            0 <= y,
            0 < width,
    ;
    assert(width * height == height * width) by (nonlinear_arith);
}

proof fn lemma_index_injective(width: int, x1: int, y1: int, x2: int, y2: int)
    requires
        0 <= x1 < width,
        0 <= x2 < width,
        y1 * width + x1 == y2 * width + x2,
    ensures
        x1 == x2,
        y1 == y2,
{
    if y1 < y2 {
        assert(y1 * width + width <= y2 * width) by (nonlinear_arith)
            requires
                y1 < y2,
                0 < width,
        ;
    } else if y2 < y1 {
        assert(y2 * width + width <= y1 * width) by (nonlinear_arith)
            requires
                y2 < y1,
                0 < width,
        ;
    }
}

impl Board {
    /// The representation holds exactly the cells of a rectangle.
    pub closed spec fn wf(&self) -> bool {
        &&& self.width >= 3
        &&& self.height >= 3
        &&& self.cells@.len() == self.width * self.height
    }

    /// A well-formed board shows a well-formed grid.
    pub proof fn lemma_view_wf(&self)
        requires
            self.wf(),
        ensures
            self@.wf(),
    {
        self.lemma_dimensions();
    }

    proof fn lemma_dimensions(&self)
        requires
            self.wf(),
        ensures
            self@.wf(),
            self@.width() == self.width,
            self@.height() == self.height,
    {
        assert(self@.rows.len() == self.height);
        assert(self@.rows[0].len() == self.width);
    }

    /// A board of `width` by `height` cells with the border ring painted and
    /// nothing placed inside. There is none where a side is shorter than
    /// three cells or the cells cannot be counted in a `usize`.
    pub fn new(width: usize, height: usize) -> (made: Option<Board>)
        ensures
            made is Some <==> width >= 3 && height >= 3 && width * height <= usize::MAX,
            made matches Some(board) ==> board.wf() && board@ == Grid::fresh(width as nat, height as nat),
    {
        if width < 3 || height < 3 {
            return None;
        }
        let count: usize = match width.checked_mul(height) {
            Some(count) => count,
            None => {
                return None;
            },
        };
        let mut cells: Vec<Cell> = Vec::new();
        let mut filled: usize = 0;
        while filled < count
            invariant
                filled <= count,
                cells@.len() == filled,
                forall|i: int| 0 <= i < filled ==> cells@[i] == Cell::Empty,
            decreases count - filled,
        {
            cells.push(Cell::Empty);
            filled = filled + 1;
        }
        let mut board = Board { width, height, cells };
        proof {
            board.lemma_dimensions();
            assert forall|pos: (usize, usize)| board@.contains(pos) implies #[trigger] board@.at(pos)
                == Cell::Empty by {
                lemma_index_bound(width as int, height as int, pos.0 as int, pos.1 as int);
            }
        }
        let mut x: usize = 0;
        while x < width
            invariant
                x <= width,
                width >= 3,
                height >= 3,
                board.wf(),
                board@.wf(),
                board@.width() == width,
                board@.height() == height,
                forall|pos: (usize, usize)|
                    board@.contains(pos) ==> #[trigger] board@.at(pos) == if pos.0 < x && (pos.1 == 0
                        || pos.1 + 1 == height) {
                        Cell::Border
                    } else {
                        Cell::Empty
                    },
            decreases width - x,
        {
            proof {
                board@.lemma_put((x, 0), Cell::Border);
                board@.put((x, 0), Cell::Border).lemma_put((x, (height - 1) as usize), Cell::Border);
            }
            board.set((x, 0), Cell::Border);
            board.set((x, height - 1), Cell::Border);
            x = x + 1;
        }
        let mut y: usize = 0;
        while y < height
            invariant
                y <= height,
                width >= 3,
                height >= 3,
                board.wf(),
                board@.wf(),
                board@.width() == width,
                board@.height() == height,
                forall|pos: (usize, usize)|
                    board@.contains(pos) ==> #[trigger] board@.at(pos) == if pos.1 == 0 || pos.1 + 1
                        == height || (pos.1 < y && (pos.0 == 0 || pos.0 + 1 == width)) {
                        Cell::Border
                    } else {
                        Cell::Empty
                    },
            decreases height - y,
        {
            proof {
                board@.lemma_put((0, y), Cell::Border);
                board@.put((0, y), Cell::Border).lemma_put(((width - 1) as usize, y), Cell::Border);
            }
            board.set((0, y), Cell::Border);
            board.set((width - 1, y), Cell::Border);
            y = y + 1;
        }
        proof {
            let fresh = Grid::fresh(width as nat, height as nat);
            assert forall|j: int| 0 <= j < height implies #[trigger] board@.rows[j] == fresh.rows[j] by {
                assert forall|i: int| 0 <= i < width implies #[trigger] board@.rows[j][i]
                    == fresh.rows[j][i] by {
                    let pos = (i as usize, j as usize);
                    assert(board@.contains(pos));
                    assert(board@.at(pos) == board@.rows[j][i]);
                }
                assert(board@.rows[j].len() == width);
                assert(board@.rows[j] =~= fresh.rows[j]);
            }
            assert(board@.rows =~= fresh.rows);
        }
        Some(board)
    }

    /// The number of cells, border included.
    pub fn cell_count(&self) -> (count: usize)
        requires
            self.wf(),
        ensures
            count == self@.width() * self@.height(),
    {
        proof {
            self.lemma_dimensions();
        }
        self.cells.len()
    }

    /// The number of columns.
    pub fn width(&self) -> (w: usize)
        requires
            self.wf(),
        ensures
            w == self@.width(),
    {
        proof {
            self.lemma_dimensions();
        }
        self.width
    }

    /// The number of rows.
    pub fn height(&self) -> (h: usize)
        requires
            self.wf(),
        ensures
            h == self@.height(),
    {
        proof {
            self.lemma_dimensions();
        }
        self.height
    }

    /// The cells row by row, from the top, as they are to be shown.
    pub fn render(&self) -> (rows: Vec<Vec<Cell>>)
        requires
            self.wf(),
        ensures
            rows@.len() == self@.height(),
            forall|y: int| 0 <= y < rows@.len() ==> (#[trigger] rows@[y])@ == self@.rows[y],
    {
        let width: usize = self.width();
        let height: usize = self.height();
        proof {
            self.lemma_dimensions();
        }
        let mut rows: Vec<Vec<Cell>> = Vec::new();
        let mut y: usize = 0;
        while y < height
            invariant
                self.wf(),
                self@.wf(),
                width == self@.width(),
                height == self@.height(),
                y <= height,
                rows@.len() == y,
                forall|j: int| 0 <= j < y ==> (#[trigger] rows@[j])@ == self@.rows[j],
            decreases height - y,
        {
            let mut row: Vec<Cell> = Vec::new();
            let mut x: usize = 0;
            while x < width
                invariant
                    self.wf(),
                    self@.wf(),
                    width == self@.width(),
                    height == self@.height(),
                    y < height,
                    x <= width,
                    row@.len() == x,
                    forall|i: int| 0 <= i < x ==> #[trigger] row@[i] == self@.rows[y as int][i],
                decreases width - x,
            {
                row.push(self.get((x, y)));
                x = x + 1;
            }
            proof {
                assert(self@.rows[y as int].len() == width);
                assert(row@ =~= self@.rows[y as int]);
            }
            rows.push(row);
            y = y + 1;
        }
        rows
    }

    /// Reads the cell at `pos`.
    pub fn get(&self, pos: (usize, usize)) -> (tag: Cell)
        requires
            self.wf(),
            self@.contains(pos),
        ensures
            tag == self@.at(pos),
    {
        let count: usize = self.cells.len();
        proof {
            self.lemma_dimensions();
            lemma_index_bound(self.width as int, self.height as int, pos.0 as int, pos.1 as int);
            assert(pos.1 * self.width + pos.0 < count);
        }
        self.cells[pos.1 * self.width + pos.0]
    }

    /// Overwrites the cell at `pos`, whatever it held.
    pub fn set(&mut self, pos: (usize, usize), tag: Cell)
        requires
            old(self).wf(),
            old(self)@.contains(pos),
        ensures
            final(self).wf(),
            final(self)@ == old(self)@.put(pos, tag),
    {
        let count: usize = self.cells.len();
        proof {
            self.lemma_dimensions();
            lemma_index_bound(self.width as int, self.height as int, pos.0 as int, pos.1 as int);
            assert(pos.1 * self.width + pos.0 < count);
        }
        let index: usize = pos.1 * self.width + pos.0;
        self.cells.set(index, tag);
        proof {
            let before = old(self)@;
            let after = self@;
            let width = self.width as int;
            assert forall|y: int| 0 <= y < after.rows.len() implies #[trigger] after.rows[y]
                == before.put(pos, tag).rows[y] by {
                assert forall|x: int| 0 <= x < width implies #[trigger] after.rows[y][x]
                    == before.put(pos, tag).rows[y][x] by {
                    lemma_index_bound(width, self.height as int, x, y);
                    if y * width + x == index {
                        lemma_index_injective(width, x, y, pos.0 as int, pos.1 as int);
                    }
                }
                assert(after.rows[y] =~= before.put(pos, tag).rows[y]);
            }
            assert(after.rows =~= before.put(pos, tag).rows);
        }
    }
}

} // verus!
