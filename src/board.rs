use vstd::prelude::*;

verus! {

/// The two marks that can be placed on the board.
#[derive(Clone, Copy, PartialEq, Eq, Structural, Debug)]
pub enum Mark {
    X,
    O,
}

/// One cell of the board: empty, or holding one mark.
#[derive(Clone, Copy, Debug)]
pub struct Field {
    mark: Option<Mark>,
}

impl View for Field {
    type V = Option<Mark>;

    closed spec fn view(&self) -> Option<Mark> {
        self.mark
    }
}

impl Default for Field {
    fn default() -> (r: Field)
        ensures
            r@ is None,
    {
        Field { mark: None }
    }
}

impl Field {
    pub fn is_marked(&self) -> (r: bool)
        ensures
            r == self@.is_some(),
    {
        self.mark.is_some()
    }

    pub fn is_marked_with(&self, mark: Mark) -> (r: bool)
        ensures
            r == (self@ == Some(mark)),
    {
        match self.mark {
            Some(m) => m == mark,
            None => false,
        }
    }

    pub fn get_mark(&self) -> (r: Option<&Mark>)
        ensures
            match r {
                Some(m) => self@ == Some(*m),
                None => self@ is None,
            },
    {
        self.mark.as_ref()
    }
}

/// One axis value of a coordinate.
pub type Pixel = usize;

/// Width and height of the board.
pub const DIMENSION: Pixel = 3;

/// Linear index of the cell in column `x` and row `y`.
pub open spec fn index_of(x: int, y: int) -> int {
    y * 3 + x
}

/// A position on the board: `x` counts from the left, `y` from the top.
#[derive(Clone, Copy, Debug, PartialEq, Eq, Structural)]
pub struct PixelCoord {
    pub x: Pixel,
    pub y: Pixel,
}

impl PixelCoord {
    pub open spec fn index_spec(&self) -> int {
        index_of(self.x as int, self.y as int)
    }

    /// Whether `index` can be computed without overflow.
    pub open spec fn index_fits(&self) -> bool {
        self.index_spec() <= usize::MAX
    }

    pub fn index(&self) -> (r: Pixel)
        requires
            self.index_fits(),
        ensures
            r == self.index_spec(),
    {
        self.y * DIMENSION + self.x
    }
}

#[derive(Debug, PartialEq, Eq, Structural)]
pub enum FieldError {
    NoFieldAt(Pixel),
    Occupied(Pixel),
}

/// Cell `j` (0, 1 or 2, in increasing index order) of winning line `k`:
/// lines 0 to 2 are the rows, 3 to 5 the columns, 6 the main diagonal and
/// 7 the anti-diagonal.
pub open spec fn line_cell(k: int, j: int) -> int {
    if k < 3 {
        index_of(j, k)
    } else if k < 6 {
        index_of(k - 3, j)
    } else if k == 6 {
        index_of(j, j)
    } else {
        index_of(2 - j, j)
    }
}

/// `mark` holds every cell of line `k`.
pub open spec fn owns_line(cells: Seq<Option<Mark>>, mark: Mark, k: int) -> bool {
    forall|j: int| 0 <= j < 3 ==> cells[line_cell(k, j)] == Some(mark)
}

/// `mark` holds every cell of at least one winning line.
pub open spec fn wins(cells: Seq<Option<Mark>>, mark: Mark) -> bool {
    exists|k: int| 0 <= k < 8 && #[trigger] owns_line(cells, mark, k)
}

/// Every cell holds a mark.
pub open spec fn full(cells: Seq<Option<Mark>>) -> bool {
    forall|i: int| 0 <= i < cells.len() ==> (#[trigger] cells[i]).is_some()
}

/// Number of cells that hold `mark`.
pub open spec fn count_marks(cells: Seq<Option<Mark>>, mark: Mark) -> nat
    decreases cells.len(),
{
    if cells.len() == 0 {
        0
    } else {
        count_marks(cells.drop_last(), mark) + if cells.last() == Some(mark) {
            1nat
        } else {
            0nat
        }
    }
}

/// Distinct cells holding `mark`, listed in increasing order, are all counted.
proof fn lemma_count_at_least(cells: Seq<Option<Mark>>, mark: Mark, idx: Seq<int>)
    requires
        forall|a: int, b: int| 0 <= a < b < idx.len() ==> idx[a] < idx[b],
        forall|a: int| 0 <= a < idx.len() ==> 0 <= #[trigger] idx[a] < cells.len() && cells[idx[a]] == Some(mark),
    ensures
        count_marks(cells, mark) >= idx.len(),
    decreases cells.len(),
{
    if cells.len() == 0 {
        if idx.len() > 0 {
            assert(0 <= idx[0] < cells.len());
        }
    } else {
        let n = cells.len() - 1;
        if idx.len() > 0 && idx.last() == n {
            let rest = idx.drop_last();
            assert forall|a: int| 0 <= a < rest.len() implies 0 <= #[trigger] rest[a] < cells.drop_last().len()
                && cells.drop_last()[rest[a]] == Some(mark) by {
                assert(idx[a] < idx[idx.len() - 1]);
            }
            lemma_count_at_least(cells.drop_last(), mark, rest);
        } else {
            assert forall|a: int| 0 <= a < idx.len() implies 0 <= #[trigger] idx[a] < cells.drop_last().len()
                && cells.drop_last()[idx[a]] == Some(mark) by {
                if idx[a] == n {
                    assert(a < idx.len() - 1);
                    assert(idx[a] < idx[idx.len() - 1]);
                }
            }
            lemma_count_at_least(cells.drop_last(), mark, idx);
        }
    }
}

/// Marking the free cell `i` with `placed` adds one to the count of `placed`
/// and leaves the count of every other mark as it was.
pub proof fn lemma_count_after_mark(cells: Seq<Option<Mark>>, i: int, placed: Mark, mark: Mark)
    requires
        0 <= i < cells.len(),
        cells[i] is None,
    ensures
        count_marks(cells.update(i, Some(placed)), mark) == count_marks(cells, mark) + if placed
            == mark {
            1nat
        } else {
            0nat
        },
    decreases cells.len(),
{
    let u = cells.update(i, Some(placed));
    if i == cells.len() - 1 {
        assert(u.drop_last() =~= cells.drop_last());
    } else {
        assert(u.drop_last() =~= cells.drop_last().update(i, Some(placed)));
        lemma_count_after_mark(cells.drop_last(), i, placed, mark);
    }
}

/// Marking a free cell with one mark does not change whether another mark
/// has won.
pub proof fn lemma_other_mark_keeps_result(cells: Seq<Option<Mark>>, i: int, placed: Mark, other: Mark)
    requires
        cells.len() == 9,
        0 <= i < 9,
        cells[i] is None,
        placed != other,
    ensures
        wins(cells.update(i, Some(placed)), other) == wins(cells, other),
{
    let u = cells.update(i, Some(placed));
    if wins(u, other) {
        let k = choose|k: int| 0 <= k < 8 && #[trigger] owns_line(u, other, k);
        assert forall|j: int| 0 <= j < 3 implies cells[line_cell(k, j)] == Some(other) by {
            assert(u[line_cell(k, j)] == Some(other));
        }
        assert(owns_line(cells, other, k));
    }
    if wins(cells, other) {
        let k = choose|k: int| 0 <= k < 8 && #[trigger] owns_line(cells, other, k);
        assert forall|j: int| 0 <= j < 3 implies u[line_cell(k, j)] == Some(other) by {
            assert(cells[line_cell(k, j)] == Some(other));
        }
        assert(owns_line(u, other, k));
    }
}

/// A board with no marks holds no cell of any mark.
pub proof fn lemma_count_on_empty_cells(cells: Seq<Option<Mark>>, mark: Mark)
    requires
        forall|i: int| 0 <= i < cells.len() ==> #[trigger] cells[i] is None,
    ensures
        count_marks(cells, mark) == 0,
    decreases cells.len(),
{
    if cells.len() > 0 {
        lemma_count_on_empty_cells(cells.drop_last(), mark);
    }
}

/// No symbol wins on the empty board.
pub proof fn lemma_empty_board_has_no_winner(mark: Mark)
    ensures
        !wins(Seq::new(9, |i: int| None::<Mark>), mark),
{
    let cells = Seq::new(9, |i: int| None::<Mark>);
    if wins(cells, mark) {
        let k = choose|k: int| 0 <= k < 8 && #[trigger] owns_line(cells, mark, k);
        assert(cells[line_cell(k, 0)] == Some(mark));
    }
}

/// A symbol that holds fewer than three cells of the board has not won.
pub proof fn lemma_fewer_than_three_cells_no_win(cells: Seq<Option<Mark>>, mark: Mark)
    requires
        cells.len() == 9,
        count_marks(cells, mark) < 3,
    ensures
        !wins(cells, mark),
{
    if wins(cells, mark) {
        let k = choose|k: int| 0 <= k < 8 && #[trigger] owns_line(cells, mark, k);
        let idx = seq![line_cell(k, 0), line_cell(k, 1), line_cell(k, 2)];
        assert forall|a: int| 0 <= a < idx.len() implies 0 <= #[trigger] idx[a] < cells.len()
            && cells[idx[a]] == Some(mark) by {
            assert(idx[a] == line_cell(k, a));
        }
        lemma_count_at_least(cells, mark, idx);
    }
}

/// When `X` holds the whole top row, `X` has won; `O` has not, unless `O`
/// holds one of the two lower rows.
pub proof fn lemma_top_row_wins(cells: Seq<Option<Mark>>)
    requires
        cells.len() == 9,
        cells[0] == Some(Mark::X),
        cells[1] == Some(Mark::X),
        cells[2] == Some(Mark::X),
        !owns_line(cells, Mark::O, 1),
        !owns_line(cells, Mark::O, 2),
    ensures
        wins(cells, Mark::X),
        !wins(cells, Mark::O),
{
    assert(owns_line(cells, Mark::X, 0));
    if wins(cells, Mark::O) {
        let k = choose|k: int| 0 <= k < 8 && #[trigger] owns_line(cells, Mark::O, k);
        assert(cells[line_cell(k, 0)] == Some(Mark::O));
    }
}

/// A symbol that holds the main diagonal has won.
pub proof fn lemma_diagonal_wins(cells: Seq<Option<Mark>>, mark: Mark)
    requires
        cells.len() == 9,
        cells[0] == Some(mark),
        cells[4] == Some(mark),
        cells[8] == Some(mark),
    ensures
        wins(cells, mark),
{
    assert(owns_line(cells, mark, 6));
}

/// A symbol whose cells are exactly two of the three cells of one line has
/// not won.
pub proof fn lemma_two_of_a_line_no_win(cells: Seq<Option<Mark>>, mark: Mark, k: int, j: int)
    requires
        cells.len() == 9,
        0 <= k < 8,
        0 <= j < 3,
        forall|i: int|
            0 <= i < 9 ==> ((#[trigger] cells[i] == Some(mark)) <==> (i != line_cell(k, j) && (i
                == line_cell(k, 0) || i == line_cell(k, 1) || i == line_cell(k, 2)))),
    ensures
        !wins(cells, mark),
{
    if wins(cells, mark) {
        let l = choose|l: int| 0 <= l < 8 && #[trigger] owns_line(cells, mark, l);
        assert(cells[line_cell(l, 0)] == Some(mark));
        assert(cells[line_cell(l, 1)] == Some(mark));
        assert(cells[line_cell(l, 2)] == Some(mark));
    }
}

/// A board with an empty cell is not full.
pub proof fn lemma_empty_cell_not_full(cells: Seq<Option<Mark>>, i: int)
    requires
        0 <= i < cells.len(),
        cells[i] is None,
    ensures
        !full(cells),
{
}

/// Bit `j` of `score` is set.
pub open spec fn has_bit(score: u32, j: int) -> bool {
    score & (1u32 << (j as u32)) != 0
}

proof fn lemma_set_bit(s: u32, i: u32, j: u32)
    by (bit_vector)
    requires
        i < 32,
        j < 32,
    ensures
        ((s | (1u32 << i)) & (1u32 << j) != 0) == ((s & (1u32 << j) != 0) || i == j),
{
}

proof fn lemma_zero_bits(j: u32)
    by (bit_vector)
    requires
        j < 32,
    ensures
        (0u32 & (1u32 << j)) == 0,
{
}

proof fn lemma_covers(s: u32, a: u32, b: u32, c: u32)
    by (bit_vector)
    requires
        a < 32,
        b < 32,
        c < 32,
    ensures
        ((s & ((1u32 << a) | (1u32 << b) | (1u32 << c))) == ((1u32 << a) | (1u32 << b) | (1u32
            << c))) == ((s & (1u32 << a) != 0) && (s & (1u32 << b) != 0) && (s & (1u32 << c)
            != 0)),
{
}

/// Cell `j` of winning line `k`, computed from the index formula.
fn line_cell_exec(k: usize, j: usize) -> (r: usize)
    requires
        k < 8,
        j < 3,
    ensures
        r == line_cell(k as int, j as int),
        r < 9,
{
    if k < 3 {
        k * DIMENSION + j
    } else if k < 6 {
        j * DIMENSION + (k - 3)
    } else if k == 6 {
        j * DIMENSION + j
    } else {
        j * DIMENSION + (2 - j)
    }
}

/// The bitmask of winning line `k`: bit `i` is set for each of its cells `i`.
fn line_mask(k: usize) -> (r: u32)
    requires
        k < 8,
    ensures
        r == (1u32 << (line_cell(k as int, 0) as u32)) | (1u32 << (line_cell(k as int, 1) as u32))
            | (1u32 << (line_cell(k as int, 2) as u32)),
{
    let a = line_cell_exec(k, 0) as u32;
    let b = line_cell_exec(k, 1) as u32;
    let c = line_cell_exec(k, 2) as u32;
    (1u32 << a) | (1u32 << b) | (1u32 << c)
}

/// The board: nine cells, addressed by `y * 3 + x`.
pub struct Playground {
    fields: [Field; 9],
}

impl View for Playground {
    type V = Seq<Option<Mark>>;

    closed spec fn view(&self) -> Seq<Option<Mark>> {
        self.fields@.map_values(|f: Field| f@)
    }
}

impl Default for Playground {
    fn default() -> (r: Playground)
        ensures
            r@ == Seq::new(9, |i: int| None::<Mark>),
    {
        let e = Field { mark: None };
        let r = Playground { fields: [e, e, e, e, e, e, e, e, e] };
        assert(r@ =~= Seq::new(9, |i: int| None::<Mark>));
        r
    }
}

impl Playground {
    pub proof fn lemma_len(&self)
        ensures
            self@.len() == 9,
    {
    }

    pub fn get_fields(&self) -> (r: &[Field])
        ensures
            r@.map_values(|f: Field| f@) == self@,
    {
        self.fields.as_slice()
    }

    pub fn is_field_occupied(&self, coord: &PixelCoord) -> (r: bool)
        requires
            coord.index_fits(),
        ensures
            r == (coord.index_spec() < 9 && self@[coord.index_spec()].is_some()),
    {
        let i = coord.index();
        if i < 9 {
            self.fields[i].is_marked()
        } else {
            false
        }
    }

    pub fn mark_field_with(&mut self, coord: &PixelCoord, mark: Mark) -> (r: Result<(), FieldError>)
        requires
            coord.index_fits(),
        ensures
            ({
                let i = coord.index_spec();
                if i >= 9 {
                    r == Err::<(), FieldError>(FieldError::NoFieldAt(i as usize))
                        && final(self)@ == old(self)@
                } else if old(self)@[i].is_some() {
                    r == Err::<(), FieldError>(FieldError::Occupied(i as usize))
                        && final(self)@ == old(self)@
                } else {
                    r is Ok && final(self)@ == old(self)@.update(i, Some(mark))
                }
            }),
    {
        let index = coord.index();
        if index >= 9 {
            return Err(FieldError::NoFieldAt(index));
        }
        if self.fields[index].is_marked() {
            Err(FieldError::Occupied(index))
        } else {
            self.fields[index] = Field { mark: Some(mark) };
            assert(self@ =~= old(self)@.update(index as int, Some(mark)));
            Ok(())
        }
    }

    /// Builds the score of `mark`, the sum of `2^i` over the cells `i` that
    /// hold it (bit `i` set for each such cell), and reports a win when that
    /// score covers the bitmask of some winning line.
    pub fn has_won(&self, mark: Mark) -> (r: bool)
        ensures
            r == wins(self@, mark),
    {
        let mut score: u32 = 0;
        let mut i: usize = 0;
        proof {
            assert forall|j: int| 0 <= j < 9 implies #[trigger] has_bit(score, j) == (j < i && self@[j] == Some(mark)) by {
                lemma_zero_bits(j as u32);
            }
        }
        while i < 9
            invariant
                i <= 9,
                self@.len() == 9,
                forall|j: int| 0 <= j < 9 ==> #[trigger] has_bit(score, j) == (j < i && self@[j] == Some(mark)),
            decreases 9 - i,
        {
            if self.fields[i].is_marked_with(mark) {
                assert forall|j: int| 0 <= j < 9 implies #[trigger] has_bit(score | (1u32 << (i as u32)), j)
                    == (j < i + 1 && self@[j] == Some(mark)) by {
                    lemma_set_bit(score, i as u32, j as u32);
                    assert(has_bit(score, j) == (j < i && self@[j] == Some(mark)));
                }
                score = score | (1u32 << (i as u32));
            } else {
                assert forall|j: int| 0 <= j < 9 implies #[trigger] has_bit(score, j)
                    == (j < i + 1 && self@[j] == Some(mark)) by {
                    assert(has_bit(score, j) == (j < i && self@[j] == Some(mark)));
                }
            }
            i += 1;
        }
        let mut k: usize = 0;
        while k < 8
            invariant
                k <= 8,
                self@.len() == 9,
                forall|j: int| 0 <= j < 9 ==> #[trigger] has_bit(score, j) == (self@[j] == Some(mark)),
                forall|kk: int| 0 <= kk < k ==> !#[trigger] owns_line(self@, mark, kk),
            decreases 8 - k,
        {
            let mask = line_mask(k);
            let ghost a = line_cell(k as int, 0);
            let ghost b = line_cell(k as int, 1);
            let ghost c = line_cell(k as int, 2);
            proof {
                lemma_covers(score, a as u32, b as u32, c as u32);
                assert(has_bit(score, a) && has_bit(score, b) && has_bit(score, c) <==> owns_line(self@, mark, k as int)) by {
                    if owns_line(self@, mark, k as int) {
                        assert(self@[line_cell(k as int, 0)] == Some(mark));
                        assert(self@[line_cell(k as int, 1)] == Some(mark));
                        assert(self@[line_cell(k as int, 2)] == Some(mark));
                    }
                    if has_bit(score, a) && has_bit(score, b) && has_bit(score, c) {
                        assert forall|j: int| 0 <= j < 3 implies self@[line_cell(k as int, j)] == Some(mark) by {
                            if j == 1 {} else if j == 2 {}
                        }
                    }
                }
            }
            if score & mask == mask {
                return true;
            }
            k += 1;
        }
        false
    }

    pub fn is_full(&self) -> (r: bool)
        ensures
            r == full(self@),
    {
        let mut i: usize = 0;
        while i < 9
            invariant
                i <= 9,
                forall|j: int| 0 <= j < i ==> (#[trigger] self@[j]).is_some(),
            decreases 9 - i,
        {
            if !self.fields[i].is_marked() {
                assert(self@[i as int] is None);
                return false;
            }
            i += 1;
        }
        true
    }
}

} // verus!
