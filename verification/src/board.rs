//! The board: sixteen cells in row-major order, one of them blank.

use crate::operation::Operation;
use crate::tile::Tile;
use vstd::prelude::*;

verus! {

/// The solved positions of the cells, in board order.
pub open spec fn solved_positions<T: Tile>(cells: Seq<T>) -> Seq<int> {
    Seq::new(cells.len(), |i: int| cells[i].solved_pos_spec() as int)
}

/// Sixteen positions that are the numbers 0 to 15, each once.
pub open spec fn is_permutation(p: Seq<int>) -> bool {
    &&& p.len() == 16
    &&& forall|i: int| 0 <= i < 16 ==> 0 <= #[trigger] p[i] < 16
    &&& p.no_duplicates()
}

/// The cell at index `b` is blank and no other cell is.
pub open spec fn one_blank<T: Tile>(cells: Seq<T>, b: int) -> bool {
    &&& 0 <= b < cells.len()
    &&& forall|i: int| 0 <= i < cells.len() ==> (#[trigger] cells[i].blank_spec() <==> i == b)
}

/// The cell at index `b` is blank and no cell before it is.
pub open spec fn is_first_blank<T: Tile>(cells: Seq<T>, b: int) -> bool {
    &&& 0 <= b < cells.len()
    &&& cells[b].blank_spec()
    &&& forall|j: int| 0 <= j < b ==> !(#[trigger] cells[j]).blank_spec()
}

/// The index of the first blank cell, where there is a blank cell.
pub open spec fn first_blank<T: Tile>(cells: Seq<T>) -> int {
    choose|b: int| is_first_blank(cells, b)
}

/// Sixteen cells of which exactly one is blank and whose solved positions
/// are the numbers 0 to 15, each once.
pub open spec fn arrangement<T: Tile>(cells: Seq<T>) -> bool {
    &&& cells.len() == 16
    &&& is_permutation(solved_positions(cells))
    &&& exists|b: int| one_blank(cells, b)
}

/// The number of indices `k >= j` with `p[i] > p[k]`.
pub open spec fn inversions_against(p: Seq<int>, i: int, j: int) -> nat
    decreases p.len() - j,
{
    if j >= p.len() {
        0
    } else {
        (if p[i] > p[j] {
            1nat
        } else {
            0nat
        }) + inversions_against(p, i, j + 1)
    }
}

/// The number of pairs `(a, b)` with `i <= a < b` and `p[a] > p[b]`.
pub open spec fn inversions_from(p: Seq<int>, i: int) -> nat
    decreases p.len() - i,
{
    if i >= p.len() {
        0
    } else {
        inversions_against(p, i, i + 1) + inversions_from(p, i + 1)
    }
}

/// The number of pairs of cells that stand in the reverse of their solved
/// order. The blank takes part, with its own solved position.
pub open spec fn inversions(p: Seq<int>) -> nat {
    inversions_from(p, 0)
}

/// The row of the blank, counted from the bottom row, which is row 1.
pub open spec fn row_from_bottom(blank: int) -> int {
    4 - blank / 4
}

/// The parity rule of the 15-puzzle: the row of the blank, counted from the
/// bottom, and the number of inversions are of different parity.
pub open spec fn solvable(p: Seq<int>, blank: int) -> bool {
    ||| (row_from_bottom(blank) % 2 == 0 && inversions(p) % 2 != 0)
    ||| (row_from_bottom(blank) % 2 != 0 && inversions(p) % 2 == 0)
}

/// By how much an operation moves the blank along the row-major order.
pub open spec fn offset(op: Operation) -> int {
    match op {
        Operation::Up => 4,
        Operation::Down => -4,
        Operation::Left => 1,
        Operation::Right => -1,
    }
}

/// Where the blank goes when `op` is applied with the blank at `blank`, or
/// `None` where the slide would leave the board or wrap round a row's end.
pub open spec fn slide_target(blank: int, op: Operation) -> Option<int> {
    let target = blank + offset(op);
    if target < 0 || target >= 16 {
        None
    } else if offset(op) == -1 && blank % 4 == 0 {
        None
    } else if offset(op) == 1 && target % 4 == 0 {
        None
    } else {
        Some(target)
    }
}

/// The cells with those at `i` and `j` exchanged.
pub open spec fn swapped<T>(cells: Seq<T>, i: int, j: int) -> Seq<T> {
    cells.update(i, cells[j]).update(j, cells[i])
}

/// The cells after `op`, with the blank at `blank` before it.
pub open spec fn slide_cells<T>(cells: Seq<T>, blank: int, op: Operation) -> Seq<T> {
    match slide_target(blank, op) {
        Some(target) => swapped(cells, blank, target),
        None => cells,
    }
}

/// The index of the blank after `op`, with the blank at `blank` before it.
pub open spec fn slide_blank(blank: int, op: Operation) -> int {
    match slide_target(blank, op) {
        Some(target) => target,
        None => blank,
    }
}

/// Every cell stands at its solved position.
pub open spec fn solved_order<T: Tile>(cells: Seq<T>) -> bool {
    forall|i: int| 0 <= i < 16 ==> #[trigger] solved_positions(cells)[i] == i
}

/// The text of each cell, as four rows of four.
pub open spec fn grid<T: Tile>(cells: Seq<T>) -> Seq<Seq<Seq<char>>> {
    Seq::new(4, |r: int| Seq::new(4, |c: int| cells[r * 4 + c].display_spec()))
}

/// The text that `tabled` draws for a table with the given rows of cell
/// texts, in its default style.
pub uninterp spec fn table_text(rows: Seq<Seq<Seq<char>>>) -> Seq<char>;

/// Draws the rows as a table with `tabled::builder::Builder`: a new builder
/// that gets each row by `push_record` (its `from_iter`), then `build` and
/// the table's `to_string`. The result is the drawing of exactly these rows.
#[verifier::external_body]
fn draw_table(rows: Vec<Vec<String>>) -> (s: String)
    ensures
        s@ == table_text(rows.deep_view()),
{
    tabled::builder::Builder::from_iter(rows).build().to_string()
}

/// Exchanges two cells with `<[T]>::swap`: afterwards each of the two
/// indices holds what the other held, and no other cell has changed.
#[verifier::external_body]
fn swap_cells<T>(array: &mut [T; 16], i: usize, j: usize)
    requires
        i < 16,
        j < 16,
    ensures
        final(array)@ == swapped(old(array)@, i as int, j as int),
{
    array.swap(i, j)
}

/// The generator of `rand` that each thread keeps for itself.
#[verifier::external_type_specification]
#[verifier::external_body]
pub struct ExThreadRng(rand::rngs::ThreadRng);

/// `rand::thread_rng` hands out the generator of the calling thread.
/// Nothing is said of the numbers that it will give.
pub assume_specification[ rand::thread_rng ]() -> (rng: rand::rngs::ThreadRng)
;

/// Reorders the cells with `rand::seq::SliceRandom::shuffle`, drawing from
/// `rng`. Which order comes out is left open; the cells are the same ones,
/// each as often as before.
#[verifier::external_body]
fn shuffle_cells(array: &mut [u8; 16], rng: &mut rand::rngs::ThreadRng)
    ensures
        final(array)@.to_multiset() == old(array)@.to_multiset(),
{
    rand::seq::SliceRandom::shuffle(array.as_mut_slice(), rng)
}

/// The 4x4 board.
pub struct Board<T: Tile> {
    array: [T; 16],
    blank_idx: usize,
}

/// How often a shuffle is drawn before the solved board is taken instead.
pub const MAX_SHUFFLES: u64 = 0xffff_ffff_ffff_ffff;

impl<T: Tile> Board<T> {
    /// The cells in row-major order: the cell of row `r` and column `c` is
    /// at index `r * 4 + c`.
    pub closed spec fn cells(&self) -> Seq<T> {
        self.array@
    }

    /// The index that the board keeps for its blank cell.
    pub closed spec fn blank(&self) -> int {
        self.blank_idx as int
    }

    /// The solved positions of the cells, in board order.
    pub open spec fn positions(&self) -> Seq<int> {
        solved_positions(self.cells())
    }

    /// The board has sixteen cells and its blank index points at a blank.
    pub open spec fn wf(&self) -> bool {
        &&& self.cells().len() == 16
        &&& 0 <= self.blank() < 16
        &&& self.cells()[self.blank()].blank_spec()
    }

    /// The board is well formed, the cell at its blank index is the only
    /// blank, and the solved positions are the numbers 0 to 15, each once.
    pub open spec fn is_arrangement(&self) -> bool {
        &&& self.wf()
        &&& one_blank(self.cells(), self.blank())
        &&& is_permutation(self.positions())
    }

    /// Every cell stands at its solved position.
    pub open spec fn solved(&self) -> bool {
        solved_order(self.cells())
    }

    /// The index of the first blank cell.
    fn find_blank(array: &[T; 16]) -> (idx: usize)
        requires
            exists|i: int| 0 <= i < 16 && (#[trigger] array@[i]).blank_spec(),
        ensures
            is_first_blank(array@, idx as int),
            idx == first_blank(array@),
    {
        let mut idx: usize = 0;
        while idx < 16 && !array[idx].is_blank()
            invariant
                idx <= 16,
                forall|j: int| 0 <= j < idx ==> !(#[trigger] array@[j]).blank_spec(),
            decreases 16 - idx,
        {
            idx = idx + 1;
        }
        proof {
            lemma_first_blank(array@, idx as int);
        }
        idx
    }

    /// Whether the cells, with the blank at index `blank`, meet the parity
    /// rule: counted from the bottom, the blank is in an even row and the
    /// number of inversions is odd, or the row is odd and the number even.
    pub fn is_solvable(arr: &[T; 16], blank: usize) -> (r: bool)
        requires
            blank < 16,
        ensures
            r == solvable(solved_positions(arr@), blank as int),
    {
        let pos_from_bottom: usize = 4 - blank / 4;
        let ghost p = solved_positions(arr@);
        let mut inversions: usize = 0;
        let mut i: usize = 0;
        while i < 16
            invariant
                i <= 16,
                p == solved_positions(arr@),
                inversions <= 16 * i,
                inversions + inversions_from(p, i as int) == inversions_from(p, 0),
            decreases 16 - i,
        {
            let ghost before = inversions;
            let mut j: usize = i + 1;
            while j < 16
                invariant
                    i < 16,
                    i < j <= 16,
                    p == solved_positions(arr@),
                    before <= 16 * i,
                    before <= inversions <= before + (j - i - 1),
                    inversions + inversions_against(p, i as int, j as int) == before
                        + inversions_against(p, i as int, i + 1),
                decreases 16 - j,
            {
                if arr[i].get_solved_pos() > arr[j].get_solved_pos() {
                    inversions = inversions + 1;
                }
                j = j + 1;
            }
            i = i + 1;
        }
        (pos_from_bottom % 2 == 0 && inversions % 2 != 0) || (pos_from_bottom % 2 != 0
            && inversions % 2 == 0)
    }

    /// Takes over the given cells; the blank index is that of the first
    /// blank cell. The cells must hold a blank.
    pub fn from_existing_array(array: [T; 16]) -> (b: Board<T>)
        requires
            exists|i: int| 0 <= i < 16 && (#[trigger] array@[i]).blank_spec(),
        ensures
            b.cells() == array@,
            b.blank() == first_blank(array@),
            is_first_blank(array@, b.blank()),
            b.wf(),
            b.is_arrangement() <==> arrangement(array@),
    {
        let blank_idx = Self::find_blank(&array);
        Board { array, blank_idx }
    }

    /// The board on the given cells if they meet the parity rule with the
    /// blank where it stands, and `None` if they do not. The cells must
    /// hold a blank.
    pub fn from_solvable_array(array: [T; 16]) -> (r: Option<Board<T>>)
        requires
            exists|i: int| 0 <= i < 16 && (#[trigger] array@[i]).blank_spec(),
        ensures
            r is Some <==> solvable(solved_positions(array@), first_blank(array@)),
            r matches Some(b) ==> {
                &&& b.cells() == array@
                &&& b.blank() == first_blank(array@)
                &&& is_first_blank(array@, b.blank())
                &&& b.wf()
                &&& b.is_arrangement() <==> arrangement(array@)
            },
    {
        let blank_idx = Self::find_blank(&array);
        if Self::is_solvable(&array, blank_idx) {
            Some(Board { array, blank_idx })
        } else {
            None
        }
    }

    /// Applies `operation` if the board allows it, and says whether it did. A slide
    /// exchanges the blank with the cell at the target index and makes that
    /// index the blank's; a slide that is not allowed changes nothing.
    pub fn process_operation(&mut self, operation: Operation) -> (changed: bool)
        requires
            old(self).wf(),
        ensures
            changed == slide_target(old(self).blank(), operation).is_some(),
            final(self).cells() == slide_cells(old(self).cells(), old(self).blank(), operation),
            final(self).blank() == slide_blank(old(self).blank(), operation),
            !changed ==> *final(self) == *old(self),
            final(self).wf(),
            final(self).positions().to_multiset() == old(self).positions().to_multiset(),
            old(self).is_arrangement() ==> final(self).is_arrangement(),
    {
        let blank: usize = self.blank_idx;
        let swap_idx: usize = match operation {
            Operation::Up => {
                if blank + 4 >= 16 {
                    return false;
                }
                blank + 4
            },
            Operation::Down => {
                if blank < 4 {
                    return false;
                }
                blank - 4
            },
            Operation::Left => {
                if blank + 1 >= 16 || (blank + 1) % 4 == 0 {
                    return false;
                }
                blank + 1
            },
            Operation::Right => {
                if blank < 1 || blank % 4 == 0 {
                    return false;
                }
                blank - 1
            },
        };
        swap_cells(&mut self.array, blank, swap_idx);
        self.blank_idx = swap_idx;
        proof {
            lemma_swap_keeps_positions(old(self).cells(), blank as int, swap_idx as int);
            if old(self).is_arrangement() {
                lemma_swap_keeps_arrangement(old(self).cells(), blank as int, swap_idx as int);
            }
        }
        true
    }

    /// Whether every cell stands at its solved position.
    pub fn is_solved(&self) -> (r: bool)
        ensures
            r == self.solved(),
    {
        let mut i: usize = 0;
        while i < 16
            invariant
                i <= 16,
                forall|k: int| 0 <= k < i ==> #[trigger] solved_positions(self.cells())[k] == k,
            decreases 16 - i,
        {
            if self.array[i].get_solved_pos() != i {
                assert(solved_positions(self.cells())[i as int] != i);
                return false;
            }
            i = i + 1;
        }
        true
    }

    /// The cells, in row-major order.
    pub fn array(&self) -> (cells: &[T; 16])
        ensures
            cells@ == self.cells(),
    {
        &self.array
    }

    /// The index of the blank cell.
    pub fn blank_idx(&self) -> (idx: usize)
        ensures
            idx == self.blank(),
    {
        self.blank_idx
    }

    /// The board drawn as a table of four rows of four cells, each cell
    /// with its tile's text.
    pub fn render(&self) -> (s: String)
        ensures
            s@ == table_text(grid(self.cells())),
    {
        let mut rows: Vec<Vec<String>> = Vec::new();
        let mut r: usize = 0;
        while r < 4
            invariant
                r <= 4,
                rows@.len() == r,
                forall|i: int| 0 <= i < r ==> (#[trigger] rows@[i]).deep_view() == grid(
                    self.cells(),
                )[i],
            decreases 4 - r,
        {
            let mut row: Vec<String> = Vec::new();
            let mut c: usize = 0;
            while c < 4
                invariant
                    r < 4,
                    c <= 4,
                    row@.len() == c,
                    forall|k: int|
                        0 <= k < c ==> (#[trigger] row@[k])@ == self.cells()[r * 4
                            + k].display_spec(),
                decreases 4 - c,
            {
                row.push(self.array[r * 4 + c].display_value());
                c = c + 1;
            }
            assert(row.deep_view() =~= grid(self.cells())[r as int]);
            rows.push(row);
            r = r + 1;
        }
        assert(rows.deep_view() =~= grid(self.cells()));
        draw_table(rows)
    }
}

/// The numbers 0 to 15 in rising order: the tiles before they are shuffled.
pub open spec fn numbers() -> Seq<u8> {
    Seq::new(16, |i: int| i as u8)
}

impl Board<u8> {
    /// A board of the numbered tiles in a random order that meets the
    /// parity rule. The tiles are shuffled with the thread's generator until
    /// the rule holds of them; should `MAX_SHUFFLES` shuffles in a row fail
    /// it, the solved board is given.
    pub fn new() -> (b: Board<u8>)
        ensures
            b.cells().to_multiset() == numbers().to_multiset(),
            b.is_arrangement(),
            solvable(b.positions(), b.blank()),
    {
        let mut array: [u8; 16] = [0, 1, 2, 3, 4, 5, 6, 7, 8, 9, 10, 11, 12, 13, 14, 15];
        assert(array@ =~= numbers());
        let mut rng = rand::thread_rng();
        let mut tries: u64 = 0;
        while tries < MAX_SHUFFLES
            invariant
                array@.to_multiset() == numbers().to_multiset(),
            decreases MAX_SHUFFLES - tries,
        {
            shuffle_cells(&mut array, &mut rng);
            proof {
                lemma_shuffled_numbers(array@);
                let at = choose|at: int| one_blank(array@, at);
                assert(array@[at].blank_spec());
            }
            match Self::from_solvable_array(array) {
                Some(board) => {
                    return board;
                },
                None => {},
            }
            tries = tries + 1;
        }
        let solved: [u8; 16] = [1, 2, 3, 4, 5, 6, 7, 8, 9, 10, 11, 12, 13, 14, 15, 0];
        proof {
            lemma_solved_numbers(solved@);
        }
        Self::from_existing_array(solved)
    }
}

/// The numbered tiles in any order are an arrangement.
pub proof fn lemma_shuffled_numbers(cells: Seq<u8>)
    requires
        cells.len() == 16,
        cells.to_multiset() == numbers().to_multiset(),
    ensures
        arrangement(cells),
        forall|i: int| 0 <= i < 16 ==> #[trigger] cells[i] < 16,
        cells.no_duplicates(),
{
    broadcast use vstd::seq_lib::group_to_multiset_ensures;

    let n = numbers();
    assert(n.no_duplicates());
    n.lemma_multiset_has_no_duplicates();
    cells.lemma_multiset_has_no_duplicates_conv();
    assert forall|i: int| 0 <= i < 16 implies #[trigger] cells[i] < 16 by {
        assert(cells.contains(cells[i]));
        assert(n.to_multiset().count(cells[i]) > 0);
        assert(n.contains(cells[i]));
    }
    assert(n[0] == 0u8);
    assert(n.contains(0u8));
    assert(cells.to_multiset().count(0u8) > 0);
    assert(cells.contains(0u8));
    let b = choose|b: int| 0 <= b < cells.len() && cells[b] == 0u8;
    assert(one_blank(cells, b));
    let p = solved_positions(cells);
    assert forall|i: int, j: int| 0 <= i < 16 && 0 <= j < 16 && i != j implies p[i] != p[j] by {
        assert(cells[i] != cells[j]);
        assert(cells[i] < 16 && cells[j] < 16);
    }
}

/// Positions in rising order hold no inversion.
pub proof fn lemma_sorted_no_inversions(p: Seq<int>, i: int)
    requires
        0 <= i,
        forall|a: int, b: int| 0 <= a < b < p.len() ==> p[a] <= p[b],
    ensures
        inversions_from(p, i) == 0,
    decreases p.len() - i,
{
    if i < p.len() {
        lemma_sorted_against(p, i, i + 1);
        lemma_sorted_no_inversions(p, i + 1);
    }
}

/// In rising order no later position is below an earlier one.
pub proof fn lemma_sorted_against(p: Seq<int>, i: int, j: int)
    requires
        0 <= i < j,
        forall|a: int, b: int| 0 <= a < b < p.len() ==> p[a] <= p[b],
    ensures
        inversions_against(p, i, j) == 0,
    decreases p.len() - j,
{
    if j < p.len() {
        lemma_sorted_against(p, i, j + 1);
    }
}

/// The solved order of the numbered tiles is an arrangement that meets the
/// parity rule.
proof fn lemma_solved_numbers(cells: Seq<u8>)
    requires
        cells =~= seq![1u8, 2, 3, 4, 5, 6, 7, 8, 9, 10, 11, 12, 13, 14, 15, 0],
    ensures
        cells.to_multiset() == numbers().to_multiset(),
        arrangement(cells),
        cells[15] == 0,
        solvable(solved_positions(cells), 15),
{
    assert(cells.to_multiset() =~= numbers().to_multiset()) by {
        broadcast use vstd::seq_lib::group_to_multiset_ensures;

        let n = numbers();
        assert(n.no_duplicates());
        assert(cells.no_duplicates());
        n.lemma_multiset_has_no_duplicates();
        cells.lemma_multiset_has_no_duplicates();
        assert forall|x: u8| cells.to_multiset().count(x) == n.to_multiset().count(x) by {
            if x == 0 {
                assert(cells[15] == x && n[0] == x);
            } else if x < 16 {
                assert(cells[x - 1] == x && n[x as int] == x);
            }
            assert(cells.contains(x) <==> x < 16);
            assert(n.contains(x) <==> x < 16);
            assert(cells.to_multiset().contains(x) <==> x < 16);
            assert(n.to_multiset().contains(x) <==> x < 16);
        }
    }
    let p = solved_positions(cells);
    assert forall|i: int| 0 <= i < 16 implies #[trigger] p[i] == i by {
        if i < 15 {
            assert(cells[i] == i + 1);
        }
    }
    assert(one_blank(cells, 15)) by {
        assert forall|i: int| 0 <= i < 16 implies (#[trigger] cells[i].blank_spec() <==> i
            == 15) by {
            assert(p[i] == i);
        }
    }
    lemma_sorted_no_inversions(p, 0);
}

/// The first blank cell is where `first_blank` says.
pub proof fn lemma_first_blank<T: Tile>(cells: Seq<T>, b: int)
    requires
        is_first_blank(cells, b),
    ensures
        first_blank(cells) == b,
{
    let f = first_blank(cells);
    assert(is_first_blank(cells, f));
    if f < b {
        assert(!cells[f].blank_spec());
    }
    if b < f {
        assert(!cells[b].blank_spec());
    }
}

/// Exchanging two cells leaves the multiset of solved positions as it was.
pub proof fn lemma_swap_keeps_positions<T: Tile>(cells: Seq<T>, i: int, j: int)
    requires
        0 <= i < cells.len(),
        0 <= j < cells.len(),
    ensures
        solved_positions(swapped(cells, i, j)).to_multiset() == solved_positions(
            cells,
        ).to_multiset(),
{
    broadcast use vstd::seq_lib::group_to_multiset_ensures;

    let p = solved_positions(cells);
    let q = solved_positions(swapped(cells, i, j));
    assert(q =~= swapped(p, i, j));
    assert(p.update(i, p[j]).to_multiset() =~= p.to_multiset().insert(p[j]).remove(p[i]));
    assert(q.to_multiset() =~= p.update(i, p[j]).to_multiset().insert(p[i]).remove(
        p.update(i, p[j])[j],
    ));
    assert(q.to_multiset() =~= p.to_multiset());
}

/// Exchanging the blank with another cell of an arrangement gives an
/// arrangement whose blank is at the other cell's index.
pub proof fn lemma_swap_keeps_arrangement<T: Tile>(cells: Seq<T>, blank: int, target: int)
    requires
        cells.len() == 16,
        one_blank(cells, blank),
        is_permutation(solved_positions(cells)),
        0 <= target < 16,
    ensures
        one_blank(swapped(cells, blank, target), target),
        is_permutation(solved_positions(swapped(cells, blank, target))),
{
    let p = solved_positions(cells);
    let after = swapped(cells, blank, target);
    let q = solved_positions(after);
    assert forall|i: int| 0 <= i < 16 implies 0 <= #[trigger] q[i] < 16 by {
        if i == target {
            assert(q[i] == p[blank]);
        } else if i == blank {
            assert(q[i] == p[target]);
        } else {
            assert(q[i] == p[i]);
        }
    }
    assert forall|i: int, j: int| 0 <= i < 16 && 0 <= j < 16 && i != j implies q[i] != q[j] by {
        let a = if i == target {
            blank
        } else if i == blank {
            target
        } else {
            i
        };
        let b = if j == target {
            blank
        } else if j == blank {
            target
        } else {
            j
        };
        assert(q[i] == p[a]);
        assert(q[j] == p[b]);
        assert(a != b);
    }
    assert forall|i: int| 0 <= i < 16 implies (#[trigger] after[i].blank_spec() <==> i
        == target) by {
        if i == target {
            assert(after[i] == cells[blank]);
        } else if i == blank {
            assert(after[i] == cells[target]);
        } else {
            assert(after[i] == cells[i]);
        }
    }
}

} // verus!
