//! What holds of the board whatever operations are applied to it.

use crate::board::{
    inversions, inversions_against, inversions_from, is_permutation, one_blank, slide_blank, slide_cells, slide_target, solved_positions, swapped,
    lemma_swap_keeps_arrangement, lemma_swap_keeps_positions,
};
use crate::game::{run, step, GameView};
use crate::operation::Operation;
use crate::tile::Tile;
use vstd::prelude::*;
use vstd::set_lib::{
    lemma_int_range, lemma_set_disjoint_lens, lemma_subset_equality, set_int_range,
};

verus! {

/// The positions 0 to 15 in rising order.
pub open spec fn all_positions() -> Seq<int> {
    Seq::new(16, |i: int| i)
}

/// The cells after the operations `ops`, applied in order.
pub open spec fn play_cells<T>(cells: Seq<T>, blank: int, ops: Seq<Operation>) -> Seq<T>
    decreases ops.len(),
{
    if ops.len() == 0 {
        cells
    } else {
        play_cells(slide_cells(cells, blank, ops[0]), slide_blank(blank, ops[0]), ops.drop_first())
    }
}

/// The index of the blank after the operations `ops`, applied in order.
pub open spec fn play_blank(blank: int, ops: Seq<Operation>) -> int
    decreases ops.len(),
{
    if ops.len() == 0 {
        blank
    } else {
        play_blank(slide_blank(blank, ops[0]), ops.drop_first())
    }
}

/// The number of the operations `ops` that change the board when they are
/// applied in order.
pub open spec fn effective(blank: int, ops: Seq<Operation>) -> nat
    decreases ops.len(),
{
    if ops.len() == 0 {
        0
    } else {
        (if slide_target(blank, ops[0]).is_some() {
            1nat
        } else {
            0nat
        }) + effective(slide_blank(blank, ops[0]), ops.drop_first())
    }
}

/// The number of the four operations that the board allows with its blank
/// at `blank`.
pub open spec fn allowed(blank: int) -> nat {
    let count = |op: Operation|
        if slide_target(blank, op).is_some() {
            1nat
        } else {
            0nat
        };
    count(Operation::Up) + count(Operation::Down) + count(Operation::Left) + count(
        Operation::Right,
    )
}

/// The pairs of indices `(a, b)` with `a < b` whose positions stand in
/// reverse order, among those with `a >= i`.
pub open spec fn inverted_pairs_from(p: Seq<int>, i: int) -> Set<(int, int)> {
    Set::new(|ab: (int, int)| i <= ab.0 < ab.1 < p.len() && p[ab.0] > p[ab.1])
}

/// The pairs `(i, b)` with `b >= j` whose positions stand in reverse order.
pub open spec fn inverted_pairs_against(p: Seq<int>, i: int, j: int) -> Set<(int, int)> {
    Set::new(|ab: (int, int)| ab.0 == i && j <= ab.1 < p.len() && p[i] > p[ab.1])
}

/// All pairs of indices whose positions stand in reverse order.
pub open spec fn inverted_pairs(p: Seq<int>) -> Set<(int, int)> {
    inverted_pairs_from(p, 0)
}

/// `inversions_against` counts the inverted pairs of one index with the
/// indices from `j` on.
pub proof fn lemma_inversions_against_count(p: Seq<int>, i: int, j: int)
    requires
        0 <= i < j,
    ensures
        inverted_pairs_against(p, i, j).finite(),
        inverted_pairs_against(p, i, j).len() == inversions_against(p, i, j),
    decreases p.len() - j,
{
    let here = inverted_pairs_against(p, i, j);
    if j >= p.len() {
        assert(here =~= Set::empty());
    } else {
        let rest = inverted_pairs_against(p, i, j + 1);
        lemma_inversions_against_count(p, i, j + 1);
        if p[i] > p[j] {
            assert(here =~= rest.insert((i, j)));
            assert(!rest.contains((i, j)));
        } else {
            assert(here =~= rest);
        }
    }
}

/// `inversions_from` counts the inverted pairs whose first index is `i` or
/// a later one.
pub proof fn lemma_inversions_from_count(p: Seq<int>, i: int)
    requires
        0 <= i,
    ensures
        inverted_pairs_from(p, i).finite(),
        inverted_pairs_from(p, i).len() == inversions_from(p, i),
    decreases p.len() - i,
{
    let here = inverted_pairs_from(p, i);
    if i >= p.len() {
        assert(here =~= Set::empty());
    } else {
        let first = inverted_pairs_against(p, i, i + 1);
        let rest = inverted_pairs_from(p, i + 1);
        lemma_inversions_against_count(p, i, i + 1);
        lemma_inversions_from_count(p, i + 1);
        assert(first.disjoint(rest));
        lemma_set_disjoint_lens(first, rest);
        assert(here =~= first + rest);
    }
}

/// The number of inversions is the number of pairs of cells that stand in
/// the reverse of their solved order.
pub proof fn lemma_inversions_count(p: Seq<int>)
    ensures
        inverted_pairs(p).finite(),
        inversions(p) == inverted_pairs(p).len(),
{
    lemma_inversions_from_count(p, 0);
}

/// Sixteen positions are the numbers 0 to 15, each once, exactly when their
/// multiset is that of the numbers 0 to 15.
pub proof fn lemma_permutation_multiset(p: Seq<int>)
    ensures
        is_permutation(p) <==> p.to_multiset() == all_positions().to_multiset(),
{
    broadcast use vstd::seq_lib::group_to_multiset_ensures;

    let id = all_positions();
    assert(id.no_duplicates());
    id.lemma_multiset_has_no_duplicates();
    assert forall|x: int| id.contains(x) <==> 0 <= x < 16 by {
        if 0 <= x < 16 {
            assert(id[x] == x);
        }
    }
    if is_permutation(p) {
        p.unique_seq_to_set();
        lemma_int_range(0, 16);
        vstd::seq_lib::seq_to_set_is_finite(p);
        assert(p.to_set().subset_of(set_int_range(0, 16))) by {
            assert forall|x: int| p.to_set().contains(x) implies set_int_range(0, 16).contains(
                x,
            ) by {
                assert(p.contains(x));
                let i = choose|i: int| 0 <= i < p.len() && p[i] == x;
                assert(0 <= p[i] < 16);
            }
        }
        lemma_subset_equality(p.to_set(), set_int_range(0, 16));
        p.lemma_multiset_has_no_duplicates();
        assert forall|x: int| p.to_multiset().count(x) == id.to_multiset().count(x) by {
            if 0 <= x < 16 {
                assert(set_int_range(0, 16).contains(x));
                assert(p.to_set().contains(x));
                assert(p.contains(x));
                assert(id.contains(x));
                assert(p.to_multiset().contains(x));
                assert(id.to_multiset().contains(x));
            } else {
                assert(!id.contains(x));
                if p.contains(x) {
                    let i = choose|i: int| 0 <= i < p.len() && p[i] == x;
                    assert(0 <= p[i] < 16);
                }
            }
        }
        assert(p.to_multiset() =~= id.to_multiset());
    }
    if p.to_multiset() == id.to_multiset() {
        assert(p.len() == p.to_multiset().len());
        assert(id.len() == id.to_multiset().len());
        p.lemma_multiset_has_no_duplicates_conv();
        assert forall|i: int| 0 <= i < 16 implies 0 <= #[trigger] p[i] < 16 by {
            assert(p.contains(p[i]));
            assert(id.to_multiset().count(p[i]) > 0);
            assert(id.contains(p[i]));
        }
    }
}

/// A single operation takes an arrangement to an arrangement: afterwards
/// the blank index still points at the only blank, and the multiset of the
/// solved positions is as before.
pub proof fn lemma_slide_keeps_arrangement<T: Tile>(cells: Seq<T>, blank: int, op: Operation)
    requires
        cells.len() == 16,
        one_blank(cells, blank),
        is_permutation(solved_positions(cells)),
    ensures
        slide_cells(cells, blank, op).len() == 16,
        one_blank(slide_cells(cells, blank, op), slide_blank(blank, op)),
        is_permutation(solved_positions(slide_cells(cells, blank, op))),
        solved_positions(slide_cells(cells, blank, op)).to_multiset() == solved_positions(
            cells,
        ).to_multiset(),
{
    match slide_target(blank, op) {
        Some(target) => {
            lemma_swap_keeps_arrangement(cells, blank, target);
            lemma_swap_keeps_positions(cells, blank, target);
            assert(slide_cells(cells, blank, op) == swapped(cells, blank, target));
        },
        None => {},
    }
}

/// Whatever operations are applied to an arrangement, in whatever order:
/// the multiset of the solved positions stays that of the numbers 0 to 15,
/// exactly one cell is blank, and the blank index points at it.
pub proof fn lemma_play_keeps_arrangement<T: Tile>(
    cells: Seq<T>,
    blank: int,
    ops: Seq<Operation>,
)
    requires
        cells.len() == 16,
        one_blank(cells, blank),
        is_permutation(solved_positions(cells)),
    ensures
        play_cells(cells, blank, ops).len() == 16,
        one_blank(play_cells(cells, blank, ops), play_blank(blank, ops)),
        is_permutation(solved_positions(play_cells(cells, blank, ops))),
        solved_positions(play_cells(cells, blank, ops)).to_multiset()
            == all_positions().to_multiset(),
    decreases ops.len(),
{
    if ops.len() == 0 {
        lemma_permutation_multiset(solved_positions(cells));
    } else {
        lemma_slide_keeps_arrangement(cells, blank, ops[0]);
        lemma_play_keeps_arrangement(
            slide_cells(cells, blank, ops[0]),
            slide_blank(blank, ops[0]),
            ops.drop_first(),
        );
    }
}

/// Whatever operations a game is given, in whatever order: its board is
/// the one that the operations lead to, its move count has grown by the
/// number of operations that changed the board, and a game that was
/// finished is finished still.
pub proof fn lemma_run<T: Tile>(game: GameView<T>, ops: Seq<Operation>)
    ensures
        run(game, ops).cells == play_cells(game.cells, game.blank, ops),
        run(game, ops).blank == play_blank(game.blank, ops),
        run(game, ops).moves == game.moves + effective(game.blank, ops),
        game.done ==> run(game, ops).done,
    decreases ops.len(),
{
    if ops.len() > 0 {
        lemma_run(step(game, ops[0]), ops.drop_first());
    }
}

/// With the blank in a corner, exactly two of the four operations are
/// allowed.
pub proof fn lemma_corner_allows_two(blank: int)
    requires
        blank == 0 || blank == 3 || blank == 12 || blank == 15,
    ensures
        allowed(blank) == 2,
{
}

/// At a border the operation that would leave the board is rejected: in
/// the left column `Right`, in the right column `Left`, in the top row
/// `Down`, in the bottom row `Up`. Every other operation is allowed.
pub proof fn lemma_border_rejects(blank: int, op: Operation)
    requires
        0 <= blank < 16,
    ensures
        slide_target(blank, op).is_none() <==> {
            ||| (op == Operation::Right && blank % 4 == 0)
            ||| (op == Operation::Left && blank % 4 == 3)
            ||| (op == Operation::Down && blank / 4 == 0)
            ||| (op == Operation::Up && blank / 4 == 3)
        },
        slide_target(blank, op).is_some() ==> {
            &&& 0 <= slide_target(blank, op).unwrap() < 16
            &&& slide_target(blank, op).unwrap() != blank
        },
{
}

} // verus!
