//! What the board needs to know of a tile.

use crate::text::{decimal, decimal_string};
use vstd::prelude::*;

verus! {

/// A cell of the board: it may be the blank, it has a text to show, and it
/// has a position at which it stands when the puzzle is solved.
pub trait Tile {
    /// Whether this tile is the blank.
    spec fn blank_spec(&self) -> bool;

    /// The text shown for this tile.
    spec fn display_spec(&self) -> Seq<char>;

    /// The index at which this tile stands on the solved board.
    spec fn solved_pos_spec(&self) -> nat;

    /// Whether this tile is the blank.
    fn is_blank(&self) -> (b: bool)
        ensures
            b == self.blank_spec(),
    ;

    /// The text shown for this tile.
    fn display_value(&self) -> (s: String)
        ensures
            s@ == self.display_spec(),
    ;

    /// The index at which this tile stands on the solved board.
    fn get_solved_pos(&self) -> (p: usize)
        ensures
            p == self.solved_pos_spec(),
    ;
}

/// Numbered tiles: `0` is the blank and shows nothing, a number `n` from 1
/// on shows its decimal digits and belongs at index `n - 1`; the blank
/// belongs at index 15.
impl Tile for u8 {
    open spec fn blank_spec(&self) -> bool {
        *self == 0
    }

    open spec fn display_spec(&self) -> Seq<char> {
        if *self == 0 {
            Seq::empty()
        } else {
            decimal(*self as nat)
        }
    }

    open spec fn solved_pos_spec(&self) -> nat {
        if *self == 0 {
            15
        } else {
            (*self - 1) as nat
        }
    }

    fn is_blank(&self) -> (b: bool) {
        *self == 0
    }

    fn display_value(&self) -> (s: String) {
        if self.is_blank() {
            let s = String::new();
            assert(s@ =~= Seq::<char>::empty());
            s
        } else {
            decimal_string(*self as usize)
        }
    }

    fn get_solved_pos(&self) -> (p: usize) {
        if self.is_blank() {
            15
        } else {
            (*self - 1) as usize
        }
    }
}

} // verus!
