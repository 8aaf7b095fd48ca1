use vstd::prelude::*;

verus! {

/// A position in a source file.
#[derive(Debug)]
pub struct Loc {
    pub row: usize,
    pub col: usize,
    pub filepath: String,
}

/// The mathematical content of a [`Loc`].
pub struct LocView {
    pub row: usize,
    pub col: usize,
    pub filepath: Seq<char>,
}

impl View for Loc {
    type V = LocView;

    open spec fn view(&self) -> LocView {
        LocView { row: self.row, col: self.col, filepath: self.filepath@ }
    }
}

/// The position that stands for "no position": row 0, column 0, no file.
pub open spec fn null_loc() -> LocView {
    LocView { row: 0, col: 0, filepath: Seq::empty() }
}

impl Clone for Loc {
    fn clone(&self) -> (res: Self)
        ensures
            res == *self,
    {
        Loc { row: self.row, col: self.col, filepath: self.filepath.clone() }
    }
}

impl Loc {
    pub fn new(row: usize, col: usize, filepath: String) -> (res: Self)
        ensures
            res.row == row,
            res.col == col,
            res.filepath == filepath,
    {
        Loc { row, col, filepath }
    }

    /// The position given to nodes that no source text stands behind.
    pub fn null() -> (res: Self)
        ensures
            res@ == null_loc(),
    {
        Loc { row: 0, col: 0, filepath: String::new() }
    }
}

} // verus!
