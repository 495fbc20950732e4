//! Packages: the directories that hold build files.

use vstd::prelude::*;

use crate::buck2_core::cells::CellName;
use crate::buck2_core::cells::CellPath;
use crate::buck2_core::cells::CellRelativePathBuf;

verus! {

/// Names a package by its cell and its path in the cell.
pub struct PackageLabel {
    pub cell: CellName,
    pub path: CellRelativePathBuf,
}

/// A package as it is written: the cell, two slashes, the path.
pub open spec fn label_text(cell: Seq<char>, path: Seq<char>) -> Seq<char> {
    cell + "//"@ + path
}

impl PackageLabel {
    pub fn new(cell: CellName, path: &CellRelativePathBuf) -> (label: Self)
        ensures
            label.cell == cell,
            label.path.0@ == path.0@,
    {
        PackageLabel { cell, path: CellRelativePathBuf(path.0.clone()) }
    }

    pub fn cell_name(&self) -> (cell: CellName)
        ensures
            cell.0@ == self.cell.0@,
    {
        self.cell.dupe()
    }

    pub fn as_cell_path(&self) -> (path: CellPath)
        ensures
            path.cell.0@ == self.cell.0@,
            path.path.0@ == self.path.0@,
    {
        CellPath { cell: self.cell.dupe(), path: CellRelativePathBuf(self.path.0.clone()) }
    }

    /// A second handle on the same package.
    pub fn dupe(&self) -> (copy: Self)
        ensures
            copy.cell.0@ == self.cell.0@,
            copy.path.0@ == self.path.0@,
    {
        PackageLabel { cell: self.cell.dupe(), path: CellRelativePathBuf(self.path.0.clone()) }
    }

    /// The package as it is written.
    pub fn to_string(&self) -> (text: String)
        ensures
            text@ == label_text(self.cell.0@, self.path.0@),
    {
        let mut text = self.cell.0.clone();
        text.append("//");
        text.append(self.path.as_str());
        text
    }
}

} // verus!
