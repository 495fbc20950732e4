//! Cells and paths in cells.

use vstd::prelude::*;

use crate::buck2_core::fs::FileName;

verus! {

/// The name of a cell.
pub struct CellName(pub String);

impl CellName {
    /// Takes the text for a cell name without looking at it.
    pub fn unchecked_new(name: &str) -> (cell: Self)
        ensures
            cell.0@ == name@,
    {
        CellName(String::from_str(name))
    }

    pub fn as_str(&self) -> (text: &str)
        ensures
            text@ == self.0@,
    {
        self.0.as_str()
    }

    /// A second handle on the same name.
    pub fn dupe(&self) -> (copy: Self)
        ensures
            copy.0@ == self.0@,
    {
        CellName(self.0.clone())
    }
}

/// A path below the root of a cell.
pub struct CellRelativePathBuf(pub String);

impl CellRelativePathBuf {
    /// Takes the text for a path without looking at it.
    pub fn unchecked_new(path: String) -> (made: Self)
        ensures
            made.0 == path,
    {
        CellRelativePathBuf(path)
    }

    pub fn as_str(&self) -> (text: &str)
        ensures
            text@ == self.0@,
    {
        self.0.as_str()
    }
}

/// `dir` with `name` below it.
pub open spec fn joined(dir: Seq<char>, name: Seq<char>) -> Seq<char> {
    if dir.len() == 0 {
        name
    } else {
        dir + "/"@ + name
    }
}

/// A path in a cell.
pub struct CellPath {
    pub cell: CellName,
    pub path: CellRelativePathBuf,
}

impl CellPath {
    pub fn new(cell: CellName, path: CellRelativePathBuf) -> (made: Self)
        ensures
            made.cell == cell,
            made.path == path,
    {
        CellPath { cell, path }
    }

    /// The path of the file `name` in the directory that this path names.
    pub fn join(&self, name: &FileName) -> (made: CellPath)
        ensures
            made.cell.0@ == self.cell.0@,
            made.path.0@ == joined(self.path.0@, name.0@),
    {
        let mut path = self.path.0.clone();
        if path.as_str().unicode_len() == 0 {
            path.append(name.as_str());
            proof {
                assert(path@ =~= name.0@);
            }
        } else {
            path.append("/");
            path.append(name.as_str());
        }
        CellPath { cell: self.cell.dupe(), path: CellRelativePathBuf(path) }
    }
}

/// The cell that a build file is in.
pub struct BuildFileCell(pub CellName);

impl BuildFileCell {
    pub fn new(name: CellName) -> (cell: Self)
        ensures
            cell.0 == name,
    {
        BuildFileCell(name)
    }

    pub fn name(&self) -> (name: &CellName)
        ensures
            *name == self.0,
    {
        &self.0
    }
}

} // verus!
