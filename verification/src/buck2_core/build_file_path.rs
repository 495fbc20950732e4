//! Paths of build files.

use vstd::prelude::*;

use crate::buck2_core::bzl::ModuleID;
use crate::buck2_core::cells::BuildFileCell;
use crate::buck2_core::cells::CellName;
use crate::buck2_core::cells::CellPath;
use crate::buck2_core::cells::CellRelativePathBuf;
use crate::buck2_core::cells::joined;
use crate::buck2_core::fs::FileName;
use crate::buck2_core::fs::FileNameBuf;
use crate::buck2_core::package::PackageLabel;
use crate::buck2_core::package::label_text;

verus! {

/// Path of a build file (e.g. `BUCK`) only. (`bzl` files are not included).
pub struct BuildFilePath {
    /// The package of this build file
    package: PackageLabel,
    /// The build file's filename (which can be configured). i.e. `BUCK`
    filename: FileNameBuf,
    /// A ModuleID for the import.
    id: ModuleID,
}

/// The id of the build file `filename` of a package: the package as it is
/// written, a colon, the name of the file.
pub open spec fn id_text(cell: Seq<char>, package: Seq<char>, filename: Seq<char>) -> Seq<char> {
    label_text(cell, package) + ":"@ + filename
}

impl BuildFilePath {
    pub closed spec fn cell_spec(&self) -> Seq<char> {
        self.package.cell.0@
    }

    pub closed spec fn package_spec(&self) -> Seq<char> {
        self.package.path.0@
    }

    pub closed spec fn filename_spec(&self) -> Seq<char> {
        self.filename.0@
    }

    pub closed spec fn id_spec(&self) -> Seq<char> {
        self.id.0@
    }

    /// The id is made of the package and the file name.
    pub closed spec fn wf(&self) -> bool {
        self.id.0@ == id_text(self.package.cell.0@, self.package.path.0@, self.filename.0@)
    }

    pub fn new(package: PackageLabel, filename: FileNameBuf) -> (path: Self)
        ensures
            path.wf(),
            path.cell_spec() == package.cell.0@,
            path.package_spec() == package.path.0@,
            path.filename_spec() == filename.0@,
            path.id_spec() == id_text(package.cell.0@, package.path.0@, filename.0@),
    {
        let mut id = package.to_string();
        id.append(":");
        id.append(filename.as_str());
        Self { package, filename, id: ModuleID(id) }
    }

    pub fn unchecked_new(cell: &str, package: &str, filename: &str) -> (path: Self)
        ensures
            path.wf(),
            path.cell_spec() == cell@,
            path.package_spec() == package@,
            path.filename_spec() == filename@,
            path.id_spec() == id_text(cell@, package@, filename@),
    {
        let package = PackageLabel::new(
            CellName::unchecked_new(cell),
            &CellRelativePathBuf::unchecked_new(String::from_str(package)),
        );
        let filename = FileNameBuf::unchecked_new(filename);
        Self::new(package, filename)
    }

    pub fn cell(&self) -> (cell: CellName)
        ensures
            cell.0@ == self.cell_spec(),
    {
        self.package.cell_name()
    }

    pub fn package(&self) -> (package: PackageLabel)
        ensures
            package.cell.0@ == self.cell_spec(),
            package.path.0@ == self.package_spec(),
    {
        self.package.dupe()
    }

    /// The path of the build file in its cell: the file in the directory of
    /// the package.
    pub fn path(&self) -> (path: CellPath)
        ensures
            path.cell.0@ == self.cell_spec(),
            path.path.0@ == joined(self.package_spec(), self.filename_spec()),
    {
        self.package.as_cell_path().join(&self.filename)
    }

    pub fn build_file_cell(&self) -> (cell: BuildFileCell)
        ensures
            cell.0.0@ == self.cell_spec(),
    {
        BuildFileCell::new(self.cell())
    }

    pub fn filename(&self) -> (filename: &FileName)
        ensures
            filename.0@ == self.filename_spec(),
    {
        &self.filename
    }

    pub fn id(&self) -> (id: &ModuleID)
        ensures
            id.0@ == self.id_spec(),
    {
        &self.id
    }

    /// The build file as it is written: its id.
    pub fn to_string(&self) -> (text: String)
        ensures
            text@ == self.id_spec(),
    {
        self.id.0.clone()
    }
}

} // verus!
