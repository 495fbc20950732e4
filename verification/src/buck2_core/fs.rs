//! Names of files.

use vstd::prelude::*;

verus! {

/// The name of a file, without any directory.
pub struct FileNameBuf(pub String);

/// The name of a file as it is handed out by those who hold one.
pub type FileName = FileNameBuf;

impl FileNameBuf {
    /// Takes the text for a file name without looking at it.
    pub fn unchecked_new(name: &str) -> (file_name: Self)
        ensures
            file_name.0@ == name@,
    {
        FileNameBuf(String::from_str(name))
    }

    pub fn as_str(&self) -> (text: &str)
        ensures
            text@ == self.0@,
    {
        self.0.as_str()
    }
}

} // verus!
