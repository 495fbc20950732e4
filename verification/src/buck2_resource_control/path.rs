//! Paths of control groups.

use vstd::prelude::*;

verus! {

/// Whether `..` stands in `path` as a whole component at position `at`.
pub open spec fn parent_component_at(path: Seq<char>, at: int) -> bool {
    &&& 0 <= at
    &&& at + 2 <= path.len()
    &&& path[at] == '.'
    &&& path[at + 1] == '.'
    &&& (at == 0 || path[at - 1] == '/')
    &&& (at + 2 == path.len() || path[at + 2] == '/')
}

/// Whether the path is absolute and normalized: it starts at the root and
/// has no component that leads to a parent.
pub open spec fn abs_normalized(path: Seq<char>) -> bool {
    &&& path.len() > 0
    &&& path[0] == '/'
    &&& forall|at: int| !parent_component_at(path, at)
}

/// Whether the path is absolute and normalized.
pub fn is_abs_normalized(path: &Vec<char>) -> (b: bool)
    ensures
        b == abs_normalized(path@),
{
    if path.len() == 0 || path[0] != '/' {
        return false;
    }
    let n = path.len();
    let mut at: usize = 0;
    while at + 1 < n
        invariant
            n == path@.len(),
            at < n,
            path@[0] == '/',
            forall|k: int| k < at ==> !parent_component_at(path@, k),
        decreases n - at,
    {
        if path[at] == '.' && path[at + 1] == '.' && (at == 0 || path[at - 1] == '/') && (at + 2
            == n || path[at + 2] == '/') {
            proof {
                assert(parent_component_at(path@, at as int));
            }
            return false;
        }
        at = at + 1;
    }
    true
}

/// The absolute, normalized path of a control group.
pub struct CgroupPathBuf {
    pub path: String,
}

impl CgroupPathBuf {
    pub open spec fn wf(&self) -> bool {
        abs_normalized(self.path@)
    }

    /// The path, if it is absolute and normalized.
    pub fn new(path: String) -> (made: Option<Self>)
        ensures
            made is Some <==> abs_normalized(path@),
            made matches Some(p) ==> p.path == path,
    {
        let chars = crate::text::chars_of(path.as_str());
        if is_abs_normalized(&chars) {
            Some(CgroupPathBuf { path })
        } else {
            None
        }
    }

    pub fn as_str(&self) -> (text: &str)
        ensures
            text@ == self.path@,
    {
        self.path.as_str()
    }

    /// The path as text.
    pub fn to_string(&self) -> (text: String)
        ensures
            text@ == self.path@,
    {
        self.path.clone()
    }
}

} // verus!
