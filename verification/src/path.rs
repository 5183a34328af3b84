//! Host paths and root-relative paths, as the plain texts they are.

use vstd::prelude::*;

verus! {

/// A path on the host, as text.
#[derive(Debug, PartialEq, Eq)]
pub struct HostPath {
    text: String,
}

impl View for HostPath {
    type V = Seq<char>;

    closed spec fn view(&self) -> Seq<char> {
        self.text@
    }
}

impl HostPath {
    /// The path written `text`.
    pub fn new(text: String) -> (r: HostPath)
        ensures
            r@ == text@,
    {
        HostPath { text }
    }

    /// The path as it is written.
    pub fn as_str(&self) -> (r: &str)
        ensures
            r@ == self@,
    {
        self.text.as_str()
    }
}

impl Clone for HostPath {
    fn clone(&self) -> (r: Self)
        ensures
            r@ == self@,
    {
        HostPath { text: self.text.clone() }
    }
}

/// A path below some root, written with slashes and without a leading one.
#[derive(Debug, PartialEq, Eq)]
pub struct RootRelativePath(pub String);

impl View for RootRelativePath {
    type V = Seq<char>;

    open spec fn view(&self) -> Seq<char> {
        self.0@
    }
}

impl Clone for RootRelativePath {
    fn clone(&self) -> (r: Self)
        ensures
            r@ == self@,
    {
        RootRelativePath(self.0.clone())
    }
}

/// The characters of an optional root-relative path.
pub open spec fn rel_opt(p: Option<RootRelativePath>) -> Option<Seq<char>> {
    match p {
        Some(q) => Some(q@),
        None => None,
    }
}

/// Root-relative paths are seen whole.
pub proof fn law_relative_paths_are_seen_whole(p: RootRelativePath)
    ensures
        p@ == p.0@,
        rel_opt(Some(p)) == Some(p.0@),
        rel_opt(None) == None::<Seq<char>>,
{
}

} // verus!
