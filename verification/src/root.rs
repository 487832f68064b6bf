//! Paths that know which directory they name.
//!
//! A path is tagged with the kind of directory it stands for, so that a state
//! directory cannot be handed over where a cache directory is wanted. A tagged
//! path comes from one of two places only: it is made from text by the caller
//! who knows what the text names, or it is a named child of another.

use std::marker::PhantomData;
use vstd::prelude::*;

verus! {

/// A path to a directory of kind `T`.
pub struct RootBuf<T> {
    path: String,
    kind: PhantomData<T>,
}

/// The path of the entry `name` in the directory `parent`.
pub open spec fn spec_join(parent: Seq<char>, name: Seq<char>) -> Seq<char> {
    parent + seq!['/'] + name
}

impl<T> RootBuf<T> {
    /// The path as text.
    pub closed spec fn view(&self) -> Seq<char> {
        self.path@
    }

    /// The directory of kind `T` at `path`.
    pub fn new(path: String) -> (r: Self)
        ensures
            r.view() == path@,
    {
        RootBuf { path, kind: PhantomData }
    }

    /// The path as text.
    pub fn as_str(&self) -> (s: &str)
        ensures
            s@ == self.view(),
    {
        self.path.as_str()
    }

    /// The path as text, given away.
    pub fn into_string(self) -> (s: String)
        ensures
            s@ == self.view(),
    {
        self.path
    }

    /// The child `name` of this directory, which is a directory of kind `U`.
    pub fn join<U>(&self, name: &str) -> (r: RootBuf<U>)
        ensures
            r.view() == spec_join(self.view(), name@),
    {
        let mut path = self.path.clone();
        proof {
            reveal_strlit("/");
        }
        path.append("/");
        path.append(name);
        assert(path@ =~= spec_join(self.view(), name@));
        RootBuf { path, kind: PhantomData }
    }
}

} // verus!
