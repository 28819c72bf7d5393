//! The file system as the cache sees it.

use vstd::prelude::*;

use super::image_loader::ModTime;

verus! {

/// The file system, as far as the cache needs it: a way to ask when the
/// file at a path was modified. The answer is `None` where the file system
/// cannot tell.
pub struct Disk<S: Fn(&String) -> Option<ModTime>> {
    modified: S,
}

impl<S: Fn(&String) -> Option<ModTime>> Disk<S> {
    #[verifier::type_invariant]
    spec fn inv(&self) -> bool {
        forall|path: &String| call_requires(self.modified, (path,))
    }

    /// The way in which the file system is asked.
    pub closed spec fn source(&self) -> S {
        self.modified
    }

    /// `time` is what the file system answered when it was asked for the
    /// file at `path`.
    pub open spec fn reported(&self, path: Seq<char>, time: Option<ModTime>) -> bool {
        exists|p: &String| p@ == path && call_ensures(self.source(), (p,), time)
    }

    /// The file system tells one thing of each file: no file changes
    /// while this holds.
    pub open spec fn steady(&self) -> bool {
        forall|path: Seq<char>, a: Option<ModTime>, b: Option<ModTime>|
            #[trigger] self.reported(path, a) && #[trigger] self.reported(path, b) ==> a == b
    }

    /// A file system that is asked with `modified`.
    pub fn new(modified: S) -> (disk: Self)
        requires
            forall|path: &String| call_requires(modified, (path,)),
        ensures
            disk.source() == modified,
    {
        Disk { modified }
    }

    /// Asks the file system when the file at `path` was modified.
    pub fn modified(&self, path: &String) -> (time: Option<ModTime>)
        ensures
            self.reported(path@, time),
    {
        proof {
            use_type_invariant(self);
        }
        (self.modified)(path)
    }
}

} // verus!
