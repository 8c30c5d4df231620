//! Sets of primitive filesystem operations.

use vstd::prelude::*;

verus! {

/// One primitive operation that a pending entry can stand for.
#[derive(Clone, Copy, Debug, PartialEq, Eq, Structural)]
pub enum Dominant {
    Create,
    Write,
    Chmod,
    Rename,
    Remove,
}

/// A set over the primitive operations, one flag per member.
#[derive(Clone, Copy, Debug, PartialEq, Eq, Structural)]
pub struct Op {
    pub create: bool,
    pub write: bool,
    pub chmod: bool,
    pub rename: bool,
    pub remove: bool,
    pub rescan: bool,
}

impl Op {
    /// The set that holds exactly the members of `self` and of `other`.
    pub open spec fn spec_union(self, other: Op) -> Op {
        Op {
            create: self.create || other.create,
            write: self.write || other.write,
            chmod: self.chmod || other.chmod,
            rename: self.rename || other.rename,
            remove: self.remove || other.remove,
            rescan: self.rescan || other.rescan,
        }
    }

    /// The members of `self` that are not in `other`.
    pub open spec fn spec_without(self, other: Op) -> Op {
        Op {
            create: self.create && !other.create,
            write: self.write && !other.write,
            chmod: self.chmod && !other.chmod,
            rename: self.rename && !other.rename,
            remove: self.remove && !other.remove,
            rescan: self.rescan && !other.rescan,
        }
    }

    /// Every member of `other` is a member of `self`.
    pub open spec fn spec_contains(self, other: Op) -> bool {
        &&& other.create ==> self.create
        &&& other.write ==> self.write
        &&& other.chmod ==> self.chmod
        &&& other.rename ==> self.rename
        &&& other.remove ==> self.remove
        &&& other.rescan ==> self.rescan
    }

    /// `self` and `other` share a member.
    pub open spec fn spec_intersects(self, other: Op) -> bool {
        ||| self.create && other.create
        ||| self.write && other.write
        ||| self.chmod && other.chmod
        ||| self.rename && other.rename
        ||| self.remove && other.remove
        ||| self.rescan && other.rescan
    }

    pub open spec fn spec_empty() -> Op {
        Op { create: false, write: false, chmod: false, rename: false, remove: false, rescan: false }
    }

    pub open spec fn spec_create() -> Op {
        Op { create: true, ..Op::spec_empty() }
    }

    pub open spec fn spec_write() -> Op {
        Op { write: true, ..Op::spec_empty() }
    }

    pub open spec fn spec_chmod() -> Op {
        Op { chmod: true, ..Op::spec_empty() }
    }

    pub open spec fn spec_rename() -> Op {
        Op { rename: true, ..Op::spec_empty() }
    }

    pub open spec fn spec_remove() -> Op {
        Op { remove: true, ..Op::spec_empty() }
    }

    pub open spec fn spec_rescan() -> Op {
        Op { rescan: true, ..Op::spec_empty() }
    }

    /// The set with the one member that `d` names.
    pub open spec fn spec_of(d: Dominant) -> Op {
        match d {
            Dominant::Create => Op::spec_create(),
            Dominant::Write => Op::spec_write(),
            Dominant::Chmod => Op::spec_chmod(),
            Dominant::Rename => Op::spec_rename(),
            Dominant::Remove => Op::spec_remove(),
        }
    }

    #[verifier::when_used_as_spec(spec_empty)]
    pub fn empty() -> (r: Op)
        ensures
            r == Op::spec_empty(),
    {
        Op { create: false, write: false, chmod: false, rename: false, remove: false, rescan: false }
    }

    #[verifier::when_used_as_spec(spec_create)]
    pub fn create() -> (r: Op)
        ensures
            r == Op::spec_create(),
    {
        Op { create: true, write: false, chmod: false, rename: false, remove: false, rescan: false }
    }

    #[verifier::when_used_as_spec(spec_write)]
    pub fn write() -> (r: Op)
        ensures
            r == Op::spec_write(),
    {
        Op { create: false, write: true, chmod: false, rename: false, remove: false, rescan: false }
    }

    #[verifier::when_used_as_spec(spec_chmod)]
    pub fn chmod() -> (r: Op)
        ensures
            r == Op::spec_chmod(),
    {
        Op { create: false, write: false, chmod: true, rename: false, remove: false, rescan: false }
    }

    #[verifier::when_used_as_spec(spec_rename)]
    pub fn rename() -> (r: Op)
        ensures
            r == Op::spec_rename(),
    {
        Op { create: false, write: false, chmod: false, rename: true, remove: false, rescan: false }
    }

    #[verifier::when_used_as_spec(spec_remove)]
    pub fn remove() -> (r: Op)
        ensures
            r == Op::spec_remove(),
    {
        Op { create: false, write: false, chmod: false, rename: false, remove: true, rescan: false }
    }

    #[verifier::when_used_as_spec(spec_rescan)]
    pub fn rescan() -> (r: Op)
        ensures
            r == Op::spec_rescan(),
    {
        Op { create: false, write: false, chmod: false, rename: false, remove: false, rescan: true }
    }

    #[verifier::when_used_as_spec(spec_of)]
    pub fn of(d: Dominant) -> (r: Op)
        ensures
            r == Op::spec_of(d),
    {
        match d {
            Dominant::Create => Op::create(),
            Dominant::Write => Op::write(),
            Dominant::Chmod => Op::chmod(),
            Dominant::Rename => Op::rename(),
            Dominant::Remove => Op::remove(),
        }
    }

    #[verifier::when_used_as_spec(spec_union)]
    pub fn union(self, other: Op) -> (r: Op)
        ensures
            r == self.spec_union(other),
    {
        Op {
            create: self.create || other.create,
            write: self.write || other.write,
            chmod: self.chmod || other.chmod,
            rename: self.rename || other.rename,
            remove: self.remove || other.remove,
            rescan: self.rescan || other.rescan,
        }
    }

    #[verifier::when_used_as_spec(spec_without)]
    pub fn without(self, other: Op) -> (r: Op)
        ensures
            r == self.spec_without(other),
    {
        Op {
            create: self.create && !other.create,
            write: self.write && !other.write,
            chmod: self.chmod && !other.chmod,
            rename: self.rename && !other.rename,
            remove: self.remove && !other.remove,
            rescan: self.rescan && !other.rescan,
        }
    }

    #[verifier::when_used_as_spec(spec_contains)]
    pub fn contains(self, other: Op) -> (r: bool)
        ensures
            r == self.spec_contains(other),
    {
        (!other.create || self.create) && (!other.write || self.write) && (!other.chmod
            || self.chmod) && (!other.rename || self.rename) && (!other.remove || self.remove) && (
        !other.rescan || self.rescan)
    }

    #[verifier::when_used_as_spec(spec_intersects)]
    pub fn intersects(self, other: Op) -> (r: bool)
        ensures
            r == self.spec_intersects(other),
    {
        (self.create && other.create) || (self.write && other.write) || (self.chmod && other.chmod)
            || (self.rename && other.rename) || (self.remove && other.remove) || (self.rescan
            && other.rescan)
    }

    /// No member at all.
    pub open spec fn spec_is_empty(self) -> bool {
        self == Op::spec_empty()
    }

    #[verifier::when_used_as_spec(spec_is_empty)]
    pub fn is_empty(self) -> (r: bool)
        ensures
            r == self.spec_is_empty(),
    {
        !self.create && !self.write && !self.chmod && !self.rename && !self.remove && !self.rescan
    }
}

} // verus!
