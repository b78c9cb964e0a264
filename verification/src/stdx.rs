//! Small helpers that make a chain of calls read from left to right.

use vstd::prelude::*;

verus! {

/// `also` on every type: something is done to the value on its way.
pub trait Also: Sized {
    /// Lets `f` change `self`, drops what `f` returns, and returns the
    /// changed value.
    fn also<F, T>(self, f: F) -> (same: Self) where F: FnOnce(&mut Self) -> T
        requires
            forall|target: &mut Self| *target == self ==> call_requires(f, (target,)),
        ensures
            exists|target: &mut Self, out: T|
                *target == self && *final(target) == same && call_ensures(f, (target,), out),
    {
        let mut kept = self;
        let _ = f(&mut kept);
        kept
    }
}

impl<T> Also for T {

}

/// `clone_to` on every type that can be cloned: a clone is left behind on
/// the way.
pub trait CloneTo: Clone {
    /// Puts a clone of `self` into `other` and returns `self`.
    fn clone_to_ref(&self, other: &mut Self) -> (same: &Self)
        ensures
            same == self,
            vstd::pervasive::cloned(*self, *final(other)),
    {
        *other = self.clone();
        self
    }

    /// Puts a clone of `self` into `other` and returns `self`.
    fn clone_to_ref_mut(&mut self, other: &mut Self) -> (same: &mut Self)
        ensures
            *same == *old(self),
            *final(same) == *final(self),
            vstd::pervasive::cloned(*old(self), *final(other)),
    {
        *other = self.clone();
        self
    }

    /// Puts a clone of `self` into `other` and returns `self`.
    fn clone_to(self, other: &mut Self) -> (same: Self)
        ensures
            same == self,
            vstd::pervasive::cloned(self, *final(other)),
    {
        *other = self.clone();
        self
    }
}

impl<T: Clone> CloneTo for T {

}

/// `copy_to` on every type that can be copied.
pub trait CopyTo: Copy {
    /// Copies `self` to `other` and returns `self`.
    fn copy_to(self, other: &mut Self) -> (same: Self)
        ensures
            same == self,
            *final(other) == self,
    {
        *other = self;
        self
    }
}

impl<T: Copy> CopyTo for T {

}

/// Copies the value behind a reference, so that no `*` is needed later.
pub trait CopiedVal: Sized + Copy {
    /// The value behind the reference.
    fn copied_val(&self) -> (value: Self)
        ensures
            value == *self,
    {
        *self
    }
}

/// `with` on every type: the value is handed to a function.
pub trait With: Sized {
    /// Hands `self` to `f` and returns what `f` returns.
    fn with<F, T>(self, f: F) -> (out: T) where F: FnOnce(Self) -> T
        requires
            call_requires(f, (self,)),
        ensures
            call_ensures(f, (self,), out),
    {
        f(self)
    }
}

impl<T> With for T {

}

/// `with_ref` on every type: a reference to the value is handed to a
/// function.
pub trait WithRef {
    /// Hands `self` to `f` and returns what `f` returns.
    fn with_ref<F, T>(&self, f: F) -> (out: T) where F: FnOnce(&Self) -> T
        requires
            call_requires(f, (self,)),
        ensures
            call_ensures(f, (self,), out),
    {
        f(self)
    }
}

impl<T> WithRef for T {

}

/// `with_ref_mut` on every type: a mutable reference to the value is
/// handed to a function.
pub trait WithRefMut: Sized {
    /// Hands `self` to `f` and returns what `f` returns.
    fn with_ref_mut<F, T>(&mut self, f: F) -> (out: T) where F: FnOnce(&mut Self) -> T
        requires
            forall|target: &mut Self| *target == *old(self) ==> call_requires(f, (target,)),
        ensures
            exists|target: &mut Self|
                *target == *old(self) && *final(target) == *final(self) && call_ensures(
                    f,
                    (target,),
                    out,
                ),
    {
        f(self)
    }
}

impl<T> WithRefMut for T {

}

/// `take_if` and `take_unless` on every type: the value is kept or dropped
/// by what a condition says of it.
pub trait TakeIfUnless: Sized {
    /// `Some(self)` if the condition holds of `self`, `None` if not.
    fn take_if<F>(self, condition: F) -> (kept: Option<Self>) where F: FnOnce(&Self) -> bool
        requires
            call_requires(condition, (&self,)),
        ensures
            call_ensures(condition, (&self,), kept is Some),
            kept is Some ==> kept.unwrap() == self,
    {
        if condition(&self) {
            Some(self)
        } else {
            None
        }
    }

    /// `None` if the condition holds of `self`, `Some(self)` if not.
    fn take_unless<F>(self, condition: F) -> (kept: Option<Self>) where F: FnOnce(&Self) -> bool
        requires
            call_requires(condition, (&self,)),
        ensures
            call_ensures(condition, (&self,), kept is None),
            kept is Some ==> kept.unwrap() == self,
    {
        if condition(&self) {
            None
        } else {
            Some(self)
        }
    }
}

impl<T> TakeIfUnless for T {

}

/// `ToOwned::to_owned` of std: owned data made from borrowed data. Nothing
/// is claimed of what comes out.
#[verifier::external_body]
fn owned_of<B: ToOwned + ?Sized>(value: &B) -> (owned: B::Owned) {
    value.to_owned()
}

/// Like `TakeIfUnless`, for borrowed data: what is kept is made owned.
pub trait TakeIfUnlessOwned: ToOwned {
    /// `Some` with the owned form of `self` if the condition holds of
    /// `self`, `None` if not.
    fn take_if_owned<F>(&self, condition: F) -> (kept: Option<Self::Owned>) where
        F: FnOnce(&Self) -> bool,

        requires
            call_requires(condition, (self,)),
        ensures
            call_ensures(condition, (self,), kept is Some),
    {
        if condition(self) {
            Some(owned_of(self))
        } else {
            None
        }
    }

    /// `None` if the condition holds of `self`, `Some` with the owned form
    /// of `self` if not.
    fn take_unless_owned<F>(&self, condition: F) -> (kept: Option<Self::Owned>) where
        F: FnOnce(&Self) -> bool,

        requires
            call_requires(condition, (self,)),
        ensures
            call_ensures(condition, (self,), kept is None),
    {
        if condition(self) {
            None
        } else {
            Some(owned_of(self))
        }
    }
}

/// `and_then_do` on `Option` and `Result`: something is done with the
/// value if there is one.
pub trait AndThenDo {
    /// The type of the value.
    type VT;

    /// The value that `and_then_do` hands on, if there is one.
    spec fn held(self) -> Option<Self::VT> where Self: Sized;

    /// Hands the value to `f`, if there is one, and drops what `f` returns.
    fn and_then_do<F, U>(self, f: F) where F: FnOnce(Self::VT) -> U, Self: Sized
        requires
            self.held() is Some ==> call_requires(f, (self.held().unwrap(),)),
        ensures
            self.held() is Some ==> exists|out: U| call_ensures(f, (self.held().unwrap(),), out),
    ;
}

impl<T, E> AndThenDo for Result<T, E> {
    type VT = T;

    open spec fn held(self) -> Option<T> {
        match self {
            Ok(v) => Some(v),
            Err(_) => None,
        }
    }

    fn and_then_do<F, U>(self, f: F) where F: FnOnce(T) -> U {
        if let Ok(v) = self {
            let _ = f(v);
        }
    }
}

impl<T> AndThenDo for Option<T> {
    type VT = T;

    open spec fn held(self) -> Option<T> {
        self
    }

    fn and_then_do<F, U>(self, f: F) where F: FnOnce(T) -> U {
        if let Some(v) = self {
            let _ = f(v);
        }
    }
}

} // verus!
