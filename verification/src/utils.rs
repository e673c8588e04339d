//! Small helpers shared by the backends.

use vstd::prelude::*;

verus! {

/// Whether an item was seen as one image or as a run of numbered pages.
#[derive(Debug, Clone, Copy, PartialEq, Eq, Structural, PartialOrd, Ord, Hash)]
pub enum SingleOrMany {
    Single,
    Many(usize),
}

impl SingleOrMany {
    /// The number of pages that the value stands for.
    pub open spec fn pages(self) -> nat {
        match self {
            SingleOrMany::Single => 1,
            SingleOrMany::Many(n) => n as nat,
        }
    }

    pub fn is_single(&self) -> (r: bool)
        ensures
            r == (*self is Single),
    {
        match self {
            SingleOrMany::Single => true,
            SingleOrMany::Many(_) => false,
        }
    }

    pub fn is_many(&self) -> (r: bool)
        ensures
            r == (*self is Many),
    {
        !self.is_single()
    }

    /// Adds `v` pages. A single image counts as one page, so the result is
    /// always `Many`.
    pub fn add(&mut self, v: usize)
        requires
            old(self).pages() + v <= usize::MAX,
        ensures
            *final(self) == SingleOrMany::Many((old(self).pages() + v) as usize),
    {
        match *self {
            SingleOrMany::Many(i) => {
                *self = SingleOrMany::Many(i + v);
            },
            SingleOrMany::Single => {
                *self = SingleOrMany::Many(1 + v);
            },
        }
    }
}

/// The error of a value that was asked for and is not there.
#[derive(Debug, Clone)]
pub struct ToResultErr {
    inner: String,
}

impl View for ToResultErr {
    type V = Seq<char>;

    closed spec fn view(&self) -> Seq<char> {
        self.inner@
    }
}

impl ToResultErr {
    /// What the error says.
    pub fn message(&self) -> (r: String)
        ensures
            r@ == self@,
    {
        self.inner.clone()
    }
}

/// A value that stands for success or failure, read as a `Result`.
pub trait ToResult<V, E>: Sized {
    /// Whether the value stands for success.
    spec fn holds(&self) -> bool;

    fn to_result(self) -> (r: Result<V, E>)
        ensures
            r is Ok <==> self.holds(),
    ;
}

impl<T> ToResult<T, ToResultErr> for Option<T> {
    open spec fn holds(&self) -> bool {
        self is Some
    }

    /// What is there is handed on; what is not there is an error that
    /// says so.
    fn to_result(self) -> (r: Result<T, ToResultErr>)
        ensures
            match (self, r) {
                (Some(v), Ok(w)) => v == w,
                (None, Err(e)) => e@ == "unwrapping None value"@,
                _ => false,
            },
    {
        match self {
            Some(v) => Ok(v),
            None => Err(ToResultErr { inner: String::from_str("unwrapping None value") }),
        }
    }
}

/// A value that holds another, taken out without a test. Only a value
/// that is known to hold one may be asked.
pub trait ShortUnwrap<T>: Sized {
    /// Whether a value is held.
    spec fn present(&self) -> bool;

    /// The value that is held.
    spec fn held(&self) -> T;

    fn u(self) -> (r: T)
        requires
            self.present(),
        ensures
            r == self.held(),
    ;
}

impl<T, E: core::fmt::Debug> ShortUnwrap<T> for Result<T, E> {
    open spec fn present(&self) -> bool {
        self is Ok
    }

    open spec fn held(&self) -> T {
        self->Ok_0
    }

    fn u(self) -> (r: T) {
        self.unwrap()
    }
}

impl<T> ShortUnwrap<T> for Option<T> {
    open spec fn present(&self) -> bool {
        self is Some
    }

    open spec fn held(&self) -> T {
        self->Some_0
    }

    fn u(self) -> (r: T) {
        self.unwrap()
    }
}

} // verus!
