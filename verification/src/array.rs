//! Helper methods for working with arrays.

use vstd::prelude::*;
use vstd::std_specs::iter::IteratorSpec;

verus! {

/// Implemented by arrays of different lengths.
pub trait Array<T>: Sized {
    /// The components of the array, in order.
    spec fn components(&self) -> Seq<T>;

    /// The number of components of an array of this type.
    spec fn size() -> nat;

    /// Creates array from a function of each component index.
    fn from_fn<F>(f: F) -> (a: Self) where F: Fn(usize) -> T
        requires
            forall|i: usize| i < Self::size() ==> call_requires(f, (i,)),
        ensures
            a.components().len() == Self::size(),
            forall|i: usize|
                i < Self::size() ==> call_ensures(f, (i,), #[trigger] a.components()[i as int]),
    ;

    /// Creates an array from the first components that an iterator yields.
    /// The iterator must hold enough of them.
    fn from_iter<I: Iterator<Item = T>>(iter: I) -> (a: Self)
        requires
            iter.obeys_prophetic_iter_laws(),
            iter.remaining().len() >= Self::size(),
        ensures
            a.components() == iter.remaining().take(Self::size() as int),
    ;
}

/// Takes the next item of an iterator that is known to hold one.
fn take_next<T, I: Iterator<Item = T>>(iter: &mut I) -> (item: T)
    requires
        (*old(iter)).obeys_prophetic_iter_laws(),
        (*old(iter)).remaining().len() > 0,
    ensures
        (*final(iter)).obeys_prophetic_iter_laws(),
        (*final(iter)).remaining() == (*old(iter)).remaining().drop_first(),
        item == (*old(iter)).remaining()[0],
{
    let next = iter.next();
    next.unwrap()
}

impl<T> Array<T> for [T; 2] {
    open spec fn components(&self) -> Seq<T> {
        self@
    }

    open spec fn size() -> nat {
        2
    }

    fn from_fn<F>(f: F) -> (a: [T; 2]) where F: Fn(usize) -> T {
        [f(0), f(1)]
    }

    fn from_iter<I: Iterator<Item = T>>(iter: I) -> (a: [T; 2]) {
        let ghost all = iter.remaining();
        let mut iter = iter;
        assert(iter.remaining() =~= all.skip(0));
        let c0 = take_next(&mut iter);
        assert(iter.remaining() =~= all.skip(1));
        let c1 = take_next(&mut iter);
        assert(iter.remaining() =~= all.skip(2));
        let a = [c0, c1];
        assert(a@ =~= all.take(2));
        a
    }
}

/// An array with 2 components.
pub trait Array2<T>: Sized {
    /// The 2 components of the array, in order.
    spec fn components_2(self) -> Seq<T>;

    /// Converts array into another type,
    /// by executing a function for each component.
    fn map<U, F>(self, f: F) -> (r: [U; 2]) where F: Fn(T) -> U
        requires
            call_requires(f, (self.components_2()[0],)),
            call_requires(f, (self.components_2()[1],)),
        ensures
            call_ensures(f, (self.components_2()[0],), r@[0]),
            call_ensures(f, (self.components_2()[1],), r@[1]),
    ;

    /// Returns the `x` component.
    fn x(self) -> (c: T)
        ensures
            c == self.components_2()[0],
    ;

    /// Returns the `y` component.
    fn y(self) -> (c: T)
        ensures
            c == self.components_2()[1],
    ;
}

impl<T: Copy> Array2<T> for [T; 2] {
    open spec fn components_2(self) -> Seq<T> {
        self@
    }

    fn map<U, F>(self, f: F) -> (r: [U; 2]) where F: Fn(T) -> U {
        [f(self[0]), f(self[1])]
    }

    fn x(self) -> (c: T) {
        self[0]
    }

    fn y(self) -> (c: T) {
        self[1]
    }
}

impl<T> Array<T> for [T; 3] {
    open spec fn components(&self) -> Seq<T> {
        self@
    }

    open spec fn size() -> nat {
        3
    }

    fn from_fn<F>(f: F) -> (a: [T; 3]) where F: Fn(usize) -> T {
        [f(0), f(1), f(2)]
    }

    fn from_iter<I: Iterator<Item = T>>(iter: I) -> (a: [T; 3]) {
        let ghost all = iter.remaining();
        let mut iter = iter;
        assert(iter.remaining() =~= all.skip(0));
        let c0 = take_next(&mut iter);
        assert(iter.remaining() =~= all.skip(1));
        let c1 = take_next(&mut iter);
        assert(iter.remaining() =~= all.skip(2));
        let c2 = take_next(&mut iter);
        assert(iter.remaining() =~= all.skip(3));
        let a = [c0, c1, c2];
        assert(a@ =~= all.take(3));
        a
    }
}

/// An array with 3 components.
pub trait Array3<T>: Sized {
    /// The 3 components of the array, in order.
    spec fn components_3(self) -> Seq<T>;

    /// Converts array into another type,
    /// by executing a function for each component.
    fn map<U, F>(self, f: F) -> (r: [U; 3]) where F: Fn(T) -> U
        requires
            call_requires(f, (self.components_3()[0],)),
            call_requires(f, (self.components_3()[1],)),
            call_requires(f, (self.components_3()[2],)),
        ensures
            call_ensures(f, (self.components_3()[0],), r@[0]),
            call_ensures(f, (self.components_3()[1],), r@[1]),
            call_ensures(f, (self.components_3()[2],), r@[2]),
    ;

    /// Returns the `x` component.
    fn x(self) -> (c: T)
        ensures
            c == self.components_3()[0],
    ;

    /// Returns the `y` component.
    fn y(self) -> (c: T)
        ensures
            c == self.components_3()[1],
    ;

    /// Returns the `z` component.
    fn z(self) -> (c: T)
        ensures
            c == self.components_3()[2],
    ;
}

impl<T: Copy> Array3<T> for [T; 3] {
    open spec fn components_3(self) -> Seq<T> {
        self@
    }

    fn map<U, F>(self, f: F) -> (r: [U; 3]) where F: Fn(T) -> U {
        [f(self[0]), f(self[1]), f(self[2])]
    }

    fn x(self) -> (c: T) {
        self[0]
    }

    fn y(self) -> (c: T) {
        self[1]
    }

    fn z(self) -> (c: T) {
        self[2]
    }
}

impl<T> Array<T> for [T; 4] {
    open spec fn components(&self) -> Seq<T> {
        self@
    }

    open spec fn size() -> nat {
        4
    }

    fn from_fn<F>(f: F) -> (a: [T; 4]) where F: Fn(usize) -> T {
        [f(0), f(1), f(2), f(3)]
    }

    fn from_iter<I: Iterator<Item = T>>(iter: I) -> (a: [T; 4]) {
        let ghost all = iter.remaining();
        let mut iter = iter;
        assert(iter.remaining() =~= all.skip(0));
        let c0 = take_next(&mut iter);
        assert(iter.remaining() =~= all.skip(1));
        let c1 = take_next(&mut iter);
        assert(iter.remaining() =~= all.skip(2));
        let c2 = take_next(&mut iter);
        assert(iter.remaining() =~= all.skip(3));
        let c3 = take_next(&mut iter);
        assert(iter.remaining() =~= all.skip(4));
        let a = [c0, c1, c2, c3];
        assert(a@ =~= all.take(4));
        a
    }
}

/// An array with 4 components.
pub trait Array4<T>: Sized {
    /// The 4 components of the array, in order.
    spec fn components_4(self) -> Seq<T>;

    /// Converts array into another type,
    /// by executing a function for each component.
    fn map<U, F>(self, f: F) -> (r: [U; 4]) where F: Fn(T) -> U
        requires
            call_requires(f, (self.components_4()[0],)),
            call_requires(f, (self.components_4()[1],)),
            call_requires(f, (self.components_4()[2],)),
            call_requires(f, (self.components_4()[3],)),
        ensures
            call_ensures(f, (self.components_4()[0],), r@[0]),
            call_ensures(f, (self.components_4()[1],), r@[1]),
            call_ensures(f, (self.components_4()[2],), r@[2]),
            call_ensures(f, (self.components_4()[3],), r@[3]),
    ;

    /// Returns the `x` component.
    fn x(self) -> (c: T)
        ensures
            c == self.components_4()[0],
    ;

    /// Returns the `y` component.
    fn y(self) -> (c: T)
        ensures
            c == self.components_4()[1],
    ;

    /// Returns the `z` component.
    fn z(self) -> (c: T)
        ensures
            c == self.components_4()[2],
    ;

    /// Returns the `w` component.
    fn w(self) -> (c: T)
        ensures
            c == self.components_4()[3],
    ;
}

impl<T: Copy> Array4<T> for [T; 4] {
    open spec fn components_4(self) -> Seq<T> {
        self@
    }

    fn map<U, F>(self, f: F) -> (r: [U; 4]) where F: Fn(T) -> U {
        [f(self[0]), f(self[1]), f(self[2]), f(self[3])]
    }

    fn x(self) -> (c: T) {
        self[0]
    }

    fn y(self) -> (c: T) {
        self[1]
    }

    fn z(self) -> (c: T) {
        self[2]
    }

    fn w(self) -> (c: T) {
        self[3]
    }
}

impl<T> Array<T> for [T; 16] {
    open spec fn components(&self) -> Seq<T> {
        self@
    }

    open spec fn size() -> nat {
        16
    }

    fn from_fn<F>(f: F) -> (a: [T; 16]) where F: Fn(usize) -> T {
        [f(0), f(1), f(2), f(3), f(4), f(5), f(6), f(7), f(8), f(9), f(10), f(11), f(12), f(13), f(14), f(15)]
    }

    fn from_iter<I: Iterator<Item = T>>(iter: I) -> (a: [T; 16]) {
        let ghost all = iter.remaining();
        let mut iter = iter;
        assert(iter.remaining() =~= all.skip(0));
        let c0 = take_next(&mut iter);
        assert(iter.remaining() =~= all.skip(1));
        let c1 = take_next(&mut iter);
        assert(iter.remaining() =~= all.skip(2));
        let c2 = take_next(&mut iter);
        assert(iter.remaining() =~= all.skip(3));
        let c3 = take_next(&mut iter);
        assert(iter.remaining() =~= all.skip(4));
        let c4 = take_next(&mut iter);
        assert(iter.remaining() =~= all.skip(5));
        let c5 = take_next(&mut iter);
        assert(iter.remaining() =~= all.skip(6));
        let c6 = take_next(&mut iter);
        assert(iter.remaining() =~= all.skip(7));
        let c7 = take_next(&mut iter);
        assert(iter.remaining() =~= all.skip(8));
        let c8 = take_next(&mut iter);
        assert(iter.remaining() =~= all.skip(9));
        let c9 = take_next(&mut iter);
        assert(iter.remaining() =~= all.skip(10));
        let c10 = take_next(&mut iter);
        assert(iter.remaining() =~= all.skip(11));
        let c11 = take_next(&mut iter);
        assert(iter.remaining() =~= all.skip(12));
        let c12 = take_next(&mut iter);
        assert(iter.remaining() =~= all.skip(13));
        let c13 = take_next(&mut iter);
        assert(iter.remaining() =~= all.skip(14));
        let c14 = take_next(&mut iter);
        assert(iter.remaining() =~= all.skip(15));
        let c15 = take_next(&mut iter);
        assert(iter.remaining() =~= all.skip(16));
        let a = [c0, c1, c2, c3, c4, c5, c6, c7, c8, c9, c10, c11, c12, c13, c14, c15];
        assert(a@ =~= all.take(16));
        a
    }
}

} // verus!
