//! Conversions that operands undergo when they are packed.

use vstd::prelude::*;

verus! {

/// An element conversion from the stored to the computing precision.
pub trait Convert<T, C> {
    /// `y` is a possible conversion of `x`.
    spec fn converts(&self, x: T, y: C) -> bool;

    /// The conversion can be applied to every element.
    spec fn ready(&self) -> bool;

    /// Converts one element.
    fn convert(&self, x: T) -> (y: C)
        requires
            self.ready(),
        ensures
            self.converts(x, y),
    ;

    /// Converts a run of neighbouring elements.
    fn convert_run(&self, src: &[T]) -> (out: Vec<C>)
        requires
            self.ready(),
        ensures
            out@.len() == src@.len(),
            forall|i: int| 0 <= i < src@.len() ==> self.converts(src@[i], #[trigger] out@[i]),
    ;
}

/// Keeps every element as it is.
#[derive(Clone, Copy, Debug)]
pub struct Keep;

impl<T: Copy> Convert<T, T> for Keep {
    open spec fn converts(&self, x: T, y: T) -> bool {
        x == y
    }

    open spec fn ready(&self) -> bool {
        true
    }

    fn convert(&self, x: T) -> (y: T) {
        x
    }

    fn convert_run(&self, src: &[T]) -> (out: Vec<T>) {
        let mut out: Vec<T> = Vec::new();
        let mut i: usize = 0;
        while i < src.len()
            invariant
                i <= src@.len(),
                out@ == src@.take(i as int),
            decreases src@.len() - i,
        {
            out.push(src[i]);
            i = i + 1;
        }
        out
    }
}

/// Converts by two given functions: one for a single element, one for a run of elements.
pub struct Through<F, G> {
    pub one: F,
    pub run: G,
}

/// `y` is a possible conversion of `x` by one of the two functions.
pub open spec fn through_converts<T, C, F: Fn(T) -> C, G: for <'a>Fn(&'a [T]) -> Vec<C>>(
    through: Through<F, G>,
    x: T,
    y: C,
) -> bool {
    call_ensures(through.one, (x,), y) || exists|src: &[T], out: Vec<C>, i: int|
        #![trigger call_ensures(through.run, (src,), out), src@[i]]
        call_ensures(through.run, (src,), out) && 0 <= i < src@.len() && src@[i] == x && out@[i]
            == y
}

/// The two functions can be applied to all elements and runs, and keep the length of a run.
pub open spec fn through_ready<T, C, F: Fn(T) -> C, G: for <'a>Fn(&'a [T]) -> Vec<C>>(
    through: Through<F, G>,
) -> bool {
    &&& forall|x: T| call_requires(through.one, (x,))
    &&& forall|src: &[T]| call_requires(through.run, (src,))
    &&& forall|src: &[T], out: Vec<C>|
        call_ensures(through.run, (src,), out) ==> out@.len() == src@.len()
}

impl<T: Copy, C, F: Fn(T) -> C, G: for <'a>Fn(&'a [T]) -> Vec<C>> Convert<T, C> for Through<F, G> {
    open spec fn converts(&self, x: T, y: C) -> bool {
        through_converts(*self, x, y)
    }

    open spec fn ready(&self) -> bool {
        through_ready::<T, C, F, G>(*self)
    }

    fn convert(&self, x: T) -> (y: C) {
        (self.one)(x)
    }

    fn convert_run(&self, src: &[T]) -> (out: Vec<C>) {
        let out = (self.run)(src);
        assert forall|i: int| 0 <= i < src@.len() implies self.converts(
            src@[i],
            #[trigger] out@[i],
        ) by {
            assert(src@[i] == src@[i]);
        }
        out
    }
}

/// What [`Through`] converts, and when it can.
pub proof fn lemma_through<T: Copy, C, F: Fn(T) -> C, G: for <'a>Fn(&'a [T]) -> Vec<C>>(
    through: Through<F, G>,
)
    ensures
        Convert::<T, C>::ready(&through) == through_ready::<T, C, F, G>(through),
        forall|x: T, y: C| #[trigger]
            Convert::<T, C>::converts(&through, x, y) == through_converts(through, x, y),
{
}

/// [`Keep`] keeps every element, and keeps a run in order.
pub proof fn law_keep<T: Copy>(keep: Keep, x: T, src: &[T])
    ensures
        forall|y: T| #[trigger]
            call_ensures(<Keep as Convert<T, T>>::convert, (&keep, x), y) ==> y == x,
        forall|out: Vec<T>| #[trigger]
            call_ensures(<Keep as Convert<T, T>>::convert_run, (&keep, src), out) ==> out@ == src@,
{
    assert forall|out: Vec<T>| #[trigger]
        call_ensures(<Keep as Convert<T, T>>::convert_run, (&keep, src), out) implies out@
        == src@ by {
        assert forall|i: int| 0 <= i < src@.len() implies out@[i] == src@[i] by {
            assert(Convert::<T, T>::converts(&keep, src@[i], out@[i]));
        }
    }
}

} // verus!
