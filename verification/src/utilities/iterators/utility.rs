//! Streams: finite, one-shot, forward-only sequences of items.

use vstd::prelude::*;

verus! {

/// The first item of a sequence, if there is one.
pub open spec fn head_of<T>(s: Seq<T>) -> Option<T> {
    if s.len() > 0 {
        Some(s[0])
    } else {
        None
    }
}

/// What is left of a sequence once its first item is taken.
pub open spec fn tail_of<T>(s: Seq<T>) -> Seq<T> {
    if s.len() > 0 {
        s.skip(1)
    } else {
        s
    }
}

/// A finite, one-shot, forward-only sequence of items.
///
/// A stream is described by the items it has yet to yield, `remaining()`.
/// Each call of `next` hands out the first of them.
pub trait Stream {
    type Item;

    /// The stream's internal state is consistent.
    spec fn valid(&self) -> bool;

    /// The items yet to come, in the order in which they will come.
    spec fn remaining(&self) -> Seq<Self::Item>;

    /// Take the next item, or `None` when the stream is exhausted.
    fn next(&mut self) -> (r: Option<Self::Item>)
        requires
            old(self).valid(),
        ensures
            final(self).valid(),
            r == head_of(old(self).remaining()),
            final(self).remaining() == tail_of(old(self).remaining()),
    ;

    /// What `size_hint` reports of the stream as it stands.
    spec fn hint(&self) -> (usize, Option<usize>);

    /// Bounds on the number of items yet to come: a lower bound and, if one
    /// is known, an upper bound.
    fn size_hint(&self) -> (r: (usize, Option<usize>))
        requires
            self.valid(),
        ensures
            r == self.hint(),
            within_hint(self.remaining().len(), r),
    ;
}

/// `n` respects the bounds of `hint`.
pub open spec fn within_hint(n: nat, hint: (usize, Option<usize>)) -> bool {
    &&& hint.0 <= n
    &&& match hint.1 {
        Some(upper) => n <= upper,
        None => true,
    }
}

/// A hint increased by `x`: the lower bound saturates, the upper bound is
/// lost if it overflows.
pub open spec fn hint_plus(sh: (usize, Option<usize>), x: int) -> (usize, Option<usize>) {
    (
        if sh.0 + x <= usize::MAX {
            (sh.0 + x) as usize
        } else {
            usize::MAX
        },
        match sh.1 {
            Some(upper) => if upper + x <= usize::MAX {
                Some((upper + x) as usize)
            } else {
                None
            },
            None => None,
        },
    )
}

/// The sum of two hints: the lower bound saturates, the upper bound is lost
/// if either is unknown or the sum overflows.
pub open spec fn hint_sum(a: (usize, Option<usize>), b: (usize, Option<usize>)) -> (
    usize,
    Option<usize>,
) {
    match b.1 {
        Some(upper) => (hint_plus(a, b.0 as int).0, hint_plus(a, upper as int).1),
        None => (hint_plus(a, b.0 as int).0, None),
    }
}

/// Add **x** correctly to a **SizeHint**.
pub fn hacked_size_hint_add_scalar(sh: (usize, Option<usize>), x: usize) -> (r: (
    usize,
    Option<usize>,
))
    ensures
        r == hint_plus(sh, x as int),
{
    let (low, hi) = sh;
    let low = low.saturating_add(x);
    let hi = match hi {
        Some(elt) => elt.checked_add(x),
        None => None,
    };
    (low, hi)
}

/// Add **SizeHint** correctly.
pub fn hacked_size_hint_add(a: (usize, Option<usize>), b: (usize, Option<usize>)) -> (r: (
    usize,
    Option<usize>,
))
    ensures
        r == hint_sum(a, b),
{
    let min = match a.0.checked_add(b.0) {
        Some(sum) => sum,
        None => usize::MAX,
    };
    let max = match (a.1, b.1) {
        (Some(x), Some(y)) => x.checked_add(y),
        _ => None,
    };
    (min, max)
}

/// Streams that let one look at the next item without taking it.
pub trait PeekUnqualified: Stream {
    /// A reference to the item that `next` would return; the stream yields the
    /// same items afterwards as it would have before.
    fn peek_unqualified(&mut self) -> (r: Option<&Self::Item>)
        requires
            old(self).valid(),
        ensures
            final(self).valid(),
            final(self).remaining() == old(self).remaining(),
            match r {
                Some(x) => old(self).remaining().len() > 0 && *x == old(self).remaining()[0],
                None => old(self).remaining().len() == 0,
            },
    ;
}

/// Append to `buffer` all the items that a stream has yet to yield.
pub fn extend<S: Stream>(buffer: &mut Vec<S::Item>, stream: S)
    requires
        stream.valid(),
    ensures
        final(buffer)@ == old(buffer)@ + stream.remaining(),
{
    let mut stream = stream;
    let ghost all = stream.remaining();
    let ghost start = buffer@;
    assert(buffer@ + stream.remaining() =~= start + all);
    loop
        invariant
            stream.valid(),
            buffer@ + stream.remaining() == start + all,
        ensures
            buffer@ == start + all,
        decreases stream.remaining().len(),
    {
        let ghost before = buffer@;
        let ghost rest = stream.remaining();
        match stream.next() {
            Some(x) => {
                buffer.push(x);
                assert(buffer@ + stream.remaining() =~= before + rest);
            },
            None => {
                assert(buffer@ + rest =~= buffer@);
                break ;
            },
        }
    }
}

/// Drain a stream into a vector.
pub fn collect<S: Stream>(stream: S) -> (r: Vec<S::Item>)
    requires
        stream.valid(),
    ensures
        r@ == stream.remaining(),
{
    let mut out: Vec<S::Item> = Vec::new();
    extend(&mut out, stream);
    assert(Seq::<S::Item>::empty() + stream.remaining() =~= stream.remaining());
    out
}

/// A stream over the items of a vector, first to last.
#[derive(Debug, Clone)]
pub struct VecStream<T> {
    items: Vec<T>,
    position: usize,
}

impl<T: Copy> VecStream<T> {
    /// A stream that yields the items of `items` in order.
    pub fn new(items: Vec<T>) -> (r: Self)
        ensures
            r.valid(),
            r.remaining() == items@,
    {
        VecStream { items, position: 0 }
    }
}

impl<T: Copy> Stream for VecStream<T> {
    type Item = T;

    closed spec fn valid(&self) -> bool {
        self.position <= self.items@.len()
    }

    closed spec fn remaining(&self) -> Seq<T> {
        self.items@.skip(self.position as int)
    }

    /// The number of items yet to come, as lower and as upper bound.
    open spec fn hint(&self) -> (usize, Option<usize>) {
        (self.remaining().len() as usize, Some(self.remaining().len() as usize))
    }

    fn next(&mut self) -> (r: Option<T>) {
        if self.position < self.items.len() {
            let x = self.items[self.position];
            self.position = self.position + 1;
            assert(self.items@.skip(self.position as int) =~= old(self).items@.skip(
                old(self).position as int,
            ).skip(1));
            Some(x)
        } else {
            None
        }
    }

    fn size_hint(&self) -> (r: (usize, Option<usize>))
        ensures
            r == (self.remaining().len() as usize, Some(self.remaining().len() as usize)),
    {
        let n = self.items.len() - self.position;
        (n, Some(n))
    }
}

/// A stream over copies of the items of a borrowed vector, first to last.
#[derive(Debug, Clone)]
pub struct SliceStream<'a, T> {
    items: &'a Vec<T>,
    position: usize,
}

impl<'a, T: Copy> SliceStream<'a, T> {
    /// A stream that yields copies of the items of `items` in order.
    pub fn new(items: &'a Vec<T>) -> (r: Self)
        ensures
            r.valid(),
            r.remaining() == items@,
    {
        SliceStream { items, position: 0 }
    }
}

impl<'a, T: Copy> Stream for SliceStream<'a, T> {
    type Item = T;

    closed spec fn valid(&self) -> bool {
        self.position <= self.items@.len()
    }

    closed spec fn remaining(&self) -> Seq<T> {
        self.items@.skip(self.position as int)
    }

    /// The number of items yet to come, as lower and as upper bound.
    open spec fn hint(&self) -> (usize, Option<usize>) {
        (self.remaining().len() as usize, Some(self.remaining().len() as usize))
    }

    fn next(&mut self) -> (r: Option<T>) {
        if self.position < self.items.len() {
            let x = self.items[self.position];
            self.position = self.position + 1;
            assert(self.items@.skip(self.position as int) =~= old(self).items@.skip(
                old(self).position as int,
            ).skip(1));
            Some(x)
        } else {
            None
        }
    }

    fn size_hint(&self) -> (r: (usize, Option<usize>))
        ensures
            r == (self.remaining().len() as usize, Some(self.remaining().len() as usize)),
    {
        let n = self.items.len() - self.position;
        (n, Some(n))
    }
}

/// A stream over copies of the items of a borrowed vector, last to first.
#[derive(Debug, Clone)]
pub struct RevSliceStream<'a, T> {
    items: &'a Vec<T>,
    left: usize,
}

impl<'a, T: Copy> RevSliceStream<'a, T> {
    /// A stream that yields copies of the items of `items` in reverse order.
    pub fn new(items: &'a Vec<T>) -> (r: Self)
        ensures
            r.valid(),
            r.remaining() == items@.reverse(),
    {
        let r = RevSliceStream { items, left: items.len() };
        assert(items@.take(items@.len() as int) =~= items@);
        r
    }
}

impl<'a, T: Copy> Stream for RevSliceStream<'a, T> {
    type Item = T;

    closed spec fn valid(&self) -> bool {
        self.left <= self.items@.len()
    }

    closed spec fn remaining(&self) -> Seq<T> {
        self.items@.take(self.left as int).reverse()
    }

    /// The number of items yet to come, as lower and as upper bound.
    open spec fn hint(&self) -> (usize, Option<usize>) {
        (self.remaining().len() as usize, Some(self.remaining().len() as usize))
    }

    fn next(&mut self) -> (r: Option<T>) {
        if self.left > 0 {
            self.left = self.left - 1;
            let x = self.items[self.left];
            assert(self.items@.take(self.left as int).reverse() =~= old(self).items@.take(
                old(self).left as int,
            ).reverse().skip(1));
            Some(x)
        } else {
            None
        }
    }

    fn size_hint(&self) -> (r: (usize, Option<usize>))
        ensures
            r == (self.remaining().len() as usize, Some(self.remaining().len() as usize)),
    {
        (self.left, Some(self.left))
    }
}

/// A stream that yields one item, once.
#[derive(Debug, Clone)]
pub struct OnceStream<T> {
    item: Option<T>,
}

impl<T> OnceStream<T> {
    /// A stream that yields `item` and nothing else.
    pub fn new(item: T) -> (r: Self)
        ensures
            r.valid(),
            r.remaining() == seq![item],
    {
        OnceStream { item: Some(item) }
    }
}

impl<T> Stream for OnceStream<T> {
    type Item = T;

    closed spec fn valid(&self) -> bool {
        true
    }

    closed spec fn remaining(&self) -> Seq<T> {
        match self.item {
            Some(x) => seq![x],
            None => Seq::empty(),
        }
    }

    /// The number of items yet to come, as lower and as upper bound.
    open spec fn hint(&self) -> (usize, Option<usize>) {
        (self.remaining().len() as usize, Some(self.remaining().len() as usize))
    }

    fn next(&mut self) -> (r: Option<T>) {
        let r = self.item.take();
        proof {
            if r is Some {
                assert(seq![r->0].skip(1) =~= Seq::<T>::empty());
            }
        }
        r
    }

    fn size_hint(&self) -> (r: (usize, Option<usize>))
        ensures
            r == (self.remaining().len() as usize, Some(self.remaining().len() as usize)),
    {
        if self.item.is_some() {
            (1, Some(1))
        } else {
            (0, Some(0))
        }
    }
}

/// A stream with one item of lookahead.
#[derive(Debug, Clone)]
pub struct Peekable<S: Stream> {
    stream: S,
    front: Option<S::Item>,
}

impl<S: Stream> Peekable<S> {
    /// The wrapped stream, as far as it has been advanced.
    pub closed spec fn source(&self) -> S {
        self.stream
    }

    /// The item that has been taken from the wrapped stream to be looked
    /// at, and has not been handed out yet.
    pub closed spec fn ahead(&self) -> Option<S::Item> {
        self.front
    }

    /// Wrap a stream so that its next item can be looked at.
    pub fn new(stream: S) -> (r: Self)
        requires
            stream.valid(),
        ensures
            r.valid(),
            r.remaining() == stream.remaining(),
            r.source() == stream,
            r.ahead() is None,
    {
        Peekable { stream, front: None }
    }
}

impl<S: Stream> Stream for Peekable<S> {
    type Item = S::Item;

    closed spec fn valid(&self) -> bool {
        self.stream.valid()
    }

    closed spec fn remaining(&self) -> Seq<S::Item> {
        match self.front {
            Some(x) => seq![x] + self.stream.remaining(),
            None => self.stream.remaining(),
        }
    }

    /// The hint of the wrapped stream, increased by one if an item has been
    /// taken from it to be looked at.
    open spec fn hint(&self) -> (usize, Option<usize>) {
        if self.ahead() is Some {
            hint_plus(self.source().hint(), 1)
        } else {
            self.source().hint()
        }
    }

    fn next(&mut self) -> (r: Option<S::Item>) {
        match self.front.take() {
            Some(x) => {
                assert((seq![x] + self.stream.remaining()).skip(1) =~= self.stream.remaining());
                Some(x)
            },
            None => self.stream.next(),
        }
    }

    fn size_hint(&self) -> (r: (usize, Option<usize>)) {
        let inner = self.stream.size_hint();
        if self.front.is_some() {
            hacked_size_hint_add_scalar(inner, 1)
        } else {
            inner
        }
    }
}

impl<S: Stream> PeekUnqualified for Peekable<S> {
    fn peek_unqualified(&mut self) -> (r: Option<&S::Item>) {
        if self.front.is_none() {
            self.front = self.stream.next();
            assert(self.remaining() =~= old(self).remaining());
        }
        self.front.as_ref()
    }
}

} // verus!
