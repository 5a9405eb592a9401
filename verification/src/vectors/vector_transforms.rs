//! Transformations on sparse vector streams: [`Gather`], [`Scale`], [`DropZeros`].

use vstd::prelude::*;
use vstd::laws_eq::obeys_concrete_eq;
use crate::rings::ring::{product_is_associative, sum_is_associative, Semiring};
use crate::utilities::iterators::utility::{head_of, tail_of, PeekUnqualified, Stream};
use crate::vector_entries::vector_entries::{KeyValGet, KeyValSet};

verus! {

//  ---------------------------------------------------------------------------
//  WHAT THE TRANSFORMATIONS COMPUTE
//  ---------------------------------------------------------------------------
/// The entries of `s` with every coefficient multiplied (on the right) by
/// `factor`.
pub open spec fn scaled<E: KeyValSet, R: Semiring<E::Val>>(
    ring: R,
    s: Seq<E>,
    factor: E::Val,
) -> Seq<E> {
    Seq::new(s.len(), |i: int| s[i].with_val(ring.product(s[i].val_of(), factor)))
}

/// The entries of `s` whose coefficient is not zero, in the order in which they stand.
pub open spec fn without_zeros<E: KeyValGet, R: Semiring<E::Val>>(ring: R, s: Seq<E>) -> Seq<E> {
    s.filter(|e: E| !ring.is_zero(e.val_of()))
}

/// The entries of `s` with every run of consecutive entries that share a key
/// merged into one entry: the first of the run, whose coefficient becomes
/// the sum of the run's coefficients, added up from left to right.
pub open spec fn gathered<E: KeyValSet, R: Semiring<E::Val>>(ring: R, s: Seq<E>) -> Seq<E>
    decreases s.len(),
{
    if s.len() == 0 {
        s
    } else if s.len() >= 2 && s[1].key_of() == s[0].key_of() {
        gathered(ring, absorb_second(ring, s))
    } else {
        seq![s[0]] + gathered(ring, s.skip(1))
    }
}

/// `s` with its second entry added into its first.
pub open spec fn absorb_second<E: KeyValSet, R: Semiring<E::Val>>(ring: R, s: Seq<E>) -> Seq<E>
    recommends
        s.len() >= 2,
{
    seq![s[0].with_val(ring.sum(s[0].val_of(), s[1].val_of()))] + s.skip(2)
}

//  ---------------------------------------------------------------------------
//  LAWS
//  ---------------------------------------------------------------------------
/// Scaling by `a` and then by `b` is scaling by `a * b`, entry by entry,
/// when multiplication is associative.
pub proof fn scale_twice_is_scale_by_product<E: KeyValSet, R: Semiring<E::Val>>(
    ring: R,
    s: Seq<E>,
    a: E::Val,
    b: E::Val,
)
    requires
        product_is_associative(ring),
    ensures
        scaled(ring, scaled(ring, s, a), b) == scaled(ring, s, ring.product(a, b)),
{
    let once = scaled(ring, s, a);
    let twice = scaled(ring, once, b);
    let direct = scaled(ring, s, ring.product(a, b));
    assert forall|i: int| 0 <= i < s.len() implies twice[i] == direct[i] by {
        let v = s[i].val_of();
        s[i].with_val_laws(ring.product(v, a), ring.product(ring.product(v, a), b));
        assert(ring.product(ring.product(v, a), b) == ring.product(v, ring.product(a, b)));
    }
    assert(twice =~= direct);
}

/// Scaling changes no key and keeps every entry in its place.
pub proof fn scale_keeps_keys<E: KeyValSet, R: Semiring<E::Val>>(ring: R, s: Seq<E>, a: E::Val)
    ensures
        scaled(ring, s, a).len() == s.len(),
        forall|i: int|
            0 <= i < s.len() ==> (#[trigger] scaled(ring, s, a)[i]).key_of() == s[i].key_of(),
        forall|i: int|
            0 <= i < s.len() ==> (#[trigger] scaled(ring, s, a)[i]).val_of() == ring.product(
                s[i].val_of(),
                a,
            ),
{
    assert forall|i: int| 0 <= i < s.len() implies (#[trigger] scaled(ring, s, a)[i]).key_of()
        == s[i].key_of() && scaled(ring, s, a)[i].val_of() == ring.product(s[i].val_of(), a) by {
        s[i].with_val_laws(ring.product(s[i].val_of(), a), a);
    }
}

/// Dropping zeros a second time changes nothing.
pub proof fn drop_zeros_is_idempotent<E: KeyValGet, R: Semiring<E::Val>>(ring: R, s: Seq<E>)
    ensures
        without_zeros(ring, without_zeros(ring, s)) == without_zeros(ring, s),
    decreases s.len(),
{
    lemma_without_zeros_step(ring, s);
    if s.len() > 0 {
        drop_zeros_is_idempotent(ring, s.skip(1));
        if !ring.is_zero(s[0].val_of()) {
            let kept = seq![s[0]] + without_zeros(ring, s.skip(1));
            lemma_without_zeros_step(ring, kept);
            assert(kept.skip(1) =~= without_zeros(ring, s.skip(1)));
        }
    } else {
        lemma_without_zeros_step(ring, Seq::<E>::empty());
    }
}

/// Three consecutive entries with one key gather into one entry whose
/// coefficient is their sum; when addition is associative, it does not matter
/// whether the first two or the last two are gathered first.
pub proof fn gather_run_of_three<E: KeyValSet, R: Semiring<E::Val>>(ring: R, x: E, y: E, z: E)
    requires
        x.key_of() == y.key_of(),
        y.key_of() == z.key_of(),
        sum_is_associative(ring),
    ensures
        gathered(ring, seq![x, y, z]) == seq![
            x.with_val(ring.sum(ring.sum(x.val_of(), y.val_of()), z.val_of())),
        ],
        gathered(ring, seq![x, y, z]) == seq![
            x.with_val(ring.sum(x.val_of(), ring.sum(y.val_of(), z.val_of()))),
        ],
        gathered(ring, gathered(ring, seq![x, y]) + seq![z]) == gathered(ring, seq![x, y, z]),
        gathered(ring, seq![x] + gathered(ring, seq![y, z])) == gathered(ring, seq![x, y, z]),
{
    let xy = x.with_val(ring.sum(x.val_of(), y.val_of()));
    let yz = y.with_val(ring.sum(y.val_of(), z.val_of()));
    let xyz = xy.with_val(ring.sum(xy.val_of(), z.val_of()));
    x.with_val_laws(ring.sum(x.val_of(), y.val_of()), ring.sum(xy.val_of(), z.val_of()));
    y.with_val_laws(ring.sum(y.val_of(), z.val_of()), z.val_of());
    x.with_val_laws(ring.sum(x.val_of(), yz.val_of()), z.val_of());
    lemma_gathered_one(ring, xyz);
    lemma_gathered_one(ring, xy);
    lemma_gathered_one(ring, yz);
    lemma_gathered_pair(ring, x, y);
    lemma_gathered_pair(ring, y, z);
    lemma_gathered_pair(ring, xy, z);
    lemma_gathered_pair(ring, x, yz);
    assert(absorb_second(ring, seq![x, y, z]) =~= seq![xy, z]);
    assert(seq![xy] + seq![z] =~= seq![xy, z]);
    assert(seq![x] + seq![yz] =~= seq![x, yz]);
    assert(ring.sum(ring.sum(x.val_of(), y.val_of()), z.val_of()) == ring.sum(
        x.val_of(),
        ring.sum(y.val_of(), z.val_of()),
    ));
}

/// A single entry gathers into itself.
pub proof fn lemma_gathered_one<E: KeyValSet, R: Semiring<E::Val>>(ring: R, x: E)
    ensures
        gathered(ring, seq![x]) == seq![x],
{
    reveal_with_fuel(gathered, 2);
    assert(seq![x].skip(1) =~= Seq::<E>::empty());
    assert(seq![x] + Seq::<E>::empty() =~= seq![x]);
}

/// Two entries with one key gather into the first, holding their sum.
pub proof fn lemma_gathered_pair<E: KeyValSet, R: Semiring<E::Val>>(ring: R, x: E, y: E)
    requires
        x.key_of() == y.key_of(),
    ensures
        gathered(ring, seq![x, y]) == seq![x.with_val(ring.sum(x.val_of(), y.val_of()))],
{
    let xy = x.with_val(ring.sum(x.val_of(), y.val_of()));
    lemma_gathered_one(ring, xy);
    assert(absorb_second(ring, seq![x, y]) =~= seq![xy]);
}

//  ---------------------------------------------------------------------------
//  DROP ZEROS
//  ---------------------------------------------------------------------------
/// Iterates over the same items as the stream it wraps, skipping any items
/// with coefficient 0.
///
/// Formally, we skip any item `x` such that `ring.is_0( x.val() )==true`.
#[derive(Debug, Clone)]
pub struct DropZeros<Sprs, Ring> where
    Sprs: Stream,
    Sprs::Item: KeyValGet,
    Ring: Semiring<<Sprs::Item as KeyValGet>::Val>,
 {
    undropped: Sprs,
    ring: Ring,
}

impl<Sprs, Ring> DropZeros<Sprs, Ring> where
    Sprs: Stream,
    Sprs::Item: KeyValGet,
    Ring: Semiring<<Sprs::Item as KeyValGet>::Val>,
 {
    /// The wrapped stream, as far as it has been advanced.
    pub closed spec fn source(&self) -> Sprs {
        self.undropped
    }
}

impl<Sprs, Ring> Stream for DropZeros<Sprs, Ring> where
    Sprs: Stream,
    Sprs::Item: KeyValGet,
    Ring: Semiring<<Sprs::Item as KeyValGet>::Val>,
 {
    type Item = Sprs::Item;

    closed spec fn valid(&self) -> bool {
        self.undropped.valid()
    }

    closed spec fn remaining(&self) -> Seq<Sprs::Item> {
        without_zeros(self.ring, self.undropped.remaining())
    }

    /// No lower bound, since any item may be dropped; the upper bound of the
    /// wrapped stream.
    open spec fn hint(&self) -> (usize, Option<usize>) {
        (0, self.source().hint().1)
    }

    fn next(&mut self) -> (r: Option<Sprs::Item>) {
        let mut next = self.undropped.next();
        proof {
            let all = old(self).undropped.remaining();
            lemma_without_zeros_step(self.ring, all);
            if all.len() > 0 {
                assert(seq![all[0]] + self.undropped.remaining() =~= all);
            }
        }
        loop
            invariant
                self.ring == old(self).ring,
                self.undropped.valid(),
                without_zeros(self.ring, old(self).undropped.remaining()) == match next {
                    Some(x) => without_zeros(
                        self.ring,
                        seq![x] + self.undropped.remaining(),
                    ),
                    None => Seq::<Sprs::Item>::empty(),
                },
                next is None ==> self.undropped.remaining().len() == 0,
            ensures
                self.ring == old(self).ring,
                self.undropped.valid(),
                next == head_of(without_zeros(self.ring, old(self).undropped.remaining())),
                without_zeros(self.ring, self.undropped.remaining()) == tail_of(
                    without_zeros(self.ring, old(self).undropped.remaining()),
                ),
            decreases self.undropped.remaining().len() + (if next is Some { 1nat } else { 0nat }),
        {
            match &next {
                Some(x) => {
                    let ghost before = seq![*x] + self.undropped.remaining();
                    proof {
                        lemma_without_zeros_step(self.ring, before);
                        assert(before.skip(1) =~= self.undropped.remaining());
                    }
                    if self.ring.is_0(x.val()) {
                        let ghost rest = self.undropped.remaining();
                        next = self.undropped.next();
                        proof {
                            lemma_without_zeros_step(self.ring, rest);
                            if rest.len() > 0 {
                                assert(seq![rest[0]] + self.undropped.remaining() =~= rest);
                            }
                        }
                    } else {
                        proof {
                            let rest = without_zeros(self.ring, self.undropped.remaining());
                            assert((seq![*x] + rest).skip(1) =~= rest);
                        }
                        break ;
                    }
                },
                None => {
                    proof {
                        lemma_without_zeros_step(self.ring, self.undropped.remaining());
                    }
                    break ;
                },
            }
        }
        next
    }

    fn size_hint(&self) -> (r: (usize, Option<usize>)) {
        let (_, upper) = self.undropped.size_hint();
        proof {
            self.undropped.remaining().lemma_filter_len(
                |e: Sprs::Item| !self.ring.is_zero(e.val_of()),
            );
        }
        (0, upper)  // can't know a lower bound, due to the predicate
    }
}

/// How `without_zeros` treats the first entry of a sequence.
pub proof fn lemma_without_zeros_step<E: KeyValGet, R: Semiring<E::Val>>(ring: R, s: Seq<E>)
    ensures
        s.len() == 0 ==> without_zeros(ring, s) == Seq::<E>::empty(),
        s.len() > 0 && ring.is_zero(s[0].val_of()) ==> without_zeros(ring, s) == without_zeros(
            ring,
            s.skip(1),
        ),
        s.len() > 0 && !ring.is_zero(s[0].val_of()) ==> without_zeros(ring, s) == seq![s[0]]
            + without_zeros(ring, s.skip(1)),
{
    let keep = |e: E| !ring.is_zero(e.val_of());
    if s.len() == 0 {
        assert(s.filter(keep) =~= Seq::<E>::empty()) by {
            reveal(Seq::filter);
        }
    } else {
        let first = seq![s[0]];
        assert(s =~= first + s.skip(1));
        Seq::filter_distributes_over_add(first, s.skip(1), keep);
        reveal_with_fuel(Seq::filter, 2);
        assert(first.drop_last() =~= Seq::<E>::empty());
        assert(first.filter(keep) =~= if keep(s[0]) {
            first
        } else {
            Seq::<E>::empty()
        });
        if !keep(s[0]) {
            assert(Seq::<E>::empty() + s.skip(1).filter(keep) =~= s.skip(1).filter(keep));
        }
    }
}

/// How `without_zeros` treats the last entry of a sequence.
pub proof fn lemma_without_zeros_push<E: KeyValGet, R: Semiring<E::Val>>(ring: R, s: Seq<E>, x: E)
    ensures
        without_zeros(ring, s.push(x)) == if ring.is_zero(x.val_of()) {
            without_zeros(ring, s)
        } else {
            without_zeros(ring, s).push(x)
        },
{
    s.lemma_filter_push(x, |e: E| !ring.is_zero(e.val_of()));
}

//  ---------------------------------------------------------------------------
//  SCALE
//  ---------------------------------------------------------------------------
/// Iterates over the same items as the stream it wraps, with all coefficients
/// scaled by a fixed factor.
pub struct Scale<Sprs, Ring> where
    Sprs: Stream,
    Sprs::Item: KeyValGet + KeyValSet,
    Ring: Semiring<<Sprs::Item as KeyValGet>::Val>,
    <Sprs::Item as KeyValGet>::Val: Copy,
 {
    unscaled: Sprs,
    ring: Ring,
    scale: <Sprs::Item as KeyValGet>::Val,
}

impl<Sprs, Ring> Scale<Sprs, Ring> where
    Sprs: Stream,
    Sprs::Item: KeyValGet + KeyValSet,
    Ring: Semiring<<Sprs::Item as KeyValGet>::Val>,
    <Sprs::Item as KeyValGet>::Val: Copy,
 {
    /// The wrapped stream, as far as it has been advanced.
    pub closed spec fn source(&self) -> Sprs {
        self.unscaled
    }
}

impl<Sprs, Ring> Stream for Scale<Sprs, Ring> where
    Sprs: Stream,
    Sprs::Item: KeyValGet + KeyValSet,
    Ring: Semiring<<Sprs::Item as KeyValGet>::Val>,
    <Sprs::Item as KeyValGet>::Val: Copy,
 {
    type Item = Sprs::Item;

    closed spec fn valid(&self) -> bool {
        self.unscaled.valid()
    }

    closed spec fn remaining(&self) -> Seq<Sprs::Item> {
        scaled(self.ring, self.unscaled.remaining(), self.scale)
    }

    /// The hint of the wrapped stream: scaling neither adds nor drops an
    /// item.
    open spec fn hint(&self) -> (usize, Option<usize>) {
        self.source().hint()
    }

    fn next(&mut self) -> (r: Option<Sprs::Item>) {
        if let Some(mut x) = self.unscaled.next() {
            let product = self.ring.multiply(x.val(), self.scale);
            x.set_val(product);
            assert(scaled(self.ring, self.unscaled.remaining(), self.scale) =~= scaled(
                self.ring,
                old(self).unscaled.remaining(),
                self.scale,
            ).skip(1));
            Some(x)
        } else {
            None
        }
    }

    fn size_hint(&self) -> (r: (usize, Option<usize>)) {
        self.unscaled.size_hint()
    }
}

//  ---------------------------------------------------------------------------
//  GATHER COEFFICIENTS
//  ---------------------------------------------------------------------------
/// Iterates over the same items as the stream it wraps, except that
/// consecutive entries with equal indices are merged into a single entry whose
/// coefficient is the sum of the coefficients.
///
/// Only consecutive entries are merged: the stream is not sorted, and zero
/// sums are not dropped.
#[derive(Debug, Clone)]
pub struct Gather<Sprs, Ring> where
    Sprs: Stream + PeekUnqualified,
    Sprs::Item: KeyValGet + KeyValSet,
    Ring: Semiring<<Sprs::Item as KeyValGet>::Val>,
 {
    ungathered: Sprs,
    ring: Ring,
}

impl<Sprs, Ring> Gather<Sprs, Ring> where
    Sprs: Stream + PeekUnqualified,
    Sprs::Item: KeyValGet + KeyValSet,
    Ring: Semiring<<Sprs::Item as KeyValGet>::Val>,
 {
    /// The wrapped stream, as far as it has been advanced.
    pub closed spec fn source(&self) -> Sprs {
        self.ungathered
    }
}

impl<Sprs, Ring> Stream for Gather<Sprs, Ring> where
    Sprs: Stream + PeekUnqualified,
    Sprs::Item: KeyValGet + KeyValSet,
    Ring: Semiring<<Sprs::Item as KeyValGet>::Val>,
    <Sprs::Item as KeyValGet>::Key: PartialEq,
 {
    type Item = Sprs::Item;

    closed spec fn valid(&self) -> bool {
        &&& self.ungathered.valid()
        &&& obeys_concrete_eq::<<Sprs::Item as KeyValGet>::Key>()
    }

    closed spec fn remaining(&self) -> Seq<Sprs::Item> {
        gathered(self.ring, self.ungathered.remaining())
    }

    /// No lower bound; the upper bound of the wrapped stream, since
    /// gathering adds no item.
    open spec fn hint(&self) -> (usize, Option<usize>) {
        (0, self.source().hint().1)
    }

    fn next(&mut self) -> (r: Option<Sprs::Item>) {
        if let Some(mut x) = self.ungathered.next() {
            proof {
                let all = old(self).ungathered.remaining();
                assert(seq![x] + self.ungathered.remaining() =~= all);
            }
            loop
                invariant
                    self.ring == old(self).ring,
                    self.ungathered.valid(),
                    obeys_concrete_eq::<<Sprs::Item as KeyValGet>::Key>(),
                    gathered(self.ring, old(self).ungathered.remaining()) == gathered(
                        self.ring,
                        seq![x] + self.ungathered.remaining(),
                    ),
                ensures
                    self.ring == old(self).ring,
                    self.ungathered.valid(),
                    gathered(self.ring, old(self).ungathered.remaining()) == seq![x] + gathered(
                        self.ring,
                        self.ungathered.remaining(),
                    ),
                decreases self.ungathered.remaining().len(),
            {
                let ghost pending = seq![x] + self.ungathered.remaining();
                let ghost rest = self.ungathered.remaining();
                let same = match self.ungathered.peek_unqualified() {
                    Some(peek) => {
                        proof {
                            reveal(obeys_concrete_eq);
                        }
                        if peek.key() == x.key() {
                            Some(peek.val())
                        } else {
                            None
                        }
                    },
                    None => None,
                };
                assert(pending.skip(1) =~= rest);
                match same {
                    Some(v) => {
                        let total = self.ring.add(x.val(), v);
                        x.set_val(total);
                        let _ = self.ungathered.next();
                        assert(seq![x] + self.ungathered.remaining() =~= absorb_second(
                            self.ring,
                            pending,
                        ));
                    },
                    None => {
                        break ;
                    },
                }
            }
            proof {
                let rest = gathered(self.ring, self.ungathered.remaining());
                assert((seq![x] + rest).skip(1) =~= rest);
            }
            Some(x)
        } else {
            None
        }
    }

    fn size_hint(&self) -> (r: (usize, Option<usize>)) {
        let (_, upper) = self.ungathered.size_hint();
        proof {
            lemma_gathered_len(self.ring, self.ungathered.remaining());
        }
        (0, upper)
    }
}

/// Gathering yields no more entries than it is given.
pub proof fn lemma_gathered_len<E: KeyValSet, R: Semiring<E::Val>>(ring: R, s: Seq<E>)
    ensures
        gathered(ring, s).len() <= s.len(),
    decreases s.len(),
{
    if s.len() == 0 {
    } else if s.len() >= 2 && s[1].key_of() == s[0].key_of() {
        lemma_gathered_len(ring, absorb_second(ring, s));
    } else {
        lemma_gathered_len(ring, s.skip(1));
    }
}

//  ---------------------------------------------------------------------------
//  SPARSE VECTOR TRAIT
//  ---------------------------------------------------------------------------
/// Transformations on sparse vector streams.
///
/// The methods in this trait are implemented automatically for every stream
/// of entries.  They are provided as a convenience for chained
/// transformations.
pub trait Transforms: Stream + Sized where Self::Item: KeyValGet {
    /// Returns a stream that runs over the same items as `self`, skipping any
    /// items with coefficient 0.
    fn drop_zeros<Ring>(self, ring: Ring) -> (r: DropZeros<Self, Ring>) where
        Ring: Semiring<<Self::Item as KeyValGet>::Val>,

        requires
            self.valid(),
        ensures
            r.valid(),
            r.remaining() == without_zeros(ring, self.remaining()),
            r.source() == self,
    {
        DropZeros { undropped: self, ring: ring }
    }

    /// Returns a stream that runs over the same items as `self`, with all
    /// coefficients scaled by `scalar`.
    fn scale<Ring>(self, ring: Ring, scalar: <Self::Item as KeyValGet>::Val) -> (r: Scale<
        Self,
        Ring,
    >) where
        Self::Item: KeyValSet,
        Ring: Semiring<<Self::Item as KeyValGet>::Val>,
        <Self::Item as KeyValGet>::Val: Copy,

        requires
            self.valid(),
        ensures
            r.valid(),
            r.remaining() == scaled(ring, self.remaining(), scalar),
            r.source() == self,
    {
        Scale { unscaled: self, ring: ring, scale: scalar }
    }

    /// Returns a stream that runs over the same items as `self`, except that
    /// consecutive entries with equal indices are merged into a single entry
    /// whose coefficient is the sum of the coefficients.
    fn gather<Ring>(self, ring: Ring) -> (r: Gather<Self, Ring>) where
        Self: PeekUnqualified,
        Self::Item: KeyValSet,
        Ring: Semiring<<Self::Item as KeyValGet>::Val>,
        <Self::Item as KeyValGet>::Key: PartialEq,

        requires
            self.valid(),
            obeys_concrete_eq::<<Self::Item as KeyValGet>::Key>(),
        ensures
            r.valid(),
            r.remaining() == gathered(ring, self.remaining()),
            r.source() == self,
    {
        Gather { ungathered: self, ring: ring }
    }
}

// The transformations are available on every stream of entries.
impl<Sprs> Transforms for Sprs where Sprs: Stream, Sprs::Item: KeyValGet {

}

} // verus!
