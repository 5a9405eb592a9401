use solar::rings::field_prime::GF2;
use solar::rings::ring::{DivisionRing, Ring, Semiring};
use solar::utilities::iterators::utility::{collect, Peekable, Stream, VecStream};
use solar::vector_entries::vector_entries::{KeyValGet, KeyValItem, KeyValSet};
use solar::vectors::vector_transforms::Transforms;

/// The division ring of floating point numbers.
#[derive(Clone, Copy, Debug)]
struct Floats;

impl Semiring<f64> for Floats {
    fn is_zero(&self, x: f64) -> bool {
        x == 0.0
    }
    fn is_unit(&self, x: f64) -> bool {
        x == 1.0
    }
    fn zero_elt() -> f64 {
        0.0
    }
    fn one_elt() -> f64 {
        1.0
    }
    fn sum(&self, x: f64, y: f64) -> f64 {
        x + y
    }
    fn product(&self, x: f64, y: f64) -> f64 {
        x * y
    }
    fn is_0(&self, x: f64) -> bool {
        x == 0.0
    }
    fn is_1(&self, x: f64) -> bool {
        x == 1.0
    }
    fn zero() -> f64 {
        0.0
    }
    fn one() -> f64 {
        1.0
    }
    fn add(&self, x: f64, y: f64) -> f64 {
        x + y
    }
    fn multiply(&self, x: f64, y: f64) -> f64 {
        x * y
    }
}

impl Ring<f64> for Floats {
    fn difference(&self, x: f64, y: f64) -> f64 {
        x - y
    }
    fn negation(&self, x: f64) -> f64 {
        -x
    }
    fn subtract(&self, x: f64, y: f64) -> f64 {
        x - y
    }
    fn negate(&self, x: f64) -> f64 {
        -x
    }
}

impl DivisionRing<f64> for Floats {
    fn quotient(&self, x: f64, y: f64) -> f64 {
        x / y
    }
    fn inverse(&self, x: f64) -> f64 {
        1.0 / x
    }
    fn divide(&self, x: f64, y: f64) -> f64 {
        x / y
    }
    fn invert(&self, x: f64) -> f64 {
        1.0 / x
    }
}

#[test]
fn test_2() {
    // Define the coefficient ring
    let ring = Floats;

    // Define a sequence of vector entries.
    let entry_data = vec![(1, 1.), (2, 2.), (3, 3.), (3, 3.), (4, 0.)];

    // SCALE THE VECTOR BY 2.
    let scaled: Vec<_> = collect(VecStream::new(entry_data.clone()).scale(ring.clone(), 2.));
    assert_eq!(scaled, vec![(1, 2.), (2, 4.), (3, 6.), (3, 6.), (4, 0.)]);

    // DROP ZERO ENTRIES
    let dropped: Vec<_> = collect(VecStream::new(entry_data.clone()).drop_zeros(ring.clone()));

    assert_eq!(dropped, vec![(1, 1.), (2, 2.), (3, 3.), (3, 3.)]);

    // MERGE CONSECUTIVE ENTRIES THAT SHARE THE SAME INDEX
    let gathered: Vec<_> =
        collect(Peekable::new(VecStream::new(entry_data.clone())).gather(ring.clone()));
    assert_eq!(gathered, vec![(1, 1.), (2, 2.), (3, 6.), (4, 0.)]);
}

#[test]
fn entries_can_be_read_and_written() {
    let mut vector_entry = (1, 0.);
    assert_eq!(vector_entry.key(), 1);
    assert_eq!(vector_entry.val(), 0.);
    vector_entry.set_key(2);
    assert_eq!(vector_entry.key(), 2);
    vector_entry.set_val(3.5);
    assert_eq!(vector_entry, (2, 3.5));

    let mut item = KeyValItem { key: 'a', val: 1u8 };
    assert_eq!(item.key(), 'a');
    assert_eq!(item.val(), 1);
    item.set_val(7);
    item.set_key('b');
    assert_eq!(item.key, 'b');
    assert_eq!(item.val, 7);
}

#[test]
fn scaling_twice_is_scaling_by_the_product() {
    let ring = Floats;
    let s = vec![(0usize, 1.5), (3, -2.0), (4, 0.0), (9, 8.0)];
    let twice = collect(VecStream::new(s.clone()).scale(ring, 2.0).scale(ring, 4.0));
    let once = collect(VecStream::new(s).scale(ring, ring.multiply(2.0, 4.0)));
    assert_eq!(twice, once);
    assert_eq!(once, vec![(0, 12.0), (3, -16.0), (4, 0.0), (9, 64.0)]);
}

#[test]
fn scaling_multiplies_on_the_right_and_keeps_the_order() {
    let s = vec![(5usize, true), (1, false), (5, true)];
    let scaled = collect(VecStream::new(s.clone()).scale(GF2::new(), true));
    assert_eq!(scaled, s);
    let scaled = collect(VecStream::new(s).scale(GF2::new(), false));
    assert_eq!(scaled, vec![(5, false), (1, false), (5, false)]);
    let none = collect(VecStream::new(Vec::<(usize, f64)>::new()).scale(Floats, 3.0));
    assert_eq!(none, vec![]);
}

#[test]
fn dropping_zeros_twice_is_dropping_them_once() {
    let ring = Floats;
    let s = vec![(7usize, 0.0), (0, 1.0), (3, 0.0), (3, 0.0), (2, -1.0), (9, 0.0)];
    let once = collect(VecStream::new(s.clone()).drop_zeros(ring));
    let twice = collect(VecStream::new(s).drop_zeros(ring).drop_zeros(ring));
    assert_eq!(once, vec![(0, 1.0), (2, -1.0)]);
    assert_eq!(twice, once);
}

#[test]
fn dropping_zeros_does_not_need_sorted_input() {
    let s = vec![(3usize, true), (1, false), (2, true), (0, false)];
    assert_eq!(collect(VecStream::new(s).drop_zeros(GF2::new())), vec![(3, true), (2, true)]);
    let all_zero = vec![(0usize, 0.0), (1, 0.0)];
    let mut stream = VecStream::new(all_zero).drop_zeros(Floats);
    assert_eq!(stream.size_hint(), (0, Some(2)));
    assert_eq!(stream.next(), None);
    assert_eq!(stream.next(), None);
}

#[test]
fn gathering_a_run_of_three() {
    let ring = Floats;
    let run = vec![(4usize, 1.0), (4, 2.0), (4, 4.0)];
    let all = collect(Peekable::new(VecStream::new(run.clone())).gather(ring));
    assert_eq!(all, vec![(4, 7.0)]);
    // the first two first
    let mut first_two = collect(Peekable::new(VecStream::new(run[..2].to_vec())).gather(ring));
    first_two.push(run[2]);
    assert_eq!(collect(Peekable::new(VecStream::new(first_two)).gather(ring)), all);
    // the last two first
    let mut last_two = vec![run[0]];
    last_two.extend(collect(Peekable::new(VecStream::new(run[1..].to_vec())).gather(ring)));
    assert_eq!(collect(Peekable::new(VecStream::new(last_two)).gather(ring)), all);
}

#[test]
fn gathering_merges_only_neighbours_and_keeps_zero_sums() {
    let ring = Floats;
    let s = vec![(1usize, 1.0), (2, 1.0), (1, 1.0), (3, 2.0), (3, -2.0), (0, 5.0)];
    let gathered = collect(Peekable::new(VecStream::new(s)).gather(ring));
    assert_eq!(gathered, vec![(1, 1.0), (2, 1.0), (1, 1.0), (3, 0.0), (0, 5.0)]);
    let none = collect(Peekable::new(VecStream::new(Vec::<(usize, f64)>::new())).gather(ring));
    assert_eq!(none, vec![]);
    let over_gf2 = vec![(1usize, true), (1, true), (1, true), (2, true), (2, true)];
    let gathered = collect(Peekable::new(VecStream::new(over_gf2)).gather(GF2::new()));
    assert_eq!(gathered, vec![(1, true), (2, false)]);
}

#[test]
fn merge_gather_drop_yields_a_canonical_sum() {
    let ring = Floats;
    let merged = vec![(0usize, 1.0), (2, 3.0), (2, -3.0), (5, 1.0), (5, 1.0), (7, 0.0)];
    let sum = collect(Peekable::new(VecStream::new(merged)).gather(ring).drop_zeros(ring));
    assert_eq!(sum, vec![(0, 1.0), (5, 2.0)]);
}

#[test]
fn transformed_streams_hint_at_their_size() {
    let s = vec![(0usize, 1.0), (0, 2.0), (1, 0.0)];
    assert_eq!(VecStream::new(s.clone()).size_hint(), (3, Some(3)));
    assert_eq!(VecStream::new(s.clone()).scale(Floats, 2.0).size_hint(), (3, Some(3)));
    assert_eq!(VecStream::new(s.clone()).drop_zeros(Floats).size_hint(), (0, Some(3)));
    assert_eq!(Peekable::new(VecStream::new(s)).gather(Floats).size_hint(), (0, Some(3)));
}
