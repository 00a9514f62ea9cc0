//! Some basic vectors for 2d and 3d maths, although other dimensions are possible
//! they are not supported

use vstd::prelude::*;
use std::ops::{Add, Index, IndexMut, Mul, Neg, Sub};
use vstd::std_specs::ops::{AddSpec, MulSpec, NegSpec, SubSpec};

verus! {

/// A 3d vector of isize
pub type Vec3i = Vector<isize, 3>;

/// A 3d vector of usize
pub type Vec3u = Vector<usize, 3>;

/// A 2d vector of isize
pub type Vec2i = Vector<isize, 2>;

/// A 2d vector of usize
pub type Vec2u = Vector<usize, 2>;

/// A vector that supports some basic mathematical operations
/// ---
/// these are currently only fully supported for 2d and 3d versions
#[derive(Debug)]
pub struct Vector<T, const N: usize> {
    data: [T; N],
}

impl<T: Copy, const N: usize> Clone for Vector<T, N> {
    fn clone(&self) -> (v: Self)
        ensures
            v == *self,
    {
        *self
    }
}

impl<T: Copy, const N: usize> Copy for Vector<T, N> {

}

impl<T, const N: usize> View for Vector<T, N> {
    type V = Seq<T>;

    /// The elements of the vector, in order.
    closed spec fn view(&self) -> Seq<T> {
        self.data@
    }
}

/// The sum of the products of the first `n` elements of `a` and `b`.
pub open spec fn dot_product(a: Seq<isize>, b: Seq<isize>, n: int) -> int
    decreases n,
{
    if n <= 0 {
        0
    } else {
        dot_product(a, b, n - 1) + a[n - 1] * b[n - 1]
    }
}

/// Whether a number fits the machine's signed word.
pub open spec fn fits(v: int) -> bool {
    isize::MIN <= v <= isize::MAX
}

/// Whether the dot product of `a` and `b` can be computed in machine words:
/// every product fits, and so does the sum after each of them.
pub open spec fn dot_fits(a: Seq<isize>, b: Seq<isize>) -> bool {
    forall|n: int|
        1 <= n <= a.len() ==> fits(a[n - 1] * b[n - 1]) && fits(#[trigger] dot_product(a, b, n))
}

/// Whether `a * b - c * d` can be computed: the element type accepts both
/// products and their difference.
pub open spec fn minor_fits<T: Mul<Output = T> + Sub<Output = T>>(a: T, b: T, c: T, d: T) -> bool {
    a.mul_req(b) && c.mul_req(d) && a.mul_spec(b).sub_req(c.mul_spec(d))
}

/// `a * b - c * d`, as the element type computes it.
pub open spec fn minor<T: Mul<Output = T> + Sub<Output = T>>(a: T, b: T, c: T, d: T) -> T {
    a.mul_spec(b).sub_spec(c.mul_spec(d))
}

/// Whether the cross product of `a` and `b` can be computed: the element
/// type accepts every product and every difference of two of them. For
/// integers that is: none of them overflows.
pub open spec fn cross_fits<T: Mul<Output = T> + Sub<Output = T>>(a: Seq<T>, b: Seq<T>) -> bool {
    &&& minor_fits(a[1], b[2], a[2], b[1])
    &&& minor_fits(a[2], b[0], a[0], b[2])
    &&& minor_fits(a[0], b[1], a[1], b[0])
}

/// The cross product of two vectors of three elements.
pub open spec fn cross_product<T: Mul<Output = T> + Sub<Output = T>>(a: Seq<T>, b: Seq<T>) -> Seq<
    T,
> {
    seq![
        minor(a[1], b[2], a[2], b[1]),
        minor(a[2], b[0], a[0], b[2]),
        minor(a[0], b[1], a[1], b[0]),
    ]
}

impl<T, const N: usize> Vector<T, N> {
    /// Converts this vector into an array of the elements
    pub fn into_array(self) -> (a: [T; N])
        ensures
            a@ == self@,
    {
        self.data
    }
}

impl<T> Vector<T, 2> {
    /// ## Constructor for 2d vector
    pub fn new2(x: T, y: T) -> (v: Self)
        ensures
            v@ == seq![x, y],
    {
        let v = Vector { data: [x, y] };
        assert(v@ =~= seq![x, y]);
        v
    }
}

impl<T> Vector<T, 3> {
    /// ## Constructor for 3d vector
    pub fn new3(x: T, y: T, z: T) -> (v: Self)
        ensures
            v@ == seq![x, y, z],
    {
        let v = Vector { data: [x, y, z] };
        assert(v@ =~= seq![x, y, z]);
        v
    }
}

/// The array of the results of `f` on the elements of `a` and `b`, place
/// by place.
fn map2_array<T, F, const N: usize>(a: [T; N], b: [T; N], f: F) -> (r: [T; N]) where
    T: Copy,
    F: Fn(T, T) -> T,

    requires
        forall|i: int| 0 <= i < N ==> call_requires(f, (#[trigger] a@[i], b@[i])),
    ensures
        forall|i: int| 0 <= i < N ==> call_ensures(f, (a@[i], b@[i]), #[trigger] r@[i]),
{
    let mut result = a;
    let mut i: usize = 0;
    while i < N
        invariant
            i <= N,
            forall|j: int| 0 <= j < N ==> call_requires(f, (#[trigger] a@[j], b@[j])),
            forall|j: int| 0 <= j < i ==> call_ensures(f, (a@[j], b@[j]), #[trigger] result@[j]),
        decreases N - i,
    {
        result[i] = f(a[i], b[i]);
        i += 1;
    }
    result
}

/// The array of the results of `f` on the elements of `a`, place by place.
fn map_array<T: Copy, F: Fn(T) -> T, const N: usize>(a: [T; N], f: F) -> (r: [T; N])
    requires
        forall|i: int| 0 <= i < N ==> call_requires(f, (#[trigger] a@[i],)),
    ensures
        forall|i: int| 0 <= i < N ==> call_ensures(f, (a@[i],), #[trigger] r@[i]),
{
    let mut result = a;
    let mut i: usize = 0;
    while i < N
        invariant
            i <= N,
            forall|j: int| 0 <= j < N ==> call_requires(f, (#[trigger] a@[j],)),
            forall|j: int| 0 <= j < i ==> call_ensures(f, (a@[j],), #[trigger] result@[j]),
        decreases N - i,
    {
        result[i] = f(a[i]);
        i += 1;
    }
    result
}

impl<T: Add<Output = T> + Copy, const N: usize> Add for Vector<T, N> {
    type Output = Self;

    /// The sum of two vectors, element by element.
    fn add(self, rhs: Self) -> (v: Self)
        ensures
            T::obeys_add_spec() ==> forall|i: int|
                0 <= i < N ==> #[trigger] v@[i] == self@[i].add_spec(rhs@[i]),
    {
        let sum = |x: T, y: T| -> (z: T)
            requires
                x.add_req(y),
            ensures
                T::obeys_add_spec() ==> z == x.add_spec(y),
            { x + y };
        assert forall|i: int| 0 <= i < N implies call_requires(
            sum,
            (#[trigger] self.data@[i], rhs.data@[i]),
        ) by {
            assert(self@[i].add_req(rhs@[i]));
        }
        Vector { data: map2_array(self.data, rhs.data, sum) }
    }
}

/// Two vectors can be added when each pair of their elements can. What
/// the sum holds is stated element by element in the contract of `add`; no
/// value of its own stands for it.
impl<T: Add<Output = T> + Copy, const N: usize> vstd::std_specs::ops::AddSpecImpl for Vector<T, N> {
    open spec fn obeys_add_spec() -> bool {
        false
    }

    open spec fn add_req(self, rhs: Self) -> bool {
        forall|i: int| 0 <= i < N ==> (#[trigger] self@[i]).add_req(rhs@[i])
    }

    open spec fn add_spec(self, rhs: Self) -> Self {
        self
    }
}

impl<T: Sub<Output = T> + Copy, const N: usize> Sub for Vector<T, N> {
    type Output = Self;

    /// The difference of two vectors, element by element.
    fn sub(self, rhs: Self) -> (v: Self)
        ensures
            T::obeys_sub_spec() ==> forall|i: int|
                0 <= i < N ==> #[trigger] v@[i] == self@[i].sub_spec(rhs@[i]),
    {
        let difference = |x: T, y: T| -> (z: T)
            requires
                x.sub_req(y),
            ensures
                T::obeys_sub_spec() ==> z == x.sub_spec(y),
            { x - y };
        assert forall|i: int| 0 <= i < N implies call_requires(
            difference,
            (#[trigger] self.data@[i], rhs.data@[i]),
        ) by {
            assert(self@[i].sub_req(rhs@[i]));
        }
        Vector { data: map2_array(self.data, rhs.data, difference) }
    }
}

/// Two vectors can be subtracted when each pair of their elements can. What
/// the difference holds is stated element by element in the contract of `sub`; no
/// value of its own stands for it.
impl<T: Sub<Output = T> + Copy, const N: usize> vstd::std_specs::ops::SubSpecImpl for Vector<T, N> {
    open spec fn obeys_sub_spec() -> bool {
        false
    }

    open spec fn sub_req(self, rhs: Self) -> bool {
        forall|i: int| 0 <= i < N ==> (#[trigger] self@[i]).sub_req(rhs@[i])
    }

    open spec fn sub_spec(self, rhs: Self) -> Self {
        self
    }
}

impl<T: Mul<Output = T> + Copy, const N: usize> Mul for Vector<T, N> {
    type Output = Self;

    /// The product of two vectors, element by element.
    fn mul(self, rhs: Self) -> (v: Self)
        ensures
            T::obeys_mul_spec() ==> forall|i: int|
                0 <= i < N ==> #[trigger] v@[i] == self@[i].mul_spec(rhs@[i]),
    {
        let product = |x: T, y: T| -> (z: T)
            requires
                x.mul_req(y),
            ensures
                T::obeys_mul_spec() ==> z == x.mul_spec(y),
            { x * y };
        assert forall|i: int| 0 <= i < N implies call_requires(
            product,
            (#[trigger] self.data@[i], rhs.data@[i]),
        ) by {
            assert(self@[i].mul_req(rhs@[i]));
        }
        Vector { data: map2_array(self.data, rhs.data, product) }
    }
}

/// Two vectors can be multiplied when each pair of their elements can. What
/// the product holds is stated element by element in the contract of `mul`; no
/// value of its own stands for it.
impl<T: Mul<Output = T> + Copy, const N: usize> vstd::std_specs::ops::MulSpecImpl for Vector<T, N> {
    open spec fn obeys_mul_spec() -> bool {
        false
    }

    open spec fn mul_req(self, rhs: Self) -> bool {
        forall|i: int| 0 <= i < N ==> (#[trigger] self@[i]).mul_req(rhs@[i])
    }

    open spec fn mul_spec(self, rhs: Self) -> Self {
        self
    }
}

impl<T: Copy + Mul<Output = T>, const N: usize> Mul<T> for Vector<T, N> {
    type Output = Self;

    /// The vector with every element multiplied by `rhs`.
    fn mul(self, rhs: T) -> (v: Self)
        ensures
            T::obeys_mul_spec() ==> forall|i: int|
                0 <= i < N ==> #[trigger] v@[i] == self@[i].mul_spec(rhs),
    {
        let scaled = |lhs: T| -> (z: T)
            requires
                lhs.mul_req(rhs),
            ensures
                T::obeys_mul_spec() ==> z == lhs.mul_spec(rhs),
            { lhs * rhs };
        assert forall|i: int| 0 <= i < N implies call_requires(
            scaled,
            (#[trigger] self.data@[i],),
        ) by {
            assert(self@[i].mul_req(rhs));
        }
        Vector { data: map_array(self.data, scaled) }
    }
}

/// A vector can be multiplied by a number when each of its elements can.
/// What the product holds is stated element by element in the contract of
/// `mul`; no value of its own stands for it.
impl<T: Copy + Mul<Output = T>, const N: usize> vstd::std_specs::ops::MulSpecImpl<T> for Vector<T, N> {
    open spec fn obeys_mul_spec() -> bool {
        false
    }

    open spec fn mul_req(self, rhs: T) -> bool {
        forall|i: int| 0 <= i < N ==> (#[trigger] self@[i]).mul_req(rhs)
    }

    open spec fn mul_spec(self, rhs: T) -> Self {
        self
    }
}

impl<T: Copy + Neg<Output = T>, const N: usize> Neg for Vector<T, N> {
    type Output = Self;

    /// The vector with every element negated.
    fn neg(self) -> (v: Self)
        ensures
            T::obeys_neg_spec() ==> forall|i: int|
                0 <= i < N ==> #[trigger] v@[i] == self@[i].neg_spec(),
    {
        let negated = |x: T| -> (z: T)
            requires
                x.neg_req(),
            ensures
                T::obeys_neg_spec() ==> z == x.neg_spec(),
            { x.neg() };
        assert forall|i: int| 0 <= i < N implies call_requires(
            negated,
            (#[trigger] self.data@[i],),
        ) by {
            assert(self@[i].neg_req());
        }
        Vector { data: map_array(self.data, negated) }
    }
}

/// A vector can be negated when each of its elements can. What the result
/// holds is stated element by element in the contract of `neg`; no value of
/// its own stands for it.
impl<T: Copy + Neg<Output = T>, const N: usize> vstd::std_specs::ops::NegSpecImpl for Vector<T, N> {
    open spec fn obeys_neg_spec() -> bool {
        false
    }

    open spec fn neg_req(self) -> bool {
        forall|i: int| 0 <= i < N ==> (#[trigger] self@[i]).neg_req()
    }

    open spec fn neg_spec(self) -> Self {
        self
    }
}

impl<T, const N: usize> Index<usize> for Vector<T, N> {
    type Output = T;

    /// The element at `index`.
    fn index(&self, index: usize) -> (element: &T)
        ensures
            *element == self@[index as int],
    {
        &self.data[index]
    }
}

impl<T, const N: usize> vstd::std_specs::core::IndexSpecImpl<usize> for Vector<T, N> {
    open spec fn index_req(&self, index: &usize) -> bool {
        *index < N
    }
}

impl<T, const N: usize> IndexMut<usize> for Vector<T, N> {
    /// The element at `index`, to be changed in place.
    fn index_mut(&mut self, index: usize) -> (element: &mut T)
        requires
            index < N,
        ensures
            *element == old(self)@[index as int],
            final(self)@ == old(self)@.update(index as int, *final(element)),
    {
        &mut self.data[index]
    }
}

impl<T, const N: usize> From<[T; N]> for Vector<T, N> {
    /// The vector of the elements of an array.
    fn from(data: [T; N]) -> (v: Self)
        ensures
            v@ == data@,
    {
        Vector { data }
    }
}

/// What the vector of an array holds is stated in the contract of `from`;
/// no value of its own stands for it.
impl<T, const N: usize> vstd::std_specs::convert::FromSpecImpl<[T; N]> for Vector<T, N> {
    open spec fn obeys_from_spec() -> bool {
        false
    }

    open spec fn from_spec(data: [T; N]) -> Self {
        arbitrary()
    }
}

impl<T: Default + Copy, const N: usize> Default for Vector<T, N> {
    /// The vector whose every element is the default of the element type.
    fn default() -> (v: Self)
        ensures
            forall|i: int| 0 <= i < N ==> call_ensures(T::default, (), #[trigger] v@[i]),
    {
        let element = T::default();
        Vector { data: [element; N] }
    }
}

impl<const N: usize> Vector<isize, N> {
    /// The vector dot product
    pub fn dot(self, rhs: Self) -> (d: isize)
        requires
            dot_fits(self@, rhs@),
        ensures
            d == dot_product(self@, rhs@, N as int),
    {
        let mut sum: isize = 0;
        let mut i: usize = 0;
        while i < N
            invariant
                i <= N,
                self@.len() == N,
                rhs@.len() == N,
                dot_fits(self@, rhs@),
                sum == dot_product(self@, rhs@, i as int),
            decreases N - i,
        {
            assert(fits(dot_product(self@, rhs@, i + 1)));
            assert(fits(self@[i as int] * rhs@[i as int]));
            sum = sum + self.data[i] * rhs.data[i];
            i += 1;
        }
        sum
    }

    /// the square of the magnitude of this vector
    pub fn len_sqr(self) -> (d: isize)
        requires
            dot_fits(self@, self@),
        ensures
            d == dot_product(self@, self@, N as int),
    {
        self.dot(self)
    }
}

impl<T: Mul<Output = T> + Sub<Output = T> + Copy> Vector<T, 3> {
    /// the vector cross product
    pub fn cross(self, rhs: Self) -> (v: Self)
        requires
            T::obeys_mul_spec(),
            T::obeys_sub_spec(),
            cross_fits(self@, rhs@),
        ensures
            v@ == cross_product(self@, rhs@),
    {
        let x = self.data[1] * rhs.data[2] - self.data[2] * rhs.data[1];
        let y = self.data[2] * rhs.data[0] - self.data[0] * rhs.data[2];
        let z = self.data[0] * rhs.data[1] - self.data[1] * rhs.data[0];
        let v = Vector { data: [x, y, z] };
        assert(v@ =~= cross_product(self@, rhs@));
        v
    }
}

} // verus!
