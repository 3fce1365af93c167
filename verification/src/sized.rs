//! Type-level naturals, length-indexed vectors and small dependent-type helpers.
use vstd::prelude::*;

verus! {

/// A natural number carried as a type-level value.
#[derive(Debug, Clone, Copy, PartialEq, Eq, Structural, Hash)]
pub struct TypeNat(pub i128);

impl TypeNat {
    pub fn zero() -> (r: Self)
        ensures
            r.0 == 0,
    {
        TypeNat(0)
    }

    pub fn one() -> (r: Self)
        ensures
            r.0 == 1,
    {
        TypeNat(1)
    }

    pub fn from_usize(n: usize) -> (r: Self)
        ensures
            r.0 == n as int,
    {
        TypeNat(n as i128)
    }

    /// The value as a `usize` when it is not negative (truncated to the width of `usize`).
    pub fn to_usize(&self) -> (r: Option<usize>)
        ensures
            r == (if self.0 >= 0 { Some(self.0 as usize) } else { None::<usize> }),
    {
        if self.0 >= 0 {
            Some(self.0 as usize)
        } else {
            None
        }
    }

    pub fn add(&self, other: &TypeNat) -> (r: TypeNat)
        requires
            i128::MIN <= self.0 + other.0 <= i128::MAX,
        ensures
            r.0 == self.0 + other.0,
    {
        TypeNat(self.0 + other.0)
    }

    /// Difference, when it is not negative.
    pub fn sub(&self, other: &TypeNat) -> (r: Option<TypeNat>)
        requires
            i128::MIN <= self.0 - other.0 <= i128::MAX,
        ensures
            r == (if self.0 >= other.0 { Some(TypeNat((self.0 - other.0) as i128)) } else { None::<TypeNat> }),
    {
        if self.0 >= other.0 {
            Some(TypeNat(self.0 - other.0))
        } else {
            None
        }
    }

    pub fn mul(&self, other: &TypeNat) -> (r: TypeNat)
        requires
            i128::MIN <= self.0 * other.0 <= i128::MAX,
        ensures
            r.0 == self.0 * other.0,
    {
        TypeNat(self.0 * other.0)
    }

    pub fn min(&self, other: &TypeNat) -> (r: TypeNat)
        ensures
            r.0 == (if self.0 <= other.0 { self.0 } else { other.0 }),
    {
        if self.0 <= other.0 { TypeNat(self.0) } else { TypeNat(other.0) }
    }

    pub fn max(&self, other: &TypeNat) -> (r: TypeNat)
        ensures
            r.0 == (if self.0 >= other.0 { self.0 } else { other.0 }),
    {
        if self.0 >= other.0 { TypeNat(self.0) } else { TypeNat(other.0) }
    }

    pub fn is_zero(&self) -> (r: bool)
        ensures
            r == (self.0 == 0),
    {
        self.0 == 0
    }

    pub fn is_positive(&self) -> (r: bool)
        ensures
            r == (self.0 > 0),
    {
        self.0 > 0
    }
}

/// Peano naturals, with a shortcut for a concrete value.
#[derive(Debug, PartialEq, Eq, Hash)]
pub enum Nat {
    Z,
    S(Box<Nat>),
    Val(TypeNat),
}

/// Number of successor constructors around the innermost node.
pub open spec fn nat_depth(n: Nat) -> nat
    decreases n,
{
    match n {
        Nat::S(m) => nat_depth(*m) + 1,
        _ => 0,
    }
}

/// The innermost node (a zero or a concrete value).
pub open spec fn nat_base(n: Nat) -> Nat
    decreases n,
{
    match n {
        Nat::S(m) => nat_base(*m),
        _ => n,
    }
}

/// What `to_usize` yields: the successor count over zero, or the concrete value
/// (the successors around a concrete value are not counted).
pub open spec fn nat_to_usize(n: Nat) -> Option<usize> {
    match nat_base(n) {
        Nat::Val(t) => if t.0 >= 0 { Some(t.0 as usize) } else { None },
        _ => Some(nat_depth(n) as usize),
    }
}

/// `k` successors around `n`.
pub open spec fn wrap_succ(n: Nat, k: nat) -> Nat
    decreases k,
{
    if k == 0 {
        n
    } else {
        Nat::S(Box::new(wrap_succ(n, (k - 1) as nat)))
    }
}

/// The unary numeral for `k`.
pub open spec fn peano(k: nat) -> Nat {
    wrap_succ(Nat::Z, k)
}

/// The number of successors that `add` puts around its second operand.
pub open spec fn add_count(n: Nat) -> nat {
    match nat_base(n) {
        Nat::Val(t) => if t.0 >= 0 { nat_depth(n) + (t.0 as usize) as nat } else { nat_depth(n) },
        _ => nat_depth(n),
    }
}

proof fn lemma_wrap_succ_step(n: Nat, k: nat)
    ensures
        Nat::S(Box::new(wrap_succ(n, k))) == wrap_succ(n, k + 1),
{
}

proof fn lemma_wrap_compose(n: Nat, a: nat, b: nat)
    ensures
        wrap_succ(wrap_succ(n, a), b) == wrap_succ(n, a + b),
    decreases b,
{
    if b > 0 {
        lemma_wrap_compose(n, a, (b - 1) as nat);
    }
}

proof fn lemma_peano_depth(k: nat)
    ensures
        nat_depth(peano(k)) == k,
        nat_base(peano(k)) == Nat::Z,
    decreases k,
{
    if k > 0 {
        lemma_peano_depth((k - 1) as nat);
    }
}

impl Nat {
    pub fn zero() -> (r: Self)
        ensures
            r == Nat::Z,
    {
        Nat::Z
    }

    pub fn one() -> (r: Self)
        ensures
            r == peano(1),
    {
        assert(wrap_succ(Nat::Z, 0) == Nat::Z);
        Nat::S(Box::new(Nat::Z))
    }

    /// A structural copy.
    pub fn copy(&self) -> (r: Nat)
        ensures
            r == *self,
        decreases self,
    {
        match self {
            Nat::Z => Nat::Z,
            Nat::S(m) => Nat::S(Box::new(m.copy())),
            Nat::Val(t) => Nat::Val(*t),
        }
    }

    /// The unary numeral for `n`.
    pub fn from_usize(n: usize) -> (r: Self)
        ensures
            r == peano(n as nat),
            nat_depth(r) == n,
            nat_base(r) == Nat::Z,
    {
        let mut result = Nat::Z;
        let mut i: usize = 0;
        while i < n
            invariant
                i <= n,
                result == peano(i as nat),
            decreases n - i,
        {
            proof {
                lemma_wrap_succ_step(Nat::Z, i as nat);
            }
            result = Nat::S(Box::new(result));
            i = i + 1;
        }
        proof {
            lemma_peano_depth(n as nat);
        }
        result
    }

    fn to_usize_from(&self, count: usize) -> (r: Option<usize>)
        requires
            nat_depth(*self) + count <= usize::MAX,
        ensures
            r == match nat_base(*self) {
                Nat::Val(t) => if t.0 >= 0 { Some(t.0 as usize) } else { None::<usize> },
                _ => Some((nat_depth(*self) + count) as usize),
            },
        decreases self,
    {
        match self {
            Nat::Z => Some(count),
            Nat::S(m) => m.to_usize_from(count + 1),
            Nat::Val(tn) => tn.to_usize(),
        }
    }

    /// The number this value stands for, as a `usize` (see [`nat_to_usize`]).
    pub fn to_usize(&self) -> (r: Option<usize>)
        requires
            nat_depth(*self) <= usize::MAX,
        ensures
            r == nat_to_usize(*self),
    {
        self.to_usize_from(0)
    }

    fn wrap_times(n: Nat, k: usize) -> (r: Nat)
        ensures
            r == wrap_succ(n, k as nat),
    {
        let mut result = n;
        let mut i: usize = 0;
        while i < k
            invariant
                i <= k,
                result == wrap_succ(n, i as nat),
            decreases k - i,
        {
            result = Nat::S(Box::new(result));
            i = i + 1;
        }
        result
    }

    /// Puts the successors of `self` (or its concrete value) around `other`.
    pub fn add(&self, other: &Nat) -> (r: Nat)
        ensures
            r == wrap_succ(*other, add_count(*self)),
        decreases self,
    {
        match self {
            Nat::Z => other.copy(),
            Nat::S(m) => {
                let inner = m.add(other);
                proof {
                    lemma_wrap_succ_step(*other, add_count(**m));
                }
                Nat::S(Box::new(inner))
            },
            Nat::Val(tn) => {
                match tn.to_usize() {
                    Some(val) => Nat::wrap_times(other.copy(), val),
                    None => other.copy(),
                }
            },
        }
    }

    /// Difference of the two values, when both are known and it is not negative.
    pub fn sub(&self, other: &Nat) -> (r: Option<Nat>)
        requires
            nat_depth(*self) <= usize::MAX,
            nat_depth(*other) <= usize::MAX,
        ensures
            r == match (nat_to_usize(*self), nat_to_usize(*other)) {
                (Some(a), Some(b)) => if a >= b { Some(peano((a - b) as nat)) } else { None::<Nat> },
                _ => None::<Nat>,
            },
    {
        let self_val = match self.to_usize() {
            Some(v) => v,
            None => return None,
        };
        let other_val = match other.to_usize() {
            Some(v) => v,
            None => return None,
        };
        if self_val >= other_val {
            Some(Nat::from_usize(self_val - other_val))
        } else {
            None
        }
    }

    /// Product of the two values (an unknown value counts as zero).
    pub fn mul(&self, other: &Nat) -> (r: Nat)
        requires
            nat_depth(*self) <= usize::MAX,
            nat_depth(*other) <= usize::MAX,
            ({
                let a = match nat_to_usize(*self) { Some(v) => v as int, None => 0 };
                let b = match nat_to_usize(*other) { Some(v) => v as int, None => 0 };
                a * b <= usize::MAX
            }),
        ensures
            ({
                let a = match nat_to_usize(*self) { Some(v) => v as int, None => 0 };
                let b = match nat_to_usize(*other) { Some(v) => v as int, None => 0 };
                r == peano((a * b) as nat)
            }),
    {
        let self_val = match self.to_usize() {
            Some(v) => v,
            None => 0,
        };
        let other_val = match other.to_usize() {
            Some(v) => v,
            None => 0,
        };
        Nat::from_usize(self_val * other_val)
    }
}

/// A vector whose length is recorded as a natural number.
pub struct SizedVec<T> {
    pub data: Vec<T>,
    pub length: Nat,
}

impl<T: Copy> SizedVec<T> {
    /// An empty vector of length zero.
    pub fn new() -> (r: Self)
        ensures
            r.data@.len() == 0,
            r.length == Nat::Z,
    {
        SizedVec { data: Vec::new(), length: Nat::Z }
    }

    /// An empty vector meant to hold `capacity` elements.
    pub fn with_capacity(capacity: Nat) -> (r: Self)
        requires
            nat_depth(capacity) <= usize::MAX,
        ensures
            r.data@.len() == 0,
            r.length == capacity,
    {
        let cap = match capacity.to_usize() {
            Some(c) => c,
            None => 0,
        };
        SizedVec { data: Vec::with_capacity(cap), length: capacity }
    }

    /// A copy of `slice`, when its length is the expected one.
    pub fn from_slice(slice: &[T], expected: Nat) -> (r: Option<SizedVec<T>>)
        requires
            nat_depth(expected) <= usize::MAX,
        ensures
            match r {
                Some(v) => nat_to_usize(expected) == Some(slice@.len() as usize) && v.data@ == slice@ && v.length == expected,
                None => nat_to_usize(expected) != Some(slice@.len() as usize),
            },
    {
        let expected_len = match expected.to_usize() {
            Some(n) => n,
            None => return None,
        };
        if slice.len() == expected_len {
            Some(SizedVec { data: vstd::slice::slice_to_vec(slice), length: expected })
        } else {
            None
        }
    }

    /// Takes `data` when its length is the expected one.
    pub fn from_vec(data: Vec<T>, expected: Nat) -> (r: Option<SizedVec<T>>)
        requires
            nat_depth(expected) <= usize::MAX,
        ensures
            match r {
                Some(v) => nat_to_usize(expected) == Some(data@.len() as usize) && v.data@ == data@ && v.length == expected,
                None => nat_to_usize(expected) != Some(data@.len() as usize),
            },
    {
        let expected_len = match expected.to_usize() {
            Some(n) => n,
            None => return None,
        };
        if data.len() == expected_len {
            Some(SizedVec { data, length: expected })
        } else {
            None
        }
    }

    /// The recorded length.
    pub fn len(&self) -> (r: Nat)
        ensures
            r == self.length,
    {
        self.length.copy()
    }

    pub fn is_empty(&self) -> (r: bool)
        ensures
            r == (self.data@.len() == 0),
    {
        self.data.len() == 0
    }

    pub fn as_slice(&self) -> (r: &[T])
        ensures
            r@ == self.data@,
    {
        self.data.as_slice()
    }

    pub fn get(&self, index: usize) -> (r: Option<&T>)
        ensures
            r == (if index < self.data@.len() { Some(&self.data@[index as int]) } else { None::<&T> }),
    {
        if index < self.data.len() {
            Some(&self.data[index])
        } else {
            None
        }
    }

    /// Replaces the element at `index`, when it exists; returns whether it did.
    pub fn set(&mut self, index: usize, value: T) -> (r: bool)
        ensures
            r == (index < old(self).data@.len()),
            final(self).data@ == (if r { old(self).data@.update(index as int, value) } else { old(self).data@ }),
            final(self).length == old(self).length,
    {
        if index < self.data.len() {
            self.data.set(index, value);
            true
        } else {
            false
        }
    }

    /// The element at the position given as a natural number.
    pub fn index(&self, index: &Nat) -> (r: Option<&T>)
        requires
            nat_depth(*index) <= usize::MAX,
        ensures
            r == match nat_to_usize(*index) {
                Some(i) => if i < self.data@.len() { Some(&self.data@[i as int]) } else { None::<&T> },
                None => None::<&T>,
            },
    {
        let idx = match index.to_usize() {
            Some(i) => i,
            None => return None,
        };
        self.get(idx)
    }
}

/// Conditions between naturals.
#[derive(Debug, PartialEq, Eq)]
pub enum Constraint {
    NatEq(Nat, Nat),
    NatLe(Nat, Nat),
    NatLt(Nat, Nat),
    NatGe(Nat, Nat),
    NatGt(Nat, Nat),
}

/// A value together with the constraints it was checked against.
pub struct Proof<T> {
    pub value: T,
    pub constraints: Vec<Constraint>,
}

impl Proof<()> {
    /// A proof with no constraints.
    pub fn trivial() -> (r: Proof<()>)
        ensures
            r.constraints@.len() == 0,
    {
        Proof { value: (), constraints: Vec::new() }
    }

    /// A trivial proof when `cond` holds.
    pub fn assert_cond(cond: bool) -> (r: Option<Proof<()>>)
        ensures
            r is Some == cond,
            r matches Some(p) ==> p.constraints@.len() == 0,
    {
        if cond {
            Some(Proof::trivial())
        } else {
            None
        }
    }
}

/// A function whose result depends on a natural number.
pub struct DepFn<T> {
    pub index: Nat,
    pub output: T,
}

impl<T> DepFn<T> {
    pub fn new(index: Nat, output: T) -> (r: Self)
        ensures
            r.index == index,
            r.output == output,
    {
        DepFn { index, output }
    }
}

/// Identity.
pub fn id<T>(x: T) -> (r: T)
    ensures
        r == x,
{
    x
}

/// Keeps the first argument.
pub fn const_fn<T, U>(x: T, _y: U) -> (r: T)
    ensures
        r == x,
{
    x
}

/// A value `value` found at position `index` of `list`.
pub struct SafeIndex {
    pub value: i64,
    pub index: Nat,
    pub list: Vec<i64>,
}

impl SafeIndex {
    /// Succeeds when `list[index] == value`.
    pub fn new(value: i64, index: Nat, list: &[i64]) -> (r: Option<SafeIndex>)
        requires
            nat_depth(index) <= usize::MAX,
        ensures
            r is Some <==> (nat_to_usize(index) matches Some(i) && i < list@.len() && list@[i as int] == value),
            r matches Some(s) ==> s.value == value && s.index == index && s.list@ == list@,
    {
        let idx = match index.to_usize() {
            Some(i) => i,
            None => return None,
        };
        if idx < list.len() && list[idx] == value {
            Some(SafeIndex { value, index, list: vstd::slice::slice_to_vec(list) })
        } else {
            None
        }
    }
}

/// A vector that carries its length as a natural number.
pub struct Vector<T> {
    pub elements: Vec<T>,
    pub length: Nat,
}

impl<T: Copy> Vector<T> {
    pub fn nil() -> (r: Vector<T>)
        ensures
            r.elements@.len() == 0,
            r.length == Nat::Z,
    {
        Vector { elements: Vec::new(), length: Nat::Z }
    }

    pub fn cons(head: T, tail: &Vector<T>) -> (r: Vector<T>)
        ensures
            r.elements@ == seq![head] + tail.elements@,
            r.length == Nat::S(Box::new(tail.length)),
    {
        let mut new_elements: Vec<T> = Vec::new();
        new_elements.push(head);
        let mut i: usize = 0;
        while i < tail.elements.len()
            invariant
                i <= tail.elements.len(),
                new_elements@ == seq![head] + tail.elements@.subrange(0, i as int),
            decreases tail.elements.len() - i,
        {
            new_elements.push(tail.elements[i]);
            i = i + 1;
            assert(new_elements@ =~= seq![head] + tail.elements@.subrange(0, i as int));
        }
        assert(tail.elements@.subrange(0, tail.elements@.len() as int) =~= tail.elements@);
        Vector { elements: new_elements, length: Nat::S(Box::new(tail.length.copy())) }
    }

    pub fn length(&self) -> (r: Nat)
        ensures
            r == self.length,
    {
        self.length.copy()
    }

    pub fn head(&self) -> (r: Option<&T>)
        ensures
            r == (if self.elements@.len() > 0 { Some(&self.elements@[0]) } else { None::<&T> }),
    {
        if self.elements.len() > 0 {
            Some(&self.elements[0])
        } else {
            None
        }
    }

    /// Everything after the first element, with the length one smaller.
    pub fn tail(&self) -> (r: Option<Vector<T>>)
        requires
            nat_depth(self.length) <= usize::MAX,
        ensures
            match r {
                Some(v) => self.elements@.len() > 0
                    && v.elements@ == self.elements@.drop_first()
                    && Some(v.length) == match nat_to_usize(self.length) {
                        Some(a) => if a >= 1 { Some(peano((a - 1) as nat)) } else { None::<Nat> },
                        None => None::<Nat>,
                    },
                None => self.elements@.len() == 0 || match nat_to_usize(self.length) {
                    Some(a) => a < 1,
                    None => true,
                },
            },
    {
        if self.elements.len() > 0 {
            let mut tail_elements: Vec<T> = Vec::new();
            let mut i: usize = 1;
            while i < self.elements.len()
                invariant
                    1 <= i <= self.elements.len(),
                    tail_elements@ == self.elements@.subrange(1, i as int),
                decreases self.elements.len() - i,
            {
                tail_elements.push(self.elements[i]);
                i = i + 1;
                assert(tail_elements@ =~= self.elements@.subrange(1, i as int));
            }
            assert(tail_elements@ =~= self.elements@.drop_first());
            let one = Nat::one();
            proof {
                lemma_peano_depth(1);
            }
            match self.length.sub(&one) {
                Some(tail_length) => Some(Vector { elements: tail_elements, length: tail_length }),
                None => None,
            }
        } else {
            None
        }
    }

    pub fn index(&self, i: &Nat) -> (r: Option<&T>)
        requires
            nat_depth(*i) <= usize::MAX,
        ensures
            r == match nat_to_usize(*i) {
                Some(k) => if k < self.elements@.len() { Some(&self.elements@[k as int]) } else { None::<&T> },
                None => None::<&T>,
            },
    {
        let idx = match i.to_usize() {
            Some(k) => k,
            None => return None,
        };
        if idx < self.elements.len() {
            Some(&self.elements[idx])
        } else {
            None
        }
    }

    pub fn append(&self, other: &Vector<T>) -> (r: Vector<T>)
        ensures
            r.elements@ == self.elements@ + other.elements@,
            r.length == wrap_succ(other.length, add_count(self.length)),
    {
        let mut new_elements: Vec<T> = Vec::new();
        let mut i: usize = 0;
        while i < self.elements.len()
            invariant
                i <= self.elements.len(),
                new_elements@ == self.elements@.subrange(0, i as int),
            decreases self.elements.len() - i,
        {
            new_elements.push(self.elements[i]);
            i = i + 1;
            assert(new_elements@ =~= self.elements@.subrange(0, i as int));
        }
        let mut j: usize = 0;
        while j < other.elements.len()
            invariant
                j <= other.elements.len(),
                i == self.elements.len(),
                new_elements@ == self.elements@.subrange(0, i as int) + other.elements@.subrange(0, j as int),
            decreases other.elements.len() - j,
        {
            new_elements.push(other.elements[j]);
            j = j + 1;
            assert(new_elements@ =~= self.elements@.subrange(0, i as int) + other.elements@.subrange(0, j as int));
        }
        assert(new_elements@ =~= self.elements@ + other.elements@);
        Vector { elements: new_elements, length: self.length.add(&other.length) }
    }

    pub fn reverse(&self) -> (r: Vector<T>)
        ensures
            r.elements@ == self.elements@.reverse(),
            r.length == self.length,
    {
        let mut new_elements: Vec<T> = Vec::new();
        let n = self.elements.len();
        let mut i: usize = n;
        while i > 0
            invariant
                i <= n,
                n == self.elements@.len(),
                new_elements@ == self.elements@.reverse().subrange(0, (n - i) as int),
            decreases i,
        {
            i = i - 1;
            new_elements.push(self.elements[i]);
            assert(new_elements@ =~= self.elements@.reverse().subrange(0, (n - i) as int));
        }
        assert(new_elements@ =~= self.elements@.reverse());
        Vector { elements: new_elements, length: self.length.copy() }
    }

    /// Applies `f` to every element.
    pub fn map<U, F: Fn(&T) -> U>(&self, f: F) -> (r: Vector<U>)
        requires
            forall|i: int| 0 <= i < self.elements@.len() ==> f.requires((&self.elements@[i],)),
        ensures
            r.elements@.len() == self.elements@.len(),
            forall|i: int| 0 <= i < self.elements@.len() ==> f.ensures((&self.elements@[i],), #[trigger] r.elements@[i]),
            r.length == self.length,
    {
        let mut new_elements: Vec<U> = Vec::new();
        let mut i: usize = 0;
        while i < self.elements.len()
            invariant
                i <= self.elements.len(),
                new_elements@.len() == i,
                forall|k: int| 0 <= k < self.elements@.len() ==> f.requires((&self.elements@[k],)),
                forall|k: int| 0 <= k < i ==> f.ensures((&self.elements@[k],), #[trigger] new_elements@[k]),
            decreases self.elements.len() - i,
        {
            let u = f(&self.elements[i]);
            new_elements.push(u);
            i = i + 1;
        }
        Vector { elements: new_elements, length: self.length.copy() }
    }

    /// Left fold with `f`, starting from `init`: the results of the calls
    /// form a chain from `init` to `r`, one call per element in order.
    pub fn foldl<U, F: Fn(U, &T) -> U>(&self, init: U, f: F) -> (r: U)
        requires
            forall|u: U, i: int| 0 <= i < self.elements@.len() ==> f.requires((u, &self.elements@[i])),
        ensures
            exists|acc: Seq<U>| #[trigger] fold_chain(acc, init, r, self.elements@, f),
    {
        let mut result = init;
        let mut i: usize = 0;
        let ghost mut acc: Seq<U> = seq![init];
        while i < self.elements.len()
            invariant
                i <= self.elements.len(),
                forall|u: U, k: int| 0 <= k < self.elements@.len() ==> f.requires((u, &self.elements@[k])),
                fold_chain(acc, init, result, self.elements@.take(i as int), f),
            decreases self.elements.len() - i,
        {
            let ghost prev = acc;
            let ghost before = result;
            result = f(result, &self.elements[i]);
            proof {
                acc = prev.push(result);
                let es = self.elements@.take(i + 1);
                assert(es.take(i as int) =~= self.elements@.take(i as int));
                assert forall|k: int| 0 <= k < es.len() implies #[trigger] f.ensures((acc[k], &es[k]), acc[k + 1]) by {
                    if k < i {
                        assert(es[k] == self.elements@.take(i as int)[k]);
                    }
                }
            }
            i = i + 1;
        }
        proof {
            assert(self.elements@.take(i as int) =~= self.elements@);
        }
        result
    }
}

/// `acc` runs from `init` to `r`, each step one call of `f` on the next
/// element of `es`.
pub open spec fn fold_chain<T, U, F: Fn(U, &T) -> U>(acc: Seq<U>, init: U, r: U, es: Seq<T>, f: F) -> bool {
    &&& acc.len() == es.len() + 1
    &&& acc[0] == init
    &&& acc[es.len() as int] == r
    &&& forall|k: int| 0 <= k < es.len() ==> #[trigger] f.ensures((acc[k], &es[k]), acc[k + 1])
}

} // verus!
