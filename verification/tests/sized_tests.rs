use chim_compiler::sized::{Nat, Proof, SafeIndex, SizedVec, TypeNat, Vector, id, const_fn};

#[test]
fn type_nat_arithmetic() {
    let a = TypeNat(7);
    let b = TypeNat(3);
    assert_eq!(a.add(&b), TypeNat(10));
    assert_eq!(a.sub(&b), Some(TypeNat(4)));
    assert_eq!(b.sub(&a), None);
    assert_eq!(a.mul(&b), TypeNat(21));
    assert_eq!(a.min(&b), TypeNat(3));
    assert_eq!(a.max(&b), TypeNat(7));
    assert!(TypeNat::zero().is_zero());
    assert!(TypeNat::one().is_positive());
    assert_eq!(TypeNat::from_usize(5).to_usize(), Some(5));
    assert_eq!(TypeNat(-1).to_usize(), None);
}

#[test]
fn peano_naturals() {
    let three = Nat::from_usize(3);
    assert_eq!(three.to_usize(), Some(3));
    assert_eq!(Nat::zero().to_usize(), Some(0));
    assert_eq!(Nat::one().to_usize(), Some(1));
    let two = Nat::from_usize(2);
    assert_eq!(three.add(&two).to_usize(), Some(5));
    assert_eq!(three.sub(&two).unwrap().to_usize(), Some(1));
    assert!(two.sub(&three).is_none());
    assert_eq!(three.mul(&two).to_usize(), Some(6));
    // successors around a concrete value are not counted by to_usize
    let v = Nat::S(Box::new(Nat::Val(TypeNat(5))));
    assert_eq!(v.to_usize(), Some(5));
    assert_eq!(Nat::Val(TypeNat(4)).add(&Nat::Z).to_usize(), Some(4));
}

#[test]
fn sized_vectors() {
    let v = SizedVec::from_vec(vec![1, 2, 3], Nat::from_usize(3)).unwrap();
    assert_eq!(v.len().to_usize(), Some(3));
    assert!(!v.is_empty());
    assert_eq!(v.get(1), Some(&2));
    assert_eq!(v.get(3), None);
    assert_eq!(v.index(&Nat::from_usize(2)), Some(&3));
    assert!(SizedVec::from_slice(&[1, 2], Nat::from_usize(3)).is_none());
    assert_eq!(SizedVec::from_slice(&[1, 2], Nat::from_usize(2)).unwrap().as_slice(), &[1, 2]);
    let e: SizedVec<i32> = SizedVec::new();
    assert!(e.is_empty());
}

#[test]
fn length_indexed_vectors() {
    let nil: Vector<i32> = Vector::nil();
    let v = Vector::cons(1, &Vector::cons(2, &nil));
    assert_eq!(v.elements, vec![1, 2]);
    assert_eq!(v.length().to_usize(), Some(2));
    assert_eq!(v.head(), Some(&1));
    let t = v.tail().unwrap();
    assert_eq!(t.elements, vec![2]);
    assert_eq!(t.length.to_usize(), Some(1));
    assert_eq!(v.append(&v).elements, vec![1, 2, 1, 2]);
    assert_eq!(v.append(&v).length.to_usize(), Some(4));
    assert_eq!(v.reverse().elements, vec![2, 1]);
    assert_eq!(v.map(|x| x * 10).elements, vec![10, 20]);
    assert_eq!(v.foldl(0, |a, x| a + x), 3);
    assert_eq!(v.index(&Nat::from_usize(1)), Some(&2));
}

#[test]
fn proofs_and_helpers() {
    assert!(Proof::assert_cond(true).is_some());
    assert!(Proof::assert_cond(false).is_none());
    assert_eq!(Proof::trivial().constraints.len(), 0);
    assert_eq!(id(5), 5);
    assert_eq!(const_fn(1, "x"), 1);
    assert!(SafeIndex::new(3, Nat::from_usize(1), &[2, 3]).is_some());
    assert!(SafeIndex::new(4, Nat::from_usize(1), &[2, 3]).is_none());
}

#[test]
fn foldl_applies_in_order() {
    let nil: Vector<i32> = Vector::nil();
    let v = Vector::cons(1, &Vector::cons(2, &Vector::cons(3, &nil)));
    assert_eq!(v.foldl(String::new(), |mut acc, x| { acc.push_str(&x.to_string()); acc }), "123");
    assert_eq!(v.foldl(10, |a, x| a * 2 + x), 91);
}
