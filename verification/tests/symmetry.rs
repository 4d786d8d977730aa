use wave_framework::SymmetryClass;

fn rotate_n(c: SymmetryClass, i: usize, n: usize) -> usize {
    let mut r = i;
    for _ in 0..n {
        r = c.rotate(r);
    }
    r
}

#[test]
fn cardinalities() {
    assert_eq!(1, SymmetryClass::X.cardinality());
    assert_eq!(2, SymmetryClass::I.cardinality());
    assert_eq!(2, SymmetryClass::Diagonal.cardinality());
    assert_eq!(4, SymmetryClass::T.cardinality());
    assert_eq!(4, SymmetryClass::L.cardinality());
    assert_eq!(8, SymmetryClass::F.cardinality());
}

#[test]
fn rotate_cycle_closure() {
    let classes = [
        SymmetryClass::X,
        SymmetryClass::I,
        SymmetryClass::Diagonal,
        SymmetryClass::T,
        SymmetryClass::L,
        SymmetryClass::F,
    ];
    for c in classes {
        let card = c.cardinality();
        for i in 0..card {
            assert_eq!(i, rotate_n(c, i, card));
        }
    }
}

#[test]
fn reflect_involution() {
    let classes = [
        SymmetryClass::X,
        SymmetryClass::I,
        SymmetryClass::Diagonal,
        SymmetryClass::T,
        SymmetryClass::L,
        SymmetryClass::F,
    ];
    for c in classes {
        for i in 0..c.cardinality() {
            assert_eq!(i, c.reflect(c.reflect(i)));
        }
    }
}

#[test]
fn rotate_formulas() {
    assert_eq!(0, SymmetryClass::X.rotate(0));
    assert_eq!(1, SymmetryClass::I.rotate(0));
    assert_eq!(0, SymmetryClass::I.rotate(1));
    assert_eq!(1, SymmetryClass::Diagonal.rotate(0));
    assert_eq!(3, SymmetryClass::T.rotate(2));
    assert_eq!(0, SymmetryClass::L.rotate(3));
    assert_eq!(1, SymmetryClass::F.rotate(0));
    assert_eq!(0, SymmetryClass::F.rotate(3));
    assert_eq!(7, SymmetryClass::F.rotate(4));
    assert_eq!(6, SymmetryClass::F.rotate(7));
}

#[test]
fn reflect_formulas() {
    assert_eq!(0, SymmetryClass::X.reflect(0));
    assert_eq!(1, SymmetryClass::I.reflect(1));
    assert_eq!(0, SymmetryClass::Diagonal.reflect(1));
    assert_eq!(2, SymmetryClass::T.reflect(2));
    assert_eq!(3, SymmetryClass::T.reflect(1));
    assert_eq!(1, SymmetryClass::L.reflect(0));
    assert_eq!(2, SymmetryClass::L.reflect(3));
    assert_eq!(4, SymmetryClass::F.reflect(0));
    assert_eq!(3, SymmetryClass::F.reflect(7));
}

#[test]
fn tag_resolution() {
    assert_eq!((SymmetryClass::X, true), SymmetryClass::from_tag("X"));
    assert_eq!((SymmetryClass::I, true), SymmetryClass::from_tag("I"));
    assert_eq!((SymmetryClass::Diagonal, true), SymmetryClass::from_tag("\\"));
    assert_eq!((SymmetryClass::T, true), SymmetryClass::from_tag("T"));
    assert_eq!((SymmetryClass::L, true), SymmetryClass::from_tag("L"));
    assert_eq!((SymmetryClass::F, true), SymmetryClass::from_tag("F"));
    assert_eq!((SymmetryClass::X, false), SymmetryClass::from_tag("Q"));
    assert_eq!((SymmetryClass::X, false), SymmetryClass::from_tag(""));
}
