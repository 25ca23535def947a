use trajan::coordinate::{CoordKind, Coordinate};

#[test]
fn coordinate_which_coordinate() {
    let p = Coordinate::build(CoordKind::Position, 1.0, 2.0, 3.0);
    assert_eq!(p.which(), CoordKind::Position);

    let v = Coordinate::build(CoordKind::Velocity, 1.0, 2.0, 3.0);
    assert_eq!(v.which(), CoordKind::Velocity);

    let f = Coordinate::build(CoordKind::Force, 1.0, 2.0, 3.0);
    assert_eq!(f.which(), CoordKind::Force);
}

#[test]
fn coordkind_which_coordinate() {
    let p = Coordinate::build(CoordKind::Position, 1.0, 2.0, 3.0);
    assert_eq!(p.which(), CoordKind::Position);

    let v = Coordinate::build(CoordKind::Velocity, 1.0, 2.0, 3.0);
    assert_eq!(v.which(), CoordKind::Velocity);

    let f = Coordinate::build(CoordKind::Force, 1.0, 2.0, 3.0);
    assert_eq!(f.which(), CoordKind::Force);
}

#[test]
fn access_element() {
    let p = Coordinate::build(CoordKind::Position, 1.0, 2.0, 3.0);
    assert_eq!(*p.x(), 1.0);
    assert_eq!(*p.y(), 2.0);
    assert_eq!(*p.z(), 3.0);

    let v = Coordinate::build(CoordKind::Velocity, 1.0, 2.0, 3.0);
    assert_eq!(*v.x(), 1.0);
    assert_eq!(*v.y(), 2.0);
    assert_eq!(*v.z(), 3.0);

    let f = Coordinate::build(CoordKind::Force, 1.0, 2.0, 3.0);
    assert_eq!(*f.x(), 1.0);
    assert_eq!(*f.y(), 2.0);
    assert_eq!(*f.z(), 3.0);
}

#[test]
fn access_element_mut() {
    let mut p = Coordinate::build(CoordKind::Position, 1.0, 2.0, 3.0);
    *p.x_mut() += 100.0;
    *p.y_mut() += 100.0;
    *p.z_mut() += 100.0;
    assert_eq!(*p.x(), 101.0);
    assert_eq!(*p.y(), 102.0);
    assert_eq!(*p.z(), 103.0);

    let mut v = Coordinate::build(CoordKind::Velocity, 1.0, 2.0, 3.0);
    *v.x_mut() += 100.0;
    *v.y_mut() += 100.0;
    *v.z_mut() += 100.0;
    assert_eq!(*v.x(), 101.0);
    assert_eq!(*v.y(), 102.0);
    assert_eq!(*v.z(), 103.0);

    let mut f = Coordinate::build(CoordKind::Force, 1.0, 2.0, 3.0);
    *f.x_mut() += 100.0;
    *f.y_mut() += 100.0;
    *f.z_mut() += 100.0;
    assert_eq!(*f.x(), 101.0);
    assert_eq!(*f.y(), 102.0);
    assert_eq!(*f.z(), 103.0);
}

#[test]
fn access_element_idx() {
    let p = Coordinate::build(CoordKind::Position, 1.0, 2.0, 3.0);
    assert_eq!(*p.index(0), 1.0);
    assert_eq!(*p.index(1), 2.0);
    assert_eq!(*p.index(2), 3.0);

    let v = Coordinate::build(CoordKind::Velocity, 1.0, 2.0, 3.0);
    assert_eq!(*v.index(0), 1.0);
    assert_eq!(*v.index(1), 2.0);
    assert_eq!(*v.index(2), 3.0);

    let f = Coordinate::build(CoordKind::Force, 1.0, 2.0, 3.0);
    assert_eq!(*f.index(0), 1.0);
    assert_eq!(*f.index(1), 2.0);
    assert_eq!(*f.index(2), 3.0);
}

#[test]
fn access_element_idx_mut() {
    let mut p = Coordinate::build(CoordKind::Position, 1.0, 2.0, 3.0);
    *p.index_mut(0) += 100.0;
    *p.index_mut(1) += 100.0;
    *p.index_mut(2) += 100.0;
    assert_eq!(*p.index(0), 101.0);
    assert_eq!(*p.index(1), 102.0);
    assert_eq!(*p.index(2), 103.0);

    let mut v = Coordinate::build(CoordKind::Velocity, 1.0, 2.0, 3.0);
    *v.index_mut(0) += 100.0;
    *v.index_mut(1) += 100.0;
    *v.index_mut(2) += 100.0;
    assert_eq!(*v.index(0), 101.0);
    assert_eq!(*v.index(1), 102.0);
    assert_eq!(*v.index(2), 103.0);

    let mut f = Coordinate::build(CoordKind::Force, 1.0, 2.0, 3.0);
    *f.index_mut(0) += 100.0;
    *f.index_mut(1) += 100.0;
    *f.index_mut(2) += 100.0;
    assert_eq!(*f.index(0), 101.0);
    assert_eq!(*f.index(1), 102.0);
    assert_eq!(*f.index(2), 103.0);
}

#[test]
fn indexed_access_every_tag() {
    for kind in [CoordKind::Position, CoordKind::Velocity, CoordKind::Force] {
        let c = Coordinate::build(kind, 1.0, 2.0, 3.0);
        assert_eq!((*c.index(0), *c.index(1), *c.index(2)), (1.0, 2.0, 3.0));
    }
}

#[test]
fn into_components_discards_tag() {
    let v = Coordinate::build(CoordKind::Velocity, 4.0, 5.0, 6.0);
    assert_eq!(v.into_components(), (4.0, 5.0, 6.0));
    let f = Coordinate::build(CoordKind::Force, 4.0, 5.0, 6.0);
    assert_eq!(f.into_components(), (4.0, 5.0, 6.0));
}
