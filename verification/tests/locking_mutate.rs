use cell_memory::Da;
use cell_memory::Oda;
use cell_memory::locking_mutate::locking_mutate2;
use cell_memory::locking_mutate::locking_mutate2_optional;
use cell_memory::locking_mutate::locking_mutate3;
use cell_memory::locking_mutate::locking_mutate_mixed;

/// A value type without `Copy`, mirroring real payloads.
#[derive(Clone, Debug, Default, PartialEq, Eq)]
struct Data {
    num: i32,
}

impl Data {
    fn new(num: i32) -> Self {
        Self { num }
    }
}

impl std::ops::Add for Data {
    type Output = Self;

    fn add(self, rhs: Self) -> Self {
        Data::new(self.num + rhs.num)
    }
}

impl std::ops::Add<i32> for Data {
    type Output = Self;

    fn add(self, rhs: i32) -> Self {
        Data::new(self.num + rhs)
    }
}

impl From<i32> for Data {
    fn from(num: i32) -> Self {
        Data::new(num)
    }
}

#[test]
fn locking_mutate_da_lock() {
    let mut da_one = Da::new(Data::new(1));
    let mut da_two = Da::new(Data::new(2));

    locking_mutate2(&mut da_one, &mut da_two, |one: &Data, two: &Data| {
        (one.clone() + Data::new(1), two.clone() + Data::new(1))
    });

    assert_eq!(*da_one.get(), 2.into());
    assert_eq!(*da_two.get(), 3.into());
}

#[test]
fn locking_mutate_oda_lock() {
    let mut oda_one = Oda::new(Data::new(1));
    let mut oda_two = Oda::new(Data::new(2));

    locking_mutate2_optional(
        &mut oda_one,
        &mut oda_two,
        |one: Option<&Data>, two: Option<&Data>| {
            (one.map(|value| value.clone() + 1), two.map(|value| value.clone() + 1))
        },
    );

    assert_eq!(*oda_one.get().unwrap(), 2.into());
    assert_eq!(*oda_two.get().unwrap(), 3.into());
}

#[test]
fn mod_da_lock() {
    let mut da_one = Da::new(Data::new(1));
    let mut da_two = Da::new(Data::new(2));

    locking_mutate2(&mut da_one, &mut da_two, |one: &Data, two: &Data| {
        (one.clone() + Data::new(1), two.clone() + Data::new(1))
    });

    assert_eq!(*da_one.get(), 2.into());
    assert_eq!(*da_two.get(), 3.into());
}

#[test]
fn mod_oda_lock() {
    let mut oda_one = Oda::new(Data::new(1));
    let mut oda_two = Oda::new(Data::new(2));

    locking_mutate2_optional(
        &mut oda_one,
        &mut oda_two,
        |one: Option<&Data>, two: Option<&Data>| {
            (one.map(|value| value.clone() + 1), two.map(|value| value.clone() + 1))
        },
    );

    assert_eq!(*oda_one.get().unwrap(), 2.into());
    assert_eq!(*oda_two.get().unwrap(), 3.into());
}

#[test]
fn transform_increments_pair() {
    // Two cells initialized to 1 and 2; one transform adds 1 to each.
    let mut a = Da::new(1u64);
    let mut b = Da::new(2u64);

    locking_mutate2(&mut a, &mut b, |x: &u64, y: &u64| (*x + 1, *y + 1));

    assert_eq!(*a.get(), 2);
    assert_eq!(*b.get(), 3);
}

#[test]
fn transform_three_cells_together() {
    let mut a = Da::new(1u64);
    let mut b = Da::new(10u64);
    let mut c = Da::new(100u64);

    locking_mutate3(&mut a, &mut b, &mut c, |x: &u64, y: &u64, z: &u64| {
        (*x + *y, *y + *z, *z + *x)
    });

    assert_eq!(*a.get(), 11);
    assert_eq!(*b.get(), 110);
    assert_eq!(*c.get(), 101);
}

#[test]
fn transform_mixes_cell_kinds() {
    // A score in a mandatory cell, a best score in an optional one.
    let mut score = Da::new(Data::new(5));
    let mut best: Oda<Data> = Oda::new(Data::new(8));

    locking_mutate_mixed(&mut score, &mut best, |s: &Data, b: Option<&Data>| {
        let bumped = s.clone() + 1;
        let new_best = match b {
            Some(b) if b.num >= bumped.num => b.clone(),
            _ => bumped.clone(),
        };
        (bumped, Some(new_best))
    });

    assert_eq!(*score.get(), 6.into());
    assert_eq!(*best.get().unwrap(), 8.into());
}

#[test]
fn transform_keeps_absent_values_absent() {
    let mut present: Oda<Data> = Oda::new(Data::new(7));
    let mut absent: Oda<Data> = Oda::default();

    locking_mutate2_optional(
        &mut present,
        &mut absent,
        |one: Option<&Data>, two: Option<&Data>| {
            (one.map(|value| value.clone() + 1), two.map(|value| value.clone() + 1))
        },
    );

    assert_eq!(*present.get().unwrap(), 8.into());
    assert!(absent.get().is_none());
}
