use cell_memory::Da;
use cell_memory::Oda;

#[derive(Clone, Debug, Default, PartialEq, Eq)]
struct DummyData {
    text: String,
    num: u64,
}

impl DummyData {
    fn new(text: &str, num: u64) -> Self {
        let text = text.to_owned();
        Self { text, num }
    }
}

fn get_default() -> Da<DummyData> {
    Da::new(DummyData::default())
}

fn get_default_optional() -> Oda<DummyData> {
    Oda::new(DummyData::default())
}

#[test]
fn data_access_holds_data() {
    let data_access = Da::new(DummyData::default());
    assert_eq!(*data_access.get(), DummyData::default());

    let optional = Oda::new(DummyData::default());
    assert_eq!(*optional.get().unwrap(), DummyData::default());
}

#[test]
fn data_access_mutate_data() {
    let mut data_access = get_default();
    let mutated_dummy = DummyData::new("I'm different!", 0);

    data_access.set(DummyData::new("I'm different!", 0));
    assert_eq!(*data_access.get(), mutated_dummy);

    let mut optional = get_default_optional();
    optional.set(DummyData::new("I'm different!", 0));
    assert_eq!(*optional.get().unwrap(), mutated_dummy);
}

#[test]
fn data_access_old_reference() {
    let mut data_access = get_default();
    let mutated_dummy = DummyData::new("I'm different!", 0);

    // Get a reference to the original data
    let initial_content = data_access.get();

    // Set new data
    data_access.set(DummyData::new("I'm different!", 0));

    assert_eq!(*initial_content, DummyData::default());
    assert_eq!(*data_access.get(), mutated_dummy);

    let mut optional = get_default_optional();
    let initial_optional = optional.get().unwrap();
    optional.set(DummyData::new("I'm different!", 0));
    assert_eq!(*initial_optional, DummyData::default());
    assert_eq!(*optional.get().unwrap(), mutated_dummy);
}

#[test]
fn data_access_race_condition() {
    let mut data_access = get_default();

    let dummy_data = DummyData::new("I'm different!", 0);
    let dummy_data_clone = dummy_data.clone();

    // Reference to the data before the mutation.
    let before_mutate = data_access.get();

    // A mutation reads the value as it is now ...
    let read_for_mutation = data_access.get();

    // ... and while its function runs, another write lands and is
    // visible to readers.
    {
        let during_mutate = data_access.get();
        assert_eq!(*before_mutate, *during_mutate);

        data_access.set(dummy_data_clone.clone());
        assert_eq!(*data_access.get(), dummy_data_clone);
    }
    let set_value = data_access.get();
    assert_eq!(*data_access.get(), dummy_data);

    // The mutation finishes: its result was computed from the value it
    // read at the start, and its write wins over the one in between.
    let mut mutated = (*read_for_mutation).clone();
    mutated.num += 1;
    data_access.set(mutated);

    // The final value is the mutation's value, as it was the last
    // process to modify the cell.
    assert_eq!(*data_access.get(), DummyData::new("", 1));
    // The pointer to the value set during the mutation is still valid.
    assert_eq!(*set_value, dummy_data);
}

#[test]
fn data_access_default_to_none() {
    let oda: Oda<DummyData> = Oda::default();
    assert!(oda.get().is_none());
}

#[test]
fn data_access_acquire() {
    let mut original = Oda::new(DummyData::new("A!", 0));
    let acquired = Oda::acquire(original.get().unwrap());

    assert_eq!(original.get(), acquired.get());

    // original has a new internal reference.
    original.set(DummyData::default());

    assert_eq!(*acquired.get().unwrap(), DummyData::new("A!", 0));
    assert_eq!(*original.get().unwrap(), DummyData::default());
}

#[test]
fn data_access_replace() {
    let mut original = Oda::new(DummyData::new("A!", 0));

    let mut to_replace = Oda::default();
    to_replace.replace(Some(original.get().unwrap()));

    assert_eq!(original.get(), to_replace.get());

    // original has a new internal reference.
    original.set(DummyData::default());

    assert_eq!(*to_replace.get().unwrap(), DummyData::new("A!", 0));
    assert_eq!(*original.get().unwrap(), DummyData::default());
}

#[test]
fn data_access_empty() {
    let mut oda = Oda::new(DummyData::default());
    assert_eq!(*oda.get().unwrap(), DummyData::default());

    let empty = oda.empty();
    assert_eq!(*empty.unwrap(), DummyData::default());

    assert!(oda.get().is_none());
}

#[test]
fn mod_holds_data() {
    let data_access = Da::new(DummyData::default());
    assert_eq!(*data_access.get(), DummyData::default());

    let optional = Oda::new(DummyData::default());
    assert_eq!(*optional.get().unwrap(), DummyData::default());
}

#[test]
fn mod_mutate_data() {
    let mut data_access = get_default();
    let mutated_dummy = DummyData::new("I'm different!", 0);

    data_access.set(DummyData::new("I'm different!", 0));
    assert_eq!(*data_access.get(), mutated_dummy);

    let mut optional = get_default_optional();
    optional.set(DummyData::new("I'm different!", 0));
    assert_eq!(*optional.get().unwrap(), mutated_dummy);
}

#[test]
fn mod_old_reference() {
    let mut data_access = get_default();
    let mutated_dummy = DummyData::new("I'm different!", 0);

    let initial_content = data_access.get();
    data_access.set(DummyData::new("I'm different!", 0));

    assert_eq!(*initial_content, DummyData::default());
    assert_eq!(*data_access.get(), mutated_dummy);

    let mut optional = get_default_optional();
    let initial_optional = optional.get().unwrap();
    optional.set(DummyData::new("I'm different!", 0));
    assert_eq!(*initial_optional, DummyData::default());
    assert_eq!(*optional.get().unwrap(), mutated_dummy);
}

#[test]
fn mod_race_condition() {
    let mut data_access = get_default_optional();

    let dummy_data = DummyData::new("I'm different!", 0);
    let dummy_data_clone = dummy_data.clone();

    let before_mutate = data_access.get().unwrap();
    let read_for_mutation = data_access.get().unwrap();

    {
        let during_mutate = data_access.get().unwrap();
        assert_eq!(*before_mutate, *during_mutate);

        data_access.set(dummy_data_clone.clone());
        assert_eq!(*data_access.get().unwrap(), dummy_data_clone);
    }
    let set_value = data_access.get().unwrap();
    assert_eq!(*data_access.get().unwrap(), dummy_data);

    let mut mutated = (*read_for_mutation).clone();
    mutated.num += 1;
    data_access.set(mutated);

    assert_eq!(*data_access.get().unwrap(), DummyData::new("", 1));
    assert_eq!(*set_value, dummy_data);
}

#[test]
fn mod_copy_value() {
    let mut da = Da::new(5);
    let copied_value = da.copy_value();

    assert_eq!(*da.get(), copied_value);
    assert_eq!(copied_value, 5);

    da.mutate(|val: &i32| val + 1);

    assert_ne!(*da.get(), copied_value);

    let mut oda = Oda::new(5);
    let copied_optional = oda.copy_value().unwrap();

    assert_eq!(*oda.get().unwrap(), copied_optional);
    assert_eq!(copied_optional, 5);

    oda.mutate(|val: &i32| val + 1);
    assert_ne!(*oda.get().unwrap(), copied_optional);

    oda.empty();
    assert!(oda.copy_value().is_none());
}

#[test]
fn mod_default_to_none() {
    let oda: Oda<DummyData> = Oda::default();
    assert!(oda.get().is_none());
}

#[test]
fn mod_acquire() {
    let mut original = Oda::new(DummyData::new("A!", 0));
    let acquired = Oda::acquire(original.get().unwrap());

    assert_eq!(original.get(), acquired.get());

    original.set(DummyData::default());

    assert_eq!(*acquired.get().unwrap(), DummyData::new("A!", 0));
    assert_eq!(*original.get().unwrap(), DummyData::default());
}

#[test]
fn mod_replace() {
    let mut original = Oda::new(DummyData::new("A!", 0));

    let mut to_replace = Oda::default();
    to_replace.replace(Some(original.get().unwrap()));

    assert_eq!(original.get(), to_replace.get());

    original.set(DummyData::default());

    assert_eq!(*to_replace.get().unwrap(), DummyData::new("A!", 0));
    assert_eq!(*original.get().unwrap(), DummyData::default());
}

#[test]
fn mod_empty() {
    let mut oda = Oda::new(DummyData::default());
    assert_eq!(*oda.get().unwrap(), DummyData::default());

    let empty = oda.empty();
    assert_eq!(*empty.unwrap(), DummyData::default());

    assert!(oda.get().is_none());
}

#[test]
fn mutate_applies_function_to_entry_value() {
    let mut da = Da::new(DummyData::new("", 4));
    da.mutate(|d: &DummyData| DummyData::new(&d.text, d.num + 1));
    assert_eq!(*da.get(), DummyData::new("", 5));

    let mut oda: Oda<DummyData> = Oda::default();
    oda.mutate(|d: &DummyData| DummyData::new(&d.text, d.num + 1));
    assert!(oda.get().is_none());
}

#[test]
fn conversion_and_defaults() {
    let da: Da<DummyData> = DummyData::new("from", 3).into();
    assert_eq!(*da.get(), DummyData::new("from", 3));

    let oda: Oda<DummyData> = DummyData::new("from", 4).into();
    assert_eq!(*oda.get().unwrap(), DummyData::new("from", 4));

    let defaulted: Da<DummyData> = Da::default();
    assert_eq!(*defaulted.get(), DummyData::default());
}

#[test]
fn cloned_cells_compare_by_contents() {
    let first: Oda<DummyData> = Oda::new(DummyData::new("eq", 1));
    let second = first.clone();
    assert!(first == second);

    let third: Oda<DummyData> = Oda::new(DummyData::new("ne", 2));
    assert!(first != third);

    let empty_one: Oda<DummyData> = Oda::default();
    let empty_two: Oda<DummyData> = Oda::default();
    assert!(empty_one == empty_two);
    assert!(empty_one != first);
}

#[test]
fn snapshots_shared_not_copied() {
    let mut first = Da::new(DummyData::new("shared", 1));
    let snapshot = first.get();
    let second = Da::acquire(first.get());

    first.set(DummyData::new("changed", 2));

    assert_eq!(*snapshot, DummyData::new("shared", 1));
    assert_eq!(*second.get(), DummyData::new("shared", 1));
    assert_eq!(*first.get(), DummyData::new("changed", 2));
}
