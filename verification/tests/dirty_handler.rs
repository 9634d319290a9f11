use yy_boss::{DirtyHandler, DirtyState};

fn dirty_handler() -> DirtyHandler<usize> {
    DirtyHandler::<usize>::new_assoc()
}

fn a() -> String {
    "a".to_string()
}

/// Forgets what is marked for writing, as a save does.
fn clear_reserialize(h: &mut DirtyHandler<usize>) {
    let drained = h.drain_all();
    assert!(drained.resources_to_remove.is_empty());
}

fn reserialize_is(h: &DirtyHandler<usize>, expected: &[(&str, DirtyState)]) {
    let m = h.resources_to_reserialize();
    assert_eq!(m.len(), expected.len());
    for (k, v) in expected {
        assert_eq!(m.get(k), Some(v));
    }
}

fn remove_is(h: &DirtyHandler<usize>, expected: &[(&str, DirtyState)]) {
    let m = h.resources_to_remove();
    assert_eq!(m.len(), expected.len());
    for (k, v) in expected {
        assert_eq!(m.get(k), Some(v));
    }
}

fn associated_is(h: &DirtyHandler<usize>, expected: &[(&str, Vec<usize>)]) {
    let m = h.associated_values().as_ref().unwrap();
    assert_eq!(m.len(), expected.len());
    for (k, v) in expected {
        assert_eq!(m.get(k), Some(v));
    }
}

#[test]
fn add() {
    let mut dirty_handler = dirty_handler();

    dirty_handler.add("a".to_string());
    dirty_handler.add("b".to_string());

    reserialize_is(&dirty_handler, &[("a", DirtyState::New), ("b", DirtyState::New)]);
    remove_is(&dirty_handler, &[]);
}

#[test]
fn replace() {
    let mut dirty_handler = dirty_handler();

    dirty_handler.add("a".to_string());
    clear_reserialize(&mut dirty_handler);
    dirty_handler.replace_associated("a".to_string(), || vec![0]);

    reserialize_is(&dirty_handler, &[("a", DirtyState::Edit)]);
    associated_is(&dirty_handler, &[("a", vec![0])]);
}

#[test]
fn remove() {
    let mut dirty_handler = dirty_handler();

    dirty_handler.add(a());
    clear_reserialize(&mut dirty_handler);

    assert!(dirty_handler.resources_to_reserialize().is_empty());
    assert!(dirty_handler.resources_to_remove().is_empty());
    dirty_handler.remove("a");

    reserialize_is(&dirty_handler, &[]);
    remove_is(&dirty_handler, &[("a", DirtyState::Edit)]);
}

#[test]
fn add_remove_simple_symmetry() {
    let mut dirty_handler = dirty_handler();

    dirty_handler.add(a());
    dirty_handler.remove("a");

    assert!(dirty_handler.resources_to_reserialize().is_empty());
    assert!(dirty_handler.resources_to_remove().is_empty());
}

#[test]
fn remove_add_simple_symmetry() {
    let mut dirty_handler = dirty_handler();

    dirty_handler.add(a());
    clear_reserialize(&mut dirty_handler);

    dirty_handler.remove("a");
    dirty_handler.add(a());

    reserialize_is(&dirty_handler, &[("a", DirtyState::Edit)]);
    assert!(dirty_handler.resources_to_remove().is_empty());
}

#[test]
fn remove_add_complex_symmetry() {
    let mut dirty_handler = dirty_handler();

    dirty_handler.add(a());
    clear_reserialize(&mut dirty_handler);

    dirty_handler.remove("a");
    dirty_handler.add(a());
    reserialize_is(&dirty_handler, &[("a", DirtyState::Edit)]);
    assert!(dirty_handler.resources_to_remove().is_empty());

    // and now a complex case...
    clear_reserialize(&mut dirty_handler);
    dirty_handler.remove("a");
    dirty_handler.add(a());
    reserialize_is(&dirty_handler, &[("a", DirtyState::Edit)]);
    assert!(dirty_handler.resources_to_remove().is_empty());
}

#[test]
fn remove_add_remove_symmetry() {
    let mut dirty_handler = dirty_handler();

    dirty_handler.add(a());
    clear_reserialize(&mut dirty_handler);

    dirty_handler.remove("a");
    dirty_handler.add(a());

    dirty_handler.remove("a");

    assert!(dirty_handler.resources_to_reserialize().is_empty());
    remove_is(&dirty_handler, &[("a", DirtyState::Edit)]);

    assert!(dirty_handler.associated_values().as_ref().unwrap().is_empty());
}

#[test]
fn add_remove_add_symmetry() {
    let mut dummy_handler = dirty_handler();

    dummy_handler.add(a());
    dummy_handler.remove("a");
    dummy_handler.add(a());

    reserialize_is(&dummy_handler, &[("a", DirtyState::New)]);
    remove_is(&dummy_handler, &[]);

    assert!(dummy_handler.associated_values().as_ref().unwrap().is_empty());
}

#[test]
fn replace_remove() {
    let mut dirty_handler = dirty_handler();

    dirty_handler.add(a());
    clear_reserialize(&mut dirty_handler);

    dirty_handler.replace_associated(a(), || vec![0]);

    dirty_handler.remove("a");

    reserialize_is(&dirty_handler, &[]);
    remove_is(&dirty_handler, &[("a", DirtyState::Edit)]);

    // the files are kept
    associated_is(&dirty_handler, &[("a", vec![0])]);
}

#[test]
fn replace_remove_add() {
    let mut dirty_handler = dirty_handler();

    dirty_handler.add(a());
    clear_reserialize(&mut dirty_handler);

    dirty_handler.replace_associated(a(), || vec![0]);

    dirty_handler.remove("a");

    reserialize_is(&dirty_handler, &[]);
    remove_is(&dirty_handler, &[("a", DirtyState::Edit)]);

    // the files are kept
    associated_is(&dirty_handler, &[("a", vec![0])]);
}

#[test]
fn replace_of_a_new_resource_keeps_it_new() {
    let mut h = dirty_handler();
    h.add(a());
    h.replace(a());
    reserialize_is(&h, &[("a", DirtyState::New)]);
}

#[test]
fn replace_associated_twice_keeps_first_files() {
    let mut h = dirty_handler();
    h.replace_associated(a(), || vec![1]);
    h.replace_associated(a(), || vec![2]);
    reserialize_is(&h, &[("a", DirtyState::Edit)]);
    associated_is(&h, &[("a", vec![1])]);
}

#[test]
fn drain_hands_out_in_marking_order() {
    let mut h = dirty_handler();
    h.add("b".to_string());
    h.add("a".to_string());
    h.remove("b");
    h.add("c".to_string());
    h.drain_all();
    h.remove("c");
    h.remove("a");
    let d = h.drain_all();
    assert!(d.resources_to_reserialize.is_empty());
    assert_eq!(
        d.resources_to_remove,
        vec![("c".to_string(), DirtyState::Edit), ("a".to_string(), DirtyState::Edit)]
    );
    assert!(h.resources_to_remove().is_empty());
}
