use ashpan::AllocationCallbacks;
use ashpan::DestroyEvent;
use ashpan::DestroyLog;
use ashpan::GuardedResource;
use ashpan::Handle;
use ashpan::Inert;

#[test]
fn empty_sequence_guard_destroys_nothing() {
    let mut log: DestroyLog<u64> = DestroyLog::new();
    let destroyer = 7u64;
    let resources: Vec<Result<Handle<u64>, ()>> = vec![];

    let guarded = GuardedResource::try_new_from(resources, &destroyer, None, &mut log).unwrap();
    assert_eq!(guarded.len(), 0);
    guarded.destroy(&mut log);

    assert!(log.is_empty());
}

#[test]
fn failure_at_first_position_destroys_nothing() {
    let mut log: DestroyLog<u64> = DestroyLog::new();
    let destroyer = 7u64;
    let resources: Vec<Result<Handle<u64>, &str>> = vec![Err("oh no"), Ok(Handle::new(4))];

    let result = GuardedResource::try_new_from(resources, &destroyer, None, &mut log);

    match result {
        Err(error) => assert_eq!(error, "oh no"),
        Ok(_) => panic!("expected the error to be returned"),
    }
    assert!(log.is_empty());
}

#[test]
fn popped_element_is_returned_unchanged() {
    let mut log: DestroyLog<u64> = DestroyLog::new();
    let destroyer = 7u64;
    let resources: Vec<Result<Handle<u64>, ()>> = vec![Ok(Handle::new(10)), Ok(Handle::new(11))];

    let mut guarded =
        GuardedResource::try_new_from(resources, &destroyer, None, &mut log).unwrap();
    let removed = guarded.pop().expect("two resources were under management");
    assert_eq!(removed.raw(), 11);
    assert!(log.is_empty());

    guarded.destroy(&mut log);
    assert_eq!(log.len(), 1);
    assert_eq!(log.get(0), DestroyEvent { resource: 10, destroyer: 7, callbacks: None });
}

#[test]
fn taking_a_sequence_suppresses_destruction() {
    let mut log: DestroyLog<u64> = DestroyLog::new();
    let destroyer = 7u64;
    let resources: Vec<Result<Handle<u64>, ()>> = vec![Ok(Handle::new(1)), Ok(Handle::new(2))];

    let guarded = GuardedResource::try_new_from(resources, &destroyer, None, &mut log).unwrap();
    let raw = guarded.take();

    assert_eq!(raw.len(), 2);
    assert_eq!(raw[0].raw(), 1);
    assert_eq!(raw[1].raw(), 2);
    assert!(log.is_empty());
}

#[test]
fn released_resource_can_be_guarded_again() {
    let mut log: DestroyLog<u8> = DestroyLog::new();
    let destroyer = 9u8;

    let first_guard = GuardedResource::new(Handle::new(77), &destroyer, None);
    let raw = first_guard.take();
    let second_guard = GuardedResource::new(raw, &destroyer, None);
    second_guard.destroy(&mut log);

    assert_eq!(log.len(), 1);
    assert_eq!(log.get(0), DestroyEvent { resource: 77, destroyer: 9, callbacks: None });
}

#[test]
fn accessors_expose_construction_values() {
    let allocation_callbacks = AllocationCallbacks { addr: 0x4000 };
    let mut log: DestroyLog<i32> = DestroyLog::new();
    let destroyer = 42;

    let guarded = GuardedResource::new(Handle::new(5), &destroyer, Some(allocation_callbacks));
    assert_eq!(*guarded.destroyer(), 42);
    assert_eq!(guarded.allocation_callbacks(), Some(allocation_callbacks));

    let sibling = GuardedResource::new(
        Handle::<i32>::new(6),
        guarded.destroyer(),
        guarded.allocation_callbacks(),
    );
    guarded.destroy(&mut log);
    sibling.destroy(&mut log);

    assert_eq!(
        log.get(0),
        DestroyEvent { resource: 5, destroyer: 42, callbacks: Some(allocation_callbacks) }
    );
    assert_eq!(
        log.get(1),
        DestroyEvent { resource: 6, destroyer: 42, callbacks: Some(allocation_callbacks) }
    );
}

#[test]
fn no_op_destroyer_needs_only_unit() {
    let mut log: DestroyLog<()> = DestroyLog::new();
    let unit = ();

    let guarded = GuardedResource::new(Inert("payload"), &unit, None);
    guarded.destroy(&mut log);

    assert!(log.is_empty());
}

#[test]
fn mutation_through_the_guard_is_kept() {
    let mut log: DestroyLog<()> = DestroyLog::new();
    let unit = ();
    let resources: Vec<Result<Inert<u32>, ()>> = vec![Ok(Inert(8))];

    let mut guarded = GuardedResource::try_new_from(resources, &unit, None, &mut log).unwrap();
    guarded.peek_mut()[0].set_value(88);
    guarded.push(Inert(99));

    assert_eq!(guarded.len(), 2);
    assert_eq!(guarded.peek()[0].value(), 88);
    assert_eq!(guarded.peek()[1].value(), 99);
}
