use hotreload::loader::{get_game_funcs, get_symbol, GameFuncs, Handle, LoadObservation, Symbol};
use hotreload::{HostError, LoadFailure};

fn good_observation() -> LoadObservation {
    LoadObservation { modified_time: Some(9), library: 4, entry_address: 0x1000 }
}

#[test]
fn loading_nonexistent_path_is_fatal() {
    let obs = LoadObservation { modified_time: None, library: 4, entry_address: 0x1000 };
    assert_eq!(
        get_game_funcs(&obs),
        Err(HostError::FatalLoad(LoadFailure::MissingFile))
    );
}

#[test]
fn loading_unopenable_artifact_is_fatal() {
    let obs = LoadObservation { modified_time: Some(9), library: 0, entry_address: 0x1000 };
    assert_eq!(
        get_game_funcs(&obs),
        Err(HostError::FatalLoad(LoadFailure::OpenFailure))
    );
}

#[test]
fn loading_module_lacking_symbol_is_fatal() {
    let obs = LoadObservation { modified_time: Some(9), library: 4, entry_address: 0 };
    assert_eq!(
        get_game_funcs(&obs),
        Err(HostError::FatalLoad(LoadFailure::MissingSymbol))
    );
}

#[test]
fn loading_complete_observation_succeeds() {
    let funcs = get_game_funcs(&good_observation()).unwrap();
    assert_eq!(funcs.handle, Handle(4));
    assert_eq!(funcs.game_update_and_render, Symbol { addr: 0x1000 });
    assert_eq!(funcs.created_time, 9);
}

#[test]
fn symbol_resolution_rejects_null() {
    assert_eq!(
        get_symbol(0),
        Err(HostError::FatalLoad(LoadFailure::MissingSymbol))
    );
    assert_eq!(get_symbol(7), Ok(Symbol { addr: 7 }));
}

#[test]
fn staleness_compares_timestamps() {
    let funcs = get_game_funcs(&good_observation()).unwrap();
    assert!(!funcs.is_library_updated(9));
    assert!(funcs.is_library_updated(10));
    assert!(funcs.is_library_updated(8));
}

#[test]
fn reload_is_noop_when_not_stale() {
    let funcs = get_game_funcs(&good_observation()).unwrap();
    let before = funcs;
    let after = funcs.reload(9, &None).unwrap();
    assert_eq!(after, before);
    assert_eq!(after.handle, Handle(4));
}

#[test]
fn reload_swaps_handle_when_stale() {
    let funcs = get_game_funcs(&good_observation()).unwrap();
    let fresh = LoadObservation { modified_time: Some(10), library: 5, entry_address: 0x2000 };
    let after = funcs.reload(10, &Some(fresh)).unwrap();
    assert_eq!(after.handle, Handle(5));
    assert_eq!(after.game_update_and_render, Symbol { addr: 0x2000 });
    assert_eq!(after.created_time, 10);
}

#[test]
fn reload_of_stale_module_can_fail() {
    let funcs = get_game_funcs(&good_observation()).unwrap();
    let fresh = LoadObservation { modified_time: Some(10), library: 5, entry_address: 0 };
    assert_eq!(
        funcs.reload(10, &Some(fresh)),
        Err(HostError::FatalLoad(LoadFailure::MissingSymbol))
    );
}

#[test]
fn release_surrenders_the_handle() {
    let funcs = get_game_funcs(&good_observation()).unwrap();
    assert_eq!(funcs.release(), Handle(4));
}

#[test]
fn reload_never_touches_an_arena() {
    // A reload takes no reference to the arena at all; its contents are
    // bit-identical across a swap.
    let mut m = hotreload::arena::Memory::with_capacity(16);
    m.write_byte(0, 77);
    let before = m.data_as_vec();
    let funcs = get_game_funcs(&good_observation()).unwrap();
    let fresh = LoadObservation { modified_time: Some(10), library: 5, entry_address: 0x2000 };
    let _swapped = funcs.reload(10, &Some(fresh)).unwrap();
    assert_eq!(m.data_as_vec(), before);
}

#[test]
fn game_funcs_fields_survive_copy() {
    let funcs = get_game_funcs(&good_observation()).unwrap();
    let copy: GameFuncs = funcs;
    assert_eq!(copy, funcs);
}
