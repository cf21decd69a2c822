use packagesbot::error::Error;
use packagesbot::telegram::bot::{
    no_results_reply, search_reply, unrecognized_reply, Dispatch, HandlerRegistry,
};
use packagesbot::Package;

fn registry() -> HandlerRegistry {
    let mut reg = HandlerRegistry::new();
    assert_eq!(reg.register("rust".to_string()), 0);
    assert_eq!(reg.register("go".to_string()), 1);
    reg
}

#[test]
fn test_dispatch_unrecognized_command() {
    let reg = registry();
    match reg.dispatch("/python serde") {
        Dispatch::Unrecognized => {}
        _ => panic!("expected the unrecognized outcome"),
    }
    assert_eq!(unrecognized_reply(), "Unrecognized command");
}

#[test]
fn test_dispatch_not_a_command() {
    let reg = registry();
    match reg.dispatch("hello there") {
        Dispatch::NotACommand => {}
        _ => panic!("expected the not-a-command outcome"),
    }
}

#[test]
fn test_dispatch_invokes_registered_handler() {
    let reg = registry();
    match reg.dispatch("/go   json parser ") {
        Dispatch::Invoke(slot, cmd) => {
            assert_eq!(slot, 1);
            assert_eq!(cmd.name, "go");
            assert_eq!(cmd.query, "json parser");
        }
        _ => panic!("expected a handler invocation"),
    }
}

#[test]
fn test_register_reuses_slot_for_duplicate_name() {
    let mut reg = registry();
    assert_eq!(reg.register("rust".to_string()), 0);
    match reg.dispatch("/rust x") {
        Dispatch::Invoke(slot, _) => assert_eq!(slot, 0),
        _ => panic!("expected a handler invocation"),
    }
}

#[test]
fn test_search_failure_fallback() {
    let err: Result<Vec<Package>, Error> = Err(Error::General("backend down".to_string()));
    assert_eq!(search_reply(&err), "No results found");

    let empty: Result<Vec<Package>, Error> = Ok(Vec::new());
    assert_eq!(search_reply(&empty), "No results found");

    assert_eq!(no_results_reply(), "No results found");
}

#[test]
fn test_error_description() {
    let err = Error::General("decode failed".to_string());
    assert_eq!(err.description(), "decode failed");
}
