use modloader::driver::{
    load_graph, resolve_entry, run, MemoryModule, MemoryOrigin, RunEvent, RunMachine, RunPhase,
};
use modloader::errors::{IoKind, LoadError, ModuleType, RequestedKind};
use modloader::fetch::FetchOutcome;
use modloader::loader::SimpleModuleLoader;
use modloader::specifier::ModuleSpecifier;

fn module(specifier: &str, bytes: &str, imports: &[&str]) -> MemoryModule {
    MemoryModule {
        specifier: specifier.as_bytes().to_vec(),
        bytes: bytes.as_bytes().to_vec(),
        redirect_to: None,
        imports: imports.iter().map(|i| i.as_bytes().to_vec()).collect(),
    }
}

#[test]
fn entry_resolution_builds_a_file_identifier() {
    let m = resolve_entry(&b"./src/example.js".to_vec(), &b"/proj".to_vec()).unwrap();
    assert_eq!(m.as_bytes(), &b"file:///proj/src/example.js".to_vec());
    let bare = resolve_entry(&b"src/example.js".to_vec(), &b"/proj".to_vec()).unwrap();
    assert_eq!(bare.as_bytes(), &b"file:///proj/src/example.js".to_vec());
}

#[test]
fn entry_resolution_needs_an_absolute_base_directory() {
    assert_eq!(
        resolve_entry(&b"./x.js".to_vec(), &b"proj".to_vec()).unwrap_err(),
        LoadError::Resolution
    );
}

#[test]
fn run_loads_two_local_and_one_remote_module_once_each() {
    let origin = MemoryOrigin {
        modules: vec![
            module(
                "file:///proj/main.js",
                "1;",
                &["./a.js", "./b.js", "https://cdn.example/lib.js"],
            ),
            // both locals import each other's sibling once more: the
            // cache answers the repeats
            module("file:///proj/a.js", "2;", &["./b.js"]),
            module("file:///proj/b.js", "3;", &[]),
            module("https://cdn.example/lib.js", "4;", &[]),
        ],
    };
    let loader = run(&origin, &b"./main.js".to_vec(), &b"/proj".to_vec(), 100, true, true)
        .unwrap();
    assert_eq!(loader.len(), 4);
    let i = loader.lookup_index(&b"file:///proj/b.js".to_vec(), ModuleType::Script).unwrap();
    assert_eq!(loader.source(i).bytes, b"3;".to_vec());
}

#[test]
fn a_malformed_imported_module_fails_the_whole_run() {
    let origin = MemoryOrigin {
        modules: vec![
            module("file:///proj/main.js", "1;", &["./bad.ts"]),
            module("file:///proj/bad.ts", "const x: = ;", &[]),
        ],
    };
    let err = run(&origin, &b"./main.js".to_vec(), &b"/proj".to_vec(), 100, true, true)
        .unwrap_err();
    assert!(matches!(err, LoadError::Transpile { .. }));
}

#[test]
fn a_missing_module_is_an_io_failure() {
    let origin = MemoryOrigin {
        modules: vec![module("file:///proj/main.js", "1;", &["./gone.js"])],
    };
    let err = run(&origin, &b"./main.js".to_vec(), &b"/proj".to_vec(), 100, true, true)
        .unwrap_err();
    assert_eq!(err, LoadError::Io(IoKind::NotFound));
}

#[test]
fn an_evaluation_failure_fails_the_run_after_loading() {
    let origin = MemoryOrigin {
        modules: vec![module("file:///proj/main.js", "1;", &[])],
    };
    let err = run(&origin, &b"./main.js".to_vec(), &b"/proj".to_vec(), 100, false, true)
        .unwrap_err();
    assert_eq!(err, LoadError::Evaluation);
}

#[test]
fn a_redirected_module_is_cached_under_both_identifiers() {
    let mut origin = MemoryOrigin {
        modules: vec![
            module("file:///proj/main.js", "1;", &["https://h/a.js", "https://h/a.js"]),
            module("https://h/a.js", "42;", &[]),
        ],
    };
    origin.modules[1].redirect_to = Some(b"https://h/b.js".to_vec());
    let loader = run(&origin, &b"./main.js".to_vec(), &b"/proj".to_vec(), 100, true, true)
        .unwrap();
    // one source, retrievable under the requested and the final name,
    // and the repeated reference did not fetch again
    assert_eq!(loader.len(), 2);
    let ia = loader.lookup_index(&b"https://h/a.js".to_vec(), ModuleType::Script).unwrap();
    let ib = loader.lookup_index(&b"https://h/b.js".to_vec(), ModuleType::Script).unwrap();
    assert_eq!(ia, ib);
    assert_eq!(loader.source(ia).bytes, b"42;".to_vec());
    let rs = loader.source(ia).resolved_specifier.as_ref().unwrap();
    assert_eq!(rs.as_bytes(), &b"https://h/b.js".to_vec());
}

#[test]
fn the_first_fetch_wins_for_a_distinct_identifier() {
    let mut loader = SimpleModuleLoader::new();
    let m = ModuleSpecifier::from_bytes(b"https://h/a.js".to_vec()).unwrap();
    let outcome_first = FetchOutcome::HttpResponse {
        status: 200,
        bytes: b"first".to_vec(),
        final_url: b"https://h/a.js".to_vec(),
    };
    let i = loader.load(&m, RequestedKind::Default, outcome_first).unwrap();
    // a second load of the same identifier is answered from the cache:
    // the later outcome, even a failing one, changes nothing
    let outcome_second = FetchOutcome::HttpTransportError;
    let j = loader.load(&m, RequestedKind::Default, outcome_second).unwrap();
    assert_eq!(i, j);
    assert_eq!(loader.source(j).bytes, b"first".to_vec());
    assert_eq!(loader.len(), 1);
}

#[test]
fn the_budget_bounds_graph_loading() {
    let origin = MemoryOrigin {
        modules: vec![
            module("file:///proj/main.js", "1;", &["./a.js"]),
            module("file:///proj/a.js", "2;", &["./main.js"]),
        ],
    };
    let entry = ModuleSpecifier::from_bytes(b"file:///proj/main.js".to_vec()).unwrap();
    let mut loader = SimpleModuleLoader::new();
    // a cyclic graph still terminates: the cache answers the cycle
    let r = load_graph(&origin, &entry, &mut loader, 100);
    assert_eq!(r, Some(Ok(())));
    assert_eq!(loader.len(), 2);
    // and an exhausted budget is reported as such, not as success
    let mut starved = SimpleModuleLoader::new();
    assert_eq!(load_graph(&origin, &entry, &mut starved, 1), None);
}

#[test]
fn the_machine_walks_the_phases_in_order() {
    let mut m = RunMachine::new();
    assert_eq!(m.phase, RunPhase::Created);
    m.advance(RunEvent::EntryResolutionSucceeded);
    assert_eq!(m.phase, RunPhase::EntryResolved);
    m.advance(RunEvent::LoadingStarted);
    assert_eq!(m.phase, RunPhase::GraphLoading);
    m.advance(RunEvent::GraphLoaded);
    assert_eq!(m.phase, RunPhase::Evaluating);
    m.advance(RunEvent::EvaluationSucceeded);
    assert_eq!(m.phase, RunPhase::Draining);
    m.advance(RunEvent::DrainQuiescent);
    assert_eq!(m.phase, RunPhase::Completed);
}

#[test]
fn the_first_error_is_the_one_reported() {
    let mut m = RunMachine::new();
    m.advance(RunEvent::EntryResolutionSucceeded);
    m.advance(RunEvent::LoadingStarted);
    m.advance(RunEvent::GraphLoadFailed(LoadError::Network));
    assert_eq!(m.phase, RunPhase::Failed);
    assert_eq!(m.first_error, Some(LoadError::Network));
    // later events change nothing
    m.advance(RunEvent::EvaluationFailed);
    m.advance(RunEvent::DrainQuiescent);
    assert_eq!(m.first_error, Some(LoadError::Network));
    assert_eq!(m.phase, RunPhase::Failed);
}

#[test]
fn a_cached_specifier_never_stands_in_for_the_kind_check() {
    let mut loader = SimpleModuleLoader::new();
    let m = ModuleSpecifier::from_bytes(b"https://h/a.js".to_vec()).unwrap();
    let outcome = FetchOutcome::HttpResponse {
        status: 200,
        bytes: b"1;".to_vec(),
        final_url: b"https://h/a.js".to_vec(),
    };
    loader.load(&m, RequestedKind::Default, outcome).unwrap();
    // the unsupported kind is refused before the cache is consulted
    let err = loader
        .load(&m, RequestedKind::Other, FetchOutcome::HttpTransportError)
        .unwrap_err();
    assert_eq!(err, LoadError::UnsupportedModuleType);
    // a structured-data request is a different cache pair, not a
    // silently coerced answer
    let outcome2 = FetchOutcome::HttpResponse {
        status: 200,
        bytes: b"{}".to_vec(),
        final_url: b"https://h/a.js".to_vec(),
    };
    let j = loader.load(&m, RequestedKind::StructuredData, outcome2).unwrap();
    assert_eq!(loader.source(j).module_type, ModuleType::StructuredData);
    assert_eq!(loader.len(), 2);
}
