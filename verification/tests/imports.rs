use uiua::error::RuntimeError;
use uiua::imports::ImportStep;
use uiua::imports::{copy_stack, ImportCache};
use uiua::value::{Array, Value};

fn n(x: f64) -> Value {
    Value::Array(Array::number(x.to_bits()))
}

#[test]
fn a_new_cache_knows_nothing() {
    let cache = ImportCache::new();
    assert_eq!(cache.lookup("lib.ua"), None);
    assert_eq!(cache.lookup(""), None);
}

#[test]
fn what_is_remembered_is_found() {
    let mut cache = ImportCache::new();
    assert_eq!(cache.remember("lib.ua", vec![n(10.0)]), vec![n(10.0)]);
    assert_eq!(cache.lookup("lib.ua"), Some(vec![n(10.0)]));
    assert_eq!(cache.lookup("lib.ua"), Some(vec![n(10.0)]));
    assert_eq!(cache.lookup("Lib.ua"), None);
}

#[test]
fn the_first_import_of_a_path_decides() {
    let mut cache = ImportCache::new();
    cache.remember("a", vec![n(1.0)]);
    assert_eq!(cache.remember("a", vec![n(2.0)]), vec![n(1.0)]);
    assert_eq!(cache.lookup("a"), Some(vec![n(1.0)]));
}

#[test]
fn paths_do_not_disturb_each_other() {
    let mut cache = ImportCache::new();
    cache.remember("a", vec![n(1.0)]);
    cache.remember("b", vec![n(2.0), n(3.0)]);
    cache.remember("", Vec::new());
    assert_eq!(cache.lookup("a"), Some(vec![n(1.0)]));
    assert_eq!(cache.lookup("b"), Some(vec![n(2.0), n(3.0)]));
    assert_eq!(cache.lookup(""), Some(Vec::new()));
    assert_eq!(cache.lookup("c"), None);
}

#[test]
fn copy_stack_copies() {
    let stack = vec![n(1.0), Value::Array(Array::string("x"))];
    assert_eq!(copy_stack(&stack), stack);
    assert_eq!(copy_stack(&Vec::new()), Vec::new());
}

#[test]
fn an_import_runs_the_file_once_and_replays_it() {
    let mut cache = ImportCache::new();
    assert_eq!(cache.begin("lib.ua"), ImportStep::RunFile);
    assert_eq!(cache.end("lib.ua", Ok(vec![n(10.0)])), Ok(vec![n(10.0)]));
    assert_eq!(cache.begin("lib.ua"), ImportStep::Replay(vec![n(10.0)]));
    assert_eq!(cache.end("lib.ua", Ok(vec![n(11.0)])), Ok(vec![n(10.0)]));
    assert_eq!(cache.begin("other.ua"), ImportStep::RunFile);
    assert_eq!(cache.begin("lib.ua"), ImportStep::Replay(vec![n(10.0)]));
}

#[test]
fn a_failed_import_leaves_the_cache_alone() {
    let mut cache = ImportCache::new();
    assert_eq!(
        cache.end("bad.ua", Err("it broke".to_string())),
        Err(RuntimeError::Import("bad.ua".to_string(), "it broke".to_string()))
    );
    assert_eq!(cache.begin("bad.ua"), ImportStep::RunFile);
    assert_eq!(cache.lookup("bad.ua"), None);
}
