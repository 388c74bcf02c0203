use mydict::codec::LoadError;
use mydict::dictionary::DictionaryIndex;
use mydict::lazydict::{init_app_dicts, LazyDict, LoadState, NotLoadedError};
use mydict::version::Version;

fn entry(term: &str) -> odict::Entry {
    odict::Entry { term: term.to_string(), ..Default::default() }
}

fn index(name: Option<&str>, terms: &[&str]) -> DictionaryIndex {
    DictionaryIndex::new(odict::Dictionary {
        id: odict::ID::new(),
        name: name.map(|name| name.to_string()),
        entries: terms.iter().map(|term| entry(term)).collect(),
    })
}

fn not_loaded(path: &str) -> NotLoadedError {
    NotLoadedError { path: path.to_string() }
}

#[test]
fn a_new_dictionary_is_unloaded() {
    let lazy = LazyDict::new("/data/animals.odict".to_string());
    assert_eq!(lazy.state(), LoadState::Unloaded);
    assert!(!lazy.is_loaded());
    assert!(!lazy.is_loading());
    assert!(lazy.error().is_none());
    assert_eq!(lazy.path, "/data/animals.odict");
}

#[test]
fn queries_fail_until_a_dictionary_is_held() {
    let path = "/data/animals.odict";
    let mut lazy = LazyDict::new(path.to_string());
    assert_eq!(lazy.search("ca"), Err(not_loaded(path)));
    assert_eq!(lazy.get("cat"), Err(not_loaded(path)));
    assert!(lazy.request_load().is_some());
    assert_eq!(lazy.search("ca"), Err(not_loaded(path)));
    assert_eq!(lazy.get("cat"), Err(not_loaded(path)));
    lazy.complete_load(Err(LoadError::Format("broken".to_string())));
    assert_eq!(lazy.search("ca"), Err(not_loaded(path)));
    assert_eq!(lazy.get("cat"), Err(not_loaded(path)));
}

#[test]
fn a_request_hands_out_the_path_and_starts_loading() {
    let mut lazy = LazyDict::new("/data/animals.odict".to_string());
    assert_eq!(lazy.request_load(), Some("/data/animals.odict".to_string()));
    assert_eq!(lazy.state(), LoadState::Loading);
    assert!(lazy.is_loading());
    assert!(!lazy.is_loaded());
}

#[test]
fn a_second_request_while_loading_hands_out_nothing() {
    let mut lazy = LazyDict::new("/data/animals.odict".to_string());
    assert!(lazy.request_load().is_some());
    assert_eq!(lazy.request_load(), None);
    assert_eq!(lazy.request_load(), None);
    assert_eq!(lazy.state(), LoadState::Loading);
}

#[test]
fn a_completed_load_makes_the_dictionary_answer() {
    let mut lazy = LazyDict::new("/data/animals.odict".to_string());
    assert!(lazy.request_load().is_some());
    lazy.complete_load(Ok(index(Some("Animals"), &["cat", "car", "dog"])));
    assert_eq!(lazy.state(), LoadState::Loaded);
    assert!(lazy.is_loaded());
    assert!(!lazy.is_loading());
    assert!(lazy.error().is_none());
    assert_eq!(lazy.search("ca"), Ok(vec!["car".to_string(), "cat".to_string()]));
    assert_eq!(lazy.search("z"), Ok(Vec::new()));
    assert_eq!(lazy.get("cat"), Ok(Some(&entry("cat"))));
    assert_eq!(lazy.get("ca"), Ok(None));
}

#[test]
fn a_refused_load_keeps_its_reason() {
    let mut lazy = LazyDict::new("/data/animals.odict".to_string());
    assert!(lazy.request_load().is_some());
    lazy.complete_load(Err(LoadError::Version(Version::new(2, 7, 9))));
    assert_eq!(lazy.state(), LoadState::Failed);
    assert!(!lazy.is_loaded());
    assert_eq!(lazy.error(), Some(&LoadError::Version(Version::new(2, 7, 9))));
}

#[test]
fn a_failed_load_can_be_tried_again() {
    let mut lazy = LazyDict::new("/data/animals.odict".to_string());
    assert!(lazy.request_load().is_some());
    lazy.complete_load(Err(LoadError::Format("broken".to_string())));
    assert_eq!(lazy.request_load(), Some("/data/animals.odict".to_string()));
    assert_eq!(lazy.state(), LoadState::Loading);
    assert!(lazy.error().is_none());
    lazy.complete_load(Ok(index(None, &["cat"])));
    assert_eq!(lazy.search("c"), Ok(vec!["cat".to_string()]));
}

#[test]
fn a_request_on_a_loaded_dictionary_loads_anew() {
    let mut lazy = LazyDict::new("/data/animals.odict".to_string());
    lazy.load(index(None, &["cat"]));
    assert_eq!(lazy.request_load(), Some("/data/animals.odict".to_string()));
    assert_eq!(lazy.state(), LoadState::Loading);
    assert_eq!(lazy.search("c"), Err(not_loaded("/data/animals.odict")));
}

#[test]
fn load_holds_the_dictionary_at_once() {
    let mut lazy = LazyDict::new("/data/animals.odict".to_string());
    lazy.load(index(Some("Animals"), &["cat", "car"]));
    assert_eq!(lazy.state(), LoadState::Loaded);
    assert_eq!(lazy.search(""), Ok(vec!["car".to_string(), "cat".to_string()]));
    lazy.load(index(Some("Plants"), &["oak"]));
    assert_eq!(lazy.search(""), Ok(vec!["oak".to_string()]));
    assert_eq!(lazy.name(), "Plants");
}

#[test]
fn the_name_is_the_file_stem_until_a_name_is_declared() {
    let mut lazy = LazyDict::new("/data/animals.v2.odict".to_string());
    assert_eq!(lazy.name(), "animals.v2");
    assert_eq!(lazy.display_name(), Some("animals.v2".to_string()));
    assert!(lazy.request_load().is_some());
    assert_eq!(lazy.name(), "animals.v2");
    lazy.complete_load(Err(LoadError::Format("broken".to_string())));
    assert_eq!(lazy.name(), "animals.v2");
    lazy.complete_load(Ok(index(None, &["cat"])));
    assert_eq!(lazy.name(), "animals.v2");
    lazy.complete_load(Ok(index(Some("Animals"), &["cat"])));
    assert_eq!(lazy.name(), "Animals");
    assert_eq!(lazy.display_name(), Some("Animals".to_string()));
}

#[test]
fn a_path_without_a_file_name_has_no_name_to_show() {
    let mut lazy = LazyDict::new("/".to_string());
    assert_eq!(lazy.display_name(), None);
    let parent = LazyDict::new("/data/..".to_string());
    assert_eq!(parent.display_name(), None);
    lazy.load(index(Some("Animals"), &["cat"]));
    assert_eq!(lazy.display_name(), Some("Animals".to_string()));
}

#[test]
fn a_hidden_file_is_named_by_its_whole_name() {
    let lazy = LazyDict::new("/data/.odict".to_string());
    assert_eq!(lazy.display_name(), Some(".odict".to_string()));
}

#[test]
fn storage_files_become_unloaded_dictionaries_in_their_order() {
    let paths = vec![
        "/data/b.odict".to_string(),
        "/data/a.odict".to_string(),
        "/data/c.odict".to_string(),
    ];
    let dicts = init_app_dicts(paths.clone());
    assert_eq!(dicts.len(), 3);
    for (dict, path) in dicts.iter().zip(paths.iter()) {
        assert_eq!(&dict.path, path);
        assert_eq!(dict.state(), LoadState::Unloaded);
    }
    assert_eq!(dicts[1].name(), "a");
    assert_eq!(init_app_dicts(Vec::new()).len(), 0);
}

#[test]
fn the_entries_are_handed_out_once_the_dictionary_is_held() {
    let mut lazy = LazyDict::new("/data/animals.odict".to_string());
    assert_eq!(lazy.entries().err(), Some(not_loaded("/data/animals.odict")));
    lazy.load(index(Some("Animals"), &["cat", "car"]));
    let held = lazy.entries().unwrap();
    assert_eq!(held.entries.len(), 2);
    assert!(held.entries.contains("cat"));
    assert_eq!(held.name, Some("Animals".to_string()));
}
