//! A dictionary file in managed storage, whose dictionary is loaded on first
//! use.

use vstd::prelude::*;

use crate::codec::{dictionary_entries, option_text, LoadError};
use crate::dictionary::DictionaryIndex;
use crate::trie::{lists_prefixed, texts};

verus! {

/// Where a dictionary stands between its file and its index.
#[derive(Clone, Copy, Debug, PartialEq, Eq, Structural)]
pub enum LoadState {
    /// Nothing was asked for yet.
    Unloaded,
    /// A load was handed out and has not come back.
    Loading,
    /// The dictionary is held and answers queries.
    Loaded,
    /// The last load was refused; the reason is kept.
    Failed,
}

/// The state after a load was asked for in state `before`.
pub open spec fn state_after_request(before: LoadState) -> LoadState {
    LoadState::Loading
}

/// Whether asking for a load in state `before` hands out a load.
pub open spec fn request_hands_out(before: LoadState) -> bool {
    before != LoadState::Loading
}

/// The state after a load came back: with a dictionary, or refused.
pub open spec fn state_after_completion(succeeded: bool) -> LoadState {
    if succeeded {
        LoadState::Loaded
    } else {
        LoadState::Failed
    }
}

/// What can happen to a dictionary: a load is asked for, or a load comes
/// back, with a dictionary or refused.
#[derive(Clone, Copy, Debug, PartialEq, Eq, Structural)]
pub enum LoadEvent {
    Requested,
    Completed { succeeded: bool },
}

/// The state after `event` happened in state `before`.
pub open spec fn state_after_event(before: LoadState, event: LoadEvent) -> LoadState {
    match event {
        LoadEvent::Requested => state_after_request(before),
        LoadEvent::Completed { succeeded } => state_after_completion(succeeded),
    }
}

/// The state of a new dictionary after `events` happened, one after the
/// other.
pub open spec fn state_after_events(events: Seq<LoadEvent>) -> LoadState
    decreases events.len(),
{
    if events.len() == 0 {
        LoadState::Unloaded
    } else {
        state_after_event(state_after_events(events.drop_last()), events.last())
    }
}

/// A query came before the dictionary at `path` was loaded.
#[derive(Debug, Clone, PartialEq, Eq)]
pub struct NotLoadedError {
    pub path: String,
}

/// What a `LazyDict` holds in each state.
#[derive(Debug)]
enum Slot {
    Unloaded,
    Loading,
    Loaded(DictionaryIndex),
    Failed(LoadError),
}

/// The file stem of a path, as `Path::file_stem` of std gives it for the
/// path with this text on the platform that the library is built for.
pub uninterp spec fn path_file_stem(path: Seq<char>) -> Option<Seq<char>>;

/// `Path::file_stem` of std, on a path given as text: the name of the file
/// without its last extension, or nothing where the path names no file.
#[verifier::external_body]
pub(crate) fn file_stem(path: &str) -> (stem: Option<String>)
    ensures
        option_text(stem) == path_file_stem(path@),
{
    let stem = std::path::Path::new(path).file_stem()?;
    Some(stem.to_str()?.to_owned())
}

/// A dictionary file, and its dictionary once it was loaded.
#[derive(Debug)]
pub struct LazyDict {
    pub path: String,
    slot: Slot,
}

impl LazyDict {
    /// The text of the file's path.
    pub closed spec fn path_text(&self) -> Seq<char> {
        self.path@
    }

    /// The state that the dictionary is in.
    pub closed spec fn load_state(&self) -> LoadState {
        match self.slot {
            Slot::Unloaded => LoadState::Unloaded,
            Slot::Loading => LoadState::Loading,
            Slot::Loaded(_) => LoadState::Loaded,
            Slot::Failed(_) => LoadState::Failed,
        }
    }

    /// The dictionary that is held, if one is.
    pub closed spec fn dictionary(&self) -> Option<DictionaryIndex> {
        match self.slot {
            Slot::Loaded(dictionary) => Some(dictionary),
            _ => None,
        }
    }

    /// Why the last load was refused, if it was.
    pub closed spec fn failure(&self) -> Option<LoadError> {
        match self.slot {
            Slot::Failed(error) => Some(error),
            _ => None,
        }
    }

    /// The name to show: the one that the loaded dictionary declares, else
    /// the stem of the file's name, where the path has one.
    pub open spec fn shown_name(&self) -> Option<Seq<char>> {
        match self.dictionary() {
            Some(dictionary) if dictionary.declared_name() is Some => dictionary.declared_name(),
            _ => path_file_stem(self.path_text()),
        }
    }

    /// The dictionary of the file at `path`, not yet loaded.
    #[must_use]
    pub fn new(path: String) -> (lazy: Self)
        ensures
            lazy.path_text() == path@,
            lazy.load_state() == LoadState::Unloaded,
            lazy.dictionary() is None,
            lazy.failure() is None,
    {
        LazyDict { path, slot: Slot::Unloaded }
    }

    /// The state that the dictionary is in.
    #[must_use]
    pub fn state(&self) -> (state: LoadState)
        ensures
            state == self.load_state(),
    {
        match &self.slot {
            Slot::Unloaded => LoadState::Unloaded,
            Slot::Loading => LoadState::Loading,
            Slot::Loaded(_) => LoadState::Loaded,
            Slot::Failed(_) => LoadState::Failed,
        }
    }

    /// Whether the dictionary is held.
    #[must_use]
    pub fn is_loaded(&self) -> (yes: bool)
        ensures
            yes == (self.load_state() == LoadState::Loaded),
            yes == self.dictionary() is Some,
    {
        match &self.slot {
            Slot::Loaded(_) => true,
            _ => false,
        }
    }

    /// Whether a load was handed out and has not come back.
    #[must_use]
    pub fn is_loading(&self) -> (yes: bool)
        ensures
            yes == (self.load_state() == LoadState::Loading),
    {
        match &self.slot {
            Slot::Loading => true,
            _ => false,
        }
    }

    /// Why the last load was refused, if it was.
    #[must_use]
    pub fn error(&self) -> (error: Option<&LoadError>)
        ensures
            error is Some <==> self.load_state() == LoadState::Failed,
            error matches Some(kept) ==> self.failure() == Some(*kept),
    {
        match &self.slot {
            Slot::Failed(error) => Some(error),
            _ => None,
        }
    }

    /// Asks for a load. While one is under way nothing changes and nothing
    /// is handed out. Otherwise the dictionary is now loading, what was held
    /// is dropped, and the path of the file to load is handed out: the
    /// caller reads it and brings the outcome to `complete_load`.
    pub fn request_load(&mut self) -> (task: Option<String>)
        ensures
            final(self).path_text() == old(self).path_text(),
            final(self).load_state() == state_after_request(old(self).load_state()),
            task is Some <==> request_hands_out(old(self).load_state()),
            task matches Some(path) ==> path@ == old(self).path_text(),
            task is Some ==> final(self).dictionary() is None && final(self).failure() is None,
            task is None ==> *final(self) == *old(self),
    {
        match &self.slot {
            Slot::Loading => None,
            _ => {
                self.slot = Slot::Loading;
                Some(self.path.clone())
            },
        }
    }

    /// Takes the outcome of a load: the dictionary is held from now on, or
    /// the load has failed and the reason is kept.
    pub fn complete_load(&mut self, result: Result<DictionaryIndex, LoadError>)
        ensures
            final(self).path_text() == old(self).path_text(),
            final(self).load_state() == state_after_completion(result is Ok),
            match result {
                Ok(dictionary) => {
                    &&& final(self).dictionary() == Some(dictionary)
                    &&& final(self).failure() is None
                },
                Err(error) => {
                    &&& final(self).dictionary() is None
                    &&& final(self).failure() == Some(error)
                },
            },
    {
        match result {
            Ok(dictionary) => {
                self.slot = Slot::Loaded(dictionary);
            },
            Err(error) => {
                self.slot = Slot::Failed(error);
            },
        }
    }

    /// Holds `dictionary` from now on, whatever was held before.
    pub fn load(&mut self, dictionary: DictionaryIndex)
        ensures
            final(self).path_text() == old(self).path_text(),
            final(self).load_state() == LoadState::Loaded,
            final(self).dictionary() == Some(dictionary),
            final(self).failure() is None,
    {
        self.complete_load(Ok(dictionary));
    }

    /// The terms of the loaded dictionary that begin with `s`, in ascending
    /// order of their bytes.
    pub fn search(&self, s: &str) -> (found: Result<Vec<String>, NotLoadedError>)
        ensures
            match self.dictionary() {
                Some(dictionary) => found matches Ok(terms) && lists_prefixed(
                    texts(terms@),
                    dictionary.terms(),
                    s@,
                ),
                None => found matches Err(error) && error.path@ == self.path_text(),
            },
    {
        match &self.slot {
            Slot::Loaded(dictionary) => Ok(dictionary.search(s)),
            _ => Err(NotLoadedError { path: self.path.clone() }),
        }
    }

    /// The entry that the loaded dictionary holds under exactly `s`.
    pub fn get(&self, s: &str) -> (entry: Result<Option<&odict::Entry>, NotLoadedError>)
        ensures
            match self.dictionary() {
                Some(dictionary) => entry matches Ok(held) && (held is Some
                    <==> dictionary.terms().contains(s@)) && (held matches Some(found) ==> *found
                    == dictionary.entries()[s@]),
                None => entry matches Err(error) && error.path@ == self.path_text(),
            },
    {
        match &self.slot {
            Slot::Loaded(dictionary) => Ok(dictionary.get(s)),
            _ => Err(NotLoadedError { path: self.path.clone() }),
        }
    }

    /// The loaded dictionary as the codec holds it, with all its entries.
    pub fn entries(&self) -> (held: Result<&odict::Dictionary, NotLoadedError>)
        ensures
            match self.dictionary() {
                Some(dictionary) => held matches Ok(source) && dictionary_entries(*source)
                    == dictionary.entries(),
                None => held matches Err(error) && error.path@ == self.path_text(),
            },
    {
        match &self.slot {
            Slot::Loaded(dictionary) => Ok(dictionary.source()),
            _ => Err(NotLoadedError { path: self.path.clone() }),
        }
    }

    /// The name to show for the dictionary: the one that it declares once it
    /// is loaded, else the stem of its file's name.
    #[must_use]
    pub fn name(&self) -> (name: String)
        requires
            self.shown_name() is Some,
        ensures
            Some(name@) == self.shown_name(),
    {
        if let Slot::Loaded(dictionary) = &self.slot {
            if let Some(declared) = dictionary.name() {
                return declared;
            }
        }
        match file_stem(self.path.as_str()) {
            Some(stem) => stem,
            None => {
                proof {
                    assert(false);
                }
                String::new()
            },
        }
    }

    /// As `name`, for any path: nothing where the dictionary declares no
    /// name and the path has no file stem.
    #[must_use]
    pub fn display_name(&self) -> (name: Option<String>)
        ensures
            option_text(name) == self.shown_name(),
    {
        let declares = match &self.slot {
            Slot::Loaded(dictionary) => dictionary.name().is_some(),
            _ => false,
        };
        if declares || file_stem(self.path.as_str()).is_some() {
            Some(self.name())
        } else {
            None
        }
    }
}

/// While a load is under way, asking again hands out no second load and
/// stays in the same state.
pub proof fn lemma_request_while_loading(before: LoadState)
    ensures
        !request_hands_out(state_after_request(before)),
        state_after_request(state_after_request(before)) == state_after_request(before),
{
}

/// Whatever has happened to a new dictionary, it is loaded only when the
/// last thing that happened is a load that came back with a dictionary:
/// before that, and after a later request or refusal, none is held.
pub proof fn lemma_loaded_only_after_success(events: Seq<LoadEvent>)
    ensures
        state_after_events(events) == LoadState::Loaded <==> events.len() > 0 && events.last()
            == (LoadEvent::Completed { succeeded: true }),
        state_after_events(events) == LoadState::Unloaded <==> events.len() == 0,
{
}

/// A dictionary is held exactly in the state `Loaded`: before a load has
/// come back with a dictionary, none is there to query.
pub proof fn lemma_held_iff_loaded(lazy: LazyDict)
    ensures
        lazy.dictionary() is Some <==> lazy.load_state() == LoadState::Loaded,
        lazy.failure() is Some <==> lazy.load_state() == LoadState::Failed,
{
}

/// The dictionaries of managed storage, one for each of the files at
/// `paths` and in their order, none of them loaded.
pub fn init_app_dicts(paths: Vec<String>) -> (dicts: Vec<LazyDict>)
    ensures
        dicts.len() == paths.len(),
        forall|i: int|
            0 <= i < dicts.len() ==> (#[trigger] dicts[i]).path_text() == paths[i]@
                && dicts[i].load_state() == LoadState::Unloaded,
{
    let mut dicts: Vec<LazyDict> = Vec::new();
    let mut at: usize = 0;
    while at < paths.len()
        invariant
            at <= paths.len(),
            dicts.len() == at,
            forall|i: int|
                0 <= i < dicts.len() ==> (#[trigger] dicts[i]).path_text() == paths[i]@
                    && dicts[i].load_state() == LoadState::Unloaded,
        decreases paths.len() - at,
    {
        dicts.push(LazyDict::new(paths[at].clone()));
        at += 1;
    }
    dicts
}

} // verus!
