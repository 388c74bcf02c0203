//! The dictionaries that a user works with: which of them is selected, when
//! it is loaded, and what a search in it shows.

use vstd::prelude::*;

use crate::codec::LoadError;
use crate::dictionary::DictionaryIndex;
use crate::lazydict::{request_hands_out, state_after_completion, LazyDict, LoadState};
use crate::trie::{lists_prefixed, texts};

verus! {

/// At most this many terms are shown for one search.
pub const SEARCH_LIMIT: usize = 1000;

/// What is kept between runs: the selected dictionary and the search term.
#[derive(Debug, Clone, PartialEq, Eq)]
pub struct Config {
    pub selected_index: usize,
    pub search_term: String,
}

impl Default for Config {
    fn default() -> (config: Self)
        ensures
            config.selected_index == 0,
            config.search_term@ == Seq::<char>::empty(),
    {
        Config { selected_index: 0, search_term: String::new() }
    }
}

/// A load that was handed out: the place of the dictionary in the list and
/// the path of the file to read.
#[derive(Debug, Clone, PartialEq, Eq)]
pub struct LoadTask {
    pub index: usize,
    pub path: String,
}

/// What the caller is to do after a step.
#[derive(Debug, Clone, PartialEq, Eq)]
pub enum Next {
    /// Nothing.
    Nothing,
    /// Search the selected dictionary for the search term.
    Search,
    /// Read the file and bring the outcome back.
    Load(LoadTask),
}

/// What a search shows: the terms that begin with the query, and the entry
/// of the query itself where there is one.
#[derive(Debug)]
pub struct SearchOutcome<'a> {
    pub terms: Vec<String>,
    pub entry: Option<&'a odict::Entry>,
}

/// Why a search showed nothing.
#[derive(Debug, Clone, Copy, PartialEq, Eq, Structural)]
pub enum SearchError {
    /// No dictionary is selected: the list is shorter than the selection.
    NoDictionary,
    /// The selected dictionary is not loaded.
    NotLoaded,
}

/// `shown` is the beginning of `all`: all of it, or its first `limit` items.
pub open spec fn first_of(shown: Seq<Seq<char>>, all: Seq<Seq<char>>, limit: int) -> bool {
    shown == all.take(
        if all.len() <= limit {
            all.len() as int
        } else {
            limit
        },
    )
}

/// The index that a selection of `selected` among `len` dictionaries is
/// corrected to: itself, or the first place where it is out of range.
pub open spec fn corrected_index(selected: usize, len: nat) -> usize {
    if len <= selected {
        0
    } else {
        selected
    }
}

/// The dictionaries of `after` are those of `before`, but for the one at
/// `at`.
pub open spec fn same_but(after: Seq<LazyDict>, before: Seq<LazyDict>, at: int) -> bool {
    &&& after.len() == before.len()
    &&& forall|i: int| 0 <= i < before.len() && i != at ==> after[i] == before[i]
}

/// What follows when the dictionary at `at`, which was `before` and is now
/// `after`, is to show what it holds: a dictionary that is held is searched,
/// one that is loading is waited for, and any other is now loading, with its
/// load handed out.
pub open spec fn shows(next: Next, before: LazyDict, after: LazyDict, at: int) -> bool {
    match before.load_state() {
        LoadState::Loaded => next == Next::Search && after == before,
        LoadState::Loading => next == Next::Nothing && after == before,
        _ => {
            &&& next matches Next::Load(load)
            &&& load.index == at
            &&& load.path@ == before.path_text()
            &&& after.path_text() == before.path_text()
            &&& after.load_state() == LoadState::Loading
        },
    }
}

/// What a search of `session` for `term` shows: nothing for the empty term;
/// else the beginning of the listing of the selected dictionary's terms that
/// begin with `term`, and the entry that the dictionary holds under `term`;
/// or why there is nothing to show.
pub open spec fn shows_search(
    shown: Result<SearchOutcome<'_>, SearchError>,
    session: Session,
    term: Seq<char>,
) -> bool {
    if term.len() == 0 {
        shown matches Ok(outcome) && outcome.terms@.len() == 0 && outcome.entry is None
    } else if session.config.selected_index >= session.dicts@.len() {
        shown matches Err(error) && error == SearchError::NoDictionary
    } else {
        match session.dicts@[session.config.selected_index as int].dictionary() {
            Some(dictionary) => {
                &&& shown matches Ok(outcome)
                &&& exists|all: Seq<Seq<char>>|
                    lists_prefixed(all, dictionary.terms(), term) && first_of(
                        texts(outcome.terms@),
                        all,
                        SEARCH_LIMIT as int,
                    )
                &&& outcome.entry is Some <==> dictionary.terms().contains(term)
                &&& outcome.entry matches Some(found) ==> *found == dictionary.entries()[term]
            },
            None => shown matches Err(error) && error == SearchError::NotLoaded,
        }
    }
}

/// The dictionaries of the application and what is selected among them.
#[derive(Debug)]
pub struct Session {
    pub config: Config,
    pub dicts: Vec<LazyDict>,
}

impl Session {
    #[must_use]
    pub fn new(config: Config, dicts: Vec<LazyDict>) -> (session: Self)
        ensures
            session.config == config,
            session.dicts == dicts,
    {
        Session { config, dicts }
    }

    /// The selected dictionary, if the selection is in range.
    #[must_use]
    pub fn selected_dict(&self) -> (selected: Option<&LazyDict>)
        ensures
            selected is Some <==> self.config.selected_index < self.dicts.len(),
            selected matches Some(dict) ==> *dict == self.dicts[self.config.selected_index as int],
    {
        if self.config.selected_index < self.dicts.len() {
            Some(&self.dicts[self.config.selected_index])
        } else {
            None
        }
    }

    /// Selects the first dictionary where the selection is out of range.
    /// Returns whether the selection changed.
    pub fn correct_selected_index(&mut self) -> (changed: bool)
        ensures
            final(self).dicts == old(self).dicts,
            final(self).config.search_term == old(self).config.search_term,
            final(self).config.selected_index == corrected_index(
                old(self).config.selected_index,
                old(self).dicts@.len(),
            ),
            changed == (final(self).config.selected_index != old(self).config.selected_index),
    {
        if self.dicts.len() <= self.config.selected_index && self.config.selected_index != 0 {
            self.config.selected_index = 0;
            true
        } else {
            false
        }
    }

    /// Asks for a load of the selected dictionary, after the selection was
    /// corrected. Nothing is handed out where there is no dictionary or the
    /// selected one is loading already.
    pub fn load_selected_dict(&mut self) -> (task: Option<LoadTask>)
        ensures
            final(self).config.search_term == old(self).config.search_term,
            final(self).config.selected_index == corrected_index(
                old(self).config.selected_index,
                old(self).dicts@.len(),
            ),
            same_but(final(self).dicts@, old(self).dicts@, final(self).config.selected_index as int),
            old(self).dicts@.len() == 0 ==> task is None,
            old(self).dicts@.len() > 0 ==> ({
                let at = final(self).config.selected_index as int;
                let before = old(self).dicts@[at];
                let after = final(self).dicts@[at];
                &&& after.path_text() == before.path_text()
                &&& after.load_state() == LoadState::Loading
                &&& task is Some <==> request_hands_out(before.load_state())
                &&& task matches Some(load) ==> load.index == at && load.path@
                    == before.path_text()
                &&& task is None ==> after == before
            }),
    {
        self.correct_selected_index();
        let index = self.config.selected_index;
        if index >= self.dicts.len() {
            return None;
        }
        match self.dicts[index].request_load() {
            Some(path) => Some(LoadTask { index, path }),
            None => None,
        }
    }

    /// Takes a new search term. The selected dictionary is then to be
    /// searched, or to be loaded first.
    pub fn change_search(&mut self, term: String) -> (next: Next)
        ensures
            final(self).config.search_term == term,
            final(self).config.selected_index == old(self).config.selected_index,
            same_but(final(self).dicts@, old(self).dicts@, old(self).config.selected_index as int),
            if old(self).config.selected_index < old(self).dicts@.len() {
                let at = old(self).config.selected_index as int;
                shows(next, old(self).dicts@[at], final(self).dicts@[at], at)
            } else {
                next == Next::Nothing
            },
    {
        self.config.search_term = term;
        self.search_or_load()
    }

    /// Selects the dictionary at `index`. Where the selection changes, the
    /// dictionary is then to be searched, or to be loaded first.
    pub fn select_dict(&mut self, index: usize) -> (next: Next)
        requires
            index < old(self).dicts@.len(),
        ensures
            final(self).config.search_term == old(self).config.search_term,
            final(self).config.selected_index == index,
            same_but(final(self).dicts@, old(self).dicts@, index as int),
            if index == old(self).config.selected_index {
                next == Next::Nothing && final(self).dicts@ == old(self).dicts@
            } else {
                shows(next, old(self).dicts@[index as int], final(self).dicts@[index as int], index as int)
            },
    {
        if index == self.config.selected_index {
            return Next::Nothing;
        }
        self.config.selected_index = index;
        self.search_or_load()
    }

    /// What is to follow a change of the term or of the selection.
    fn search_or_load(&mut self) -> (next: Next)
        ensures
            final(self).config == old(self).config,
            same_but(final(self).dicts@, old(self).dicts@, old(self).config.selected_index as int),
            if old(self).config.selected_index < old(self).dicts@.len() {
                let at = old(self).config.selected_index as int;
                shows(next, old(self).dicts@[at], final(self).dicts@[at], at)
            } else {
                next == Next::Nothing
            },
    {
        let index = self.config.selected_index;
        if index >= self.dicts.len() {
            return Next::Nothing;
        }
        if self.dicts[index].is_loaded() {
            return Next::Search;
        }
        match self.dicts[index].request_load() {
            Some(path) => Next::Load(LoadTask { index, path }),
            None => Next::Nothing,
        }
    }

    /// Takes the outcome of the load of the dictionary at `index`. A
    /// dictionary that came is then to be searched.
    pub fn complete_load(
        &mut self,
        index: usize,
        result: Result<DictionaryIndex, LoadError>,
    ) -> (next: Next)
        requires
            index < old(self).dicts@.len(),
        ensures
            final(self).config == old(self).config,
            same_but(final(self).dicts@, old(self).dicts@, index as int),
            ({
                let before = old(self).dicts@[index as int];
                let after = final(self).dicts@[index as int];
                &&& after.path_text() == before.path_text()
                &&& after.load_state() == state_after_completion(result is Ok)
                &&& match result {
                    Ok(dictionary) => next == Next::Search && after.dictionary() == Some(
                        dictionary,
                    ),
                    Err(error) => next == Next::Nothing && after.failure() == Some(error),
                }
            }),
    {
        let loaded = result.is_ok();
        self.dicts[index].complete_load(result);
        if loaded {
            Next::Search
        } else {
            Next::Nothing
        }
    }

    /// Takes the dictionary at `index` out of the list; those behind it move
    /// up. The selection stays as it is.
    pub fn remove_dict(&mut self, index: usize) -> (removed: LazyDict)
        requires
            index < old(self).dicts@.len(),
        ensures
            final(self).config == old(self).config,
            final(self).dicts@ == old(self).dicts@.remove(index as int),
            removed == old(self).dicts@[index as int],
    {
        self.dicts.remove(index)
    }

    /// Adds a dictionary that was imported into the file at `path`, loaded,
    /// at the end of the list.
    pub fn add_imported(&mut self, path: String, dictionary: DictionaryIndex)
        ensures
            final(self).config == old(self).config,
            final(self).dicts@.len() == old(self).dicts@.len() + 1,
            final(self).dicts@.subrange(0, old(self).dicts@.len() as int) == old(self).dicts@,
            final(self).dicts@.last().path_text() == path@,
            final(self).dicts@.last().dictionary() == Some(dictionary),
    {
        let mut dict = LazyDict::new(path);
        dict.load(dictionary);
        self.dicts.push(dict);
    }

    /// Searches the selected dictionary for `term`, which the caller has
    /// trimmed: the first terms that begin with it, `SEARCH_LIMIT` at most,
    /// and the entry of `term` itself. An empty term shows nothing.
    pub fn search(&self, term: &str) -> (shown: Result<SearchOutcome<'_>, SearchError>)
        ensures
            shows_search(shown, *self, term@),
    {
        if term.is_empty() {
            return Ok(SearchOutcome { terms: Vec::new(), entry: None });
        }
        let dict = match self.selected_dict() {
            Some(dict) => dict,
            None => {
                return Err(SearchError::NoDictionary);
            },
        };
        let mut terms = match dict.search(term) {
            Ok(terms) => terms,
            Err(_) => {
                return Err(SearchError::NotLoaded);
            },
        };
        let ghost all = texts(terms@);
        let ghost full = terms@;
        terms.truncate(SEARCH_LIMIT);
        let entry = match dict.get(term) {
            Ok(entry) => entry,
            Err(_) => {
                return Err(SearchError::NotLoaded);
            },
        };
        proof {
            if full.len() <= SEARCH_LIMIT {
                assert(terms@ =~= full);
                assert(all.take(all.len() as int) =~= all);
            } else {
                assert(texts(terms@) =~= all.take(SEARCH_LIMIT as int));
            }
            assert(first_of(texts(terms@), all, SEARCH_LIMIT as int));
        }
        Ok(SearchOutcome { terms, entry })
    }
}

} // verus!
