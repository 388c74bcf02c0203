//! A dictionary with its prefix index.

use vstd::prelude::*;

use crate::codec::{
    declared_name, dictionary_entries, dictionary_name, entry_terms, find_entry, option_text,
    or_format_error, LoadError,
};
use crate::trie::{lemma_listing_unique, lists_prefixed, texts, Trie};

verus! {

/// The entries of a dictionary together with a prefix index over their
/// terms. It is built once and not changed afterwards.
#[derive(Debug)]
pub struct DictionaryIndex {
    odict: odict::Dictionary,
    trie: Trie,
}

impl DictionaryIndex {
    /// The index holds exactly the terms under which entries are held.
    #[verifier::type_invariant]
    spec fn indexed(self) -> bool {
        self.trie@ == dictionary_entries(self.odict).dom()
    }

    /// The entries, each under its term.
    pub closed spec fn entries(&self) -> Map<Seq<char>, odict::Entry> {
        dictionary_entries(self.odict)
    }

    /// The terms under which entries are held.
    pub open spec fn terms(&self) -> Set<Seq<char>> {
        self.entries().dom()
    }

    /// The name that the dictionary declares, if it declares one.
    pub closed spec fn declared_name(&self) -> Option<Seq<char>> {
        dictionary_name(self.odict)
    }

    /// Indexes the terms of `odict`.
    pub fn new(odict: odict::Dictionary) -> (dictionary: Self)
        ensures
            dictionary.entries() == dictionary_entries(odict),
            dictionary.declared_name() == dictionary_name(odict),
    {
        let mut trie = Trie::new();
        let terms = entry_terms(&odict);
        let mut at: usize = 0;
        while at < terms.len()
            invariant
                at <= terms.len(),
                trie@ == texts(terms@).subrange(0, at as int).to_set(),
            decreases terms.len() - at,
        {
            trie.insert(terms[at].as_str());
            proof {
                let all = texts(terms@);
                let shorter = all.subrange(0, at as int);
                assert(all.subrange(0, at as int + 1) =~= shorter.push(all[at as int]));
                shorter.lemma_push_to_set_commute(all[at as int]);
            }
            at += 1;
        }
        assert(texts(terms@).subrange(0, at as int) =~= texts(terms@));
        DictionaryIndex { odict, trie }
    }

    /// The index of the dictionary of a file, from what parsing the file
    /// gave: the dictionary indexed, or the format error that holds the
    /// report of the failure to parse.
    pub fn load_from_path(parsed: Result<odict::Dictionary, String>) -> (loaded: Result<
        Self,
        LoadError,
    >)
        ensures
            match parsed {
                Ok(odict) => {
                    &&& loaded matches Ok(index)
                    &&& index.entries() == dictionary_entries(odict)
                    &&& index.declared_name() == dictionary_name(odict)
                },
                Err(report) => loaded matches Err(error) && error == LoadError::Format(report),
            },
    {
        match or_format_error(parsed) {
            Ok(odict) => Ok(DictionaryIndex::new(odict)),
            Err(error) => Err(error),
        }
    }

    /// The terms that begin with `prefix`, in ascending order of their bytes.
    #[must_use]
    pub fn search(&self, prefix: &str) -> (found: Vec<String>)
        ensures
            lists_prefixed(texts(found@), self.terms(), prefix@),
    {
        proof {
            use_type_invariant(self);
        }
        self.trie.search(prefix)
    }

    /// The entry held under exactly `term`, if there is one.
    #[must_use]
    pub fn get(&self, term: &str) -> (entry: Option<&odict::Entry>)
        ensures
            entry is Some <==> self.terms().contains(term@),
            entry matches Some(found) ==> *found == self.entries()[term@],
    {
        find_entry(&self.odict, term)
    }

    /// The dictionary as the codec holds it, with all its entries.
    #[must_use]
    pub fn source(&self) -> (source: &odict::Dictionary)
        ensures
            dictionary_entries(*source) == self.entries(),
            dictionary_name(*source) == self.declared_name(),
    {
        &self.odict
    }

    /// The name that the dictionary declares, if it declares one.
    #[must_use]
    pub fn name(&self) -> (name: Option<String>)
        ensures
            option_text(name) == self.declared_name(),
    {
        declared_name(&self.odict)
    }
}

/// Two indexes over the same entries answer alike: they hold the same terms
/// and list the same for every query.
pub proof fn lemma_same_entries_answer_alike(
    first: DictionaryIndex,
    second: DictionaryIndex,
    query: Seq<char>,
    listed: Seq<Seq<char>>,
    other: Seq<Seq<char>>,
)
    requires
        first.entries() == second.entries(),
        lists_prefixed(listed, first.terms(), query),
        lists_prefixed(other, second.terms(), query),
    ensures
        first.terms() == second.terms(),
        listed == other,
{
    lemma_listing_unique(listed, other, first.terms(), query);
}

impl Clone for DictionaryIndex {
    fn clone(&self) -> (copy: Self)
        ensures
            copy.entries() == self.entries(),
            copy.declared_name() == self.declared_name(),
    {
        proof {
            use_type_invariant(self);
        }
        DictionaryIndex { odict: self.odict.clone(), trie: self.trie.clone() }
    }
}

} // verus!
