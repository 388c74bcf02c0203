//! A prefix tree over the UTF-8 bytes of terms.

use vstd::prelude::*;
use vstd::utf8::*;

use crate::node::{
    bytes_of, lemma_listed_item, lemma_listed_order, lemma_listed_path, lists_below, Node,
};
use crate::order::{
    ascending, bytes_lt, lemma_ascending_unique, lemma_bytes_lt_irreflexive,
    lemma_prefix_not_after,
};
use crate::text::{lemma_encode_injective, lemma_prefix_iff_bytes_prefix};

verus! {

/// `a` sorts strictly before `b`: by the bytes of their UTF-8 encodings.
pub open spec fn term_lt(a: Seq<char>, b: Seq<char>) -> bool {
    bytes_lt(encode_utf8(a), encode_utf8(b))
}

/// The text of each string of `found`.
pub open spec fn texts(found: Seq<String>) -> Seq<Seq<char>> {
    found.map_values(|term: String| term@)
}

/// `found` lists exactly those of `terms` that begin with `query`, each once,
/// in ascending order of their bytes.
pub open spec fn lists_prefixed(
    found: Seq<Seq<char>>,
    terms: Set<Seq<char>>,
    query: Seq<char>,
) -> bool {
    &&& forall|i: int|
        0 <= i < found.len() ==> terms.contains(#[trigger] found[i]) && query.is_prefix_of(
            found[i],
        )
    &&& forall|term: Seq<char>| #[trigger]
        terms.contains(term) && query.is_prefix_of(term) ==> found.contains(term)
    &&& forall|i: int, j: int| 0 <= i < j < found.len() ==> term_lt(found[i], found[j])
}

/// A prefix index over terms: a tree keyed by the bytes of their UTF-8
/// encoding. Its view is the set of the terms that were inserted.
#[derive(Debug)]
pub struct Trie {
    root: Node,
}

impl View for Trie {
    type V = Set<Seq<char>>;

    closed spec fn view(&self) -> Set<Seq<char>> {
        Set::new(|term: Seq<char>| self.root.contains(encode_utf8(term)))
    }
}

impl Trie {
    /// Every path of the tree that ends on a terminal node spells a text.
    #[verifier::type_invariant]
    spec fn holds_texts(self) -> bool {
        forall|path: Seq<u8>| #[trigger] self.root.contains(path) ==> valid_utf8(path)
    }

    /// An index that holds no term.
    #[must_use]
    pub fn new() -> (trie: Self)
        ensures
            trie@ == Set::<Seq<char>>::empty(),
    {
        let trie = Trie { root: Node::new() };
        assert(trie@ =~= Set::<Seq<char>>::empty());
        trie
    }

    /// Adds the term `s`. A term that is already there stays as it is.
    pub fn insert(&mut self, s: &str)
        ensures
            final(self)@ == old(self)@.insert(s@),
    {
        proof {
            use_type_invariant(&*self);
        }
        let bytes = s.as_bytes();
        let mut root = Node::new();
        std::mem::swap(&mut self.root, &mut root);
        root.insert(bytes, 0);
        proof {
            assert(bytes@.skip(0) =~= bytes@);
            encode_utf8_valid_utf8(s@);
            assert forall|path: Seq<u8>| #[trigger] root.contains(path) implies valid_utf8(
                path,
            ) by {
                if path != bytes@ {
                    assert(old(self).root.contains(path));
                }
            }
        }
        self.root = root;
        proof {
            assert forall|term: Seq<char>| self@.contains(term) == old(self)@.insert(
                s@,
            ).contains(term) by {
                if encode_utf8(term) == encode_utf8(s@) {
                    lemma_encode_injective(term, s@);
                }
            }
            assert(self@ =~= old(self)@.insert(s@));
        }
    }

    /// The terms that begin with `s`, in ascending order of their bytes.
    #[must_use]
    pub fn search(&self, s: &str) -> (found: Vec<String>)
        ensures
            lists_prefixed(texts(found@), self@, s@),
    {
        proof {
            use_type_invariant(self);
        }
        let bytes = s.as_bytes();
        let mut current = &self.root;
        let mut buffer: Vec<u8> = Vec::new();
        let mut at: usize = 0;
        while at < bytes.len()
            invariant
                at <= bytes.len(),
                bytes@ == encode_utf8(s@),
                buffer@ == bytes@.subrange(0, at as int),
                forall|path: Seq<u8>|
                    current.contains(path) <==> self.root.contains(buffer@ + path),
            decreases bytes.len() - at,
        {
            let byte = bytes[at];
            match current.child(byte) {
                None => {
                    proof {
                        assert forall|term: Seq<char>| #[trigger]
                            self@.contains(term) implies !s@.is_prefix_of(term) by {
                            if s@.is_prefix_of(term) {
                                lemma_prefix_iff_bytes_prefix(s@, term);
                                let full = encode_utf8(term);
                                let rest = full.skip(at as int);
                                assert(full =~= buffer@ + rest);
                                assert(current.contains(rest));
                                assert(rest[0] == full.subrange(0, bytes@.len() as int)[at as int]);
                            }
                        }
                    }
                    return Vec::new();
                },
                Some(next) => {
                    proof {
                        assert forall|path: Seq<u8>|
                            next.contains(path) <==> self.root.contains(
                                buffer@.push(byte) + path,
                            ) by {
                            let longer = seq![byte] + path;
                            assert(buffer@ + longer =~= buffer@.push(byte) + path);
                        }
                    }
                    buffer.push(byte);
                    current = next;
                },
            }
            at += 1;
        }
        assert(buffer@ =~= bytes@);
        let found = current.lexicon_iter(&mut buffer);
        proof {
            lemma_search_listing(*self, *current, s@, found@);
        }
        found
    }
}

impl Clone for Trie {
    fn clone(&self) -> (copy: Self)
        ensures
            copy@ == self@,
    {
        proof {
            use_type_invariant(self);
        }
        let copy = Trie { root: self.root.duplicate() };
        assert(copy@ =~= self@);
        copy
    }
}

impl Default for Trie {
    fn default() -> (trie: Self)
        ensures
            trie@ == Set::<Seq<char>>::empty(),
    {
        Self::new()
    }
}

/// What was listed below the node that the bytes of `query` lead to is the
/// listing of the index's terms that begin with `query`.
proof fn lemma_search_listing(trie: Trie, node: Node, query: Seq<char>, found: Seq<String>)
    requires
        lists_below(bytes_of(found), node, encode_utf8(query)),
        forall|path: Seq<u8>| #[trigger]
            node.contains(path) <==> trie.root.contains(encode_utf8(query) + path),
    ensures
        lists_prefixed(texts(found), trie@, query),
{
    let base = encode_utf8(query);
    let listed = bytes_of(found);
    let shown = texts(found);
    assert forall|i: int| 0 <= i < shown.len() implies trie@.contains(#[trigger] shown[i])
        && query.is_prefix_of(shown[i]) by {
        let term = shown[i];
        assert(listed[i] == encode_utf8(term));
        lemma_listed_item(listed, node, base, i);
        let rest = listed[i].skip(base.len() as int);
        assert(node.contains(rest));
        assert(base + rest =~= listed[i]);
        assert(trie.root.contains(encode_utf8(term)));
        lemma_prefix_iff_bytes_prefix(query, term);
    }
    assert forall|term: Seq<char>| #[trigger]
        trie@.contains(term) && query.is_prefix_of(term) implies shown.contains(term) by {
        lemma_prefix_iff_bytes_prefix(query, term);
        let full = encode_utf8(term);
        let rest = full.skip(base.len() as int);
        assert(base + rest =~= full);
        assert(node.contains(rest));
        lemma_listed_path(listed, node, base, rest);
        let i = choose|i: int| 0 <= i < listed.len() && listed[i] == base + rest;
        assert(listed[i] == encode_utf8(shown[i]));
        lemma_encode_injective(shown[i], term);
    }
    assert forall|i: int, j: int| 0 <= i < j < shown.len() implies term_lt(
        shown[i],
        shown[j],
    ) by {
        assert(listed[i] == encode_utf8(shown[i]));
        assert(listed[j] == encode_utf8(shown[j]));
        lemma_listed_order(listed, node, base, i, j);
    }
}

/// A search for the empty query lists every term of the index, and nothing
/// else.
pub proof fn lemma_empty_query_lists_all(found: Seq<Seq<char>>, terms: Set<Seq<char>>)
    requires
        lists_prefixed(found, terms, Seq::empty()),
    ensures
        found.to_set() == terms,
{
    assert forall|term: Seq<char>| found.to_set().contains(term) <==> terms.contains(term) by {
        if terms.contains(term) {
            assert(Seq::<char>::empty().is_prefix_of(term));
        }
    }
    assert(found.to_set() =~= terms);
}

/// A search for a term of the index finds that term, and lists it first.
pub proof fn lemma_term_is_found(found: Seq<Seq<char>>, terms: Set<Seq<char>>, term: Seq<char>)
    requires
        lists_prefixed(found, terms, term),
        terms.contains(term),
    ensures
        found.contains(term),
        found.len() > 0,
        found[0] == term,
{
    assert(term.is_prefix_of(term));
    let at = choose|at: int| 0 <= at < found.len() && found[at] == term;
    if at > 0 {
        assert(term_lt(found[0], found[at]));
        lemma_prefix_iff_bytes_prefix(term, found[0]);
        lemma_prefix_not_after(encode_utf8(term), encode_utf8(found[0]));
    }
}

/// A search for a query that no term of the index begins with finds
/// nothing.
pub proof fn lemma_unshared_query_finds_nothing(
    found: Seq<Seq<char>>,
    terms: Set<Seq<char>>,
    query: Seq<char>,
)
    requires
        lists_prefixed(found, terms, query),
        forall|term: Seq<char>| terms.contains(term) ==> !query.is_prefix_of(term),
    ensures
        found.len() == 0,
{
    if found.len() > 0 {
        assert(terms.contains(found[0]));
    }
}

/// No term is listed twice.
pub proof fn lemma_listing_has_no_duplicates(
    found: Seq<Seq<char>>,
    terms: Set<Seq<char>>,
    query: Seq<char>,
)
    requires
        lists_prefixed(found, terms, query),
    ensures
        found.no_duplicates(),
{
    assert forall|i: int, j: int| 0 <= i < found.len() && 0 <= j < found.len() && i != j implies found[i]
        != found[j] by {
        lemma_bytes_lt_irreflexive(encode_utf8(found[i]));
        if i < j {
            assert(term_lt(found[i], found[j]));
        } else {
            assert(term_lt(found[j], found[i]));
        }
    }
}

/// The terms of an index and a query have one listing only: whatever lists
/// them is what a search returns.
pub proof fn lemma_listing_unique(
    first: Seq<Seq<char>>,
    second: Seq<Seq<char>>,
    terms: Set<Seq<char>>,
    query: Seq<char>,
)
    requires
        lists_prefixed(first, terms, query),
        lists_prefixed(second, terms, query),
    ensures
        first == second,
{
    let a = first.map_values(|term: Seq<char>| encode_utf8(term));
    let b = second.map_values(|term: Seq<char>| encode_utf8(term));
    assert(ascending(a)) by {
        assert forall|i: int, j: int| 0 <= i < j < a.len() implies bytes_lt(a[i], a[j]) by {
            assert(term_lt(first[i], first[j]));
        }
    }
    assert(ascending(b)) by {
        assert forall|i: int, j: int| 0 <= i < j < b.len() implies bytes_lt(b[i], b[j]) by {
            assert(term_lt(second[i], second[j]));
        }
    }
    assert forall|item: Seq<u8>| a.contains(item) <==> b.contains(item) by {
        if a.contains(item) {
            let i = choose|i: int| 0 <= i < a.len() && a[i] == item;
            assert(terms.contains(first[i]) && query.is_prefix_of(first[i]));
            let j = choose|j: int| 0 <= j < second.len() && second[j] == first[i];
            assert(b[j] == item);
        }
        if b.contains(item) {
            let i = choose|i: int| 0 <= i < b.len() && b[i] == item;
            assert(terms.contains(second[i]) && query.is_prefix_of(second[i]));
            let j = choose|j: int| 0 <= j < first.len() && first[j] == second[i];
            assert(a[j] == item);
        }
    }
    lemma_ascending_unique(a, b);
    assert(first.len() == second.len());
    assert forall|i: int| 0 <= i < first.len() implies first[i] == second[i] by {
        assert(a[i] == b[i]);
        lemma_encode_injective(first[i], second[i]);
    }
    assert(first =~= second);
}

} // verus!
