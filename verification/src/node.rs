//! The nodes of a prefix tree over bytes, and the walk that lists what a
//! node holds.

use std::collections::BTreeMap;
use vstd::prelude::*;
use vstd::std_specs::iter::IteratorSpec;
use vstd::utf8::*;

use crate::order::{ascending, bytes_lt, lemma_increasing_keys, precedes_at};

verus! {

/// The UTF-8 bytes of each string of `found`.
pub open spec fn bytes_of(found: Seq<String>) -> Seq<Seq<u8>> {
    found.map_values(|term: String| encode_utf8(term@))
}

/// `String::from_utf8` of std: the vector becomes the string's bytes when it
/// is valid UTF-8, and is refused otherwise.
#[verifier::external_body]
fn string_from_utf8(bytes: Vec<u8>) -> (text: Option<String>)
    ensures
        text is Some <==> valid_utf8(bytes@),
        text matches Some(s) ==> encode_utf8(s@) == bytes@,
{
    String::from_utf8(bytes).ok()
}

/// One node of the tree: its children by the next byte, in ascending order,
/// and whether the path that leads here spells a stored term.
#[derive(Debug)]
pub(crate) struct Node {
    map: BTreeMap<u8, Node>,
    is_end: bool,
}

/// Every item of `out` is `base` followed by a path that `node` contains.
#[verifier::opaque]
spec fn all_below(out: Seq<Seq<u8>>, node: Node, base: Seq<u8>) -> bool {
    forall|i: int|
        0 <= i < out.len() ==> base.is_prefix_of(#[trigger] out[i]) && node.contains(
            out[i].skip(base.len() as int),
        )
}

/// Every path that `node` contains is in `out`, after `base`.
#[verifier::opaque]
spec fn holds_all(out: Seq<Seq<u8>>, node: Node, base: Seq<u8>) -> bool {
    forall|path: Seq<u8>| #[trigger] node.contains(path) ==> out.contains(base + path)
}

/// The items of `out` that go on after `base` go on with a byte that is
/// smaller than each of `keys` from `done` on.
#[verifier::opaque]
spec fn all_before(out: Seq<Seq<u8>>, base: Seq<u8>, keys: Seq<u8>, done: int) -> bool {
    forall|i: int, n: int|
        0 <= i < out.len() && done <= n < keys.len() && out[i].len() > base.len()
            ==> #[trigger] out[i][base.len() as int] < #[trigger] keys[n]
}

/// `out` holds the node's own path, and each path that `node` contains and
/// that begins with one of the first `done` of `keys`, after `base`.
#[verifier::opaque]
spec fn holds_walked(
    out: Seq<Seq<u8>>,
    node: Node,
    base: Seq<u8>,
    keys: Seq<u8>,
    done: int,
) -> bool {
    &&& node.is_end ==> out.contains(base)
    &&& forall|path: Seq<u8>, n: int|
        0 <= n < done && path.len() > 0 && path[0] == #[trigger] keys[n]
            && #[trigger] node.contains(path) ==> out.contains(base + path)
}

/// `out` lists, in ascending byte order, `base` followed by each path that
/// `node` contains.
pub(crate) closed spec fn lists_below(out: Seq<Seq<u8>>, node: Node, base: Seq<u8>) -> bool {
    &&& all_below(out, node, base)
    &&& holds_all(out, node, base)
    &&& ascending(out)
}

/// As `lists_below`, when only the children under the first `done` of `keys`
/// have been walked.
spec fn lists_below_upto(
    out: Seq<Seq<u8>>,
    node: Node,
    base: Seq<u8>,
    keys: Seq<u8>,
    done: int,
) -> bool {
    &&& all_below(out, node, base)
    &&& all_before(out, base, keys, done)
    &&& holds_walked(out, node, base, keys, done)
    &&& ascending(out)
}

/// The keys of the children that a walk over a node's map yields, in order.
spec fn keys_of(items: Seq<(u8, Node)>) -> Seq<u8> {
    items.map_values(|item: (u8, Node)| item.0)
}

/// `items` are the children of `node` with their bytes, each once, in
/// ascending order of the bytes.
spec fn walks_children(items: Seq<(u8, Node)>, node: Node) -> bool {
    &&& forall|m: int, n: int| 0 <= m < n < items.len() ==> keys_of(items)[m] < keys_of(items)[n]
    &&& forall|key: u8| node.map@.contains_key(key) ==> keys_of(items).contains(key)
    &&& forall|n: int|
        0 <= n < items.len() ==> node.map@.contains_key(#[trigger] items[n].0)
            && node.map@[items[n].0] == items[n].1
}

/// Before any child is walked, the listing holds the node's own path if the
/// node is terminal, and nothing else.
proof fn lemma_listing_start(node: Node, base: Seq<u8>, keys: Seq<u8>)
    ensures
        lists_below_upto(
            if node.is_end {
                seq![base]
            } else {
                Seq::empty()
            },
            node,
            base,
            keys,
            0,
        ),
{
    reveal(all_below);
    reveal(all_before);
    reveal(holds_walked);
    let out = if node.is_end {
        seq![base]
    } else {
        Seq::<Seq<u8>>::empty()
    };
    if node.is_end {
        assert(out[0] == base);
        assert(base.skip(base.len() as int) =~= Seq::<u8>::empty());
    }
}

/// What is listed below a child, after `base` and the child's key, is below
/// the node after `base`, and goes on after `base` with the child's key.
proof fn lemma_child_items(sub: Seq<Seq<u8>>, node: Node, base: Seq<u8>, key: u8)
    requires
        node.map@.contains_key(key),
        all_below(sub, node.map@[key], base.push(key)),
    ensures
        all_below(sub, node, base),
        forall|i: int|
            0 <= i < sub.len() ==> (#[trigger] sub[i]).len() > base.len() && sub[i][base.len() as int]
                == key,
{
    reveal(all_below);
    let child = node.map@[key];
    let deeper = base.push(key);
    let depth = base.len() as int;
    assert forall|i: int| 0 <= i < sub.len() implies base.is_prefix_of(#[trigger] sub[i])
        && sub[i].len() > depth && sub[i][depth] == key && node.contains(sub[i].skip(depth)) by {
        let item = sub[i];
        assert(deeper.is_prefix_of(item));
        assert(item.subrange(0, deeper.len() as int) =~= deeper);
        assert(item[depth] == item.subrange(0, deeper.len() as int)[depth]);
        assert(item.subrange(0, depth) =~= base);
        let tail = item.skip(depth);
        assert(tail[0] == key);
        assert(tail.skip(1) =~= item.skip(depth + 1));
        assert(child.contains(item.skip(deeper.len() as int)));
    }
}

/// Two listings below a node, one after the other, are below the node.
proof fn lemma_step_below(out: Seq<Seq<u8>>, sub: Seq<Seq<u8>>, node: Node, base: Seq<u8>)
    requires
        all_below(out, node, base),
        all_below(sub, node, base),
    ensures
        all_below(out + sub, node, base),
{
    reveal(all_below);
    let all = out + sub;
    assert forall|i: int| 0 <= i < all.len() implies base.is_prefix_of(#[trigger] all[i])
        && node.contains(all[i].skip(base.len() as int)) by {
        if i >= out.len() {
            assert(all[i] == sub[i - out.len()]);
        } else {
            assert(all[i] == out[i]);
        }
    }
}

/// After the child under `keys[done]` was walked, every item goes on with a
/// byte that is smaller than the keys that are left.
proof fn lemma_step_before(
    out: Seq<Seq<u8>>,
    sub: Seq<Seq<u8>>,
    base: Seq<u8>,
    keys: Seq<u8>,
    done: int,
)
    requires
        all_before(out, base, keys, done),
        0 <= done < keys.len(),
        forall|i: int|
            0 <= i < sub.len() ==> (#[trigger] sub[i]).len() > base.len() && sub[i][base.len() as int]
                == keys[done],
        forall|m: int, n: int| 0 <= m < n < keys.len() ==> keys[m] < keys[n],
    ensures
        all_before(out + sub, base, keys, done + 1),
{
    reveal(all_before);
    let all = out + sub;
    let depth = base.len() as int;
    assert forall|i: int, n: int|
        0 <= i < all.len() && done + 1 <= n < keys.len() && all[i].len() > depth implies #[trigger] all[i][depth]
        < #[trigger] keys[n] by {
        if i >= out.len() {
            assert(all[i] == sub[i - out.len()]);
            assert(keys[done] < keys[n]);
        } else {
            assert(all[i] == out[i]);
        }
    }
}

/// After the child under `keys[done]` was walked, the listing holds what
/// the node contains under the first `done + 1` keys.
proof fn lemma_step_walked(
    out: Seq<Seq<u8>>,
    sub: Seq<Seq<u8>>,
    node: Node,
    base: Seq<u8>,
    keys: Seq<u8>,
    done: int,
)
    requires
        holds_walked(out, node, base, keys, done),
        0 <= done < keys.len(),
        node.map@.contains_key(keys[done]),
        holds_all(sub, node.map@[keys[done]], base.push(keys[done])),
    ensures
        holds_walked(out + sub, node, base, keys, done + 1),
{
    reveal(holds_walked);
    reveal(holds_all);
    let key = keys[done];
    let child = node.map@[key];
    let deeper = base.push(key);
    let all = out + sub;
    if node.is_end {
        let at = choose|at: int| 0 <= at < out.len() && out[at] == base;
        assert(all[at] == base);
    }
    assert forall|path: Seq<u8>, n: int|
        0 <= n < done + 1 && path.len() > 0 && path[0] == #[trigger] keys[n]
            && #[trigger] node.contains(path) implies all.contains(base + path) by {
        if n < done {
            assert(out.contains(base + path));
            let at = choose|at: int| 0 <= at < out.len() && out[at] == base + path;
            assert(all[at] == base + path);
        } else {
            assert(child.contains(path.skip(1)));
            assert(sub.contains(deeper + path.skip(1)));
            let at = choose|at: int| 0 <= at < sub.len() && sub[at] == deeper + path.skip(1);
            assert(deeper + path.skip(1) =~= base + path);
            assert(all[out.len() + at] == base + path);
        }
    }
}

/// What was listed before the child under `keys[done]` was walked comes
/// before what is listed below that child.
proof fn lemma_step_ascending(
    out: Seq<Seq<u8>>,
    sub: Seq<Seq<u8>>,
    node: Node,
    base: Seq<u8>,
    keys: Seq<u8>,
    done: int,
)
    requires
        ascending(out),
        ascending(sub),
        all_below(out, node, base),
        all_below(sub, node, base),
        all_before(out, base, keys, done),
        0 <= done < keys.len(),
        forall|i: int|
            0 <= i < sub.len() ==> (#[trigger] sub[i]).len() > base.len() && sub[i][base.len() as int]
                == keys[done],
    ensures
        ascending(out + sub),
{
    reveal(all_below);
    reveal(all_before);
    let all = out + sub;
    let depth = base.len() as int;
    assert forall|i: int, j: int| 0 <= i < j < all.len() implies bytes_lt(all[i], all[j]) by {
        if j < out.len() {
            assert(all[i] == out[i] && all[j] == out[j]);
        } else if i >= out.len() {
            assert(all[i] == sub[i - out.len()] && all[j] == sub[j - out.len()]);
        } else {
            let a = out[i];
            let b = sub[j - out.len()];
            assert(all[i] == a && all[j] == b);
            assert(base.is_prefix_of(a));
            assert(base.is_prefix_of(b));
            assert(a.subrange(0, depth) =~= base);
            assert(b.subrange(0, depth) =~= base);
            assert(b.len() > depth && b[depth] == keys[done]);
            if a.len() > depth {
                assert(a[depth] < keys[done]);
            }
            assert(precedes_at(a, b, depth));
        }
    }
}

/// The listing after the child under `keys[done]` was walked.
proof fn lemma_listing_step(
    out: Seq<Seq<u8>>,
    sub: Seq<Seq<u8>>,
    node: Node,
    base: Seq<u8>,
    keys: Seq<u8>,
    done: int,
)
    requires
        lists_below_upto(out, node, base, keys, done),
        0 <= done < keys.len(),
        node.map@.contains_key(keys[done]),
        lists_below(sub, node.map@[keys[done]], base.push(keys[done])),
        forall|m: int, n: int| 0 <= m < n < keys.len() ==> keys[m] < keys[n],
    ensures
        lists_below_upto(out + sub, node, base, keys, done + 1),
{
    lemma_child_items(sub, node, base, keys[done]);
    lemma_step_below(out, sub, node, base);
    lemma_step_before(out, sub, base, keys, done);
    lemma_step_walked(out, sub, node, base, keys, done);
    lemma_step_ascending(out, sub, node, base, keys, done);
}

/// When every child was walked, the listing is complete.
proof fn lemma_listing_finish(out: Seq<Seq<u8>>, node: Node, base: Seq<u8>, keys: Seq<u8>)
    requires
        lists_below_upto(out, node, base, keys, keys.len() as int),
        forall|key: u8| node.map@.contains_key(key) ==> keys.contains(key),
    ensures
        lists_below(out, node, base),
{
    reveal(holds_walked);
    reveal(holds_all);
    assert forall|path: Seq<u8>| #[trigger] node.contains(path) implies out.contains(
        base + path,
    ) by {
        if path.len() == 0 {
            assert(base + path =~= base);
        } else {
            assert(node.map@.contains_key(path[0]));
            assert(keys.contains(path[0]));
            let n = choose|n: int| 0 <= n < keys.len() && keys[n] == path[0];
            assert(path[0] == keys[n]);
        }
    }
}

/// What `lists_below` says of one listed item.
pub(crate) proof fn lemma_listed_item(out: Seq<Seq<u8>>, node: Node, base: Seq<u8>, i: int)
    requires
        lists_below(out, node, base),
        0 <= i < out.len(),
    ensures
        base.is_prefix_of(out[i]),
        node.contains(out[i].skip(base.len() as int)),
{
    reveal(all_below);
}

/// What `lists_below` says of one contained path.
pub(crate) proof fn lemma_listed_path(
    out: Seq<Seq<u8>>,
    node: Node,
    base: Seq<u8>,
    path: Seq<u8>,
)
    requires
        lists_below(out, node, base),
        node.contains(path),
    ensures
        out.contains(base + path),
{
    reveal(holds_all);
}

/// What `lists_below` says of two listed items.
pub(crate) proof fn lemma_listed_order(
    out: Seq<Seq<u8>>,
    node: Node,
    base: Seq<u8>,
    i: int,
    j: int,
)
    requires
        lists_below(out, node, base),
        0 <= i < j < out.len(),
    ensures
        bytes_lt(out[i], out[j]),
{
}

impl Node {
    /// Whether walking down from this node by `path` ends on a terminal node.
    pub(crate) closed spec fn contains(&self, path: Seq<u8>) -> bool
        decreases path.len(),
    {
        if path.len() == 0 {
            self.is_end
        } else {
            self.map@.contains_key(path[0]) && self.map@[path[0]].contains(path.skip(1))
        }
    }

    /// A node that contains no path.
    pub(crate) fn new() -> (node: Self)
        ensures
            forall|path: Seq<u8>| !node.contains(path),
    {
        Node { map: BTreeMap::new(), is_end: false }
    }

    /// The child under `byte`, if there is one: what it contains is what
    /// this node contains after `byte`.
    pub(crate) fn child(&self, byte: u8) -> (child: Option<&Node>)
        ensures
            match child {
                Some(next) => forall|path: Seq<u8>|
                    next.contains(path) <==> self.contains(seq![byte] + path),
                None => forall|path: Seq<u8>|
                    path.len() > 0 && path[0] == byte ==> !self.contains(path),
            },
    {
        let found = self.map.get(&byte);
        proof {
            if let Some(next) = found {
                assert forall|path: Seq<u8>|
                    next.contains(path) <==> self.contains(seq![byte] + path) by {
                    let longer = seq![byte] + path;
                    assert(longer[0] == byte);
                    assert(longer.skip(1) =~= path);
                }
            }
        }
        found
    }

    /// A walk over the children, in ascending order of their bytes.
    fn children(&self) -> (entries: std::collections::btree_map::Iter<'_, u8, Node>)
        ensures
            walks_children(vstd::std_specs::btree::into_iter(entries), *self),
            vstd::std_specs::btree::into_iter(entries) == entries.remaining().unref(),
            entries.decrease() is Some,
    {
        let entries = self.map.iter();
        proof {
            let items = vstd::std_specs::btree::into_iter(entries);
            assert(items =~= entries.remaining().unref());
            assert(keys_of(items) =~= entries.remaining().map_values(
                |kv: (&u8, &Node)| *kv.0,
            ));
            lemma_increasing_keys(keys_of(items));
            assert forall|key: u8| self.map@.contains_key(key) implies keys_of(items).contains(
                key,
            ) by {
                let pair = (&key, &self.map@[key]);
                assert(entries.remaining().contains(pair));
                let n = choose|n: int|
                    0 <= n < entries.remaining().len() && entries.remaining()[n] == pair;
                assert(keys_of(items)[n] == key);
            }
        }
        entries
    }

    /// A copy of this node and of all below it.
    pub(crate) fn duplicate(&self) -> (copy: Self)
        ensures
            forall|path: Seq<u8>| copy.contains(path) == self.contains(path),
        decreases self,
    {
        let mut map: BTreeMap<u8, Node> = BTreeMap::new();
        let entries = self.children();
        let ghost items = vstd::std_specs::btree::into_iter(entries);
        for item in walk: entries
            invariant
                items.len() == walk.seq().len(),
                forall|n: int|
                    0 <= n < items.len() ==> #[trigger] items[n] == (
                        *walk.seq()[n].0,
                        *walk.seq()[n].1,
                    ),
                walks_children(items, *self),
                forall|key: u8| #[trigger]
                    map@.contains_key(key) ==> self.map@.contains_key(key),
                forall|n: int|
                    0 <= n < walk.index() ==> map@.contains_key(#[trigger] keys_of(items)[n]),
                forall|key: u8, path: Seq<u8>|
                    map@.contains_key(key) ==> #[trigger] map@[key].contains(path)
                        == self.map@[key].contains(path),
        {
            let (byte, next) = item;
            let ghost at = walk.index();
            assert(items[at] == (*byte, *next));
            assert(keys_of(items)[at] == *byte);
            let child = next.duplicate();
            map.insert(*byte, child);
        }
        let copy = Node { map, is_end: self.is_end };
        proof {
            assert forall|key: u8| copy.map@.contains_key(key) == self.map@.contains_key(
                key,
            ) by {
                if self.map@.contains_key(key) {
                    assert(keys_of(items).contains(key));
                    let n = choose|n: int| 0 <= n < items.len() && keys_of(items)[n] == key;
                    assert(copy.map@.contains_key(keys_of(items)[n]));
                }
            }
            assert forall|path: Seq<u8>| copy.contains(path) == self.contains(path) by {
                if path.len() > 0 && self.map@.contains_key(path[0]) {
                    assert(copy.map@[path[0]].contains(path.skip(1)) == self.map@[path[0]].contains(
                        path.skip(1),
                    ));
                }
            }
        }
        copy
    }

    /// The stored terms below this node, each spelled out after `buffer`, in
    /// ascending byte order: this node's own term first, then those of each
    /// child in the order of the children's bytes.
    pub(crate) fn lexicon_iter(&self, buffer: &mut Vec<u8>) -> (found: Vec<String>)
        requires
            forall|path: Seq<u8>| #[trigger]
                self.contains(path) ==> valid_utf8(old(buffer)@ + path),
        ensures
            final(buffer)@ == old(buffer)@,
            lists_below(bytes_of(found@), *self, old(buffer)@),
        decreases self,
    {
        let mut result: Vec<String> = Vec::new();
        if self.is_end {
            assert(self.contains(Seq::empty()));
            assert(buffer@ + Seq::<u8>::empty() =~= buffer@);
            match string_from_utf8(buffer.clone()) {
                Some(term) => {
                    result.push(term);
                    assert(bytes_of(result@) =~= seq![buffer@]);
                },
                None => {
                    assert(false);
                },
            }
        } else {
            assert(bytes_of(result@) =~= Seq::<Seq<u8>>::empty());
        }
        let entries = self.children();
        let ghost items = vstd::std_specs::btree::into_iter(entries);
        proof {
            lemma_listing_start(*self, buffer@, keys_of(items));
            if items.len() == 0 {
                lemma_listing_finish(bytes_of(result@), *self, buffer@, keys_of(items));
            }
        }
        for item in walk: entries
            invariant
                buffer@ == old(buffer)@,
                forall|path: Seq<u8>| #[trigger]
                    self.contains(path) ==> valid_utf8(buffer@ + path),
                items.len() == walk.seq().len(),
                forall|n: int|
                    0 <= n < items.len() ==> #[trigger] items[n] == (
                        *walk.seq()[n].0,
                        *walk.seq()[n].1,
                    ),
                walks_children(items, *self),
                lists_below_upto(
                    bytes_of(result@),
                    *self,
                    buffer@,
                    keys_of(items),
                    walk.index(),
                ),
                walk.index() == items.len() ==> lists_below(bytes_of(result@), *self, buffer@),
        {
            let (byte, next) = item;
            let ghost before = bytes_of(result@);
            let ghost at = walk.index();
            let ghost base = buffer@;
            assert(items[at] == (*byte, *next));
            buffer.push(*byte);
            proof {
                assert forall|path: Seq<u8>| #[trigger] next.contains(path) implies valid_utf8(
                    buffer@ + path,
                ) by {
                    let full = seq![*byte] + path;
                    assert(full[0] == *byte);
                    assert(full.skip(1) =~= path);
                    assert(self.contains(full));
                    assert(base + full =~= buffer@ + path);
                }
            }
            let mut below = next.lexicon_iter(buffer);
            let ghost deeper = bytes_of(below@);
            result.append(&mut below);
            buffer.pop();
            proof {
                assert(buffer@ =~= base);
                assert(keys_of(items)[at] == *byte);
                assert(bytes_of(result@) =~= before + deeper);
                lemma_listing_step(before, deeper, *self, buffer@, keys_of(items), at);
                if at + 1 == items.len() {
                    lemma_listing_finish(bytes_of(result@), *self, buffer@, keys_of(items));
                }
            }
        }
        result
    }

    /// Adds the path `bytes[from..]` below this node.
    pub(crate) fn insert(&mut self, bytes: &[u8], from: usize)
        requires
            from <= bytes.len(),
        ensures
            forall|path: Seq<u8>|
                final(self).contains(path) <==> old(self).contains(path) || path
                    == bytes@.skip(from as int),
        decreases bytes.len() - from,
    {
        if from == bytes.len() {
            self.is_end = true;
            assert forall|path: Seq<u8>|
                self.contains(path) <==> old(self).contains(path) || path == bytes@.skip(
                    from as int,
                ) by {
                assert(bytes@.skip(from as int).len() == 0);
                if path.len() == 0 {
                    assert(path =~= bytes@.skip(from as int));
                }
            }
        } else {
            let byte = bytes[from];
            let mut child = match self.map.remove(&byte) {
                Some(node) => node,
                None => Node::new(),
            };
            let ghost before = child;
            child.insert(bytes, from + 1);
            self.map.insert(byte, child);
            assert forall|path: Seq<u8>|
                self.contains(path) <==> old(self).contains(path) || path == bytes@.skip(
                    from as int,
                ) by {
                let rest = bytes@.skip(from as int);
                assert(rest.len() > 0 && rest[0] == byte);
                assert(rest.skip(1) =~= bytes@.skip(from as int + 1));
                if path.len() > 0 && path[0] == byte {
                    assert(self.contains(path) == child.contains(path.skip(1)));
                    assert(old(self).contains(path) == before.contains(path.skip(1)));
                    if path.skip(1) == rest.skip(1) {
                        assert(path =~= seq![byte] + path.skip(1));
                        assert(rest =~= seq![byte] + rest.skip(1));
                    }
                }
            }
        }
    }
}

} // verus!
