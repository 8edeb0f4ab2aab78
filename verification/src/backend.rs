//! The backend binds the document store and the tree cache together and
//! serves the per-document queries. The cache holds at most one entry per
//! uri, tagged with the version of the text it was parsed from; an entry is
//! served only while its version equals the store's current version, so a
//! query never sees a tree parsed from text older than the last accepted
//! change.

use vstd::prelude::*;

use crate::error::TyError;
use crate::mapper;
use crate::mapper::{byte_len, offset_at, Position};
use crate::parser::parse_to_tree;
use crate::store::{doc_model, DocModel, Document, DocumentStore};
use crate::tree::{resolve, resolve_spec, wf_node, NodeKind, PathEntry, TreeNode};

verus! {

/// A cached parse: the tree built from one version of one document's text,
/// together with (ghost) the exact text it was parsed from.
pub struct CacheEntry {
    pub version: i64,
    pub parsed_text: Ghost<Seq<char>>,
    pub tree: TreeNode,
}

/// Coherence of one cache entry with the store: its uri is open, its version
/// never runs ahead of the store, its tree is well-formed and covers exactly
/// the text it was parsed from, and a version match means that text is the
/// store's current text.
pub open spec fn entry_wf(e: CacheEntry) -> bool {
    &&& wf_node(e.tree)
    &&& e.tree.kind == NodeKind::Markup
    &&& e.tree.start == 0
    &&& e.tree.end == byte_len(e.parsed_text@)
}

/// Coherence of one cache entry with the store map alone.
pub open spec fn entry_ok(uri: Seq<char>, e: CacheEntry, m: Map<Seq<char>, DocModel>) -> bool {
    &&& m.contains_key(uri)
    &&& e.version as int <= m[uri].version
    &&& entry_wf(e)
    &&& (e.version as int == m[uri].version ==> e.parsed_text@ == m[uri].text)
}

/// Pairwise distinct cache uris.
pub open spec fn unique_cache_keys(s: Seq<(String, CacheEntry)>) -> bool {
    forall|i: int, j: int|
        0 <= i < j < s.len() ==> (#[trigger] s[i]).0@ != (#[trigger] s[j]).0@
}

/// Dropping the entry at `i` keeps the remaining cache uris pairwise
/// distinct.
#[verifier::rlimit(100)]
proof fn lemma_cache_evict(
    before: Seq<(String, CacheEntry)>,
    i: int,
    m_old: Map<Seq<char>, DocModel>,
    uri: Seq<char>,
)
    requires
        unique_cache_keys(before),
        0 <= i < before.len(),
        before[i].0@ == uri,
        forall|k: int|
            0 <= k < before.len() ==> entry_ok((#[trigger] before[k]).0@, before[k].1, m_old),
    ensures
        unique_cache_keys(before.remove(i)),
{
    let after = before.remove(i);
    assert forall|a: int, b: int|
        0 <= a < b < after.len() implies (#[trigger] after[a]).0@ != (#[trigger] after[b]).0@ by {
        if a < i {
            assert(after[a] == before[a]);
        } else {
            assert(after[a] == before[a + 1]);
        }
        if b < i {
            assert(after[b] == before[b]);
        } else {
            assert(after[b] == before[b + 1]);
        }
    }
}

/// The index of the cache entry for `uri`, if any.
fn find_entry_index(cache: &Vec<(String, CacheEntry)>, uri: &String) -> (r: Option<usize>)
    ensures
        match r {
            Some(i) => i < cache@.len() && cache@[i as int].0@ == uri@,
            None => forall|i: int| 0 <= i < cache@.len() ==> (#[trigger] cache@[i]).0@ != uri@,
        },
{
    let n = cache.len();
    let mut i: usize = 0;
    while i < n
        invariant
            i <= n,
            n == cache@.len(),
            forall|k: int| 0 <= k < i ==> (#[trigger] cache@[k]).0@ != uri@,
        decreases n - i,
    {
        let p = &cache[i];
        if p.0 == *uri {
            return Some(i);
        }
        i = i + 1;
    }
    None
}

/// Shared handle over all documents: the store owns the text, the cache
/// derives trees from it.
pub struct Backend {
    store: DocumentStore,
    cache: Vec<(String, CacheEntry)>,
}

impl View for Backend {
    type V = Map<Seq<char>, DocModel>;

    closed spec fn view(&self) -> Map<Seq<char>, DocModel> {
        self.store@
    }
}

impl Backend {
    /// Everything the backend maintains across calls: the store invariant,
    /// one coherent cache entry per uri at most, and document texts whose
    /// byte length the machine can address.
    pub closed spec fn inv(&self) -> bool {
        &&& self.store.inv()
        &&& unique_cache_keys(self.cache@)
        &&& (forall|i: int|
            0 <= i < self.cache@.len() ==> entry_ok(
                (#[trigger] self.cache@[i]).0@,
                self.cache@[i].1,
                self.store@,
            ))
        &&& (forall|k: Seq<char>|
            #[trigger] self.store@.contains_key(k) ==> byte_len(self.store@[k].text)
                <= usize::MAX)
    }

    /// There is a cache entry for `uri`.
    pub closed spec fn cache_has(&self, uri: Seq<char>) -> bool {
        exists|i: int| 0 <= i < self.cache@.len() && (#[trigger] self.cache@[i]).0@ == uri
    }

    /// The index of that entry.
    pub closed spec fn cache_index(&self, uri: Seq<char>) -> int {
        choose|i: int| 0 <= i < self.cache@.len() && (#[trigger] self.cache@[i]).0@ == uri
    }

    /// The version the cached tree was parsed at.
    pub closed spec fn cached_version(&self, uri: Seq<char>) -> int {
        self.cache@[self.cache_index(uri)].1.version as int
    }

    /// The exact text the cached tree was parsed from.
    pub closed spec fn cached_source(&self, uri: Seq<char>) -> Seq<char> {
        self.cache@[self.cache_index(uri)].1.parsed_text@
    }

    /// The cached tree itself.
    pub closed spec fn cached_tree(&self, uri: Seq<char>) -> TreeNode {
        self.cache@[self.cache_index(uri)].1.tree
    }

    /// A backend with no open documents, as a server starts with.
    pub fn new() -> (r: Backend)
        ensures
            r.inv(),
            r@ == Map::<Seq<char>, DocModel>::empty(),
    {
        Backend { store: DocumentStore::new(), cache: Vec::new() }
    }

    /// Open a document; `AlreadyOpen` when the uri is already open.
    pub fn open(&mut self, uri: String, text: Vec<char>, version: i64, language_id: String) -> (r:
        Result<(), TyError>)
        requires
            old(self).inv(),
            byte_len(text@) <= usize::MAX,
        ensures
            final(self).inv(),
            match r {
                Ok(()) => {
                    &&& !old(self)@.contains_key(uri@)
                    &&& final(self)@ =~= old(self)@.insert(
                        uri@,
                        DocModel {
                            text: text@,
                            version: version as int,
                            language_id: language_id@,
                        },
                    )
                },
                Err(e) => {
                    &&& e == TyError::AlreadyOpen
                    &&& old(self)@.contains_key(uri@)
                    &&& final(self)@ == old(self)@
                },
            },
    {
        let ghost old_map = self.store@;
        let r = self.store.open(uri, text, version, language_id);
        proof {
            if r is Ok {
                assert forall|i: int| 0 <= i < self.cache@.len() implies entry_ok(
                    (#[trigger] self.cache@[i]).0@,
                    self.cache@[i].1,
                    self.store@,
                ) by {
                    assert(entry_ok(self.cache@[i].0@, self.cache@[i].1, old_map));
                    assert(self.cache@[i].0@ != uri@);
                }
            }
        }
        r
    }

    /// Replace a document's text and version; `UnknownDocument` when the uri
    /// is not open, `StaleVersion` when the version does not strictly grow.
    /// A rejected change leaves the stored document untouched.
    pub fn apply_change(&mut self, uri: &String, new_text: Vec<char>, version: i64) -> (r: Result<
        (),
        TyError,
    >)
        requires
            old(self).inv(),
            byte_len(new_text@) <= usize::MAX,
        ensures
            final(self).inv(),
            match r {
                Ok(()) => {
                    &&& old(self)@.contains_key(uri@)
                    &&& version > old(self)@[uri@].version
                    &&& final(self)@ =~= old(self)@.insert(
                        uri@,
                        DocModel {
                            text: new_text@,
                            version: version as int,
                            language_id: old(self)@[uri@].language_id,
                        },
                    )
                },
                Err(TyError::UnknownDocument) => {
                    &&& !old(self)@.contains_key(uri@)
                    &&& final(self)@ == old(self)@
                },
                Err(TyError::StaleVersion) => {
                    &&& old(self)@.contains_key(uri@)
                    &&& version <= old(self)@[uri@].version
                    &&& final(self)@ == old(self)@
                },
                Err(_) => false,
            },
    {
        let ghost old_map = self.store@;
        let r = self.store.apply_change(uri, new_text, version);
        proof {
            if r is Ok {
                assert forall|i: int| 0 <= i < self.cache@.len() implies entry_ok(
                    (#[trigger] self.cache@[i]).0@,
                    self.cache@[i].1,
                    self.store@,
                ) by {
                    assert(entry_ok(self.cache@[i].0@, self.cache@[i].1, old_map));
                }
            }
        }
        r
    }

    /// Close a document and drop its cache entry; `UnknownDocument` when the
    /// uri is not open. Afterwards every query on the uri fails.
    #[verifier::rlimit(100)]
    pub fn close(&mut self, uri: &String) -> (r: Result<(), TyError>)
        requires
            old(self).inv(),
        ensures
            final(self).inv(),
            match r {
                Ok(()) => {
                    &&& old(self)@.contains_key(uri@)
                    &&& final(self)@ =~= old(self)@.remove(uri@)
                },
                Err(e) => {
                    &&& e == TyError::UnknownDocument
                    &&& !old(self)@.contains_key(uri@)
                    &&& final(self)@ == old(self)@
                },
            },
    {
        let ghost old_map = self.store@;
        match self.store.close(uri) {
            Err(e) => Err(e),
            Ok(()) => {
                let idx = find_entry_index(&self.cache, uri);
                let ghost before = self.cache@;
                match idx {
                    Some(i) => {
                        self.cache.remove(i);
                        proof {
                            lemma_cache_evict(before, i as int, old_map, uri@);
                            assert(self.cache@ == before.remove(i as int));
                            assert(self.store@ =~= old_map.remove(uri@));
                        }
                    },
                    None => {
                        proof {
                            assert forall|k: int| 0 <= k < self.cache@.len() implies entry_ok(
                                (#[trigger] self.cache@[k]).0@,
                                self.cache@[k].1,
                                self.store@,
                            ) by {
                                assert(entry_ok(self.cache@[k].0@, self.cache@[k].1, old_map));
                                assert(self.cache@[k].0@ != uri@);
                            }
                        }
                    },
                }
                Ok(())
            },
        }
    }

    /// Read-only snapshot of a document's text and version.
    pub fn get(&self, uri: &String) -> (r: Result<&Document, TyError>)
        requires
            self.inv(),
        ensures
            match r {
                Ok(d) => {
                    &&& self@.contains_key(uri@)
                    &&& doc_model(*d) == self@[uri@]
                },
                Err(e) => {
                    &&& e == TyError::UnknownDocument
                    &&& !self@.contains_key(uri@)
                },
            },
    {
        self.store.get(uri)
    }

    /// The tree for the document's current text. A cache entry parsed at the
    /// current version is reused; otherwise the text is re-parsed and the
    /// entry replaced, so the returned tree always reflects the text of the
    /// last accepted change. Fails only with `UnknownDocument`; malformed
    /// text still parses, into a tree with error-marker nodes.
    #[verifier::rlimit(100)]
    pub fn tree_for(&mut self, uri: &String) -> (r: Result<&TreeNode, TyError>)
        requires
            old(self).inv(),
        ensures
            final(self).inv(),
            final(self)@ == old(self)@,
            match r {
                Ok(tree) => {
                    &&& old(self)@.contains_key(uri@)
                    &&& wf_node(*tree)
                    &&& tree.kind == NodeKind::Markup
                    &&& tree.start == 0
                    &&& tree.end == byte_len(old(self)@[uri@].text)
                    &&& final(self).cache_has(uri@)
                    &&& final(self).cached_version(uri@) == old(self)@[uri@].version
                    &&& final(self).cached_source(uri@) == old(self)@[uri@].text
                    &&& *tree == final(self).cached_tree(uri@)
                },
                Err(e) => {
                    &&& e == TyError::UnknownDocument
                    &&& !old(self)@.contains_key(uri@)
                },
            },
    {
        let d = match self.store.get(uri) {
            Err(e) => {
                return Err(e);
            },
            Ok(d) => d,
        };
        let version = d.version;
        let idx = find_entry_index(&self.cache, uri);
        match idx {
            Some(i) => {
                if self.cache[i].1.version == version {
                    proof {
                        assert(self.cache_has(uri@));
                        let ci = self.cache_index(uri@);
                        assert(self.cache@[ci].0@ == uri@ && self.cache@[i as int].0@ == uri@);
                        assert(ci == i as int);
                        assert(entry_ok(self.cache@[i as int].0@, self.cache@[i as int].1, self.store@));
                    }
                    return Ok(&self.cache[i].1.tree);
                }
            },
            None => {},
        }
        let tree = parse_to_tree(&d.text);
        let ghost snap = d.text@;
        let entry = CacheEntry { version, parsed_text: Ghost(snap), tree };
        let ghost before = self.cache@;
        let stored_at: usize;
        match idx {
            Some(i) => {
                let slot = &mut self.cache[i];
                slot.1 = entry;
                stored_at = i;
            },
            None => {
                self.cache.push((uri.clone(), entry));
                stored_at = self.cache.len() - 1;
            },
        }
        proof {
            assert(self.cache@[stored_at as int].0@ == uri@);
            assert forall|a: int, b: int|
                0 <= a < b < self.cache@.len() implies (#[trigger] self.cache@[a]).0@
                != (#[trigger] self.cache@[b]).0@ by {
                if b < before.len() {
                    assert(self.cache@[a].0@ == before[a].0@ && self.cache@[b].0@ == before[b].0@);
                } else {
                    assert(self.cache@[a].0@ == before[a].0@);
                }
            }
            assert forall|k: int| 0 <= k < self.cache@.len() implies entry_ok(
                (#[trigger] self.cache@[k]).0@,
                self.cache@[k].1,
                self.store@,
            ) by {
                if k != stored_at as int {
                    assert(self.cache@[k] == before[k]);
                    assert(entry_ok(before[k].0@, before[k].1, self.store@));
                }
            }
            assert(self.cache_has(uri@));
            let ci = self.cache_index(uri@);
            assert(self.cache@[ci].0@ == uri@);
            assert(ci == stored_at as int);
        }
        Ok(&self.cache[stored_at].1.tree)
    }

    /// Resolve a go-to-definition query: translate the position, resolve the
    /// node path under the cursor against the current tree, and answer with
    /// the fixed placeholder target the definition provider currently
    /// returns. The real target resolution is an extension point.
    #[verifier::rlimit(100)]
    pub fn provide_definitions(&mut self, uri: &String, position: Position) -> (r: Result<
        (Vec<PathEntry>, Position),
        TyError,
    >)
        requires
            old(self).inv(),
        ensures
            final(self).inv(),
            final(self)@ == old(self)@,
            match r {
                Ok((path, target)) => {
                    &&& old(self)@.contains_key(uri@)
                    &&& offset_at(
                        old(self)@[uri@].text,
                        position.line as nat,
                        position.character as nat,
                    ) matches Some(o) && o < byte_len(old(self)@[uri@].text) && path@
                        == resolve_spec(final(self).cached_tree(uri@), o as int)
                    &&& final(self).cached_source(uri@) == old(self)@[uri@].text
                    &&& path@.len() >= 1
                    &&& target == (Position { line: 1, character: 4 })
                },
                Err(e) => {
                    &&& (e == TyError::UnknownDocument || e == TyError::PositionOutOfRange || e
                        == TyError::OffsetOutOfRange)
                    &&& (e == TyError::UnknownDocument <==> !old(self)@.contains_key(uri@))
                    &&& (e == TyError::PositionOutOfRange ==> offset_at(
                        old(self)@[uri@].text,
                        position.line as nat,
                        position.character as nat,
                    ) is None)
                    &&& (e == TyError::OffsetOutOfRange ==> offset_at(
                        old(self)@[uri@].text,
                        position.line as nat,
                        position.character as nat,
                    ) == Some(byte_len(old(self)@[uri@].text)))
                },
            },
    {
        let offset: usize;
        {
            let d = match self.store.get(uri) {
                Err(e) => {
                    return Err(e);
                },
                Ok(d) => d,
            };
            offset = match mapper::to_offset(&d.text, position) {
                Err(e) => {
                    return Err(e);
                },
                Ok(o) => o,
            };
        }
        let tree = match self.tree_for(uri) {
            Err(e) => {
                return Err(e);
            },
            Ok(t) => t,
        };
        let path = match resolve(tree, offset) {
            Err(e) => {
                return Err(e);
            },
            Ok(p) => p,
        };
        Ok((path, Position { line: 1, character: 4 }))
    }
}

} // verus!
