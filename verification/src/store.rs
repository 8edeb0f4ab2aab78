//! Document store: the authoritative text, version and language id of every
//! open document, keyed by uri. At most one document per uri; an accepted
//! change strictly raises the stored version, and a stale or out-of-order
//! change is rejected without any observable effect.

use vstd::prelude::*;

use crate::error::TyError;

verus! {

/// An open document: its text as Unicode scalar values, its version, and the
/// language id the editor reported.
pub struct Document {
    pub text: Vec<char>,
    pub version: i64,
    pub language_id: String,
}

/// The mathematical content of a document.
pub struct DocModel {
    pub text: Seq<char>,
    pub version: int,
    pub language_id: Seq<char>,
}

/// The mathematical content of a stored document.
pub open spec fn doc_model(d: Document) -> DocModel {
    DocModel { text: d.text@, version: d.version as int, language_id: d.language_id@ }
}

/// The map a sequence of uri-document pairs denotes; later pairs win, but the
/// store keeps keys unique so order never matters.
pub open spec fn pairs_to_map(s: Seq<(String, Document)>) -> Map<Seq<char>, DocModel>
    decreases s.len(),
{
    if s.len() == 0 {
        Map::empty()
    } else {
        pairs_to_map(s.drop_last()).insert(s.last().0@, doc_model(s.last().1))
    }
}

/// Owns every open document; mutated only by open/change/close notifications.
pub struct DocumentStore {
    docs: Vec<(String, Document)>,
}

impl View for DocumentStore {
    type V = Map<Seq<char>, DocModel>;

    closed spec fn view(&self) -> Map<Seq<char>, DocModel> {
        pairs_to_map(self.docs@)
    }
}

/// A pair sequence with pairwise distinct uris.
pub open spec fn unique_keys(s: Seq<(String, Document)>) -> bool {
    forall|i: int, j: int|
        0 <= i < j < s.len() ==> (#[trigger] s[i]).0@ != (#[trigger] s[j]).0@
}

/// A key held by some pair maps to that pair's document.
proof fn lemma_pairs_to_map_found(s: Seq<(String, Document)>, k: Seq<char>, i: int)
    requires
        unique_keys(s),
        0 <= i < s.len(),
        s[i].0@ == k,
    ensures
        pairs_to_map(s).contains_key(k),
        pairs_to_map(s)[k] == doc_model(s[i].1),
    decreases s.len(),
{
    if i == s.len() - 1 {
    } else {
        assert(s.drop_last()[i] == s[i]);
        lemma_pairs_to_map_found(s.drop_last(), k, i);
        assert(s.last().0@ != k);
    }
}

/// A key held by no pair is absent from the map.
proof fn lemma_pairs_to_map_absent(s: Seq<(String, Document)>, k: Seq<char>)
    requires
        forall|i: int| 0 <= i < s.len() ==> (#[trigger] s[i]).0@ != k,
    ensures
        !pairs_to_map(s).contains_key(k),
    decreases s.len(),
{
    if s.len() > 0 {
        let t = s.drop_last();
        assert forall|i: int| 0 <= i < t.len() implies (#[trigger] t[i]).0@ != k by {
            assert(t[i] == s[i]);
        }
        lemma_pairs_to_map_absent(t, k);
    }
}

/// Replacing the pair at `i` by one with the same uri updates just that key.
proof fn lemma_pairs_to_map_update(s: Seq<(String, Document)>, i: int, p: (String, Document))
    requires
        unique_keys(s),
        0 <= i < s.len(),
        p.0@ == s[i].0@,
    ensures
        pairs_to_map(s.update(i, p)) =~= pairs_to_map(s).insert(p.0@, doc_model(p.1)),
    decreases s.len(),
{
    let t = s.update(i, p);
    let d = s.drop_last();
    if i == s.len() - 1 {
        assert(t.drop_last() =~= d);
        assert(t.last() == p);
    } else {
        assert(t.drop_last() =~= d.update(i, p));
        assert(d[i] == s[i]);
        assert forall|a: int, b: int|
            0 <= a < b < d.len() implies (#[trigger] d[a]).0@ != (#[trigger] d[b]).0@ by {
            assert(d[a] == s[a] && d[b] == s[b]);
        }
        lemma_pairs_to_map_update(d, i, p);
        assert(t.last() == s.last());
        assert(s.last().0@ != p.0@);
    }
}

/// Removing the pair at `i` removes just that key from the map.
proof fn lemma_pairs_to_map_remove(s: Seq<(String, Document)>, i: int)
    requires
        unique_keys(s),
        0 <= i < s.len(),
    ensures
        pairs_to_map(s.remove(i)) =~= pairs_to_map(s).remove(s[i].0@),
    decreases s.len(),
{
    let t = s.remove(i);
    let d = s.drop_last();
    if i == s.len() - 1 {
        assert(t =~= d);
        assert forall|j: int| 0 <= j < d.len() implies (#[trigger] d[j]).0@ != s[i].0@ by {
            assert(d[j] == s[j]);
        }
        lemma_pairs_to_map_absent(d, s[i].0@);
    } else {
        assert(t.drop_last() =~= d.remove(i));
        assert(d[i] == s[i]);
        assert forall|a: int, b: int|
            0 <= a < b < d.len() implies (#[trigger] d[a]).0@ != (#[trigger] d[b]).0@ by {
            assert(d[a] == s[a] && d[b] == s[b]);
        }
        lemma_pairs_to_map_remove(d, i);
        assert(t.last() == s.last());
        assert(s.last().0@ != s[i].0@);
    }
}

impl DocumentStore {
    /// The store's internal invariant: no two stored documents share a uri.
    pub closed spec fn inv(&self) -> bool {
        unique_keys(self.docs@)
    }

    /// An empty store, as a server starts with.
    pub fn new() -> (r: DocumentStore)
        ensures
            r.inv(),
            r@ == Map::<Seq<char>, DocModel>::empty(),
    {
        DocumentStore { docs: Vec::new() }
    }

    /// The index holding `uri`, if any.
    fn find_index(&self, uri: &String) -> (r: Option<usize>)
        ensures
            match r {
                Some(i) => i < self.docs@.len() && self.docs@[i as int].0@ == uri@,
                None => forall|i: int|
                    0 <= i < self.docs@.len() ==> (#[trigger] self.docs@[i]).0@ != uri@,
            },
    {
        let n = self.docs.len();
        let mut i: usize = 0;
        while i < n
            invariant
                i <= n,
                n == self.docs@.len(),
                forall|k: int| 0 <= k < i ==> (#[trigger] self.docs@[k]).0@ != uri@,
            decreases n - i,
        {
            let p = &self.docs[i];
            if p.0 == *uri {
                return Some(i);
            }
            i = i + 1;
        }
        None
    }

    /// Insert a new document; rejected with `AlreadyOpen` when the uri is
    /// already open, leaving the store unchanged.
    pub fn open(&mut self, uri: String, text: Vec<char>, version: i64, language_id: String) -> (r:
        Result<(), TyError>)
        requires
            old(self).inv(),
        ensures
            final(self).inv(),
            match r {
                Ok(()) => {
                    &&& !old(self)@.contains_key(uri@)
                    &&& final(self)@ =~= old(self)@.insert(
                        uri@,
                        DocModel {
                            text: text@,
                            version: version as int,
                            language_id: language_id@,
                        },
                    )
                },
                Err(e) => {
                    &&& e == TyError::AlreadyOpen
                    &&& old(self)@.contains_key(uri@)
                    &&& final(self)@ == old(self)@
                },
            },
    {
        match self.find_index(&uri) {
            Some(i) => {
                proof {
                    lemma_pairs_to_map_found(self.docs@, uri@, i as int);
                }
                Err(TyError::AlreadyOpen)
            },
            None => {
                proof {
                    lemma_pairs_to_map_absent(self.docs@, uri@);
                }
                let ghost before = self.docs@;
                self.docs.push((uri, Document { text, version, language_id }));
                proof {
                    assert(self.docs@.drop_last() =~= before);
                    assert forall|a: int, b: int|
                        0 <= a < b < self.docs@.len() implies (#[trigger] self.docs@[a]).0@
                        != (#[trigger] self.docs@[b]).0@ by {
                        if b < self.docs@.len() - 1 {
                            assert(before[a] == self.docs@[a] && before[b] == self.docs@[b]);
                        } else {
                            assert(before[a] == self.docs@[a]);
                        }
                    }
                }
                Ok(())
            },
        }
    }

    /// Replace a document's text and version wholesale. Rejected with
    /// `UnknownDocument` when the uri is not open and with `StaleVersion`
    /// when the version does not strictly advance; a rejected change has no
    /// observable effect on the stored document.
    pub fn apply_change(&mut self, uri: &String, new_text: Vec<char>, version: i64) -> (r: Result<
        (),
        TyError,
    >)
        requires
            old(self).inv(),
        ensures
            final(self).inv(),
            match r {
                Ok(()) => {
                    &&& old(self)@.contains_key(uri@)
                    &&& version > old(self)@[uri@].version
                    &&& final(self)@ =~= old(self)@.insert(
                        uri@,
                        DocModel {
                            text: new_text@,
                            version: version as int,
                            language_id: old(self)@[uri@].language_id,
                        },
                    )
                },
                Err(TyError::UnknownDocument) => {
                    &&& !old(self)@.contains_key(uri@)
                    &&& final(self)@ == old(self)@
                },
                Err(TyError::StaleVersion) => {
                    &&& old(self)@.contains_key(uri@)
                    &&& version <= old(self)@[uri@].version
                    &&& final(self)@ == old(self)@
                },
                Err(_) => false,
            },
    {
        match self.find_index(uri) {
            None => {
                proof {
                    lemma_pairs_to_map_absent(self.docs@, uri@);
                }
                Err(TyError::UnknownDocument)
            },
            Some(i) => {
                proof {
                    lemma_pairs_to_map_found(self.docs@, uri@, i as int);
                }
                let current = self.docs[i].1.version;
                if version <= current {
                    Err(TyError::StaleVersion)
                } else {
                    let ghost before = self.docs@;
                    let slot = &mut self.docs[i];
                    slot.1.text = new_text;
                    slot.1.version = version;
                    proof {
                        assert(self.docs@ == before.update(i as int, self.docs@[i as int]));
                        assert(self.docs@[i as int].0@ == uri@);
                        assert forall|a: int, b: int|
                            0 <= a < b < self.docs@.len() implies (#[trigger] self.docs@[a]).0@
                            != (#[trigger] self.docs@[b]).0@ by {
                            assert(self.docs@[a].0@ == before[a].0@);
                            assert(self.docs@[b].0@ == before[b].0@);
                        }
                        lemma_pairs_to_map_update(before, i as int, self.docs@[i as int]);
                    }
                    Ok(())
                }
            },
        }
    }

    /// Remove a document; rejected with `UnknownDocument` when the uri is not
    /// open. A closed uri is afterwards unknown to every query.
    pub fn close(&mut self, uri: &String) -> (r: Result<(), TyError>)
        requires
            old(self).inv(),
        ensures
            final(self).inv(),
            match r {
                Ok(()) => {
                    &&& old(self)@.contains_key(uri@)
                    &&& final(self)@ =~= old(self)@.remove(uri@)
                },
                Err(e) => {
                    &&& e == TyError::UnknownDocument
                    &&& !old(self)@.contains_key(uri@)
                    &&& final(self)@ == old(self)@
                },
            },
    {
        match self.find_index(uri) {
            None => {
                proof {
                    lemma_pairs_to_map_absent(self.docs@, uri@);
                }
                Err(TyError::UnknownDocument)
            },
            Some(i) => {
                proof {
                    lemma_pairs_to_map_found(self.docs@, uri@, i as int);
                    lemma_pairs_to_map_remove(self.docs@, i as int);
                }
                let ghost before = self.docs@;
                self.docs.remove(i);
                proof {
                    assert forall|a: int, b: int|
                        0 <= a < b < self.docs@.len() implies (#[trigger] self.docs@[a]).0@
                        != (#[trigger] self.docs@[b]).0@ by {
                        if a < i as int {
                            assert(self.docs@[a] == before[a]);
                        } else {
                            assert(self.docs@[a] == before[a + 1]);
                        }
                        if b < i as int {
                            assert(self.docs@[b] == before[b]);
                        } else {
                            assert(self.docs@[b] == before[b + 1]);
                        }
                    }
                }
                Ok(())
            },
        }
    }

    /// Read-only snapshot of a document; rejected with `UnknownDocument` when
    /// the uri is not open.
    pub fn get(&self, uri: &String) -> (r: Result<&Document, TyError>)
        requires
            self.inv(),
        ensures
            match r {
                Ok(d) => {
                    &&& self@.contains_key(uri@)
                    &&& doc_model(*d) == self@[uri@]
                },
                Err(e) => {
                    &&& e == TyError::UnknownDocument
                    &&& !self@.contains_key(uri@)
                },
            },
    {
        match self.find_index(uri) {
            None => {
                proof {
                    lemma_pairs_to_map_absent(self.docs@, uri@);
                }
                Err(TyError::UnknownDocument)
            },
            Some(i) => {
                proof {
                    lemma_pairs_to_map_found(self.docs@, uri@, i as int);
                }
                Ok(&self.docs[i].1)
            },
        }
    }
}

} // verus!
