//! The storage interface and the spec vocabulary all contracts share.

use vstd::prelude::*;

use crate::db::{DatabaseItem, Id, ItemView};
use crate::errors::{DbError, EleboxError};

verus! {

// A store's contents are modelled as a sequence of (synthetic id, record
// view) pairs in scan order. The spec functions below are the vocabulary
// every contract in this crate speaks: name and id lookup as the linear
// scan performs them, first match winning.

/// Whether some record carries the given name.
pub open spec fn has_name<V: ItemView>(s: Seq<(Seq<char>, V)>, name: Seq<char>) -> bool {
    exists|i: int| 0 <= i < s.len() && (#[trigger] s[i]).1.name_of() == name
}

/// Index of the first record carrying the given name, or -1.
pub open spec fn index_of_name<V: ItemView>(s: Seq<(Seq<char>, V)>, name: Seq<char>) -> int
    decreases s.len(),
{
    if s.len() == 0 {
        -1
    } else if s[0].1.name_of() == name {
        0
    } else {
        let r = index_of_name(s.subrange(1, s.len() as int), name);
        if r < 0 {
            -1
        } else {
            r + 1
        }
    }
}

/// The id of the first record carrying the given name.
pub open spec fn name_id<V: ItemView>(s: Seq<(Seq<char>, V)>, name: Seq<char>) -> Seq<char> {
    s[index_of_name(s, name)].0
}

/// Whether some record is stored under the given id.
pub open spec fn has_id<V>(s: Seq<(Seq<char>, V)>, id: Seq<char>) -> bool {
    exists|i: int| 0 <= i < s.len() && (#[trigger] s[i]).0 == id
}

/// Index of the first record stored under the given id, or -1.
pub open spec fn index_of_id<V>(s: Seq<(Seq<char>, V)>, id: Seq<char>) -> int
    decreases s.len(),
{
    if s.len() == 0 {
        -1
    } else if s[0].0 == id {
        0
    } else {
        let r = index_of_id(s.subrange(1, s.len() as int), id);
        if r < 0 {
            -1
        } else {
            r + 1
        }
    }
}

/// The record stored under the given id (the first, if ids repeat).
pub open spec fn id_item<V>(s: Seq<(Seq<char>, V)>, id: Seq<char>) -> V {
    s[index_of_id(s, id)].1
}

/// Every record sits under its own id. Handlers keep this invariant: ids are
/// random at birth and never reassigned.
pub open spec fn ids_unique<V>(s: Seq<(Seq<char>, V)>) -> bool {
    forall|i: int, j: int| 0 <= i < j < s.len() ==> (#[trigger] s[i]).0 != (#[trigger] s[j]).0
}

/// `index_of_name` finds the first record with the name, and -1 exactly when
/// the name is absent.
pub proof fn lemma_index_of_name<V: ItemView>(s: Seq<(Seq<char>, V)>, name: Seq<char>)
    ensures
        index_of_name(s, name) == -1 <==> !has_name(s, name),
        has_name(s, name) ==> 0 <= index_of_name(s, name) < s.len(),
        has_name(s, name) ==> s[index_of_name(s, name)].1.name_of() == name,
        forall|j: int| 0 <= j < index_of_name(s, name) ==> (#[trigger] s[j]).1.name_of() != name,
    decreases s.len(),
{
    if s.len() == 0 {
    } else if s[0].1.name_of() == name {
    } else {
        let tail = s.subrange(1, s.len() as int);
        lemma_index_of_name(tail, name);
        assert(forall|i: int| 0 <= i < tail.len() ==> (#[trigger] tail[i]) == s[i + 1]);
        if has_name(tail, name) {
            let i = choose|i: int| 0 <= i < tail.len() && (#[trigger] tail[i]).1.name_of() == name;
            assert(s[i + 1].1.name_of() == name);
            assert forall|j: int| 0 <= j < index_of_name(s, name)
                implies (#[trigger] s[j]).1.name_of() != name by {
                if j > 0 {
                    assert(tail[j - 1] == s[j]);
                }
            }
        } else {
            assert forall|i: int| 0 <= i < s.len() implies (#[trigger] s[i]).1.name_of() != name by {
                if i > 0 {
                    assert(tail[i - 1] == s[i]);
                }
            }
        }
    }
}

/// `index_of_id` finds the first record under the id, and -1 exactly when
/// the id is absent.
pub proof fn lemma_index_of_id<V>(s: Seq<(Seq<char>, V)>, id: Seq<char>)
    ensures
        index_of_id(s, id) == -1 <==> !has_id(s, id),
        has_id(s, id) ==> 0 <= index_of_id(s, id) < s.len(),
        has_id(s, id) ==> s[index_of_id(s, id)].0 == id,
        forall|j: int| 0 <= j < index_of_id(s, id) ==> (#[trigger] s[j]).0 != id,
    decreases s.len(),
{
    if s.len() == 0 {
    } else if s[0].0 == id {
    } else {
        let tail = s.subrange(1, s.len() as int);
        lemma_index_of_id(tail, id);
        assert(forall|i: int| 0 <= i < tail.len() ==> (#[trigger] tail[i]) == s[i + 1]);
        if has_id(tail, id) {
            let i = choose|i: int| 0 <= i < tail.len() && (#[trigger] tail[i]).0 == id;
            assert(s[i + 1].0 == id);
            assert forall|j: int| 0 <= j < index_of_id(s, id)
                implies (#[trigger] s[j]).0 != id by {
                if j > 0 {
                    assert(tail[j - 1] == s[j]);
                }
            }
        } else {
            assert forall|i: int| 0 <= i < s.len() implies (#[trigger] s[i]).0 != id by {
                if i > 0 {
                    assert(tail[i - 1] == s[i]);
                }
            }
        }
    }
}

/// When ids are unique, the record under a stored id's index is that record.
pub proof fn lemma_unique_id_index<V>(s: Seq<(Seq<char>, V)>, k: int)
    requires
        ids_unique(s),
        0 <= k < s.len(),
    ensures
        has_id(s, s[k].0),
        index_of_id(s, s[k].0) == k,
{
    lemma_index_of_id(s, s[k].0);
    let i = index_of_id(s, s[k].0);
    if i < k {
        assert(s[i].0 == s[k].0);
    } else if i > k {
        assert(s[k].0 == s[k].0);
    }
}

/// Appending a record under a fresh id keeps ids unique.
pub proof fn lemma_ids_unique_push<V>(s: Seq<(Seq<char>, V)>, id: Seq<char>, x: V)
    requires
        ids_unique(s),
        !has_id(s, id),
    ensures
        ids_unique(s.push((id, x))),
{
    let t = s.push((id, x));
    assert forall|i: int, j: int| 0 <= i < j < t.len()
        implies (#[trigger] t[i]).0 != (#[trigger] t[j]).0 by {
        if j == s.len() {
            assert(s[i] == t[i]);
        }
    }
}

/// Overwriting a record in place, id kept, keeps ids unique.
pub proof fn lemma_ids_unique_update<V>(s: Seq<(Seq<char>, V)>, k: int, id: Seq<char>, x: V)
    requires
        ids_unique(s),
        0 <= k < s.len(),
        id == s[k].0,
    ensures
        ids_unique(s.update(k, (id, x))),
{
    let t = s.update(k, (id, x));
    assert forall|i: int, j: int| 0 <= i < j < t.len()
        implies (#[trigger] t[i]).0 != (#[trigger] t[j]).0 by {
        assert(s[i].0 != s[j].0);
    }
}

/// Removing a record keeps ids unique.
pub proof fn lemma_ids_unique_remove<V>(s: Seq<(Seq<char>, V)>, k: int)
    requires
        ids_unique(s),
        0 <= k < s.len(),
    ensures
        ids_unique(s.remove(k)),
{
    let t = s.remove(k);
    assert forall|i: int, j: int| 0 <= i < j < t.len()
        implies (#[trigger] t[i]).0 != (#[trigger] t[j]).0 by {
        let i0: int = if i < k { i } else { i + 1 };
        let j0: int = if j < k { j } else { j + 1 };
        assert(t[i] == s[i0]);
        assert(t[j] == s[j0]);
        assert(s[i0].0 != s[j0].0);
    }
}

/// A record appended under a fresh name is what a subsequent lookup of that
/// name finds.
pub proof fn lemma_push_fresh_name_found<V: ItemView>(
    o: Seq<(Seq<char>, V)>, id: Seq<char>, x: V,
)
    requires
        !has_name(o, x.name_of()),
    ensures
        has_name(o.push((id, x)), x.name_of()),
        index_of_name(o.push((id, x)), x.name_of()) == o.len(),
        o.push((id, x))[index_of_name(o.push((id, x)), x.name_of())].1 == x,
{
    let f = o.push((id, x));
    let n = x.name_of();
    assert(f[o.len() as int].1.name_of() == n);
    assert(has_name(f, n));
    lemma_index_of_name(f, n);
    let i = index_of_name(f, n);
    if i < o.len() {
        assert(f[i] == o[i]);
        assert(has_name(o, n));
    }
}

/// Whether `f` is `o` with zero or more records appended: imports only ever
/// append, so what was stored survives an import unchanged and in place.
pub open spec fn extends<V>(f: Seq<(Seq<char>, V)>, o: Seq<(Seq<char>, V)>) -> bool {
    o.len() <= f.len() && forall|i: int| 0 <= i < o.len() ==> f[i] == (#[trigger] o[i])
}

/// A name found in a store is still found, at the same place and with the
/// same id, after records are appended.
pub proof fn lemma_extends_name_stable<V: ItemView>(
    f: Seq<(Seq<char>, V)>, o: Seq<(Seq<char>, V)>, name: Seq<char>,
)
    requires
        extends(f, o),
        has_name(o, name),
    ensures
        has_name(f, name),
        index_of_name(f, name) == index_of_name(o, name),
        name_id(f, name) == name_id(o, name),
{
    lemma_index_of_name(o, name);
    lemma_index_of_name(f, name);
    let i = index_of_name(o, name);
    assert(f[i] == o[i]);
    assert(has_name(f, name));
    let k = index_of_name(f, name);
    if k < i {
        assert(o[k] == f[k]);
        assert(o[k].1.name_of() != name);
        assert(false);
    }
    if k > i {
        assert(f[i].1.name_of() != name);
        assert(false);
    }
}

/// A name absent from an extension was absent from the base.
pub proof fn lemma_extends_name_mono<V: ItemView>(
    f: Seq<(Seq<char>, V)>, o: Seq<(Seq<char>, V)>, name: Seq<char>,
)
    requires
        extends(f, o),
        !has_name(f, name),
    ensures
        !has_name(o, name),
{
    if has_name(o, name) {
        lemma_extends_name_stable(f, o, name);
    }
}

/// A duplicate-free sequence of keys that all occur in `s` cannot be longer
/// than `s` itself.
pub proof fn lemma_path_bound<V>(s: Seq<(Seq<char>, V)>, path: Seq<Seq<char>>)
    requires
        path.no_duplicates(),
        forall|i: int| 0 <= i < path.len() ==> has_id(s, #[trigger] path[i]),
    ensures
        path.len() <= s.len(),
{
    let keys = s.map_values(|p: (Seq<char>, V)| p.0);
    assert forall|x: Seq<char>| path.to_set().contains(x)
        implies keys.to_set().contains(x) by {
        let i = choose|i: int| 0 <= i < path.len() && path[i] == x;
        assert(has_id(s, path[i]));
        let j = choose|j: int| 0 <= j < s.len() && (#[trigger] s[j]).0 == x;
        assert(keys[j] == x);
        assert(keys.contains(x));
    }
    path.unique_seq_to_set();
    keys.lemma_cardinality_of_set();
    vstd::seq_lib::seq_to_set_is_finite(keys);
    vstd::set_lib::lemma_len_subset(path.to_set(), keys.to_set());
}

/// One partition of the key-value store, bound to a single record shape.
/// Contents are modelled as a sequence of `(id, record view)` pairs in scan
/// order; every operation states its effect on that sequence. Implementations
/// outside this crate (a file-backed engine) are trusted to meet these
/// contracts, as the verified in-memory store does.
pub trait Database<DI: DatabaseItem> where DI::V: ItemView {
    /// The records of this partition in scan order.
    spec fn contents(&self) -> Seq<(Seq<char>, DI::V)>;

    /// Makes sure the partition exists; never alters records.
    fn init(&mut self) -> (r: Result<(), DbError>)
        ensures
            final(self).contents() == old(self).contents(),
    ;

    /// Name-to-id lookup: linear scan, first match wins.
    fn get_id(&self, name: &str) -> (r: Result<Id, DbError>)
        ensures
            r matches Ok(id) ==> has_name(self.contents(), name@)
                && id@ == name_id(self.contents(), name@),
            r matches Err(e) ==> !has_name(self.contents(), name@)
                && (e matches DbError::NotExists(b) && b@ == DI::spec_bucket()),
    ;

    /// Direct lookup by synthetic id.
    fn get(&self, id: &str) -> (r: Result<DI, DbError>)
        ensures
            r matches Ok(item) ==> has_id(self.contents(), id@)
                && item@ == id_item(self.contents(), id@),
            r matches Err(e) ==> !has_id(self.contents(), id@)
                && (e matches DbError::NotExists(b) && b@ == DI::spec_bucket()),
    ;

    /// All records in scan order, ids dropped.
    fn list(&self) -> (r: Result<Vec<DI>, DbError>)
        ensures
            r matches Ok(items) ==> items@.len() == self.contents().len()
                && forall|i: int| 0 <= i < items@.len()
                    ==> (#[trigger] items@[i])@ == self.contents()[i].1,
            r matches Err(e) ==> e matches DbError::AccessFailed(_),
    ;

    /// Appends the record under a freshly generated id.
    fn add(&mut self, item: DI) -> (r: Result<(), DbError>)
        ensures
            r is Ok ==> exists|id: Seq<char>| !has_id(old(self).contents(), id)
                && final(self).contents() == old(self).contents().push((id, item@)),
            r matches Err(e) ==> final(self).contents() == old(self).contents()
                && e matches DbError::AccessFailed(_),
    ;

    /// Overwrites the record stored under `ori_id`, keeping the id; if the id
    /// is absent the record is appended under it, as a key-value put does.
    fn update(&mut self, ori_id: &str, new_item: DI) -> (r: Result<(), DbError>)
        ensures
            r is Ok && has_id(old(self).contents(), ori_id@) ==> final(self).contents()
                == old(self).contents().update(
                    index_of_id(old(self).contents(), ori_id@), (ori_id@, new_item@)),
            r is Ok && !has_id(old(self).contents(), ori_id@) ==> final(self).contents()
                == old(self).contents().push((ori_id@, new_item@)),
            r matches Err(e) ==> final(self).contents() == old(self).contents()
                && e matches DbError::AccessFailed(_),
    ;

    /// Removes the record stored under the id; an absent id is an error.
    fn delete(&mut self, id: &str) -> (r: Result<(), DbError>)
        ensures
            r is Ok ==> has_id(old(self).contents(), id@)
                && final(self).contents() == old(self).contents().remove(
                    index_of_id(old(self).contents(), id@)),
            r matches Err(e) ==> !has_id(old(self).contents(), id@)
                && final(self).contents() == old(self).contents()
                && (e matches DbError::NotExists(b) && b@ == DI::spec_bucket()),
    ;

    /// Probes whether the partition can be opened at all.
    fn check(&self) -> (r: Result<(), DbError>);
}

/// The four CRUD verbs plus a full listing, shared by the entity handlers.
/// `wf` is the handler's well-formedness: callers establish it once (an empty
/// store is well-formed) and every mutation preserves it.
pub trait Handler<T> {
    /// Well-formedness of the underlying store.
    spec fn wf(&self) -> bool;

    /// Removes the entity with this name; dependents are left dangling.
    fn delete(&mut self, name: &str) -> (r: Result<(), EleboxError>)
        requires
            old(self).wf(),
        ensures
            final(self).wf(),
    ;

    /// Creates a new entity; the name must not be taken.
    fn add(&mut self, item: &T) -> (r: Result<(), EleboxError>)
        requires
            old(self).wf(),
        ensures
            final(self).wf(),
    ;

    /// Rewrites the entity stored under `ori_name`, keeping its id.
    fn update(&mut self, ori_name: &str, new_item: &T) -> (r: Result<(), EleboxError>)
        requires
            old(self).wf(),
        ensures
            final(self).wf(),
    ;

    /// Finds an entity by name.
    fn get(&self, name: &str) -> (r: Result<T, EleboxError>)
        requires
            self.wf(),
    ;

    /// All entities, in scan order.
    fn list(&self) -> (r: Result<Vec<T>, EleboxError>);
}

} // verus!
