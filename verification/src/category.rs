//! Categories: a forest of named entities, each with at most one parent,
//! with tree reconstruction and a dependency-ordered import.

use vstd::prelude::*;

use crate::comm::{
    extends, has_id, has_name, id_item, index_of_id, index_of_name,
    lemma_extends_name_mono, lemma_extends_name_stable, lemma_ids_unique_push,
    lemma_ids_unique_remove, lemma_ids_unique_update, lemma_index_of_id, lemma_index_of_name,
    lemma_path_bound, lemma_unique_id_index, name_id, Database, Handler, ids_unique,
};
use crate::db::{
    clone_none_if_empty, clone_or_empty, none_if_empty, opt_view, or_empty, DbCategory,
    DbCategoryView,
};
use crate::errors::EleboxError;

verus! {

/// A category as callers see it: an optional parent category referenced by
/// name, forming a forest.
#[derive(Debug, Clone)]
pub struct Category {
    pub name: String,
    pub parent: Option<String>,
    pub alias: Option<String>,
}

#[verifier::ext_equal]
pub struct CategoryView {
    pub name: Seq<char>,
    pub parent: Option<Seq<char>>,
    pub alias: Option<Seq<char>>,
}

impl View for Category {
    type V = CategoryView;

    open spec fn view(&self) -> CategoryView {
        CategoryView {
            name: self.name@,
            parent: opt_view(self.parent),
            alias: opt_view(self.alias),
        }
    }
}

impl Category {
    /// A category built from borrowed parts.
    pub fn new(name: &str, parent: Option<&str>, alias: Option<&str>) -> (r: Self)
        ensures
            r.name@ == name@,
            parent matches Some(p) ==> r.parent matches Some(rp) && rp@ == p@,
            parent is None ==> r.parent is None,
            alias matches Some(a) ==> r.alias matches Some(ra) && ra@ == a@,
            alias is None ==> r.alias is None,
    {
        Category {
            name: name.to_owned(),
            parent: match parent {
                Some(p) => Some(p.to_owned()),
                None => None,
            },
            alias: match alias {
                Some(a) => Some(a.to_owned()),
                None => None,
            },
        }
    }
}

/// A parent given as the empty string means no parent at all.
pub open spec fn cat_norm(c: CategoryView) -> CategoryView {
    CategoryView {
        name: c.name,
        parent: match c.parent {
            Some(p) => none_if_empty(p),
            None => None,
        },
        alias: c.alias,
    }
}

/// The stored record for a category: the parent name replaced by the
/// parent's id, or the reserved root marker. Only meaningful when the
/// parent, if named, is present in `o`.
pub open spec fn cat_to_db(c: CategoryView, o: Seq<(Seq<char>, DbCategoryView)>)
    -> DbCategoryView {
    DbCategoryView {
        name: c.name,
        parent_id: match c.parent {
            None => "__root__"@,
            Some(p) => name_id(o, p),
        },
        alias: or_empty(c.alias),
    }
}

/// The public record read back from a stored one: the root marker reads as
/// no parent, a dangling parent id as the tombstone marker, and a live one
/// as the parent's current name.
pub open spec fn cat_from_db(d: DbCategoryView, o: Seq<(Seq<char>, DbCategoryView)>)
    -> CategoryView {
    CategoryView {
        name: d.name,
        parent: if d.parent_id == "__root__"@ {
            None
        } else if has_id(o, d.parent_id) {
            Some(id_item(o, d.parent_id).name)
        } else {
            Some("__DELETE__"@)
        },
        alias: none_if_empty(d.alias),
    }
}

/// The categories a full listing translates, in scan order.
pub open spec fn listed_cats(o: Seq<(Seq<char>, DbCategoryView)>) -> Seq<CategoryView> {
    Seq::new(o.len(), |i: int| cat_from_db(o[i].1, o))
}

/// Whether a name occurs in the list.
fn contains_str(v: &Vec<String>, x: &String) -> (r: bool)
    ensures
        r == strs_view(v@).contains(x@),
{
    let n = v.len();
    let mut i: usize = 0;
    while i < n
        invariant
            n == v@.len(),
            i <= n,
            forall|j: int| 0 <= j < i ==> strs_view(v@)[j] != x@,
        decreases n - i,
    {
        if v[i] == *x {
            assert(strs_view(v@)[i as int] == x@);
            return true;
        }
        i = i + 1;
    }
    proof {
        if strs_view(v@).contains(x@) {
            let j = choose|j: int| 0 <= j < strs_view(v@).len() && strs_view(v@)[j] == x@;
            assert(false);
        }
    }
    false
}

/// First table entry whose key matches, if any.
fn map_lookup(m: &Vec<(String, Vec<String>)>, key: &String) -> (r: Option<usize>)
    ensures
        r matches Some(k) ==> has_id(map_view(m@), key@)
            && k == index_of_id(map_view(m@), key@) && k < m@.len()
            && map_view(m@)[k as int].0 == key@,
        r is None ==> !has_id(map_view(m@), key@),
{
    let n = m.len();
    let mut i: usize = 0;
    while i < n
        invariant
            n == m@.len(),
            i <= n,
            forall|j: int| 0 <= j < i ==> (#[trigger] map_view(m@)[j]).0 != key@,
        decreases n - i,
    {
        if m[i].0 == *key {
            proof {
                let mv = map_view(m@);
                assert(mv[i as int].0 == key@);
                assert(has_id(mv, key@));
                lemma_index_of_id(mv, key@);
                assert(index_of_id(mv, key@) == i);
            }
            return Some(i);
        }
        assert(map_view(m@)[i as int].0 != key@);
        i = i + 1;
    }
    assert(!has_id(map_view(m@), key@));
    None
}

/// One node of the reconstructed category forest.
#[derive(Debug)]
pub struct TreeNode {
    pub name: String,
    pub children: Vec<TreeNode>,
}

#[verifier::ext_equal]
pub struct TreeNodeView {
    pub name: Seq<char>,
    pub children: Seq<TreeNodeView>,
}

impl View for TreeNode {
    type V = TreeNodeView;

    open spec fn view(&self) -> TreeNodeView
        decreases self,
    {
        TreeNodeView {
            name: self.name@,
            children: Seq::new(
                self.children@.len(),
                |i: int| if 0 <= i < self.children@.len() {
                    self.children@[i]@
                } else {
                    TreeNodeView { name: Seq::empty(), children: Seq::empty() }
                },
            ),
        }
    }
}

/// Views of a list of names.
pub open spec fn strs_view(v: Seq<String>) -> Seq<Seq<char>> {
    v.map_values(|s: String| s@)
}

/// View of the parent-name-to-child-names table: association pairs in
/// insertion order.
pub open spec fn map_view(m: Seq<(String, Vec<String>)>) -> Seq<(Seq<char>, Seq<Seq<char>>)> {
    m.map_values(|p: (String, Vec<String>)| (p.0@, strs_view(p.1@)))
}

/// Appends a child name under a key, creating the key at the end of the
/// table if it is new.
pub open spec fn map_add_child(
    mv: Seq<(Seq<char>, Seq<Seq<char>>)>, key: Seq<char>, child: Seq<char>,
) -> Seq<(Seq<char>, Seq<Seq<char>>)> {
    if has_id(mv, key) {
        mv.update(index_of_id(mv, key), (key, id_item(mv, key).push(child)))
    } else {
        mv.push((key, seq![child]))
    }
}

/// Makes sure a key exists in the table, with no children yet if it is new.
pub open spec fn map_ensure_key(mv: Seq<(Seq<char>, Seq<Seq<char>>)>, key: Seq<char>)
    -> Seq<(Seq<char>, Seq<Seq<char>>)> {
    if has_id(mv, key) {
        mv
    } else {
        mv.push((key, Seq::<Seq<char>>::empty()))
    }
}

/// Folds the category list into the child-name table and the root list, in
/// scan order: a category with a parent is appended under that parent's
/// key, a root is recorded as a key of its own and remembered in order.
pub open spec fn build_map(cats: Seq<CategoryView>)
    -> (Seq<(Seq<char>, Seq<Seq<char>>)>, Seq<Seq<char>>)
    decreases cats.len(),
{
    if cats.len() == 0 {
        (Seq::empty(), Seq::empty())
    } else {
        let prev = build_map(cats.drop_last());
        let c = cats.last();
        match c.parent {
            Some(p) => (map_add_child(prev.0, p, c.name), prev.1),
            None => (map_ensure_key(prev.0, c.name), prev.1.push(c.name)),
        }
    }
}

/// The table the fold builds has pairwise distinct keys.
pub proof fn lemma_build_map_unique(cats: Seq<CategoryView>)
    ensures
        ids_unique(build_map(cats).0),
    decreases cats.len(),
{
    if cats.len() == 0 {
    } else {
        lemma_build_map_unique(cats.drop_last());
        let prev = build_map(cats.drop_last()).0;
        let c = cats.last();
        match c.parent {
            Some(p) => {
                if has_id(prev, p) {
                    lemma_index_of_id(prev, p);
                    lemma_ids_unique_update(
                        prev, index_of_id(prev, p), p, id_item(prev, p).push(c.name));
                } else {
                    lemma_ids_unique_push(prev, p, seq![c.name]);
                }
            },
            None => {
                if !has_id(prev, c.name) {
                    lemma_ids_unique_push(prev, c.name, Seq::<Seq<char>>::empty());
                }
            },
        }
    }
}

/// Whether a traversal state is sound: table keys distinct, the path of
/// names above the current node duplicate-free, and every path entry a key.
pub open spec fn path_ok(mv: Seq<(Seq<char>, Seq<Seq<char>>)>, path: Seq<Seq<char>>) -> bool {
    &&& ids_unique(mv)
    &&& path.no_duplicates()
    &&& forall|i: int| 0 <= i < path.len() ==> has_id(mv, #[trigger] path[i])
}

/// The node the traversal yields for a name: its children are the names
/// under its key, each built the same way. A name already on the path (a
/// parent cycle) or without a key stops as a leaf.
pub open spec fn spec_node(
    name: Seq<char>, mv: Seq<(Seq<char>, Seq<Seq<char>>)>, path: Seq<Seq<char>>,
) -> TreeNodeView
    decreases mv.len() - path.len(),
        when path_ok(mv, path)
        via spec_node_decreases
{
    if path.contains(name) || !has_id(mv, name) {
        TreeNodeView { name, children: Seq::empty() }
    } else {
        let kids = id_item(mv, name);
        TreeNodeView {
            name,
            children: Seq::new(
                kids.len(),
                |i: int| spec_node(kids[i], mv, path.push(name)),
            ),
        }
    }
}

#[via_fn]
proof fn spec_node_decreases(
    name: Seq<char>, mv: Seq<(Seq<char>, Seq<Seq<char>>)>, path: Seq<Seq<char>>,
) {
    if path_ok(mv, path) && !path.contains(name) && has_id(mv, name) {
        let path1 = path.push(name);
        assert forall|i: int, j: int| 0 <= i < j < path1.len()
            implies path1[i] != path1[j] by {
            if j == path.len() {
                assert(path.contains(path[i]));
            }
        }
        assert(forall|i: int| 0 <= i < path1.len() ==> has_id(mv, #[trigger] path1[i]));
        lemma_path_bound(mv, path1);
    }
}

/// Uniqueness law, read-back half: a normalized category written against
/// store `o` and read back against any extension `f` of `o` with unique ids
/// is unchanged, provided its optional fields are not present-but-empty,
/// the named parent is present, and the parent's id is not the reserved
/// root marker (as no generated id is).
pub proof fn lemma_cat_roundtrip(
    c: CategoryView, o: Seq<(Seq<char>, DbCategoryView)>, f: Seq<(Seq<char>, DbCategoryView)>,
)
    requires
        c.alias matches Some(a) ==> a.len() > 0,
        c.parent matches Some(p) ==> p.len() > 0,
        ids_unique(f),
        extends(f, o),
        c.parent matches Some(p) ==> has_name(o, p) && name_id(o, p) != "__root__"@,
    ensures
        cat_from_db(cat_to_db(c, o), f) == c,
{
    assert(cat_norm(c) =~= c);
    match c.parent {
        None => {
            assert(cat_from_db(cat_to_db(c, o), f) =~= c);
        },
        Some(p) => {
            lemma_index_of_name(o, p);
            let i = index_of_name(o, p);
            assert(f[i] == o[i]);
            assert(has_id(f, name_id(o, p)));
            lemma_unique_id_index(f, i);
            assert(id_item(f, name_id(o, p)) == f[i].1);
            assert(cat_from_db(cat_to_db(c, o), f) =~= c);
        },
    }
}

/// Views of a batch of categories.
pub open spec fn cats_view(s: Seq<Category>) -> Seq<CategoryView> {
    s.map_values(|c: Category| c@)
}

/// Whether the batch holds a category of this name.
pub open spec fn batch_has(catsv: Seq<CategoryView>, name: Seq<char>) -> bool {
    exists|i: int| 0 <= i < catsv.len() && (#[trigger] catsv[i]).name == name
}

/// A duplicate-free sequence of names that all occur in the batch cannot be
/// longer than the batch.
proof fn lemma_batch_path_bound(catsv: Seq<CategoryView>, path: Seq<Seq<char>>)
    requires
        path.no_duplicates(),
        forall|i: int| 0 <= i < path.len() ==> batch_has(catsv, #[trigger] path[i]),
    ensures
        path.len() <= catsv.len(),
{
    let keys = catsv.map_values(|c: CategoryView| (c.name, 0int));
    assert forall|i: int| 0 <= i < path.len() implies has_id(keys, #[trigger] path[i]) by {
        let j = choose|j: int| 0 <= j < catsv.len() && (#[trigger] catsv[j]).name == path[i];
        assert(keys[j].0 == path[i]);
    }
    lemma_path_bound(keys, path);
}

/// First batch element with this name, if any.
fn find_cat(cats: &Vec<Category>, name: &String) -> (r: Option<usize>)
    ensures
        r matches Some(k) ==> k < cats@.len() && cats_view(cats@)[k as int].name == name@,
        r is None ==> !batch_has(cats_view(cats@), name@),
{
    let n = cats.len();
    let mut i: usize = 0;
    while i < n
        invariant
            n == cats@.len(),
            i <= n,
            forall|j: int| 0 <= j < i ==> (#[trigger] cats_view(cats@)[j]).name != name@,
        decreases n - i,
    {
        if cats[i].name == *name {
            assert(cats_view(cats@)[i as int].name == name@);
            return Some(i);
        }
        assert(cats_view(cats@)[i as int].name != name@);
        i = i + 1;
    }
    assert(!batch_has(cats_view(cats@), name@));
    None
}

/// A stored record that a dependency-ordered import may add for the batch
/// element `c`: same name and alias, and the parent reference resolved
/// against the store as it stands.
pub open spec fn cat_record_of(
    d: DbCategoryView, c: CategoryView, f: Seq<(Seq<char>, DbCategoryView)>,
) -> bool {
    let cn = cat_norm(c);
    &&& d.name == cn.name
    &&& d.alias == or_empty(cn.alias)
    &&& match cn.parent {
        None => d.parent_id == "__root__"@,
        Some(p) => has_name(f, p) && d.parent_id == name_id(f, p),
    }
}

/// A record a category import is allowed to add: it stems from some batch
/// element, with its parent link resolved.
pub open spec fn cat_added_ok(
    d: DbCategoryView, catsv: Seq<CategoryView>, f: Seq<(Seq<char>, DbCategoryView)>,
) -> bool {
    exists|i: int| 0 <= i < catsv.len() && cat_record_of(d, #[trigger] catsv[i], f)
}

/// Order-independence law, read-back half: a record a dependency-ordered
/// import added for a batch element reads back with exactly the parent that
/// element named — or no parent, if it named none. The one caveat is that
/// the parent's id must differ from the reserved root marker, which holds
/// of every generated id.
pub proof fn lemma_imported_parent_resolves(
    d: DbCategoryView, c: CategoryView, f: Seq<(Seq<char>, DbCategoryView)>,
)
    requires
        cat_record_of(d, c, f),
        ids_unique(f),
        cat_norm(c).parent matches Some(p) ==> name_id(f, p) != "__root__"@,
    ensures
        cat_norm(c).parent is None ==> cat_from_db(d, f).parent is None,
        cat_norm(c).parent matches Some(p) ==> cat_from_db(d, f).parent == Some(p),
{
    match cat_norm(c).parent {
        None => {},
        Some(p) => {
            lemma_index_of_name(f, p);
            let i = index_of_name(f, p);
            assert(has_id(f, name_id(f, p)));
            lemma_unique_id_index(f, i);
            assert(id_item(f, name_id(f, p)) == f[i].1);
        },
    }
}

/// Appending records does not unlink an already-resolved record.
proof fn lemma_cat_record_of_extends(
    d: DbCategoryView, c: CategoryView,
    f1: Seq<(Seq<char>, DbCategoryView)>, f2: Seq<(Seq<char>, DbCategoryView)>,
)
    requires
        cat_record_of(d, c, f1),
        extends(f2, f1),
    ensures
        cat_record_of(d, c, f2),
{
    match cat_norm(c).parent {
        None => {},
        Some(p) => {
            lemma_extends_name_stable(f2, f1, p);
        },
    }
}

/// Appending records keeps every previously added record well-linked.
proof fn lemma_cat_added_ok_extends(
    d: DbCategoryView, catsv: Seq<CategoryView>,
    f1: Seq<(Seq<char>, DbCategoryView)>, f2: Seq<(Seq<char>, DbCategoryView)>,
)
    requires
        cat_added_ok(d, catsv, f1),
        extends(f2, f1),
    ensures
        cat_added_ok(d, catsv, f2),
{
    let i = choose|i: int| 0 <= i < catsv.len() && cat_record_of(d, #[trigger] catsv[i], f1);
    lemma_cat_record_of_extends(d, catsv[i], f1, f2);
}

/// CRUD for categories over one store partition.
pub struct CategoryHandler<D: Database<DbCategory>> {
    pub db: D,
}

impl<D: Database<DbCategory>> CategoryHandler<D> {
    /// Translates to the stored shape, resolving the parent name to its id;
    /// a parent name with no record behind it is an error.
    pub fn to_db_category(&self, item: &Category) -> (r: Result<DbCategory, EleboxError>)
        ensures
            item.parent matches Some(p) && !has_name(self.db.contents(), p@)
                ==> (r matches Err(e) && e matches EleboxError::NotExists(k, _)
                    && k@.len() == 0),
            (match item.parent {
                None => true,
                Some(p) => has_name(self.db.contents(), p@),
            }) ==> (r matches Ok(d) && d@ == cat_to_db(item@, self.db.contents())),
    {
        let parent_id = match &item.parent {
            Some(parent_name) => {
                match self.db.get_id(parent_name.as_str()) {
                    Ok(id) => id,
                    Err(e) => {
                        return Err(EleboxError::from_db(e));
                    },
                }
            },
            None => String::from_str("__root__"),
        };
        Ok(DbCategory {
            name: item.name.clone(),
            parent_id,
            alias: clone_or_empty(&item.alias),
        })
    }

    /// Translates a stored record back to the public shape; the parent id is
    /// resolved best-effort against the same partition.
    pub fn to_item(&self, db_category: DbCategory) -> (r: Category)
        ensures
            r@ == cat_from_db(db_category@, self.db.contents()),
    {
        let parent = if db_category.parent_id == String::from_str("__root__") {
            None
        } else {
            match self.db.get(db_category.parent_id.as_str()) {
                Ok(db_parent) => Some(db_parent.name),
                Err(_) => Some(String::from_str("__DELETE__")),
            }
        };
        Category {
            name: db_category.name,
            parent,
            alias: clone_none_if_empty(&db_category.alias),
        }
    }

    /// Imports one batch element, after recursively importing its parent
    /// when that parent is itself named in the batch. `path` holds the names
    /// already being imported further up the recursion; meeting one again (a
    /// parent cycle in the batch) skips the descent, which also bounds the
    /// recursion. A parent failure other than an already-present name is
    /// fatal.
    fn add_recursion(
        &mut self,
        item: &Category,
        cats: &Vec<Category>,
        path: &mut Vec<String>,
    ) -> (r: Result<(), EleboxError>)
        requires
            ids_unique(old(self).db.contents()),
            strs_view(old(path)@).no_duplicates(),
            forall|i: int| 0 <= i < old(path)@.len()
                ==> batch_has(cats_view(cats@), #[trigger] strs_view(old(path)@)[i]),
            exists|j: int| 0 <= j < cats@.len() && (#[trigger] cats@[j])@ == item@,
        ensures
            ids_unique(final(self).db.contents()),
            extends(final(self).db.contents(), old(self).db.contents()),
            strs_view(final(path)@) == strs_view(old(path)@),
            final(path)@.len() == old(path)@.len(),
            (r is Ok || r matches Err(EleboxError::AlreadyExists(_, _)))
                ==> has_name(final(self).db.contents(), item@.name),
            (forall|j: int| 0 <= j < cats@.len()
                ==> has_name(old(self).db.contents(), (#[trigger] cats@[j])@.name))
                ==> final(self).db.contents() == old(self).db.contents()
                    && r matches Err(EleboxError::AlreadyExists(_, _)),
            r matches Err(e) ==> (e matches EleboxError::AlreadyExists(_, _)
                || e matches EleboxError::NotExists(_, _)
                || e matches EleboxError::DatabaseError(_)),
            (forall|j: int| 0 <= j < cats@.len()
                ==> (match cat_norm((#[trigger] cats@[j])@).parent {
                    None => true,
                    Some(p) => has_name(old(self).db.contents(), p),
                }))
                ==> (r matches Err(e2) ==> (e2 matches EleboxError::AlreadyExists(_, _)
                    || e2 matches EleboxError::DatabaseError(_))),
            forall|k: int| old(self).db.contents().len() <= k
                < final(self).db.contents().len()
                ==> cat_added_ok((#[trigger] final(self).db.contents()[k]).1,
                    cats_view(cats@), final(self).db.contents()),
            forall|k: int| old(self).db.contents().len() <= k
                < final(self).db.contents().len()
                ==> !has_name(old(self).db.contents(),
                    (#[trigger] final(self).db.contents()[k]).1.name),
            forall|k1: int, k2: int| old(self).db.contents().len() <= k1 < k2
                < final(self).db.contents().len()
                ==> (#[trigger] final(self).db.contents()[k1]).1.name
                    != (#[trigger] final(self).db.contents()[k2]).1.name,
        decreases cats@.len() - old(path)@.len(),
    {
        let ghost o = self.db.contents();
        let ghost catsv = cats_view(cats@);
        let ghost path0 = strs_view(path@);
        let parent_idx: Option<usize> = match &item.parent {
            Some(pname) => find_cat(cats, pname),
            None => None,
        };
        if let Some(k) = parent_idx {
            if !contains_str(path, &item.name) {
                path.push(item.name.clone());
                let ghost path1 = strs_view(path@);
                proof {
                    assert(path1 =~= path0.push(item@.name));
                    assert forall|a: int, b: int| 0 <= a < b < path1.len()
                        implies path1[a] != path1[b] by {
                        if b == path0.len() {
                            assert(path0.contains(path0[a]));
                        }
                    }
                    assert forall|i: int| 0 <= i < path1.len()
                        implies batch_has(catsv, #[trigger] path1[i]) by {
                        if i == path0.len() {
                            let j = choose|j: int| 0 <= j < cats@.len()
                                && (#[trigger] cats@[j])@ == item@;
                            assert(catsv[j].name == item@.name);
                        }
                    }
                    lemma_batch_path_bound(catsv, path1);
                    assert(cats@[k as int]@ == catsv[k as int]);
                }
                let res = self.add_recursion(&cats[k], cats, path);
                let ghost pre_pop = path@;
                let _ = path.pop();
                proof {
                    assert(path@ == pre_pop.subrange(0, pre_pop.len() - 1));
                    assert forall|i: int| 0 <= i < path@.len()
                        implies strs_view(path@)[i] == path0[i] by {
                        assert(path@[i] == pre_pop[i]);
                        assert(strs_view(pre_pop)[i] == path1[i]);
                    }
                    assert(strs_view(path@) =~= path0);
                }
                match res {
                    Ok(()) => {},
                    Err(e) => {
                        match e {
                            EleboxError::AlreadyExists(_, _) => {},
                            other => {
                                return Err(other);
                            },
                        }
                    },
                }
            }
        }
        let ghost f1 = self.db.contents();
        let r = self.add(item);
        proof {
            let f = self.db.contents();
            if r is Ok && !has_name(f1, item@.name) {
                let id = choose|id: Seq<char>| !has_id(f1, id)
                    && f == f1.push((id, cat_to_db(cat_norm(item@), f1)));
                assert(extends(f, f1));
                assert(has_name(f, item@.name)) by {
                    assert(f.last().1.name == item@.name);
                }
                lemma_extends_name_mono(f1, o, item@.name);
                assert forall|k1: int, k2: int| o.len() <= k1 < k2 < f.len()
                    implies (#[trigger] f[k1]).1.name != (#[trigger] f[k2]).1.name by {
                    assert(f[k1] == f1[k1]);
                    if k2 < f1.len() {
                        assert(f[k2] == f1[k2]);
                    } else {
                        if f1[k1].1.name == item@.name {
                            assert(has_name(f1, item@.name));
                        }
                    }
                }
                assert forall|k: int| o.len() <= k < f.len()
                    implies cat_added_ok((#[trigger] f[k]).1, catsv, f) by {
                    if k < f1.len() {
                        assert(f[k] == f1[k]);
                        lemma_cat_added_ok_extends(f[k].1, catsv, f1, f);
                    } else {
                        let j = choose|j: int| 0 <= j < cats@.len()
                            && (#[trigger] cats@[j])@ == item@;
                        assert(f[k].1 == cat_to_db(cat_norm(item@), f1));
                        match cat_norm(item@).parent {
                            None => {},
                            Some(p) => {
                                assert(has_name(f1, p));
                                lemma_extends_name_stable(f, f1, p);
                            },
                        }
                        assert(cat_record_of(f[k].1, catsv[j], f));
                    }
                }
            } else {
                assert(f == f1);
                assert forall|k: int| o.len() <= k < f.len()
                    implies cat_added_ok((#[trigger] f[k]).1, catsv, f) by {}
            }
            if (forall|j: int| 0 <= j < cats@.len()
                ==> (match cat_norm((#[trigger] cats@[j])@).parent {
                    None => true,
                    Some(p) => has_name(o, p),
                })) && r is Err {
                let j = choose|j: int| 0 <= j < cats@.len()
                    && (#[trigger] cats@[j])@ == item@;
                assert(match cat_norm(cats@[j]@).parent {
                    None => true,
                    Some(p) => has_name(o, p),
                });
                match cat_norm(item@).parent {
                    None => {},
                    Some(p) => {
                        assert(has_name(o, p));
                        lemma_extends_name_stable(f1, o, p);
                    },
                }
            }
        }
        r
    }

    /// Brings a batch of records in, resolving in-batch parents first so the
    /// input order does not matter. A record already present by name is
    /// skipped, so re-importing an export is a no-op; any other failure is
    /// fatal and stops the batch.
    pub fn import(&mut self, items: Vec<Category>) -> (r: Result<(), EleboxError>)
        requires
            ids_unique(old(self).db.contents()),
        ensures
            ids_unique(final(self).db.contents()),
            extends(final(self).db.contents(), old(self).db.contents()),
            r is Ok ==> forall|i: int| 0 <= i < items@.len()
                ==> has_name(final(self).db.contents(), (#[trigger] items@[i])@.name),
            (forall|i: int| 0 <= i < items@.len()
                ==> has_name(old(self).db.contents(), (#[trigger] items@[i])@.name))
                ==> r is Ok && final(self).db.contents() == old(self).db.contents(),
            r matches Err(e) ==> (e matches EleboxError::NotExists(_, _)
                || e matches EleboxError::DatabaseError(_)),
            (forall|j: int| 0 <= j < items@.len()
                ==> (match cat_norm((#[trigger] items@[j])@).parent {
                    None => true,
                    Some(p) => has_name(old(self).db.contents(), p),
                }))
                ==> (r matches Err(e2) ==> e2 matches EleboxError::DatabaseError(_)),
            forall|k: int| old(self).db.contents().len() <= k
                < final(self).db.contents().len()
                ==> cat_added_ok((#[trigger] final(self).db.contents()[k]).1,
                    cats_view(items@), final(self).db.contents()),
            forall|k: int| old(self).db.contents().len() <= k
                < final(self).db.contents().len()
                ==> !has_name(old(self).db.contents(),
                    (#[trigger] final(self).db.contents()[k]).1.name),
            forall|k1: int, k2: int| old(self).db.contents().len() <= k1 < k2
                < final(self).db.contents().len()
                ==> (#[trigger] final(self).db.contents()[k1]).1.name
                    != (#[trigger] final(self).db.contents()[k2]).1.name,
    {
        let ghost o = self.db.contents();
        let n = items.len();
        let mut i: usize = 0;
        while i < n
            invariant
                o == old(self).db.contents(),
                ids_unique(self.db.contents()),
                extends(self.db.contents(), o),
                n == items@.len(),
                i <= n,
                forall|j: int| 0 <= j < i
                    ==> has_name(self.db.contents(), (#[trigger] items@[j])@.name),
                (forall|j: int| 0 <= j < items@.len()
                    ==> has_name(o, (#[trigger] items@[j])@.name))
                    ==> self.db.contents() == o,
                forall|k: int| o.len() <= k < self.db.contents().len()
                    ==> cat_added_ok((#[trigger] self.db.contents()[k]).1,
                        cats_view(items@), self.db.contents()),
                forall|k: int| o.len() <= k < self.db.contents().len()
                    ==> !has_name(o, (#[trigger] self.db.contents()[k]).1.name),
                forall|k1: int, k2: int| o.len() <= k1 < k2 < self.db.contents().len()
                    ==> (#[trigger] self.db.contents()[k1]).1.name
                        != (#[trigger] self.db.contents()[k2]).1.name,
            decreases n - i,
        {
            let ghost cur = self.db.contents();
            let item = &items[i];
            let mut path: Vec<String> = Vec::new();
            proof {
                assert(strs_view(path@) =~= Seq::<Seq<char>>::empty());
                assert(item@ == items@[i as int]@);
                assert(cats_view(items@)[i as int] == item@);
            }
            let res = self.add_recursion(item, &items, &mut path);
            proof {
                let f = self.db.contents();
                assert forall|k: int| o.len() <= k < f.len()
                    implies cat_added_ok((#[trigger] f[k]).1, cats_view(items@), f) by {
                    if k < cur.len() {
                        assert(f[k] == cur[k]);
                        lemma_cat_added_ok_extends(f[k].1, cats_view(items@), cur, f);
                    }
                }
                if forall|j: int| 0 <= j < items@.len()
                    ==> (match cat_norm((#[trigger] items@[j])@).parent {
                        None => true,
                        Some(p) => has_name(o, p),
                    }) {
                    assert forall|j: int| 0 <= j < items@.len()
                        implies (match cat_norm((#[trigger] items@[j])@).parent {
                            None => true,
                            Some(p) => has_name(cur, p),
                        }) by {
                        assert(match cat_norm(items@[j]@).parent {
                            None => true,
                            Some(p) => has_name(o, p),
                        });
                        match cat_norm(items@[j]@).parent {
                            None => {},
                            Some(p) => {
                                lemma_extends_name_stable(cur, o, p);
                            },
                        }
                    }
                }
                assert forall|k: int| o.len() <= k < f.len()
                    implies !has_name(o, (#[trigger] f[k]).1.name) by {
                    if k < cur.len() {
                        assert(f[k] == cur[k]);
                    } else {
                        lemma_extends_name_mono(cur, o, f[k].1.name);
                    }
                }
                assert forall|k1: int, k2: int| o.len() <= k1 < k2 < f.len()
                    implies (#[trigger] f[k1]).1.name != (#[trigger] f[k2]).1.name by {
                    if k2 < cur.len() {
                        assert(f[k1] == cur[k1]);
                        assert(f[k2] == cur[k2]);
                    } else if k1 < cur.len() {
                        assert(f[k1] == cur[k1]);
                        if cur[k1].1.name == f[k2].1.name {
                            assert(has_name(cur, f[k2].1.name));
                        }
                    }
                }
            }
            match res {
                Ok(()) => {},
                Err(e) => {
                    match e {
                        EleboxError::AlreadyExists(_, _) => {},
                        other => {
                            return Err(other);
                        },
                    }
                },
            }
            proof {
                let f = self.db.contents();
                assert(has_name(f, items@[i as int]@.name));
                assert forall|j: int| 0 <= j < i + 1
                    implies has_name(f, (#[trigger] items@[j])@.name) by {
                    if j < i {
                        lemma_extends_name_stable(f, cur, items@[j]@.name);
                    }
                }
            }
            i = i + 1;
        }
        Ok(())
    }

    /// Builds the node for one category name: its children are the names
    /// recorded under its key, each recursed into the same way. `path` holds
    /// the names above the current one; a name already on it (a parent
    /// cycle) is cut off as a leaf, which also bounds the recursion.
    fn to_node(
        &self,
        name: String,
        cat_map: &Vec<(String, Vec<String>)>,
        path: &mut Vec<String>,
    ) -> (r: TreeNode)
        requires
            path_ok(map_view(cat_map@), strs_view(old(path)@)),
        ensures
            strs_view(final(path)@) == strs_view(old(path)@),
            r@ == spec_node(name@, map_view(cat_map@), strs_view(old(path)@)),
        decreases cat_map@.len() - old(path)@.len(),
    {
        let ghost mv = map_view(cat_map@);
        let ghost path0 = strs_view(path@);
        if contains_str(path, &name) {
            let r = TreeNode { name, children: Vec::new() };
            proof {
                assert(path0.contains(r.name@));
                assert(spec_node(r.name@, mv, path0) == (TreeNodeView {
                    name: r.name@,
                    children: Seq::<TreeNodeView>::empty(),
                }));
                assert(r@.name == r.name@);
                assert(r@.children =~= Seq::<TreeNodeView>::empty());
                assert(r@ =~~= spec_node(r.name@, mv, path0));
            }
            return r;
        }
        let k = match map_lookup(cat_map, &name) {
            None => {
                let r = TreeNode { name, children: Vec::new() };
                proof {
                    assert(!has_id(mv, r.name@));
                    assert(spec_node(r.name@, mv, path0) == (TreeNodeView {
                        name: r.name@,
                        children: Seq::<TreeNodeView>::empty(),
                    }));
                    assert(r@.name == r.name@);
                    assert(r@.children =~= Seq::<TreeNodeView>::empty());
                    assert(r@ =~~= spec_node(r.name@, mv, path0));
                }
                return r;
            },
            Some(k) => k,
        };
        let ghost kids = id_item(mv, name@);
        path.push(name.clone());
        let ghost path1 = strs_view(path@);
        proof {
            assert(path1 =~= path0.push(name@));
            assert forall|i: int, j: int| 0 <= i < j < path1.len()
                implies path1[i] != path1[j] by {
                if j == path0.len() {
                    assert(path0.contains(path0[i]));
                }
            }
            lemma_path_bound(mv, path1);
        }
        let kid_count = cat_map[k].1.len();
        let mut children: Vec<TreeNode> = Vec::new();
        let mut j: usize = 0;
        while j < kid_count
            invariant
                path_ok(mv, path1),
                mv == map_view(cat_map@),
                strs_view(path@) == path1,
                path1 == path0.push(name@),
                path0 == strs_view(old(path)@),
                path@.len() == path0.len() + 1,
                path@.len() <= cat_map@.len(),
                k < cat_map@.len(),
                has_id(mv, name@),
                k == index_of_id(mv, name@),
                kids == id_item(mv, name@),
                kids == strs_view(cat_map@[k as int].1@),
                kid_count == cat_map@[k as int].1@.len(),
                j <= kid_count,
                children@.len() == j,
                forall|jj: int| 0 <= jj < j
                    ==> (#[trigger] children@[jj])@ == spec_node(kids[jj], mv, path1),
            decreases kid_count - j,
        {
            let ch = cat_map[k].1[j].clone();
            proof {
                assert(ch@ == kids[j as int]);
                assert(cat_map@.len() - path@.len() < cat_map@.len() - old(path)@.len());
            }
            let node = self.to_node(ch, cat_map, path);
            children.push(node);
            j = j + 1;
        }
        let ghost pre_pop = path@;
        let _ = path.pop();
        proof {
            assert(path@ == pre_pop.subrange(0, pre_pop.len() - 1));
            assert forall|i: int| 0 <= i < path@.len()
                implies strs_view(path@)[i] == path0[i] by {
                assert(path@[i] == pre_pop[i]);
                assert(strs_view(pre_pop)[i] == path1[i]);
            }
            assert(strs_view(path@) =~= path0);
        }
        let r = TreeNode { name, children };
        proof {
            assert(!path0.contains(r.name@) && has_id(mv, r.name@));
            let target = spec_node(r.name@, mv, path0);
            assert(target.name == r.name@);
            assert(target.children.len() == kids.len());
            assert forall|i: int| 0 <= i < kids.len()
                implies target.children[i] == spec_node(kids[i], mv, path1) by {
                assert(path1 == path0.push(r.name@));
            }
            assert(r@.name == r.name@);
            assert(r@.children.len() == kids.len());
            assert forall|i: int| 0 <= i < kids.len()
                implies r@.children[i] == spec_node(kids[i], mv, path1) by {
                assert(r@.children[i] == children@[i]@);
            }
            assert(r@.children =~= target.children);
            assert(r@ =~~= target);
        }
        r
    }

    /// Reconstructs the category forest from the flat parent pointers: one
    /// tree per root category, in scan order, each node's children in the
    /// order their records were scanned.
    pub fn get_tree(&self) -> (r: Result<Vec<TreeNode>, EleboxError>)
        ensures
            r matches Ok(nodes) ==> nodes@.len() == build_map(listed_cats(
                self.db.contents())).1.len()
                && forall|i: int| 0 <= i < nodes@.len()
                    ==> (#[trigger] nodes@[i])@ == spec_node(
                        build_map(listed_cats(self.db.contents())).1[i],
                        build_map(listed_cats(self.db.contents())).0,
                        Seq::empty()),
            r matches Err(e) ==> e matches EleboxError::DatabaseError(_),
    {
        let ghost catsv = listed_cats(self.db.contents());
        let cats = match self.list() {
            Ok(c) => c,
            Err(e) => {
                return Err(e);
            },
        };
        proof {
            assert(cats@.map_values(|c: Category| c@) =~= catsv);
        }
        let n = cats.len();
        let mut cats = cats;
        let mut cat_map: Vec<(String, Vec<String>)> = Vec::new();
        let mut root: Vec<String> = Vec::new();
        let mut i: usize = 0;
        proof {
            assert(catsv.take(0) =~= Seq::<CategoryView>::empty());
            assert(map_view(cat_map@) =~= Seq::<(Seq<char>, Seq<Seq<char>>)>::empty());
            assert(strs_view(root@) =~= Seq::<Seq<char>>::empty());
        }
        while i < n
            invariant
                catsv == listed_cats(self.db.contents()),
                n == catsv.len(),
                i <= n,
                i + cats@.len() == n,
                forall|j: int| 0 <= j < cats@.len()
                    ==> (#[trigger] cats@[j])@ == catsv[i + j],
                map_view(cat_map@) == build_map(catsv.take(i as int)).0,
                strs_view(root@) == build_map(catsv.take(i as int)).1,
            decreases n - i,
        {
            let ghost prev = build_map(catsv.take(i as int));
            let c = cats.remove(0);
            proof {
                assert(c@ == catsv[i as int]);
                assert(catsv.take(i + 1).drop_last() =~= catsv.take(i as int));
                assert(catsv.take(i + 1).last() == catsv[i as int]);
            }
            match c.parent {
                Some(parent) => {
                    let ghost pv = parent@;
                    match map_lookup(&cat_map, &parent) {
                        Some(k) => {
                            let mut entry = cat_map.remove(k);
                            entry.1.push(c.name);
                            cat_map.insert(k, entry);
                            proof {
                                assert(map_view(cat_map@) =~~= map_add_child(
                                    prev.0, pv, catsv[i as int].name));
                            }
                        },
                        None => {
                            let mut kids_vec: Vec<String> = Vec::new();
                            kids_vec.push(c.name);
                            cat_map.push((parent, kids_vec));
                            proof {
                                assert(strs_view(cat_map@.last().1@)
                                    =~= seq![catsv[i as int].name]);
                                assert(map_view(cat_map@) =~~= map_add_child(
                                    prev.0, pv, catsv[i as int].name));
                            }
                        },
                    }
                },
                None => {
                    match map_lookup(&cat_map, &c.name) {
                        Some(_) => {},
                        None => {
                            cat_map.push((c.name.clone(), Vec::new()));
                            proof {
                                assert(strs_view(cat_map@.last().1@)
                                    =~= Seq::<Seq<char>>::empty());
                            }
                        },
                    }
                    proof {
                        assert(map_view(cat_map@) =~~= map_ensure_key(
                            prev.0, catsv[i as int].name));
                    }
                    root.push(c.name);
                    proof {
                        assert(strs_view(root@) =~= prev.1.push(catsv[i as int].name));
                    }
                },
            }
            i = i + 1;
        }
        proof {
            assert(catsv.take(n as int) =~= catsv);
            lemma_build_map_unique(catsv);
        }
        let nroots = root.len();
        let mut nodes: Vec<TreeNode> = Vec::new();
        let mut j: usize = 0;
        while j < nroots
            invariant
                catsv == listed_cats(self.db.contents()),
                map_view(cat_map@) == build_map(catsv).0,
                strs_view(root@) == build_map(catsv).1,
                ids_unique(map_view(cat_map@)),
                nroots == root@.len(),
                j <= nroots,
                nodes@.len() == j,
                forall|jj: int| 0 <= jj < j
                    ==> (#[trigger] nodes@[jj])@ == spec_node(
                        build_map(catsv).1[jj], build_map(catsv).0, Seq::empty()),
            decreases nroots - j,
        {
            let name = root[j].clone();
            let mut path: Vec<String> = Vec::new();
            proof {
                assert(strs_view(path@) =~= Seq::<Seq<char>>::empty());
            }
            let node = self.to_node(name, &cat_map, &mut path);
            nodes.push(node);
            j = j + 1;
        }
        Ok(nodes)
    }

    /// Copies the entity with the parent name normalized: an empty parent
    /// string becomes no parent.
    fn normalize(&self, item: &Category) -> (r: Category)
        ensures
            r@ == cat_norm(item@),
    {
        Category {
            name: item.name.clone(),
            parent: match &item.parent {
                Some(p) => clone_none_if_empty(p),
                None => None,
            },
            alias: match &item.alias {
                Some(a) => Some(a.clone()),
                None => None,
            },
        }
    }
}

impl<D: Database<DbCategory>> Handler<Category> for CategoryHandler<D> {
    open spec fn wf(&self) -> bool {
        ids_unique(self.db.contents())
    }

    fn delete(&mut self, name: &str) -> (r: Result<(), EleboxError>)
        ensures
            !has_name(old(self).db.contents(), name@) ==> (r matches Err(e)
                && e matches EleboxError::NotExists(k, _) && k@.len() == 0)
                && final(self).db.contents() == old(self).db.contents(),
            has_name(old(self).db.contents(), name@) ==> r is Ok
                && final(self).db.contents() == old(self).db.contents().remove(
                    index_of_name(old(self).db.contents(), name@)),
    {
        let ghost o = self.db.contents();
        let id = match self.db.get_id(name) {
            Ok(id) => id,
            Err(e) => {
                return Err(EleboxError::from_db(e));
            },
        };
        proof {
            lemma_index_of_name(o, name@);
            lemma_unique_id_index(o, index_of_name(o, name@));
        }
        match self.db.delete(id.as_str()) {
            Ok(()) => {
                proof {
                    lemma_ids_unique_remove(o, index_of_name(o, name@));
                }
                Ok(())
            },
            Err(e) => Err(EleboxError::from_db(e)),
        }
    }

    fn add(&mut self, item: &Category) -> (r: Result<(), EleboxError>)
        ensures
            has_name(old(self).db.contents(), item.name@) ==> (r matches Err(e)
                && e matches EleboxError::AlreadyExists(k, n)
                && k@ == "category"@ && n@ == item.name@)
                && final(self).db.contents() == old(self).db.contents(),
            !has_name(old(self).db.contents(), item.name@)
                && (cat_norm(item@).parent matches Some(p)
                    && !has_name(old(self).db.contents(), p))
                ==> (r matches Err(e) && e matches EleboxError::NotExists(k, _)
                    && k@.len() == 0)
                    && final(self).db.contents() == old(self).db.contents(),
            !has_name(old(self).db.contents(), item.name@)
                && (match cat_norm(item@).parent {
                    None => true,
                    Some(p) => has_name(old(self).db.contents(), p),
                })
                ==> {
                    &&& r is Ok ==> exists|id: Seq<char>|
                        !has_id(old(self).db.contents(), id)
                        && final(self).db.contents() == old(self).db.contents().push(
                            (id, cat_to_db(cat_norm(item@), old(self).db.contents())))
                    &&& r is Err ==> (r matches Err(e)
                        && e matches EleboxError::DatabaseError(_))
                        && final(self).db.contents() == old(self).db.contents()
                },
    {
        let ghost o = self.db.contents();
        if self.db.get_id(item.name.as_str()).is_ok() {
            return Err(EleboxError::AlreadyExists(
                String::from_str("category"),
                item.name.clone(),
            ));
        }
        let cat = self.normalize(item);
        let db_item = match self.to_db_category(&cat) {
            Ok(d) => d,
            Err(e) => {
                return Err(e);
            },
        };
        match self.db.add(db_item) {
            Ok(()) => {
                proof {
                    let x = cat_to_db(cat_norm(item@), o);
                    let id = choose|id: Seq<char>| !has_id(o, id)
                        && self.db.contents() == o.push((id, x));
                    lemma_ids_unique_push(o, id, x);
                }
                Ok(())
            },
            Err(e) => Err(EleboxError::from_db(e)),
        }
    }

    fn update(&mut self, ori_name: &str, new_item: &Category) -> (r: Result<(), EleboxError>)
        ensures
            !has_name(old(self).db.contents(), ori_name@) ==> (r matches Err(e)
                && e matches EleboxError::NotExists(k, _) && k@.len() == 0)
                && final(self).db.contents() == old(self).db.contents(),
            has_name(old(self).db.contents(), ori_name@) && ori_name@ != new_item.name@
                && has_name(old(self).db.contents(), new_item.name@)
                ==> (r matches Err(e) && e matches EleboxError::AlreadyExists(k, n)
                    && k@ == "category"@ && n@ == new_item.name@)
                    && final(self).db.contents() == old(self).db.contents(),
            has_name(old(self).db.contents(), ori_name@)
                && (ori_name@ == new_item.name@
                    || !has_name(old(self).db.contents(), new_item.name@))
                && (cat_norm(new_item@).parent matches Some(p)
                    && !has_name(old(self).db.contents(), p))
                ==> (r matches Err(e) && e matches EleboxError::NotExists(k, _)
                    && k@.len() == 0)
                    && final(self).db.contents() == old(self).db.contents(),
            has_name(old(self).db.contents(), ori_name@)
                && (ori_name@ == new_item.name@
                    || !has_name(old(self).db.contents(), new_item.name@))
                && (match cat_norm(new_item@).parent {
                    None => true,
                    Some(p) => has_name(old(self).db.contents(), p),
                })
                && r is Ok
                ==> final(self).db.contents() == old(self).db.contents().update(
                    index_of_name(old(self).db.contents(), ori_name@),
                    (name_id(old(self).db.contents(), ori_name@),
                        cat_to_db(cat_norm(new_item@), old(self).db.contents()))),
            has_name(old(self).db.contents(), ori_name@)
                && (ori_name@ == new_item.name@
                    || !has_name(old(self).db.contents(), new_item.name@))
                && (match cat_norm(new_item@).parent {
                    None => true,
                    Some(p) => has_name(old(self).db.contents(), p),
                })
                && r is Err
                ==> (r matches Err(e) && e matches EleboxError::DatabaseError(_)),
            r is Err ==> final(self).db.contents() == old(self).db.contents(),
    {
        let ghost o = self.db.contents();
        let ori_id = match self.db.get_id(ori_name) {
            Ok(id) => id,
            Err(e) => {
                return Err(EleboxError::from_db(e));
            },
        };
        let ori_owned: String = ori_name.to_owned();
        if !(new_item.name == ori_owned) && self.db.get_id(new_item.name.as_str()).is_ok() {
            return Err(EleboxError::AlreadyExists(
                String::from_str("category"),
                new_item.name.clone(),
            ));
        }
        let cat = self.normalize(new_item);
        let db_item = match self.to_db_category(&cat) {
            Ok(d) => d,
            Err(e) => {
                return Err(e);
            },
        };
        proof {
            lemma_index_of_name(o, ori_name@);
            lemma_unique_id_index(o, index_of_name(o, ori_name@));
        }
        match self.db.update(ori_id.as_str(), db_item) {
            Ok(()) => {
                proof {
                    lemma_ids_unique_update(
                        o, index_of_name(o, ori_name@), name_id(o, ori_name@),
                        cat_to_db(cat_norm(new_item@), o));
                }
                Ok(())
            },
            Err(e) => Err(EleboxError::from_db(e)),
        }
    }

    fn get(&self, name: &str) -> (r: Result<Category, EleboxError>)
        ensures
            r is Ok <==> has_name(self.db.contents(), name@),
            r matches Ok(c) ==> c@ == cat_from_db(
                self.db.contents()[index_of_name(self.db.contents(), name@)].1,
                self.db.contents()),
            r matches Err(e) ==> e matches EleboxError::NotExists(k, _) && k@.len() == 0,
    {
        let ghost o = self.db.contents();
        let id = match self.db.get_id(name) {
            Ok(id) => id,
            Err(e) => {
                return Err(EleboxError::from_db(e));
            },
        };
        proof {
            lemma_index_of_name(o, name@);
            lemma_unique_id_index(o, index_of_name(o, name@));
        }
        match self.db.get(id.as_str()) {
            Ok(db_item) => Ok(self.to_item(db_item)),
            Err(e) => Err(EleboxError::from_db(e)),
        }
    }

    fn list(&self) -> (r: Result<Vec<Category>, EleboxError>)
        ensures
            r matches Ok(items) ==> items@.len() == self.db.contents().len()
                && forall|i: int| 0 <= i < items@.len()
                    ==> (#[trigger] items@[i])@ == cat_from_db(
                        self.db.contents()[i].1, self.db.contents()),
            r matches Err(e) ==> e matches EleboxError::DatabaseError(_),
    {
        let db_items = match self.db.list() {
            Ok(items) => items,
            Err(e) => {
                return Err(EleboxError::from_db(e));
            },
        };
        let n = db_items.len();
        let mut db_items = db_items;
        let mut items: Vec<Category> = Vec::new();
        let mut i: usize = 0;
        while i < n
            invariant
                n == self.db.contents().len(),
                i + db_items@.len() == n,
                forall|j: int| 0 <= j < db_items@.len()
                    ==> (#[trigger] db_items@[j])@ == self.db.contents()[i + j].1,
                i <= n,
                items@.len() == i,
                forall|j: int| 0 <= j < i
                    ==> (#[trigger] items@[j])@ == cat_from_db(
                        self.db.contents()[j].1, self.db.contents()),
            decreases n - i,
        {
            let db_item = db_items.remove(0);
            let item = self.to_item(db_item);
            items.push(item);
            i = i + 1;
        }
        Ok(items)
    }
}

} // verus!
