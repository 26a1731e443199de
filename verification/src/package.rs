//! Packages: named footprints with a mounting kind.

use vstd::prelude::*;

use crate::comm::{
    extends, has_id, has_name, index_of_name, lemma_extends_name_mono,
    lemma_extends_name_stable, lemma_ids_unique_push, lemma_ids_unique_remove,
    lemma_ids_unique_update, lemma_index_of_name, lemma_unique_id_index, name_id, Database,
    Handler, ids_unique,
};
use crate::db::{
    clone_none_if_empty, clone_or_empty, none_if_empty, opt_view, or_empty, DbPackage,
    DbPackageView,
};
use crate::errors::EleboxError;

verus! {

/// How a package mounts: surface mount, through hole, or anything else.
#[derive(Debug, Clone, Copy, PartialEq, Eq, Structural)]
pub enum PackageType {
    Smt,
    Tht,
    Others,
}

/// A package as callers see it.
#[derive(Debug, Clone)]
pub struct Package {
    pub pkg_type: PackageType,
    pub name: String,
    pub alias: Option<String>,
}

#[verifier::ext_equal]
pub struct PackageView {
    pub pkg_type: PackageType,
    pub name: Seq<char>,
    pub alias: Option<Seq<char>>,
}

impl View for Package {
    type V = PackageView;

    open spec fn view(&self) -> PackageView {
        PackageView {
            pkg_type: self.pkg_type,
            name: self.name@,
            alias: opt_view(self.alias),
        }
    }
}

impl Package {
    /// A package built from borrowed parts.
    pub fn new(name: &str, pkg_type: PackageType, alias: Option<&str>) -> (r: Self)
        ensures
            r.name@ == name@,
            r.pkg_type == pkg_type,
            alias matches Some(a) ==> r.alias matches Some(ra) && ra@ == a@,
            alias is None ==> r.alias is None,
    {
        Package {
            pkg_type,
            name: name.to_owned(),
            alias: match alias {
                Some(a) => Some(a.to_owned()),
                None => None,
            },
        }
    }
}

/// The stored text for a mounting kind.
pub open spec fn pkg_type_to_db(t: PackageType) -> Seq<char> {
    match t {
        PackageType::Smt => "smt"@,
        PackageType::Tht => "tht"@,
        PackageType::Others => "others"@,
    }
}

/// The mounting kind read back from its stored text; unknown text falls
/// back to `Others`.
pub open spec fn pkg_type_from_db(s: Seq<char>) -> PackageType {
    if s == "smt"@ {
        PackageType::Smt
    } else if s == "tht"@ {
        PackageType::Tht
    } else {
        PackageType::Others
    }
}

/// The stored record for a package.
pub open spec fn pkg_to_db(p: PackageView) -> DbPackageView {
    DbPackageView {
        pkg_type: pkg_type_to_db(p.pkg_type),
        name: p.name,
        alias: or_empty(p.alias),
    }
}

/// The public record read back from a stored one.
pub open spec fn pkg_from_db(d: DbPackageView) -> PackageView {
    PackageView {
        pkg_type: pkg_type_from_db(d.pkg_type),
        name: d.name,
        alias: none_if_empty(d.alias),
    }
}

/// The three mounting kinds read back as themselves.
pub proof fn lemma_pkg_type_roundtrip(t: PackageType)
    ensures
        pkg_type_from_db(pkg_type_to_db(t)) == t,
{
    reveal_strlit("smt");
    reveal_strlit("tht");
    reveal_strlit("others");
    assert("tht"@[0] == 't' && "smt"@[0] == 's');
    assert("others"@.len() == 6 && "smt"@.len() == 3 && "tht"@.len() == 3);
}

/// Uniqueness law, read-back half: a record written to the stored shape and
/// read back is unchanged, provided the alias is not present-but-empty.
pub proof fn lemma_pkg_roundtrip(p: PackageView)
    requires
        p.alias matches Some(a) ==> a.len() > 0,
    ensures
        pkg_from_db(pkg_to_db(p)) == p,
{
    lemma_pkg_type_roundtrip(p.pkg_type);
    assert(pkg_from_db(pkg_to_db(p)) =~= p);
}

/// CRUD for packages over one store partition.
pub struct PackageHandler<D: Database<DbPackage>> {
    pub db: D,
}

impl<D: Database<DbPackage>> PackageHandler<D> {
    /// Translates to the stored shape. Total: packages reference nothing.
    pub fn to_db_item(&self, item: &Package) -> (r: Result<DbPackage, EleboxError>)
        ensures
            r matches Ok(d) && d@ == pkg_to_db(item@),
    {
        Ok(DbPackage {
            name: item.name.clone(),
            pkg_type: match item.pkg_type {
                PackageType::Smt => String::from_str("smt"),
                PackageType::Tht => String::from_str("tht"),
                PackageType::Others => String::from_str("others"),
            },
            alias: clone_or_empty(&item.alias),
        })
    }

    /// Translates a stored record back to the public shape.
    pub fn to_item(&self, db_item: DbPackage) -> (r: Package)
        ensures
            r@ == pkg_from_db(db_item@),
    {
        Package {
            pkg_type: if db_item.pkg_type == String::from_str("smt") {
                PackageType::Smt
            } else if db_item.pkg_type == String::from_str("tht") {
                PackageType::Tht
            } else {
                PackageType::Others
            },
            name: db_item.name,
            alias: clone_none_if_empty(&db_item.alias),
        }
    }
}

impl<D: Database<DbPackage>> PackageHandler<D> {
    /// Brings a batch of records in: one already present by name is skipped,
    /// so re-importing an export is a no-op; any other failure is fatal and
    /// stops the batch.
    pub fn import(&mut self, items: Vec<Package>) -> (r: Result<(), EleboxError>)
        requires
            ids_unique(old(self).db.contents()),
        ensures
            ids_unique(final(self).db.contents()),
            extends(final(self).db.contents(), old(self).db.contents()),
            r is Ok ==> forall|i: int| 0 <= i < items@.len()
                ==> has_name(final(self).db.contents(), (#[trigger] items@[i])@.name),
            (forall|i: int| 0 <= i < items@.len()
                ==> has_name(old(self).db.contents(), (#[trigger] items@[i])@.name))
                ==> r is Ok && final(self).db.contents() == old(self).db.contents(),
            r matches Err(e) ==> e matches EleboxError::DatabaseError(_),
            forall|k: int| old(self).db.contents().len() <= k < final(self).db.contents().len()
                ==> !has_name(old(self).db.contents(),
                    (#[trigger] final(self).db.contents()[k]).1.name)
                    && exists|i: int| 0 <= i < items@.len()
                        && final(self).db.contents()[k].1 == pkg_to_db(items@[i]@),
            forall|k1: int, k2: int| old(self).db.contents().len() <= k1 < k2
                < final(self).db.contents().len()
                ==> (#[trigger] final(self).db.contents()[k1]).1.name
                    != (#[trigger] final(self).db.contents()[k2]).1.name,
    {
        let ghost o = self.db.contents();
        let n = items.len();
        let mut i: usize = 0;
        while i < n
            invariant
                o == old(self).db.contents(),
                ids_unique(self.db.contents()),
                extends(self.db.contents(), o),
                n == items@.len(),
                i <= n,
                forall|j: int| 0 <= j < i
                    ==> has_name(self.db.contents(), (#[trigger] items@[j])@.name),
                (forall|j: int| 0 <= j < items@.len()
                    ==> has_name(o, (#[trigger] items@[j])@.name))
                    ==> self.db.contents() == o,
                forall|k: int| o.len() <= k < self.db.contents().len()
                    ==> !has_name(o, (#[trigger] self.db.contents()[k]).1.name)
                        && exists|j: int| 0 <= j < items@.len()
                            && self.db.contents()[k].1 == pkg_to_db(items@[j]@),
                forall|k1: int, k2: int| o.len() <= k1 < k2 < self.db.contents().len()
                    ==> (#[trigger] self.db.contents()[k1]).1.name
                        != (#[trigger] self.db.contents()[k2]).1.name,
            decreases n - i,
        {
            let ghost cur = self.db.contents();
            let item = &items[i];
            let res = self.add(item);
            match res {
                Ok(()) => {
                    proof {
                        assert(item@ == items@[i as int]@);
                        let id = choose|id: Seq<char>| !has_id(cur, id)
                            && self.db.contents() == cur.push((id, pkg_to_db(item@)));
                        assert(self.db.contents().last().1.name == item@.name);
                        assert(has_name(self.db.contents(), item@.name));
                        assert forall|j: int| 0 <= j < i + 1
                            implies has_name(self.db.contents(),
                                (#[trigger] items@[j])@.name) by {
                            if j < i {
                                lemma_extends_name_stable(
                                    self.db.contents(), cur, items@[j]@.name);
                            }
                        }
                        lemma_extends_name_mono(cur, o, item@.name);
                        assert forall|k: int| o.len() <= k < self.db.contents().len()
                            implies !has_name(o,
                                (#[trigger] self.db.contents()[k]).1.name)
                                && exists|j: int| 0 <= j < items@.len()
                                    && self.db.contents()[k].1 == pkg_to_db(items@[j]@) by {
                            if k < cur.len() {
                                assert(self.db.contents()[k] == cur[k]);
                            } else {
                                assert(self.db.contents()[k].1 == pkg_to_db(items@[i as int]@));
                            }
                        }
                        assert forall|k1: int, k2: int| o.len() <= k1 < k2
                            < self.db.contents().len()
                            implies (#[trigger] self.db.contents()[k1]).1.name
                                != (#[trigger] self.db.contents()[k2]).1.name by {
                            assert(self.db.contents()[k1] == cur[k1]);
                            if k2 < cur.len() {
                                assert(self.db.contents()[k2] == cur[k2]);
                            } else {
                                if cur[k1].1.name == item@.name {
                                    assert(has_name(cur, item@.name));
                                }
                            }
                        }
                    }
                },
                Err(e) => {
                    match e {
                        EleboxError::AlreadyExists(_, _) => {
                            proof {
                                assert(has_name(self.db.contents(), item@.name));
                            }
                        },
                        other => {
                            return Err(other);
                        },
                    }
                },
            }
            i = i + 1;
        }
        Ok(())
    }
}

impl<D: Database<DbPackage>> Handler<Package> for PackageHandler<D> {
    open spec fn wf(&self) -> bool {
        ids_unique(self.db.contents())
    }

    fn delete(&mut self, name: &str) -> (r: Result<(), EleboxError>)
        ensures
            !has_name(old(self).db.contents(), name@) ==> (r matches Err(e)
                && e matches EleboxError::NotExists(k, _) && k@.len() == 0)
                && final(self).db.contents() == old(self).db.contents(),
            has_name(old(self).db.contents(), name@) ==> r is Ok
                && final(self).db.contents() == old(self).db.contents().remove(
                    index_of_name(old(self).db.contents(), name@)),
    {
        let ghost o = self.db.contents();
        let id = match self.db.get_id(name) {
            Ok(id) => id,
            Err(e) => {
                return Err(EleboxError::from_db(e));
            },
        };
        proof {
            lemma_index_of_name(o, name@);
            lemma_unique_id_index(o, index_of_name(o, name@));
        }
        match self.db.delete(id.as_str()) {
            Ok(()) => {
                proof {
                    lemma_ids_unique_remove(o, index_of_name(o, name@));
                }
                Ok(())
            },
            Err(e) => Err(EleboxError::from_db(e)),
        }
    }

    fn add(&mut self, item: &Package) -> (r: Result<(), EleboxError>)
        ensures
            has_name(old(self).db.contents(), item.name@) ==> (r matches Err(e)
                && e matches EleboxError::AlreadyExists(k, n)
                && k@ == "package"@ && n@ == item.name@)
                && final(self).db.contents() == old(self).db.contents(),
            !has_name(old(self).db.contents(), item.name@) && r is Ok
                ==> exists|id: Seq<char>| !has_id(old(self).db.contents(), id)
                    && final(self).db.contents() == old(self).db.contents().push(
                        (id, pkg_to_db(item@))),
            !has_name(old(self).db.contents(), item.name@) && r is Err
                ==> (r matches Err(e) && e matches EleboxError::DatabaseError(_))
                    && final(self).db.contents() == old(self).db.contents(),
    {
        let ghost o = self.db.contents();
        if self.db.get_id(item.name.as_str()).is_ok() {
            return Err(EleboxError::AlreadyExists(
                String::from_str("package"),
                item.name.clone(),
            ));
        }
        let db_item = match self.to_db_item(item) {
            Ok(d) => d,
            Err(e) => {
                return Err(e);
            },
        };
        match self.db.add(db_item) {
            Ok(()) => {
                proof {
                    let id = choose|id: Seq<char>| !has_id(o, id)
                        && self.db.contents() == o.push((id, pkg_to_db(item@)));
                    lemma_ids_unique_push(o, id, pkg_to_db(item@));
                }
                Ok(())
            },
            Err(e) => Err(EleboxError::from_db(e)),
        }
    }

    fn update(&mut self, ori_name: &str, new_item: &Package) -> (r: Result<(), EleboxError>)
        ensures
            !has_name(old(self).db.contents(), ori_name@) ==> (r matches Err(e)
                && e matches EleboxError::NotExists(k, _) && k@.len() == 0)
                && final(self).db.contents() == old(self).db.contents(),
            has_name(old(self).db.contents(), ori_name@) && ori_name@ != new_item.name@
                && has_name(old(self).db.contents(), new_item.name@)
                ==> (r matches Err(e) && e matches EleboxError::AlreadyExists(k, n)
                    && k@ == "package"@ && n@ == new_item.name@)
                    && final(self).db.contents() == old(self).db.contents(),
            has_name(old(self).db.contents(), ori_name@)
                && (ori_name@ == new_item.name@
                    || !has_name(old(self).db.contents(), new_item.name@))
                && r is Ok
                ==> final(self).db.contents() == old(self).db.contents().update(
                    index_of_name(old(self).db.contents(), ori_name@),
                    (name_id(old(self).db.contents(), ori_name@), pkg_to_db(new_item@))),
            has_name(old(self).db.contents(), ori_name@)
                && (ori_name@ == new_item.name@
                    || !has_name(old(self).db.contents(), new_item.name@))
                && r is Err
                ==> (r matches Err(e) && e matches EleboxError::DatabaseError(_)),
            r is Err ==> final(self).db.contents() == old(self).db.contents(),
    {
        let ghost o = self.db.contents();
        let ori_id = match self.db.get_id(ori_name) {
            Ok(id) => id,
            Err(e) => {
                return Err(EleboxError::from_db(e));
            },
        };
        let ori_owned: String = ori_name.to_owned();
        if !(new_item.name == ori_owned) && self.db.get_id(new_item.name.as_str()).is_ok() {
            return Err(EleboxError::AlreadyExists(
                String::from_str("package"),
                new_item.name.clone(),
            ));
        }
        let db_item = match self.to_db_item(new_item) {
            Ok(d) => d,
            Err(e) => {
                return Err(e);
            },
        };
        proof {
            lemma_index_of_name(o, ori_name@);
            lemma_unique_id_index(o, index_of_name(o, ori_name@));
        }
        match self.db.update(ori_id.as_str(), db_item) {
            Ok(()) => {
                proof {
                    lemma_ids_unique_update(
                        o, index_of_name(o, ori_name@), name_id(o, ori_name@),
                        pkg_to_db(new_item@));
                }
                Ok(())
            },
            Err(e) => Err(EleboxError::from_db(e)),
        }
    }

    fn get(&self, name: &str) -> (r: Result<Package, EleboxError>)
        ensures
            r is Ok <==> has_name(self.db.contents(), name@),
            r matches Ok(p) ==> p@ == pkg_from_db(
                self.db.contents()[index_of_name(self.db.contents(), name@)].1),
            r matches Err(e) ==> e matches EleboxError::NotExists(k, _) && k@.len() == 0,
    {
        let ghost o = self.db.contents();
        let id = match self.db.get_id(name) {
            Ok(id) => id,
            Err(e) => {
                return Err(EleboxError::from_db(e));
            },
        };
        proof {
            lemma_index_of_name(o, name@);
            lemma_unique_id_index(o, index_of_name(o, name@));
        }
        match self.db.get(id.as_str()) {
            Ok(db_item) => Ok(self.to_item(db_item)),
            Err(e) => Err(EleboxError::from_db(e)),
        }
    }

    fn list(&self) -> (r: Result<Vec<Package>, EleboxError>)
        ensures
            r matches Ok(items) ==> items@.len() == self.db.contents().len()
                && forall|i: int| 0 <= i < items@.len()
                    ==> (#[trigger] items@[i])@ == pkg_from_db(self.db.contents()[i].1),
            r matches Err(e) ==> e matches EleboxError::DatabaseError(_),
    {
        let db_items = match self.db.list() {
            Ok(items) => items,
            Err(e) => {
                return Err(EleboxError::from_db(e));
            },
        };
        let n = db_items.len();
        let mut db_items = db_items;
        let mut items: Vec<Package> = Vec::new();
        let mut i: usize = 0;
        while i < n
            invariant
                n == self.db.contents().len(),
                i + db_items@.len() == n,
                forall|j: int| 0 <= j < db_items@.len()
                    ==> (#[trigger] db_items@[j])@ == self.db.contents()[i + j].1,
                i <= n,
                items@.len() == i,
                forall|j: int| 0 <= j < i
                    ==> (#[trigger] items@[j])@ == pkg_from_db(self.db.contents()[j].1),
            decreases n - i,
        {
            let db_item = db_items.remove(0);
            let item = self.to_item(db_item);
            items.push(item);
            i = i + 1;
        }
        Ok(items)
    }
}

} // verus!
