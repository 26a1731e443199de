//! Manufacturers: the simplest entity kind, referencing nothing.

use vstd::prelude::*;

use crate::comm::{
    extends, has_id, has_name, index_of_name, lemma_extends_name_mono,
    lemma_extends_name_stable, lemma_ids_unique_push, lemma_ids_unique_remove,
    lemma_ids_unique_update, lemma_index_of_name, lemma_unique_id_index, name_id, Database,
    Handler, ids_unique,
};
use crate::db::{
    clone_none_if_empty, clone_or_empty, none_if_empty, opt_view, or_empty, DbManufacturer,
    DbManufacturerView,
};
use crate::errors::EleboxError;

verus! {

/// A manufacturer as callers see it: addressed by name, optional fields
/// absent rather than empty.
#[derive(Debug, Clone)]
pub struct Manufacturer {
    pub name: String,
    pub alias: Option<String>,
    pub url: Option<String>,
}

#[verifier::ext_equal]
pub struct ManufacturerView {
    pub name: Seq<char>,
    pub alias: Option<Seq<char>>,
    pub url: Option<Seq<char>>,
}

impl View for Manufacturer {
    type V = ManufacturerView;

    open spec fn view(&self) -> ManufacturerView {
        ManufacturerView {
            name: self.name@,
            alias: opt_view(self.alias),
            url: opt_view(self.url),
        }
    }
}

impl Manufacturer {
    /// A manufacturer built from borrowed parts.
    pub fn new(name: &str, alias: Option<&str>, url: Option<&str>) -> (r: Self)
        ensures
            r.name@ == name@,
            alias matches Some(a) ==> r.alias matches Some(ra) && ra@ == a@,
            alias is None ==> r.alias is None,
            url matches Some(u) ==> r.url matches Some(ru) && ru@ == u@,
            url is None ==> r.url is None,
    {
        Manufacturer {
            name: name.to_owned(),
            alias: match alias {
                Some(a) => Some(a.to_owned()),
                None => None,
            },
            url: match url {
                Some(u) => Some(u.to_owned()),
                None => None,
            },
        }
    }
}

/// The stored record for a manufacturer: optional fields flattened to
/// strings, empty standing for absent.
pub open spec fn mfr_to_db(m: ManufacturerView) -> DbManufacturerView {
    DbManufacturerView { name: m.name, alias: or_empty(m.alias), url: or_empty(m.url) }
}

/// The public record read back from a stored one.
pub open spec fn mfr_from_db(d: DbManufacturerView) -> ManufacturerView {
    ManufacturerView {
        name: d.name,
        alias: none_if_empty(d.alias),
        url: none_if_empty(d.url),
    }
}

/// Uniqueness law, read-back half: a record written to the stored shape and
/// read back is unchanged, provided its optional fields are not
/// present-but-empty — the stored shape keeps absent fields as empty
/// strings, so that one distinction cannot survive a round trip.
pub proof fn lemma_mfr_roundtrip(m: ManufacturerView)
    requires
        m.alias matches Some(a) ==> a.len() > 0,
        m.url matches Some(u) ==> u.len() > 0,
    ensures
        mfr_from_db(mfr_to_db(m)) == m,
{
    assert(mfr_from_db(mfr_to_db(m)) =~= m);
}

/// CRUD for manufacturers over one store partition.
pub struct ManufacturerHandler<D: Database<DbManufacturer>> {
    pub db: D,
}

impl<D: Database<DbManufacturer>> ManufacturerHandler<D> {
    /// Translates to the stored shape. Total: manufacturers reference
    /// nothing, so nothing can fail to resolve.
    pub fn to_db_item(&self, item: &Manufacturer) -> (r: Result<DbManufacturer, EleboxError>)
        ensures
            r matches Ok(d) && d@ == mfr_to_db(item@),
    {
        Ok(DbManufacturer {
            name: item.name.clone(),
            alias: clone_or_empty(&item.alias),
            url: clone_or_empty(&item.url),
        })
    }

    /// Translates a stored record back to the public shape.
    pub fn to_item(&self, db_item: &DbManufacturer) -> (r: Manufacturer)
        ensures
            r@ == mfr_from_db(db_item@),
    {
        Manufacturer {
            name: db_item.name.clone(),
            alias: clone_none_if_empty(&db_item.alias),
            url: clone_none_if_empty(&db_item.url),
        }
    }
}

impl<D: Database<DbManufacturer>> ManufacturerHandler<D> {
    /// Brings a batch of records in: one already present by name is skipped,
    /// so re-importing an export is a no-op; any other failure is fatal and
    /// stops the batch.
    pub fn import(&mut self, items: Vec<Manufacturer>) -> (r: Result<(), EleboxError>)
        requires
            ids_unique(old(self).db.contents()),
        ensures
            ids_unique(final(self).db.contents()),
            extends(final(self).db.contents(), old(self).db.contents()),
            r is Ok ==> forall|i: int| 0 <= i < items@.len()
                ==> has_name(final(self).db.contents(), (#[trigger] items@[i])@.name),
            (forall|i: int| 0 <= i < items@.len()
                ==> has_name(old(self).db.contents(), (#[trigger] items@[i])@.name))
                ==> r is Ok && final(self).db.contents() == old(self).db.contents(),
            r matches Err(e) ==> e matches EleboxError::DatabaseError(_),
            forall|k: int| old(self).db.contents().len() <= k < final(self).db.contents().len()
                ==> !has_name(old(self).db.contents(),
                    (#[trigger] final(self).db.contents()[k]).1.name)
                    && exists|i: int| 0 <= i < items@.len()
                        && final(self).db.contents()[k].1 == mfr_to_db(items@[i]@),
            forall|k1: int, k2: int| old(self).db.contents().len() <= k1 < k2
                < final(self).db.contents().len()
                ==> (#[trigger] final(self).db.contents()[k1]).1.name
                    != (#[trigger] final(self).db.contents()[k2]).1.name,
    {
        let ghost o = self.db.contents();
        let n = items.len();
        let mut i: usize = 0;
        while i < n
            invariant
                o == old(self).db.contents(),
                ids_unique(self.db.contents()),
                extends(self.db.contents(), o),
                n == items@.len(),
                i <= n,
                forall|j: int| 0 <= j < i
                    ==> has_name(self.db.contents(), (#[trigger] items@[j])@.name),
                (forall|j: int| 0 <= j < items@.len()
                    ==> has_name(o, (#[trigger] items@[j])@.name))
                    ==> self.db.contents() == o,
                forall|k: int| o.len() <= k < self.db.contents().len()
                    ==> !has_name(o, (#[trigger] self.db.contents()[k]).1.name)
                        && exists|j: int| 0 <= j < items@.len()
                            && self.db.contents()[k].1 == mfr_to_db(items@[j]@),
                forall|k1: int, k2: int| o.len() <= k1 < k2 < self.db.contents().len()
                    ==> (#[trigger] self.db.contents()[k1]).1.name
                        != (#[trigger] self.db.contents()[k2]).1.name,
            decreases n - i,
        {
            let ghost cur = self.db.contents();
            let item = &items[i];
            let res = self.add(item);
            match res {
                Ok(()) => {
                    proof {
                        assert(item@ == items@[i as int]@);
                        let id = choose|id: Seq<char>| !has_id(cur, id)
                            && self.db.contents() == cur.push((id, mfr_to_db(item@)));
                        assert(self.db.contents().last().1.name == item@.name);
                        assert(has_name(self.db.contents(), item@.name));
                        assert forall|j: int| 0 <= j < i + 1
                            implies has_name(self.db.contents(),
                                (#[trigger] items@[j])@.name) by {
                            if j < i {
                                lemma_extends_name_stable(
                                    self.db.contents(), cur, items@[j]@.name);
                            }
                        }
                        lemma_extends_name_mono(cur, o, item@.name);
                        assert forall|k: int| o.len() <= k < self.db.contents().len()
                            implies !has_name(o,
                                (#[trigger] self.db.contents()[k]).1.name)
                                && exists|j: int| 0 <= j < items@.len()
                                    && self.db.contents()[k].1 == mfr_to_db(items@[j]@) by {
                            if k < cur.len() {
                                assert(self.db.contents()[k] == cur[k]);
                            } else {
                                assert(self.db.contents()[k].1 == mfr_to_db(items@[i as int]@));
                            }
                        }
                        assert forall|k1: int, k2: int| o.len() <= k1 < k2
                            < self.db.contents().len()
                            implies (#[trigger] self.db.contents()[k1]).1.name
                                != (#[trigger] self.db.contents()[k2]).1.name by {
                            assert(self.db.contents()[k1] == cur[k1]);
                            if k2 < cur.len() {
                                assert(self.db.contents()[k2] == cur[k2]);
                            } else {
                                if cur[k1].1.name == item@.name {
                                    assert(has_name(cur, item@.name));
                                }
                            }
                        }
                    }
                },
                Err(e) => {
                    match e {
                        EleboxError::AlreadyExists(_, _) => {
                            proof {
                                assert(has_name(self.db.contents(), item@.name));
                            }
                        },
                        other => {
                            return Err(other);
                        },
                    }
                },
            }
            i = i + 1;
        }
        Ok(())
    }
}

impl<D: Database<DbManufacturer>> Handler<Manufacturer> for ManufacturerHandler<D> {
    open spec fn wf(&self) -> bool {
        ids_unique(self.db.contents())
    }

    fn delete(&mut self, name: &str) -> (r: Result<(), EleboxError>)
        ensures
            !has_name(old(self).db.contents(), name@) ==> (r matches Err(e)
                && e matches EleboxError::NotExists(k, _) && k@.len() == 0)
                && final(self).db.contents() == old(self).db.contents(),
            has_name(old(self).db.contents(), name@) ==> r is Ok
                && final(self).db.contents() == old(self).db.contents().remove(
                    index_of_name(old(self).db.contents(), name@)),
    {
        let ghost o = self.db.contents();
        let id = match self.db.get_id(name) {
            Ok(id) => id,
            Err(e) => {
                return Err(EleboxError::from_db(e));
            },
        };
        proof {
            lemma_index_of_name(o, name@);
            lemma_unique_id_index(o, index_of_name(o, name@));
        }
        match self.db.delete(id.as_str()) {
            Ok(()) => {
                proof {
                    lemma_ids_unique_remove(o, index_of_name(o, name@));
                }
                Ok(())
            },
            Err(e) => Err(EleboxError::from_db(e)),
        }
    }

    fn add(&mut self, item: &Manufacturer) -> (r: Result<(), EleboxError>)
        ensures
            has_name(old(self).db.contents(), item.name@) ==> (r matches Err(e)
                && e matches EleboxError::AlreadyExists(k, n)
                && k@ == "manufacturer"@ && n@ == item.name@)
                && final(self).db.contents() == old(self).db.contents(),
            !has_name(old(self).db.contents(), item.name@) && r is Ok
                ==> exists|id: Seq<char>| !has_id(old(self).db.contents(), id)
                    && final(self).db.contents() == old(self).db.contents().push(
                        (id, mfr_to_db(item@))),
            !has_name(old(self).db.contents(), item.name@) && r is Err
                ==> (r matches Err(e) && e matches EleboxError::DatabaseError(_))
                    && final(self).db.contents() == old(self).db.contents(),
    {
        let ghost o = self.db.contents();
        if self.db.get_id(item.name.as_str()).is_ok() {
            return Err(EleboxError::AlreadyExists(
                String::from_str("manufacturer"),
                item.name.clone(),
            ));
        }
        let db_item = match self.to_db_item(item) {
            Ok(d) => d,
            Err(e) => {
                return Err(e);
            },
        };
        match self.db.add(db_item) {
            Ok(()) => {
                proof {
                    let id = choose|id: Seq<char>| !has_id(o, id)
                        && self.db.contents() == o.push((id, mfr_to_db(item@)));
                    lemma_ids_unique_push(o, id, mfr_to_db(item@));
                }
                Ok(())
            },
            Err(e) => Err(EleboxError::from_db(e)),
        }
    }

    fn update(&mut self, ori_name: &str, new_item: &Manufacturer) -> (r: Result<(), EleboxError>)
        ensures
            !has_name(old(self).db.contents(), ori_name@) ==> (r matches Err(e)
                && e matches EleboxError::NotExists(k, _) && k@.len() == 0)
                && final(self).db.contents() == old(self).db.contents(),
            has_name(old(self).db.contents(), ori_name@) && ori_name@ != new_item.name@
                && has_name(old(self).db.contents(), new_item.name@)
                ==> (r matches Err(e) && e matches EleboxError::AlreadyExists(k, n)
                    && k@ == "manufacturer"@ && n@ == new_item.name@)
                    && final(self).db.contents() == old(self).db.contents(),
            has_name(old(self).db.contents(), ori_name@)
                && (ori_name@ == new_item.name@
                    || !has_name(old(self).db.contents(), new_item.name@))
                && r is Ok
                ==> final(self).db.contents() == old(self).db.contents().update(
                    index_of_name(old(self).db.contents(), ori_name@),
                    (name_id(old(self).db.contents(), ori_name@), mfr_to_db(new_item@))),
            has_name(old(self).db.contents(), ori_name@)
                && (ori_name@ == new_item.name@
                    || !has_name(old(self).db.contents(), new_item.name@))
                && r is Err
                ==> (r matches Err(e) && e matches EleboxError::DatabaseError(_)),
            r is Err ==> final(self).db.contents() == old(self).db.contents(),
    {
        let ghost o = self.db.contents();
        let ori_id = match self.db.get_id(ori_name) {
            Ok(id) => id,
            Err(e) => {
                return Err(EleboxError::from_db(e));
            },
        };
        let ori_owned: String = ori_name.to_owned();
        if !(new_item.name == ori_owned) && self.db.get_id(new_item.name.as_str()).is_ok() {
            return Err(EleboxError::AlreadyExists(
                String::from_str("manufacturer"),
                new_item.name.clone(),
            ));
        }
        let db_item = match self.to_db_item(new_item) {
            Ok(d) => d,
            Err(e) => {
                return Err(e);
            },
        };
        proof {
            lemma_index_of_name(o, ori_name@);
            lemma_unique_id_index(o, index_of_name(o, ori_name@));
        }
        match self.db.update(ori_id.as_str(), db_item) {
            Ok(()) => {
                proof {
                    lemma_ids_unique_update(
                        o, index_of_name(o, ori_name@), name_id(o, ori_name@),
                        mfr_to_db(new_item@));
                }
                Ok(())
            },
            Err(e) => Err(EleboxError::from_db(e)),
        }
    }

    fn get(&self, name: &str) -> (r: Result<Manufacturer, EleboxError>)
        ensures
            r is Ok <==> has_name(self.db.contents(), name@),
            r matches Ok(m) ==> m@ == mfr_from_db(
                self.db.contents()[index_of_name(self.db.contents(), name@)].1),
            r matches Err(e) ==> e matches EleboxError::NotExists(k, _) && k@.len() == 0,
    {
        let ghost o = self.db.contents();
        let id = match self.db.get_id(name) {
            Ok(id) => id,
            Err(e) => {
                return Err(EleboxError::from_db(e));
            },
        };
        proof {
            lemma_index_of_name(o, name@);
            lemma_unique_id_index(o, index_of_name(o, name@));
        }
        match self.db.get(id.as_str()) {
            Ok(db_item) => Ok(self.to_item(&db_item)),
            Err(e) => Err(EleboxError::from_db(e)),
        }
    }

    fn list(&self) -> (r: Result<Vec<Manufacturer>, EleboxError>)
        ensures
            r matches Ok(items) ==> items@.len() == self.db.contents().len()
                && forall|i: int| 0 <= i < items@.len()
                    ==> (#[trigger] items@[i])@ == mfr_from_db(self.db.contents()[i].1),
            r matches Err(e) ==> e matches EleboxError::DatabaseError(_),
    {
        let db_items = match self.db.list() {
            Ok(items) => items,
            Err(e) => {
                return Err(EleboxError::from_db(e));
            },
        };
        let n = db_items.len();
        let mut items: Vec<Manufacturer> = Vec::new();
        let mut i: usize = 0;
        while i < n
            invariant
                n == db_items@.len(),
                db_items@.len() == self.db.contents().len(),
                forall|j: int| 0 <= j < n
                    ==> (#[trigger] db_items@[j])@ == self.db.contents()[j].1,
                i <= n,
                items@.len() == i,
                forall|j: int| 0 <= j < i
                    ==> (#[trigger] items@[j])@ == mfr_from_db(self.db.contents()[j].1),
            decreases n - i,
        {
            let item = self.to_item(&db_items[i]);
            items.push(item);
            i = i + 1;
        }
        Ok(items)
    }
}

} // verus!
