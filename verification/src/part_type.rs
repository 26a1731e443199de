//! An earlier, reduced interface kept for its callers: part types with a
//! name and an optional parent.

use vstd::prelude::*;

use crate::comm::{
    has_id, has_name, id_item, index_of_name, lemma_ids_unique_push, lemma_ids_unique_remove,
    lemma_ids_unique_update, lemma_index_of_name, lemma_unique_id_index, name_id, Database,
    ids_unique,
};
use crate::db::{opt_view, DatabaseItem, ItemView, Named};
use crate::errors::EleboxError;

verus! {

/// An early, reduced take on categories: just a name and an optional
/// parent, addressed through its own partition.
#[derive(Debug, Clone)]
pub struct PartType {
    pub name: String,
    pub parent: Option<String>,
}

#[verifier::ext_equal]
pub struct PartTypeView {
    pub name: Seq<char>,
    pub parent: Option<Seq<char>>,
}

impl View for PartType {
    type V = PartTypeView;

    open spec fn view(&self) -> PartTypeView {
        PartTypeView { name: self.name@, parent: opt_view(self.parent) }
    }
}

/// Stored shape of a part type: the parent held as a synthetic id, the
/// reserved root marker standing for none.
#[derive(Debug, Clone)]
pub struct DbPartType {
    pub name: String,
    pub parent_id: String,
}

#[verifier::ext_equal]
pub struct DbPartTypeView {
    pub name: Seq<char>,
    pub parent_id: Seq<char>,
}

impl View for DbPartType {
    type V = DbPartTypeView;

    open spec fn view(&self) -> DbPartTypeView {
        DbPartTypeView { name: self.name@, parent_id: self.parent_id@ }
    }
}

impl ItemView for DbPartTypeView {
    open spec fn name_of(self) -> Seq<char> {
        self.name
    }
}

impl Named for DbPartType {
    fn get_name(&self) -> (r: String) {
        self.name.clone()
    }
}

impl DatabaseItem for DbPartType {
    open spec fn spec_bucket() -> Seq<char> {
        "part_types"@
    }

    fn get_bucket() -> (r: String) {
        String::from_str("part_types")
    }

    fn dup(&self) -> (r: Self) {
        DbPartType { name: self.name.clone(), parent_id: self.parent_id.clone() }
    }
}

/// The public record read back from a stored one: the parent id resolved
/// best-effort, anything unresolved (the root marker included) reading back
/// as no parent.
pub open spec fn pt_from_db(d: DbPartTypeView, o: Seq<(Seq<char>, DbPartTypeView)>)
    -> PartTypeView {
    PartTypeView {
        name: d.name,
        parent: if has_id(o, d.parent_id) {
            Some(id_item(o, d.parent_id).name)
        } else {
            None
        },
    }
}

/// The stored record for a part type. Only meaningful when the parent, if
/// named, is present in `o`.
pub open spec fn pt_to_db(p: PartTypeView, o: Seq<(Seq<char>, DbPartTypeView)>)
    -> DbPartTypeView {
    DbPartTypeView {
        name: p.name,
        parent_id: match p.parent {
            None => "root"@,
            Some(n) => name_id(o, n),
        },
    }
}

impl PartType {
    /// All part types, each with its parent id resolved best-effort back to
    /// a name.
    pub fn list<D: Database<DbPartType>>(db: &D) -> (r: Result<Vec<PartType>, EleboxError>)
        ensures
            r matches Ok(items) ==> items@.len() == db.contents().len()
                && forall|i: int| 0 <= i < items@.len()
                    ==> (#[trigger] items@[i])@ == pt_from_db(
                        db.contents()[i].1, db.contents()),
            r matches Err(e) ==> e matches EleboxError::DatabaseError(_),
    {
        let db_items = match db.list() {
            Ok(items) => items,
            Err(e) => {
                return Err(EleboxError::from_db(e));
            },
        };
        let n = db_items.len();
        let mut db_items = db_items;
        let mut items: Vec<PartType> = Vec::new();
        let mut i: usize = 0;
        while i < n
            invariant
                n == db.contents().len(),
                i + db_items@.len() == n,
                forall|j: int| 0 <= j < db_items@.len()
                    ==> (#[trigger] db_items@[j])@ == db.contents()[i + j].1,
                i <= n,
                items@.len() == i,
                forall|j: int| 0 <= j < i
                    ==> (#[trigger] items@[j])@ == pt_from_db(
                        db.contents()[j].1, db.contents()),
            decreases n - i,
        {
            let db_item = db_items.remove(0);
            let parent = match db.get(db_item.parent_id.as_str()) {
                Ok(p) => Some(p.name),
                Err(_) => None,
            };
            items.push(PartType { name: db_item.name, parent });
            i = i + 1;
        }
        Ok(items)
    }

    /// Finds a part type by name.
    pub fn get<D: Database<DbPartType>>(db: &D, name: &str)
        -> (r: Result<PartType, EleboxError>)
        requires
            ids_unique(db.contents()),
        ensures
            r is Ok <==> has_name(db.contents(), name@),
            r matches Ok(p) ==> p@ == pt_from_db(
                db.contents()[index_of_name(db.contents(), name@)].1, db.contents()),
            r matches Err(e) ==> e matches EleboxError::NotExists(_, _),
    {
        let ghost o = db.contents();
        let id = match db.get_id(name) {
            Ok(id) => id,
            Err(_) => {
                return Err(EleboxError::NotExists(String::new(), name.to_owned()));
            },
        };
        proof {
            lemma_index_of_name(o, name@);
            lemma_unique_id_index(o, index_of_name(o, name@));
        }
        let db_pt = match db.get(id.as_str()) {
            Ok(p) => p,
            Err(_) => {
                return Err(EleboxError::NotExists(String::new(), id));
            },
        };
        let parent = match db.get(db_pt.parent_id.as_str()) {
            Ok(p) => Some(p.name),
            Err(_) => None,
        };
        Ok(PartType { name: db_pt.name, parent })
    }

    /// Removes this part type, by its own name.
    pub fn delete<D: Database<DbPartType>>(&self, db: &mut D)
        -> (r: Result<(), EleboxError>)
        requires
            ids_unique(old(db).contents()),
        ensures
            ids_unique(final(db).contents()),
            !has_name(old(db).contents(), self.name@) ==> (r matches Err(e)
                && e matches EleboxError::NotExists(_, _))
                && final(db).contents() == old(db).contents(),
            has_name(old(db).contents(), self.name@) ==> r is Ok
                && final(db).contents() == old(db).contents().remove(
                    index_of_name(old(db).contents(), self.name@)),
    {
        match Self::delete_by_name(db, self.name.as_str()) {
            Ok(_) => Ok(()),
            Err(e) => Err(e),
        }
    }

    /// Removes the part type with this name and hands back the id it was
    /// stored under.
    pub fn delete_by_name<D: Database<DbPartType>>(db: &mut D, name: &str)
        -> (r: Result<String, EleboxError>)
        requires
            ids_unique(old(db).contents()),
        ensures
            ids_unique(final(db).contents()),
            !has_name(old(db).contents(), name@) ==> (r matches Err(e)
                && e matches EleboxError::NotExists(_, _))
                && final(db).contents() == old(db).contents(),
            has_name(old(db).contents(), name@) ==> (r matches Ok(id)
                && id@ == name_id(old(db).contents(), name@))
                && final(db).contents() == old(db).contents().remove(
                    index_of_name(old(db).contents(), name@)),
    {
        let ghost o = db.contents();
        let id = match db.get_id(name) {
            Ok(id) => id,
            Err(_) => {
                return Err(EleboxError::NotExists(String::new(), name.to_owned()));
            },
        };
        proof {
            lemma_index_of_name(o, name@);
            lemma_unique_id_index(o, index_of_name(o, name@));
        }
        match db.delete(id.as_str()) {
            Ok(()) => {
                proof {
                    lemma_ids_unique_remove(o, index_of_name(o, name@));
                }
                Ok(id)
            },
            Err(e) => Err(EleboxError::from_db(e)),
        }
    }

    /// Rewrites the part type stored under `old_name` in place, keeping its
    /// id: a name or parent left as `None` keeps its stored value.
    pub fn update<D: Database<DbPartType>>(
        db: &mut D,
        old_name: &str,
        new_name: Option<&str>,
        new_parent: Option<&str>,
    ) -> (r: Result<(), EleboxError>)
        requires
            ids_unique(old(db).contents()),
        ensures
            ids_unique(final(db).contents()),
            !has_name(old(db).contents(), old_name@) ==> (r matches Err(e)
                && e matches EleboxError::NotExists(_, _))
                && final(db).contents() == old(db).contents(),
            has_name(old(db).contents(), old_name@)
                && (new_parent matches Some(p) && !has_name(old(db).contents(), p@))
                ==> (r matches Err(e) && e matches EleboxError::NotExists(_, _))
                    && final(db).contents() == old(db).contents(),
            has_name(old(db).contents(), old_name@)
                && (match new_parent {
                    None => true,
                    Some(p) => has_name(old(db).contents(), p@),
                })
                ==> {
                    &&& r is Ok ==> final(db).contents() == old(db).contents().update(
                        index_of_name(old(db).contents(), old_name@),
                        (name_id(old(db).contents(), old_name@), DbPartTypeView {
                            name: match new_name {
                                Some(n) => n@,
                                None => old(db).contents()[index_of_name(
                                    old(db).contents(), old_name@)].1.name,
                            },
                            parent_id: match new_parent {
                                Some(p) => name_id(old(db).contents(), p@),
                                None => old(db).contents()[index_of_name(
                                    old(db).contents(), old_name@)].1.parent_id,
                            },
                        }))
                    &&& r is Err ==> (r matches Err(e)
                        && e matches EleboxError::DatabaseError(_))
                },
            r is Err ==> final(db).contents() == old(db).contents(),
    {
        let ghost o = db.contents();
        let id = match db.get_id(old_name) {
            Ok(id) => id,
            Err(_) => {
                return Err(EleboxError::NotExists(String::new(), old_name.to_owned()));
            },
        };
        proof {
            lemma_index_of_name(o, old_name@);
            lemma_unique_id_index(o, index_of_name(o, old_name@));
        }
        let old_db_pt = match db.get(id.as_str()) {
            Ok(p) => p,
            Err(e) => {
                return Err(EleboxError::from_db(e));
            },
        };
        let p_id = match new_parent {
            Some(pname) => {
                match db.get_id(pname) {
                    Ok(pid) => pid,
                    Err(_) => {
                        return Err(EleboxError::NotExists(String::new(), pname.to_owned()));
                    },
                }
            },
            None => old_db_pt.parent_id,
        };
        let db_part_type = DbPartType {
            name: match new_name {
                Some(n) => n.to_owned(),
                None => old_db_pt.name,
            },
            parent_id: p_id,
        };
        let ghost x = db_part_type@;
        match db.update(id.as_str(), db_part_type) {
            Ok(()) => {
                proof {
                    lemma_ids_unique_update(
                        o, index_of_name(o, old_name@), name_id(o, old_name@), x);
                }
                Ok(())
            },
            Err(e) => Err(EleboxError::from_db(e)),
        }
    }

    /// Creates a new part type; the name must not be taken, and a named
    /// parent must exist.
    pub fn add<D: Database<DbPartType>>(&self, db: &mut D) -> (r: Result<(), EleboxError>)
        requires
            ids_unique(old(db).contents()),
        ensures
            ids_unique(final(db).contents()),
            has_name(old(db).contents(), self.name@) ==> (r matches Err(e)
                && e matches EleboxError::AlreadyExists(_, n) && n@ == self.name@)
                && final(db).contents() == old(db).contents(),
            !has_name(old(db).contents(), self.name@)
                && (self.parent matches Some(p) && !has_name(old(db).contents(), p@))
                ==> (r matches Err(e) && e matches EleboxError::NotExists(_, _))
                    && final(db).contents() == old(db).contents(),
            !has_name(old(db).contents(), self.name@)
                && (match opt_view(self.parent) {
                    None => true,
                    Some(p) => has_name(old(db).contents(), p),
                })
                ==> {
                    &&& r is Ok ==> exists|id: Seq<char>| !has_id(old(db).contents(), id)
                        && final(db).contents() == old(db).contents().push(
                            (id, pt_to_db(self@, old(db).contents())))
                    &&& r is Err ==> (r matches Err(e)
                        && e matches EleboxError::DatabaseError(_))
                        && final(db).contents() == old(db).contents()
                },
    {
        let ghost o = db.contents();
        if db.get_id(self.name.as_str()).is_ok() {
            return Err(EleboxError::AlreadyExists(
                String::from_str("part type"),
                self.name.clone(),
            ));
        }
        let p_id = match &self.parent {
            Some(p_name) => {
                match db.get_id(p_name.as_str()) {
                    Ok(pid) => pid,
                    Err(_) => {
                        return Err(EleboxError::NotExists(String::new(), p_name.clone()));
                    },
                }
            },
            None => String::from_str("root"),
        };
        let db_part_type = DbPartType { name: self.name.clone(), parent_id: p_id };
        let ghost x = db_part_type@;
        match db.add(db_part_type) {
            Ok(()) => {
                proof {
                    assert(x == pt_to_db(self@, o));
                    let idn = choose|idn: Seq<char>| !has_id(o, idn)
                        && db.contents() == o.push((idn, x));
                    lemma_ids_unique_push(o, idn, x);
                }
                Ok(())
            },
            Err(e) => Err(EleboxError::from_db(e)),
        }
    }
}

} // verus!
