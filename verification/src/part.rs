//! Parts: the central entity kind, referencing a category and optionally
//! a package and a manufacturer through synthetic ids.

use vstd::prelude::*;

use crate::comm::{
    extends, has_id, has_name, id_item, index_of_name, lemma_extends_name_mono,
    lemma_extends_name_stable, lemma_ids_unique_push, lemma_ids_unique_remove,
    lemma_ids_unique_update, lemma_index_of_name, lemma_unique_id_index, name_id, Database,
    ids_unique,
};
use crate::db::{
    clone_or_empty, opt_view, or_empty, CustomField, CustomFieldView, DbCategory, DbManufacturer,
    DbPackage, DbPart, DbPartView, ItemView, Supplier, SupplierView,
};
use crate::errors::EleboxError;

verus! {

/// A part as callers see it: every cross-entity reference is a name, and
/// optional text fields are absent rather than empty.
#[derive(Debug, Clone)]
pub struct Part {
    pub name: String,
    pub quantity: u16,
    pub category: String,
    pub package: Option<String>,
    pub package_detail: Option<String>,
    pub alias: Option<String>,
    pub description: Option<String>,
    pub location: Option<String>,
    pub mfr: Option<String>,
    pub mfr_no: Option<String>,
    pub datasheet_link: Option<String>,
    pub product_link: Option<String>,
    pub image_link: Option<String>,
    pub custom_fields: Vec<CustomField>,
    pub suppliers: Vec<Supplier>,
    pub starred: bool,
}

#[verifier::ext_equal]
pub struct PartView {
    pub name: Seq<char>,
    pub quantity: u16,
    pub category: Seq<char>,
    pub package: Option<Seq<char>>,
    pub package_detail: Option<Seq<char>>,
    pub alias: Option<Seq<char>>,
    pub description: Option<Seq<char>>,
    pub location: Option<Seq<char>>,
    pub mfr: Option<Seq<char>>,
    pub mfr_no: Option<Seq<char>>,
    pub datasheet_link: Option<Seq<char>>,
    pub product_link: Option<Seq<char>>,
    pub image_link: Option<Seq<char>>,
    pub custom_fields: Seq<CustomFieldView>,
    pub suppliers: Seq<SupplierView>,
    pub starred: bool,
}

impl View for Part {
    type V = PartView;

    open spec fn view(&self) -> PartView {
        PartView {
            name: self.name@,
            quantity: self.quantity,
            category: self.category@,
            package: opt_view(self.package),
            package_detail: opt_view(self.package_detail),
            alias: opt_view(self.alias),
            description: opt_view(self.description),
            location: opt_view(self.location),
            mfr: opt_view(self.mfr),
            mfr_no: opt_view(self.mfr_no),
            datasheet_link: opt_view(self.datasheet_link),
            product_link: opt_view(self.product_link),
            image_link: opt_view(self.image_link),
            custom_fields: self.custom_fields@.map_values(|c: CustomField| c@),
            suppliers: self.suppliers@.map_values(|s: Supplier| s@),
            starred: self.starred,
        }
    }
}

impl Part {
    /// A bare part: a name, its category, and a starting quantity.
    pub fn new(name: &str, category: &str, quantity: u16) -> (r: Self)
        ensures
            r.name@ == name@,
            r.category@ == category@,
            r.quantity == quantity,
            r.package is None,
            r.package_detail is None,
            r.alias is None,
            r.description is None,
            r.location is None,
            r.mfr is None,
            r.mfr_no is None,
            r.datasheet_link is None,
            r.product_link is None,
            r.image_link is None,
            r.custom_fields@.len() == 0,
            r.suppliers@.len() == 0,
            r.starred == false,
    {
        Part {
            name: name.to_owned(),
            category: category.to_owned(),
            quantity,
            package: None,
            package_detail: None,
            alias: None,
            description: None,
            location: None,
            mfr: None,
            mfr_no: None,
            datasheet_link: None,
            product_link: None,
            image_link: None,
            custom_fields: Vec::new(),
            suppliers: Vec::new(),
            starred: false,
        }
    }
}

/// The id stored for a referenced name: the target's id when the name
/// resolves, the tombstone marker when it does not.
pub open spec fn ref_id_soft<V: ItemView>(o: Seq<(Seq<char>, V)>, name: Seq<char>)
    -> Seq<char> {
    if has_name(o, name) {
        name_id(o, name)
    } else {
        "__DELETE__"@
    }
}

/// The name read back for a stored reference id: the target's current name
/// when the id still resolves, the tombstone marker when it does not.
pub open spec fn resolve_ref<V: ItemView>(o: Seq<(Seq<char>, V)>, id: Seq<char>) -> Seq<char> {
    if has_id(o, id) {
        id_item(o, id).name_of()
    } else {
        "__DELETE__"@
    }
}

/// The stored record for a part, given the three reference partitions. The
/// category is required and must resolve, so its clause is only meaningful
/// when `p.category` is present in `cats`; the optional references are
/// tombstoned rather than refused, and an absent one is stored as the
/// empty id.
pub open spec fn part_to_db(
    p: PartView,
    cats: Seq<(Seq<char>, <DbCategory as View>::V)>,
    pkgs: Seq<(Seq<char>, <DbPackage as View>::V)>,
    mfrs: Seq<(Seq<char>, <DbManufacturer as View>::V)>,
) -> DbPartView {
    DbPartView {
        name: p.name,
        quantity: p.quantity,
        category_id: name_id(cats, p.category),
        package_id: match p.package {
            None => Seq::empty(),
            Some(n) => ref_id_soft(pkgs, n),
        },
        package_detail: or_empty(p.package_detail),
        mfr_id: match p.mfr {
            None => Seq::empty(),
            Some(n) => ref_id_soft(mfrs, n),
        },
        alias: or_empty(p.alias),
        description: or_empty(p.description),
        location: or_empty(p.location),
        mfr_no: or_empty(p.mfr_no),
        datasheet_link: or_empty(p.datasheet_link),
        product_link: or_empty(p.product_link),
        image_link: or_empty(p.image_link),
        custom_fields: p.custom_fields,
        suppliers: p.suppliers,
        starred: p.starred,
    }
}

/// The public record read back from a stored one: reference ids resolved
/// best-effort, an empty optional id reading back as absent, and the
/// descriptive strings wrapped as present.
pub open spec fn part_from_db(
    d: DbPartView,
    cats: Seq<(Seq<char>, <DbCategory as View>::V)>,
    pkgs: Seq<(Seq<char>, <DbPackage as View>::V)>,
    mfrs: Seq<(Seq<char>, <DbManufacturer as View>::V)>,
) -> PartView {
    PartView {
        name: d.name,
        quantity: d.quantity,
        category: resolve_ref(cats, d.category_id),
        package: if d.package_id.len() == 0 {
            None
        } else {
            Some(resolve_ref(pkgs, d.package_id))
        },
        package_detail: Some(d.package_detail),
        mfr: if d.mfr_id.len() == 0 {
            None
        } else {
            Some(resolve_ref(mfrs, d.mfr_id))
        },
        alias: Some(d.alias),
        description: Some(d.description),
        location: Some(d.location),
        mfr_no: Some(d.mfr_no),
        datasheet_link: Some(d.datasheet_link),
        product_link: Some(d.product_link),
        image_link: Some(d.image_link),
        custom_fields: d.custom_fields,
        suppliers: d.suppliers,
        starred: d.starred,
    }
}

/// A reference stored for a present name resolves back to that very name,
/// whatever record the id points at in between.
pub proof fn lemma_ref_roundtrip<V: ItemView>(o: Seq<(Seq<char>, V)>, n: Seq<char>)
    requires
        ids_unique(o),
        has_name(o, n),
    ensures
        resolve_ref(o, ref_id_soft(o, n)) == n,
{
    lemma_index_of_name(o, n);
    let i = index_of_name(o, n);
    assert(has_id(o, name_id(o, n)));
    lemma_unique_id_index(o, i);
}

/// Uniqueness law, read-back half: a part written to the stored shape and
/// read back is unchanged, provided its referenced names are present (with
/// non-empty ids, as every generated id is) and its descriptive optional
/// fields are present — a read wraps each stored string as present, so an
/// absent one cannot survive a round trip.
pub proof fn lemma_part_roundtrip(
    p: PartView,
    cats: Seq<(Seq<char>, <DbCategory as View>::V)>,
    pkgs: Seq<(Seq<char>, <DbPackage as View>::V)>,
    mfrs: Seq<(Seq<char>, <DbManufacturer as View>::V)>,
)
    requires
        ids_unique(cats),
        ids_unique(pkgs),
        ids_unique(mfrs),
        has_name(cats, p.category),
        p.package matches Some(n) ==> has_name(pkgs, n) && name_id(pkgs, n).len() > 0,
        p.mfr matches Some(n) ==> has_name(mfrs, n) && name_id(mfrs, n).len() > 0,
        p.package_detail is Some,
        p.alias is Some,
        p.description is Some,
        p.location is Some,
        p.mfr_no is Some,
        p.datasheet_link is Some,
        p.product_link is Some,
        p.image_link is Some,
    ensures
        part_from_db(part_to_db(p, cats, pkgs, mfrs), cats, pkgs, mfrs) == p,
{
    lemma_ref_roundtrip(cats, p.category);
    match p.package {
        Some(n) => {
            lemma_ref_roundtrip(pkgs, n);
        },
        None => {},
    }
    match p.mfr {
        Some(n) => {
            lemma_ref_roundtrip(mfrs, n);
        },
        None => {},
    }
    assert(part_from_db(part_to_db(p, cats, pkgs, mfrs), cats, pkgs, mfrs) =~= p);
}

/// Identity is carried by ids, not names: after the category record under a
/// part's stored reference is overwritten in place (a rename), the part
/// reads back with the category's new name.
pub proof fn lemma_rename_preserves_identity(
    cats: Seq<(Seq<char>, <DbCategory as View>::V)>,
    k: int,
    d2: <DbCategory as View>::V,
    d: DbPartView,
    pkgs: Seq<(Seq<char>, <DbPackage as View>::V)>,
    mfrs: Seq<(Seq<char>, <DbManufacturer as View>::V)>,
)
    requires
        ids_unique(cats),
        0 <= k < cats.len(),
        d.category_id == cats[k].0,
    ensures
        part_from_db(d, cats.update(k, (cats[k].0, d2)), pkgs, mfrs).category == d2.name,
{
    let cats2 = cats.update(k, (cats[k].0, d2));
    lemma_ids_unique_update(cats, k, cats[k].0, d2);
    assert(cats2[k].0 == d.category_id);
    assert(has_id(cats2, d.category_id));
    lemma_unique_id_index(cats2, k);
    assert(id_item(cats2, d.category_id) == d2);
}

/// Deleting a referenced manufacturer leaves the part readable: the read
/// substitutes the tombstone marker, still distinct from a reference that
/// was never set (an empty stored id).
pub proof fn lemma_tombstone_after_delete(
    mfrs: Seq<(Seq<char>, <DbManufacturer as View>::V)>,
    k: int,
    d: DbPartView,
    cats: Seq<(Seq<char>, <DbCategory as View>::V)>,
    pkgs: Seq<(Seq<char>, <DbPackage as View>::V)>,
)
    requires
        ids_unique(mfrs),
        0 <= k < mfrs.len(),
        d.mfr_id == mfrs[k].0,
        d.mfr_id.len() > 0,
    ensures
        part_from_db(d, cats, pkgs, mfrs.remove(k)).mfr == Some("__DELETE__"@),
{
    let m2 = mfrs.remove(k);
    assert forall|j: int| 0 <= j < m2.len() implies (#[trigger] m2[j]).0 != d.mfr_id by {
        let j0: int = if j < k {
            j
        } else {
            j + 1
        };
        assert(m2[j] == mfrs[j0]);
        if j0 < k {
            assert(mfrs[j0].0 != mfrs[k].0);
        } else {
            assert(mfrs[k].0 != mfrs[j0].0);
        }
    }
    assert(!has_id(m2, d.mfr_id));
}

/// CRUD for parts over one store partition, with the category, package and
/// manufacturer partitions consulted to translate references.
pub struct PartHandler<D: Database<DbPart>> {
    pub db: D,
}

impl<D: Database<DbPart>> PartHandler<D> {
    /// Resolves a referenced name to an id to store, tombstoning a name
    /// that no longer resolves.
    fn soft_id<DI: crate::db::DatabaseItem, S: Database<DI>>(ref_db: &S, name: &str)
        -> (r: String) where DI::V: ItemView
        ensures
            r@ == ref_id_soft(ref_db.contents(), name@),
    {
        match ref_db.get_id(name) {
            Ok(id) => id,
            Err(_) => String::from_str("__DELETE__"),
        }
    }

    /// Resolves a stored reference id back to a display name, tombstoning
    /// an id whose target is gone.
    fn soft_name<DI: crate::db::DatabaseItem, S: Database<DI>>(ref_db: &S, id: &str)
        -> (r: String) where DI::V: ItemView
        ensures
            r@ == resolve_ref(ref_db.contents(), id@),
    {
        match ref_db.get(id) {
            Ok(item) => item.get_name(),
            Err(_) => String::from_str("__DELETE__"),
        }
    }

    /// Translates to the stored shape, mapping each referenced name to its
    /// id. The category is required and must resolve; the optional
    /// references are tombstoned rather than refused.
    pub fn to_db_item<C: Database<DbCategory>, K: Database<DbPackage>,
        M: Database<DbManufacturer>>(
        &self,
        cat_db: &C,
        pkg_db: &K,
        mfr_db: &M,
        item: &Part,
    ) -> (r: Result<DbPart, EleboxError>)
        ensures
            has_name(cat_db.contents(), item.category@) ==> (r matches Ok(d)
                && d@ == part_to_db(
                    item@, cat_db.contents(), pkg_db.contents(), mfr_db.contents())),
            !has_name(cat_db.contents(), item.category@) ==> (r matches Err(e)
                && e matches EleboxError::NotExists(k, n)
                && k@ == "category"@ && n@ == item.category@),
    {
        let category_id = match cat_db.get_id(item.category.as_str()) {
            Ok(id) => id,
            Err(_) => {
                return Err(EleboxError::NotExists(
                    String::from_str("category"),
                    item.category.clone(),
                ));
            },
        };
        let package_id = match &item.package {
            Some(name) => Self::soft_id(pkg_db, name.as_str()),
            None => String::new(),
        };
        let mfr_id = match &item.mfr {
            Some(name) => Self::soft_id(mfr_db, name.as_str()),
            None => String::new(),
        };
        Ok(DbPart {
            name: item.name.clone(),
            quantity: item.quantity,
            category_id,
            mfr_id,
            package_id,
            package_detail: clone_or_empty(&item.package_detail),
            alias: clone_or_empty(&item.alias),
            description: clone_or_empty(&item.description),
            location: clone_or_empty(&item.location),
            mfr_no: clone_or_empty(&item.mfr_no),
            datasheet_link: clone_or_empty(&item.datasheet_link),
            product_link: clone_or_empty(&item.product_link),
            image_link: clone_or_empty(&item.image_link),
            custom_fields: crate::db::dup_custom_fields(&item.custom_fields),
            suppliers: crate::db::dup_suppliers(&item.suppliers),
            starred: item.starred,
        })
    }

    /// Translates a stored record back to the public shape; every reference
    /// id is resolved best-effort, so a read never fails.
    pub fn to_item<C: Database<DbCategory>, K: Database<DbPackage>,
        M: Database<DbManufacturer>>(
        &self,
        cat_db: &C,
        pkg_db: &K,
        mfr_db: &M,
        db_part: DbPart,
    ) -> (r: Result<Part, EleboxError>)
        ensures
            r matches Ok(p) && p@ == part_from_db(
                db_part@, cat_db.contents(), pkg_db.contents(), mfr_db.contents()),
    {
        let category = Self::soft_name(cat_db, db_part.category_id.as_str());
        let package = if db_part.package_id.as_str().is_empty() {
            None
        } else {
            Some(Self::soft_name(pkg_db, db_part.package_id.as_str()))
        };
        let mfr = if db_part.mfr_id.as_str().is_empty() {
            None
        } else {
            Some(Self::soft_name(mfr_db, db_part.mfr_id.as_str()))
        };
        Ok(Part {
            name: db_part.name,
            category,
            quantity: db_part.quantity,
            package,
            package_detail: Some(db_part.package_detail),
            mfr,
            alias: Some(db_part.alias),
            description: Some(db_part.description),
            location: Some(db_part.location),
            mfr_no: Some(db_part.mfr_no),
            datasheet_link: Some(db_part.datasheet_link),
            product_link: Some(db_part.product_link),
            image_link: Some(db_part.image_link),
            custom_fields: db_part.custom_fields,
            suppliers: db_part.suppliers,
            starred: db_part.starred,
        })
    }

    /// Removes the part with this name.
    pub fn delete(&mut self, name: &str) -> (r: Result<(), EleboxError>)
        requires
            ids_unique(old(self).db.contents()),
        ensures
            ids_unique(final(self).db.contents()),
            !has_name(old(self).db.contents(), name@) ==> (r matches Err(e)
                && e matches EleboxError::NotExists(k, _) && k@.len() == 0)
                && final(self).db.contents() == old(self).db.contents(),
            has_name(old(self).db.contents(), name@) ==> r is Ok
                && final(self).db.contents() == old(self).db.contents().remove(
                    index_of_name(old(self).db.contents(), name@)),
    {
        let ghost o = self.db.contents();
        let id = match self.db.get_id(name) {
            Ok(id) => id,
            Err(e) => {
                return Err(EleboxError::from_db(e));
            },
        };
        proof {
            lemma_index_of_name(o, name@);
            lemma_unique_id_index(o, index_of_name(o, name@));
        }
        match self.db.delete(id.as_str()) {
            Ok(()) => {
                proof {
                    lemma_ids_unique_remove(o, index_of_name(o, name@));
                }
                Ok(())
            },
            Err(e) => Err(EleboxError::from_db(e)),
        }
    }

    /// Creates a new part; the name must not be taken.
    pub fn add<C: Database<DbCategory>, K: Database<DbPackage>,
        M: Database<DbManufacturer>>(
        &mut self,
        cat_db: &C,
        pkg_db: &K,
        mfr_db: &M,
        item: &Part,
    ) -> (r: Result<(), EleboxError>)
        requires
            ids_unique(old(self).db.contents()),
        ensures
            ids_unique(final(self).db.contents()),
            has_name(old(self).db.contents(), item.name@) ==> (r matches Err(e)
                && e matches EleboxError::AlreadyExists(k, n)
                && k@ == "part"@ && n@ == item.name@)
                && final(self).db.contents() == old(self).db.contents(),
            !has_name(old(self).db.contents(), item.name@)
                && !has_name(cat_db.contents(), item.category@)
                ==> (r matches Err(e) && e matches EleboxError::NotExists(k, n)
                    && k@ == "category"@ && n@ == item.category@)
                    && final(self).db.contents() == old(self).db.contents(),
            !has_name(old(self).db.contents(), item.name@)
                && has_name(cat_db.contents(), item.category@)
                ==> {
                    &&& r is Ok ==> exists|id: Seq<char>|
                        !has_id(old(self).db.contents(), id)
                        && final(self).db.contents() == old(self).db.contents().push(
                            (id, part_to_db(item@, cat_db.contents(), pkg_db.contents(),
                                mfr_db.contents())))
                    &&& r is Err ==> (r matches Err(e)
                        && e matches EleboxError::DatabaseError(_))
                        && final(self).db.contents() == old(self).db.contents()
                },
    {
        let ghost o = self.db.contents();
        if self.db.get_id(item.name.as_str()).is_ok() {
            return Err(EleboxError::AlreadyExists(
                String::from_str("part"),
                item.name.clone(),
            ));
        }
        let db_item = match self.to_db_item(cat_db, pkg_db, mfr_db, item) {
            Ok(d) => d,
            Err(e) => {
                return Err(e);
            },
        };
        match self.db.add(db_item) {
            Ok(()) => {
                proof {
                    let x = part_to_db(
                        item@, cat_db.contents(), pkg_db.contents(), mfr_db.contents());
                    let id = choose|id: Seq<char>| !has_id(o, id)
                        && self.db.contents() == o.push((id, x));
                    lemma_ids_unique_push(o, id, x);
                }
                Ok(())
            },
            Err(e) => Err(EleboxError::from_db(e)),
        }
    }

    /// Rewrites the part stored under `ori_name`, keeping its id.
    pub fn update<C: Database<DbCategory>, K: Database<DbPackage>,
        M: Database<DbManufacturer>>(
        &mut self,
        cat_db: &C,
        pkg_db: &K,
        mfr_db: &M,
        ori_name: &str,
        new_item: &Part,
    ) -> (r: Result<(), EleboxError>)
        requires
            ids_unique(old(self).db.contents()),
        ensures
            ids_unique(final(self).db.contents()),
            !has_name(old(self).db.contents(), ori_name@) ==> (r matches Err(e)
                && e matches EleboxError::NotExists(k, _) && k@.len() == 0)
                && final(self).db.contents() == old(self).db.contents(),
            has_name(old(self).db.contents(), ori_name@) && ori_name@ != new_item.name@
                && has_name(old(self).db.contents(), new_item.name@)
                ==> (r matches Err(e) && e matches EleboxError::AlreadyExists(k, n)
                    && k@ == "part"@ && n@ == new_item.name@)
                    && final(self).db.contents() == old(self).db.contents(),
            has_name(old(self).db.contents(), ori_name@)
                && (ori_name@ == new_item.name@
                    || !has_name(old(self).db.contents(), new_item.name@))
                && !has_name(cat_db.contents(), new_item.category@)
                ==> (r matches Err(e) && e matches EleboxError::NotExists(k, n)
                    && k@ == "category"@ && n@ == new_item.category@),
            has_name(old(self).db.contents(), ori_name@)
                && (ori_name@ == new_item.name@
                    || !has_name(old(self).db.contents(), new_item.name@))
                && has_name(cat_db.contents(), new_item.category@)
                ==> {
                    &&& r is Ok ==> final(self).db.contents()
                        == old(self).db.contents().update(
                            index_of_name(old(self).db.contents(), ori_name@),
                            (name_id(old(self).db.contents(), ori_name@),
                                part_to_db(new_item@, cat_db.contents(), pkg_db.contents(),
                                    mfr_db.contents())))
                    &&& r is Err ==> (r matches Err(e)
                        && e matches EleboxError::DatabaseError(_))
                },
            r is Err ==> final(self).db.contents() == old(self).db.contents(),
    {
        let ghost o = self.db.contents();
        let ori_id = match self.db.get_id(ori_name) {
            Ok(id) => id,
            Err(e) => {
                return Err(EleboxError::from_db(e));
            },
        };
        let ori_owned: String = ori_name.to_owned();
        if !(new_item.name == ori_owned) && self.db.get_id(new_item.name.as_str()).is_ok() {
            return Err(EleboxError::AlreadyExists(
                String::from_str("part"),
                new_item.name.clone(),
            ));
        }
        let db_item = match self.to_db_item(cat_db, pkg_db, mfr_db, new_item) {
            Ok(d) => d,
            Err(e) => {
                return Err(e);
            },
        };
        proof {
            lemma_index_of_name(o, ori_name@);
            lemma_unique_id_index(o, index_of_name(o, ori_name@));
        }
        match self.db.update(ori_id.as_str(), db_item) {
            Ok(()) => {
                proof {
                    lemma_ids_unique_update(
                        o, index_of_name(o, ori_name@), name_id(o, ori_name@),
                        part_to_db(new_item@, cat_db.contents(), pkg_db.contents(),
                            mfr_db.contents()));
                }
                Ok(())
            },
            Err(e) => Err(EleboxError::from_db(e)),
        }
    }

    /// Finds a part by name.
    pub fn get<C: Database<DbCategory>, K: Database<DbPackage>,
        M: Database<DbManufacturer>>(
        &self,
        cat_db: &C,
        pkg_db: &K,
        mfr_db: &M,
        name: &str,
    ) -> (r: Result<Part, EleboxError>)
        requires
            ids_unique(self.db.contents()),
        ensures
            r is Ok <==> has_name(self.db.contents(), name@),
            r matches Ok(p) ==> p@ == part_from_db(
                self.db.contents()[index_of_name(self.db.contents(), name@)].1,
                cat_db.contents(), pkg_db.contents(), mfr_db.contents()),
            r matches Err(e) ==> e matches EleboxError::NotExists(k, _) && k@.len() == 0,
    {
        let ghost o = self.db.contents();
        let id = match self.db.get_id(name) {
            Ok(id) => id,
            Err(e) => {
                return Err(EleboxError::from_db(e));
            },
        };
        proof {
            lemma_index_of_name(o, name@);
            lemma_unique_id_index(o, index_of_name(o, name@));
        }
        match self.db.get(id.as_str()) {
            Ok(db_part) => self.to_item(cat_db, pkg_db, mfr_db, db_part),
            Err(e) => Err(EleboxError::from_db(e)),
        }
    }

    /// All parts, in scan order, each translated as `get` translates one.
    pub fn list<C: Database<DbCategory>, K: Database<DbPackage>,
        M: Database<DbManufacturer>>(
        &self,
        cat_db: &C,
        pkg_db: &K,
        mfr_db: &M,
    ) -> (r: Result<Vec<Part>, EleboxError>)
        ensures
            r matches Ok(items) ==> items@.len() == self.db.contents().len()
                && forall|i: int| 0 <= i < items@.len()
                    ==> (#[trigger] items@[i])@ == part_from_db(self.db.contents()[i].1,
                        cat_db.contents(), pkg_db.contents(), mfr_db.contents()),
            r matches Err(e) ==> e matches EleboxError::DatabaseError(_),
    {
        let db_items = match self.db.list() {
            Ok(items) => items,
            Err(e) => {
                return Err(EleboxError::from_db(e));
            },
        };
        let n = db_items.len();
        let mut db_items = db_items;
        let mut items: Vec<Part> = Vec::new();
        let mut i: usize = 0;
        while i < n
            invariant
                n == self.db.contents().len(),
                i + db_items@.len() == n,
                forall|j: int| 0 <= j < db_items@.len()
                    ==> (#[trigger] db_items@[j])@ == self.db.contents()[i + j].1,
                i <= n,
                items@.len() == i,
                forall|j: int| 0 <= j < i
                    ==> (#[trigger] items@[j])@ == part_from_db(self.db.contents()[j].1,
                        cat_db.contents(), pkg_db.contents(), mfr_db.contents()),
            decreases n - i,
        {
            let db_item = db_items.remove(0);
            match self.to_item(cat_db, pkg_db, mfr_db, db_item) {
                Ok(item) => {
                    items.push(item);
                },
                Err(e) => {
                    return Err(e);
                },
            }
            i = i + 1;
        }
        Ok(items)
    }

    /// Brings a batch of records in: one already present by name is skipped,
    /// so re-importing an export is a no-op; any other failure — a part
    /// whose required category does not resolve included — is fatal and
    /// stops the batch. References are resolved against the given
    /// partitions, so categories, packages and manufacturers import first.
    pub fn import<C: Database<DbCategory>, K: Database<DbPackage>,
        M: Database<DbManufacturer>>(
        &mut self,
        cat_db: &C,
        pkg_db: &K,
        mfr_db: &M,
        items: Vec<Part>,
    ) -> (r: Result<(), EleboxError>)
        requires
            ids_unique(old(self).db.contents()),
        ensures
            ids_unique(final(self).db.contents()),
            extends(final(self).db.contents(), old(self).db.contents()),
            r is Ok ==> forall|i: int| 0 <= i < items@.len()
                ==> has_name(final(self).db.contents(), (#[trigger] items@[i])@.name),
            (forall|i: int| 0 <= i < items@.len()
                ==> has_name(old(self).db.contents(), (#[trigger] items@[i])@.name))
                ==> r is Ok && final(self).db.contents() == old(self).db.contents(),
            r matches Err(e) ==> (e matches EleboxError::NotExists(_, _)
                || e matches EleboxError::DatabaseError(_)),
            forall|k: int| old(self).db.contents().len() <= k < final(self).db.contents().len()
                ==> !has_name(old(self).db.contents(),
                    (#[trigger] final(self).db.contents()[k]).1.name)
                    && exists|i: int| 0 <= i < items@.len()
                        && final(self).db.contents()[k].1 == part_to_db(items@[i]@,
                            cat_db.contents(), pkg_db.contents(), mfr_db.contents()),
            forall|k1: int, k2: int| old(self).db.contents().len() <= k1 < k2
                < final(self).db.contents().len()
                ==> (#[trigger] final(self).db.contents()[k1]).1.name
                    != (#[trigger] final(self).db.contents()[k2]).1.name,
    {
        let ghost o = self.db.contents();
        let n = items.len();
        let mut i: usize = 0;
        while i < n
            invariant
                o == old(self).db.contents(),
                ids_unique(self.db.contents()),
                extends(self.db.contents(), o),
                n == items@.len(),
                i <= n,
                forall|j: int| 0 <= j < i
                    ==> has_name(self.db.contents(), (#[trigger] items@[j])@.name),
                (forall|j: int| 0 <= j < items@.len()
                    ==> has_name(o, (#[trigger] items@[j])@.name))
                    ==> self.db.contents() == o,
                forall|k: int| o.len() <= k < self.db.contents().len()
                    ==> !has_name(o, (#[trigger] self.db.contents()[k]).1.name)
                        && exists|j: int| 0 <= j < items@.len()
                            && self.db.contents()[k].1 == part_to_db(items@[j]@,
                                cat_db.contents(), pkg_db.contents(), mfr_db.contents()),
                forall|k1: int, k2: int| o.len() <= k1 < k2 < self.db.contents().len()
                    ==> (#[trigger] self.db.contents()[k1]).1.name
                        != (#[trigger] self.db.contents()[k2]).1.name,
            decreases n - i,
        {
            let ghost cur = self.db.contents();
            let item = &items[i];
            let res = self.add(cat_db, pkg_db, mfr_db, item);
            match res {
                Ok(()) => {
                    proof {
                        assert(item@ == items@[i as int]@);
                        let x = part_to_db(
                            item@, cat_db.contents(), pkg_db.contents(), mfr_db.contents());
                        let id = choose|id: Seq<char>| !has_id(cur, id)
                            && self.db.contents() == cur.push((id, x));
                        assert(self.db.contents().last().1.name == item@.name);
                        assert(has_name(self.db.contents(), item@.name));
                        assert forall|j: int| 0 <= j < i + 1
                            implies has_name(self.db.contents(),
                                (#[trigger] items@[j])@.name) by {
                            if j < i {
                                lemma_extends_name_stable(
                                    self.db.contents(), cur, items@[j]@.name);
                            }
                        }
                        lemma_extends_name_mono(cur, o, item@.name);
                        assert forall|k: int| o.len() <= k < self.db.contents().len()
                            implies !has_name(o,
                                (#[trigger] self.db.contents()[k]).1.name)
                                && exists|j: int| 0 <= j < items@.len()
                                    && self.db.contents()[k].1 == part_to_db(items@[j]@,
                                        cat_db.contents(), pkg_db.contents(),
                                        mfr_db.contents()) by {
                            if k < cur.len() {
                                assert(self.db.contents()[k] == cur[k]);
                            } else {
                                assert(self.db.contents()[k].1 == part_to_db(
                                    items@[i as int]@, cat_db.contents(), pkg_db.contents(),
                                    mfr_db.contents()));
                            }
                        }
                        assert forall|k1: int, k2: int| o.len() <= k1 < k2
                            < self.db.contents().len()
                            implies (#[trigger] self.db.contents()[k1]).1.name
                                != (#[trigger] self.db.contents()[k2]).1.name by {
                            assert(self.db.contents()[k1] == cur[k1]);
                            if k2 < cur.len() {
                                assert(self.db.contents()[k2] == cur[k2]);
                            } else {
                                if cur[k1].1.name == item@.name {
                                    assert(has_name(cur, item@.name));
                                }
                            }
                        }
                    }
                },
                Err(e) => {
                    match e {
                        EleboxError::AlreadyExists(_, _) => {
                            proof {
                                assert(has_name(self.db.contents(), item@.name));
                            }
                        },
                        other => {
                            return Err(other);
                        },
                    }
                },
            }
            i = i + 1;
        }
        Ok(())
    }

    /// Applies a signed increment to a part's stocked quantity. A decrement
    /// that would drive the quantity below zero is refused as a shortage;
    /// the new quantity must also still fit the stored width, which callers
    /// rule out before calling.
    pub fn update_part_quantity(&mut self, name: &str, increment: i16)
        -> (r: Result<(), EleboxError>)
        requires
            ids_unique(old(self).db.contents()),
            has_name(old(self).db.contents(), name@)
                ==> old(self).db.contents()[index_of_name(old(self).db.contents(), name@)]
                    .1.quantity + increment <= u16::MAX,
        ensures
            ids_unique(final(self).db.contents()),
            !has_name(old(self).db.contents(), name@) ==> (r matches Err(e)
                && e matches EleboxError::NotExists(k, _) && k@.len() == 0)
                && final(self).db.contents() == old(self).db.contents(),
            has_name(old(self).db.contents(), name@)
                && old(self).db.contents()[index_of_name(old(self).db.contents(), name@)]
                    .1.quantity + increment < 0
                ==> (r matches Err(e) && e matches EleboxError::InventoryShortage(n)
                    && n@ == name@)
                    && final(self).db.contents() == old(self).db.contents(),
            has_name(old(self).db.contents(), name@)
                && old(self).db.contents()[index_of_name(old(self).db.contents(), name@)]
                    .1.quantity + increment >= 0
                && r is Ok
                ==> final(self).db.contents() == old(self).db.contents().update(
                    index_of_name(old(self).db.contents(), name@),
                    (name_id(old(self).db.contents(), name@),
                        DbPartView {
                            quantity: (old(self).db.contents()[index_of_name(
                                old(self).db.contents(), name@)].1.quantity
                                + increment) as u16,
                            ..old(self).db.contents()[index_of_name(
                                old(self).db.contents(), name@)].1
                        })),
            has_name(old(self).db.contents(), name@)
                && old(self).db.contents()[index_of_name(old(self).db.contents(), name@)]
                    .1.quantity + increment >= 0
                && r is Err
                ==> (r matches Err(e) && e matches EleboxError::DatabaseError(_)),
            r is Err ==> final(self).db.contents() == old(self).db.contents(),
    {
        let ghost o = self.db.contents();
        let id = match self.db.get_id(name) {
            Ok(id) => id,
            Err(e) => {
                return Err(EleboxError::from_db(e));
            },
        };
        proof {
            lemma_index_of_name(o, name@);
            lemma_unique_id_index(o, index_of_name(o, name@));
        }
        let mut db_item = match self.db.get(id.as_str()) {
            Ok(item) => item,
            Err(e) => {
                return Err(EleboxError::from_db(e));
            },
        };
        let new_qty: i32 = db_item.quantity as i32 + increment as i32;
        if new_qty < 0 {
            return Err(EleboxError::InventoryShortage(name.to_owned()));
        }
        db_item.quantity = new_qty as u16;
        match self.db.update(id.as_str(), db_item) {
            Ok(()) => {
                proof {
                    lemma_ids_unique_update(
                        o, index_of_name(o, name@), name_id(o, name@),
                        DbPartView {
                            quantity: (o[index_of_name(o, name@)].1.quantity + increment) as u16,
                            ..o[index_of_name(o, name@)].1
                        });
                }
                Ok(())
            },
            Err(e) => Err(EleboxError::from_db(e)),
        }
    }
}

} // verus!
