//! Bulk export and dependency-ordered import across the four collections.

use vstd::prelude::*;

use crate::category::{cat_added_ok, cats_view, Category, CategoryHandler};
use crate::comm::{extends, has_name, Database, Handler, ids_unique};
use crate::db::{DbCategory, DbManufacturer, DbPackage, DbPart};
use crate::errors::EleboxError;
use crate::manufacturer::{Manufacturer, ManufacturerHandler};
use crate::package::{Package, PackageHandler};
use crate::part::{part_to_db, Part, PartHandler};

verus! {

/// Gathers the four collections for export, in their public shapes. Order
/// does not matter here: public records reference each other by name only.
pub fn export<C: Database<DbCategory>, K: Database<DbPackage>, M: Database<DbManufacturer>,
    P: Database<DbPart>>(
    cats: &CategoryHandler<C>,
    pkgs: &PackageHandler<K>,
    mfrs: &ManufacturerHandler<M>,
    parts: &PartHandler<P>,
) -> (r: Result<(Vec<Category>, Vec<Package>, Vec<Manufacturer>, Vec<Part>), EleboxError>)
    ensures
        r matches Ok(t) ==> t.0@.len() == cats.db.contents().len()
            && t.1@.len() == pkgs.db.contents().len()
            && t.2@.len() == mfrs.db.contents().len()
            && t.3@.len() == parts.db.contents().len()
            && (forall|i: int| 0 <= i < t.0@.len() ==> (#[trigger] t.0@[i])@
                == crate::category::cat_from_db(cats.db.contents()[i].1, cats.db.contents()))
            && (forall|i: int| 0 <= i < t.1@.len() ==> (#[trigger] t.1@[i])@
                == crate::package::pkg_from_db(pkgs.db.contents()[i].1))
            && (forall|i: int| 0 <= i < t.2@.len() ==> (#[trigger] t.2@[i])@
                == crate::manufacturer::mfr_from_db(mfrs.db.contents()[i].1))
            && (forall|i: int| 0 <= i < t.3@.len() ==> (#[trigger] t.3@[i])@
                == crate::part::part_from_db(parts.db.contents()[i].1, cats.db.contents(),
                    pkgs.db.contents(), mfrs.db.contents())),
        r matches Err(e) ==> e matches EleboxError::DatabaseError(_),
{
    let cat_items = match cats.list() {
        Ok(v) => v,
        Err(e) => {
            return Err(e);
        },
    };
    let pkg_items = match pkgs.list() {
        Ok(v) => v,
        Err(e) => {
            return Err(e);
        },
    };
    let mfr_items = match mfrs.list() {
        Ok(v) => v,
        Err(e) => {
            return Err(e);
        },
    };
    let part_items = match parts.list(&cats.db, &pkgs.db, &mfrs.db) {
        Ok(v) => v,
        Err(e) => {
            return Err(e);
        },
    };
    Ok((cat_items, pkg_items, mfr_items, part_items))
}

/// Brings a full export back in, in dependency order: categories first
/// (parents resolved inside the batch), then packages and manufacturers,
/// and parts last, once everything they may reference exists. Records
/// already present by name are skipped, so importing the same export twice
/// leaves every store as one import leaves it; any other failure is fatal.
pub fn import<C: Database<DbCategory>, K: Database<DbPackage>, M: Database<DbManufacturer>,
    P: Database<DbPart>>(
    cats: &mut CategoryHandler<C>,
    pkgs: &mut PackageHandler<K>,
    mfrs: &mut ManufacturerHandler<M>,
    parts: &mut PartHandler<P>,
    cat_items: Vec<Category>,
    pkg_items: Vec<Package>,
    mfr_items: Vec<Manufacturer>,
    part_items: Vec<Part>,
) -> (r: Result<(), EleboxError>)
    requires
        ids_unique(old(cats).db.contents()),
        ids_unique(old(pkgs).db.contents()),
        ids_unique(old(mfrs).db.contents()),
        ids_unique(old(parts).db.contents()),
    ensures
        ids_unique(final(cats).db.contents()),
        ids_unique(final(pkgs).db.contents()),
        ids_unique(final(mfrs).db.contents()),
        ids_unique(final(parts).db.contents()),
        extends(final(cats).db.contents(), old(cats).db.contents()),
        extends(final(pkgs).db.contents(), old(pkgs).db.contents()),
        extends(final(mfrs).db.contents(), old(mfrs).db.contents()),
        extends(final(parts).db.contents(), old(parts).db.contents()),
        r is Ok ==> (forall|i: int| 0 <= i < cat_items@.len()
            ==> has_name(final(cats).db.contents(), (#[trigger] cat_items@[i])@.name))
            && (forall|i: int| 0 <= i < pkg_items@.len()
                ==> has_name(final(pkgs).db.contents(), (#[trigger] pkg_items@[i])@.name))
            && (forall|i: int| 0 <= i < mfr_items@.len()
                ==> has_name(final(mfrs).db.contents(), (#[trigger] mfr_items@[i])@.name))
            && (forall|i: int| 0 <= i < part_items@.len()
                ==> has_name(final(parts).db.contents(), (#[trigger] part_items@[i])@.name)),
        forall|k: int| old(cats).db.contents().len() <= k < final(cats).db.contents().len()
            ==> cat_added_ok((#[trigger] final(cats).db.contents()[k]).1,
                cats_view(cat_items@), final(cats).db.contents()),
        forall|k: int| old(parts).db.contents().len() <= k
            < final(parts).db.contents().len()
            ==> !has_name(old(parts).db.contents(),
                (#[trigger] final(parts).db.contents()[k]).1.name)
                && exists|i: int| 0 <= i < part_items@.len()
                    && final(parts).db.contents()[k].1 == part_to_db(part_items@[i]@,
                        final(cats).db.contents(), final(pkgs).db.contents(),
                        final(mfrs).db.contents()),
        r matches Err(e) ==> (e matches EleboxError::NotExists(_, _)
            || e matches EleboxError::DatabaseError(_)),
        ((forall|i: int| 0 <= i < cat_items@.len()
            ==> has_name(old(cats).db.contents(), (#[trigger] cat_items@[i])@.name))
            && (forall|i: int| 0 <= i < pkg_items@.len()
                ==> has_name(old(pkgs).db.contents(), (#[trigger] pkg_items@[i])@.name))
            && (forall|i: int| 0 <= i < mfr_items@.len()
                ==> has_name(old(mfrs).db.contents(), (#[trigger] mfr_items@[i])@.name))
            && (forall|i: int| 0 <= i < part_items@.len()
                ==> has_name(old(parts).db.contents(), (#[trigger] part_items@[i])@.name)))
            ==> r is Ok
                && final(cats).db.contents() == old(cats).db.contents()
                && final(pkgs).db.contents() == old(pkgs).db.contents()
                && final(mfrs).db.contents() == old(mfrs).db.contents()
                && final(parts).db.contents() == old(parts).db.contents(),
{
    match cats.import(cat_items) {
        Ok(()) => {},
        Err(e) => {
            return Err(e);
        },
    }
    match pkgs.import(pkg_items) {
        Ok(()) => {},
        Err(e) => {
            return Err(e);
        },
    }
    match mfrs.import(mfr_items) {
        Ok(()) => {},
        Err(e) => {
            return Err(e);
        },
    }
    match parts.import(&cats.db, &pkgs.db, &mfrs.db, part_items) {
        Ok(()) => {},
        Err(e) => {
            return Err(e);
        },
    }
    Ok(())
}

} // verus!
