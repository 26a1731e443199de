use elebox::category::{Category, CategoryHandler};
use elebox::comm::{Database, Handler};
use elebox::db::{DbCategory, DbManufacturer, DbPackage, DbPart};
use elebox::default_db::create_default_db;
use elebox::errors::{DbError, EleboxError};
use elebox::manufacturer::{Manufacturer, ManufacturerHandler};
use elebox::mem_db::MemDatabase;
use elebox::package::{Package, PackageHandler, PackageType};
use elebox::part::{Part, PartHandler};
use elebox::part_type::{DbPartType, PartType};

#[test]
fn store_add_and_lookup_by_name() {
    let mut db: MemDatabase<DbCategory> = MemDatabase::new();
    db.add(DbCategory {
        name: "A".to_string(),
        parent_id: "__root__".to_string(),
        alias: "".to_string(),
    })
    .unwrap();

    let id = db.get_id("A").unwrap();
    let rec = db.get(&id).unwrap();
    assert_eq!(rec.name, "A");
    assert!(matches!(db.get_id("B"), Err(DbError::NotExists(b)) if b == "categories"));
}

#[test]
fn store_generated_ids_differ() {
    let mut db: MemDatabase<DbCategory> = MemDatabase::new();
    for n in ["A", "B", "C"] {
        db.add(DbCategory {
            name: n.to_string(),
            parent_id: "__root__".to_string(),
            alias: "".to_string(),
        })
        .unwrap();
    }
    let a = db.get_id("A").unwrap();
    let b = db.get_id("B").unwrap();
    let c = db.get_id("C").unwrap();
    assert_ne!(a, b);
    assert_ne!(a, c);
    assert_ne!(b, c);
    assert_eq!(a.len(), 36);
}

#[test]
fn store_update_keeps_id() {
    let mut db: MemDatabase<DbManufacturer> = MemDatabase::new();
    db.add_with_id(
        "id1".to_string(),
        DbManufacturer {
            name: "M".to_string(),
            alias: "".to_string(),
            url: "".to_string(),
        },
    )
    .unwrap();
    db.update(
        "id1",
        DbManufacturer {
            name: "M2".to_string(),
            alias: "a".to_string(),
            url: "".to_string(),
        },
    )
    .unwrap();
    assert_eq!(db.get_id("M2").unwrap(), "id1");
    assert!(db.get_id("M").is_err());
}

#[test]
fn store_delete_missing_is_error() {
    let mut db: MemDatabase<DbPackage> = MemDatabase::new();
    assert!(matches!(db.delete("nope"), Err(DbError::NotExists(_))));
}

#[test]
fn store_duplicate_seed_id_refused() {
    let mut db: MemDatabase<DbPackage> = MemDatabase::new();
    let rec = |n: &str| DbPackage {
        pkg_type: "smt".to_string(),
        name: n.to_string(),
        alias: "".to_string(),
    };
    db.add_with_id("id1".to_string(), rec("A")).unwrap();
    assert!(matches!(
        db.add_with_id("id1".to_string(), rec("B")),
        Err(DbError::AccessFailed(_))
    ));
    assert_eq!(db.records().len(), 1);
}

#[test]
fn category_add_missing_parent_is_error() {
    let mut cats: CategoryHandler<MemDatabase<DbCategory>> =
        CategoryHandler { db: MemDatabase::new() };
    let res = cats.add(&Category::new("child", Some("ghost"), None));
    assert!(matches!(res, Err(EleboxError::NotExists(_, _))));
    assert!(cats.list().unwrap().is_empty());
}

#[test]
fn category_empty_parent_means_root() {
    let mut cats: CategoryHandler<MemDatabase<DbCategory>> =
        CategoryHandler { db: MemDatabase::new() };
    cats.add(&Category::new("solo", Some(""), None)).unwrap();
    let c = cats.get("solo").unwrap();
    assert_eq!(c.parent, None);
}

#[test]
fn category_deleted_parent_reads_tombstone() {
    let mut cats: CategoryHandler<MemDatabase<DbCategory>> =
        CategoryHandler { db: MemDatabase::new() };
    cats.add(&Category::new("parent", None, None)).unwrap();
    cats.add(&Category::new("child", Some("parent"), None)).unwrap();
    cats.delete("parent").unwrap();
    let c = cats.get("child").unwrap();
    assert_eq!(c.parent.as_deref(), Some("__DELETE__"));
}

#[test]
fn package_type_text_round_trips() {
    let mut pkgs: PackageHandler<MemDatabase<DbPackage>> =
        PackageHandler { db: MemDatabase::new() };
    pkgs.add(&Package::new("a", PackageType::Smt, None)).unwrap();
    pkgs.add(&Package::new("b", PackageType::Tht, None)).unwrap();
    pkgs.add(&Package::new("c", PackageType::Others, None)).unwrap();
    assert!(matches!(pkgs.get("a").unwrap().pkg_type, PackageType::Smt));
    assert!(matches!(pkgs.get("b").unwrap().pkg_type, PackageType::Tht));
    assert!(matches!(pkgs.get("c").unwrap().pkg_type, PackageType::Others));
}

#[test]
fn part_custom_fields_and_suppliers_survive() {
    let mut s = (
        CategoryHandler::<MemDatabase<DbCategory>> { db: MemDatabase::new() },
        PackageHandler::<MemDatabase<DbPackage>> { db: MemDatabase::new() },
        ManufacturerHandler::<MemDatabase<DbManufacturer>> { db: MemDatabase::new() },
        PartHandler::<MemDatabase<DbPart>> { db: MemDatabase::new() },
    );
    s.0.add(&Category::new("C", None, None)).unwrap();
    let mut p = Part::new("P", "C", 7);
    p.custom_fields.push(elebox::db::CustomField {
        field_type: elebox::db::CustomFieldType::Link,
        name: "doc".to_string(),
        value: "https://example.net/doc".to_string(),
    });
    p.suppliers.push(elebox::db::Supplier {
        name: "shop".to_string(),
        link: "https://example.net/shop".to_string(),
        price: Some("0.8".to_string()),
        note: "reel".to_string(),
    });
    s.3.add(&s.0.db, &s.1.db, &s.2.db, &p).unwrap();

    let got = s.3.get(&s.0.db, &s.1.db, &s.2.db, "P").unwrap();
    assert_eq!(got.custom_fields.len(), 1);
    assert_eq!(got.custom_fields[0].name, "doc");
    assert_eq!(got.suppliers.len(), 1);
    assert_eq!(got.suppliers[0].price.as_deref(), Some("0.8"));
}

#[test]
fn part_add_requires_category() {
    let cats: CategoryHandler<MemDatabase<DbCategory>> =
        CategoryHandler { db: MemDatabase::new() };
    let pkgs: PackageHandler<MemDatabase<DbPackage>> =
        PackageHandler { db: MemDatabase::new() };
    let mfrs: ManufacturerHandler<MemDatabase<DbManufacturer>> =
        ManufacturerHandler { db: MemDatabase::new() };
    let mut parts: PartHandler<MemDatabase<DbPart>> = PartHandler { db: MemDatabase::new() };

    let res = parts.add(&cats.db, &pkgs.db, &mfrs.db, &Part::new("P", "ghost", 1));
    assert!(matches!(
        res,
        Err(EleboxError::NotExists(k, n)) if k == "category" && n == "ghost"
    ));
    assert!(parts.list(&cats.db, &pkgs.db, &mfrs.db).unwrap().is_empty());
}

#[test]
fn part_update_requires_category() {
    let mut cats: CategoryHandler<MemDatabase<DbCategory>> =
        CategoryHandler { db: MemDatabase::new() };
    let pkgs: PackageHandler<MemDatabase<DbPackage>> =
        PackageHandler { db: MemDatabase::new() };
    let mfrs: ManufacturerHandler<MemDatabase<DbManufacturer>> =
        ManufacturerHandler { db: MemDatabase::new() };
    let mut parts: PartHandler<MemDatabase<DbPart>> = PartHandler { db: MemDatabase::new() };

    cats.add(&Category::new("C", None, None)).unwrap();
    parts.add(&cats.db, &pkgs.db, &mfrs.db, &Part::new("P", "C", 1)).unwrap();

    let res = parts.update(&cats.db, &pkgs.db, &mfrs.db, "P", &Part::new("P", "ghost", 2));
    assert!(matches!(
        res,
        Err(EleboxError::NotExists(k, n)) if k == "category" && n == "ghost"
    ));
    // The stored record is untouched.
    let p = parts.get(&cats.db, &pkgs.db, &mfrs.db, "P").unwrap();
    assert_eq!(p.category, "C");
    assert_eq!(p.quantity, 1);
}

#[test]
fn part_update_resolves_new_references() {
    let mut cats: CategoryHandler<MemDatabase<DbCategory>> =
        CategoryHandler { db: MemDatabase::new() };
    let pkgs: PackageHandler<MemDatabase<DbPackage>> =
        PackageHandler { db: MemDatabase::new() };
    let mfrs: ManufacturerHandler<MemDatabase<DbManufacturer>> =
        ManufacturerHandler { db: MemDatabase::new() };
    let mut parts: PartHandler<MemDatabase<DbPart>> = PartHandler { db: MemDatabase::new() };

    cats.add(&Category::new("C1", None, None)).unwrap();
    cats.add(&Category::new("C2", None, None)).unwrap();
    parts.add(&cats.db, &pkgs.db, &mfrs.db, &Part::new("P", "C1", 1)).unwrap();
    parts
        .update(&cats.db, &pkgs.db, &mfrs.db, "P", &Part::new("P", "C2", 2))
        .unwrap();
    let p = parts.get(&cats.db, &pkgs.db, &mfrs.db, "P").unwrap();
    assert_eq!(p.category, "C2");
    assert_eq!(p.quantity, 2);
}

#[test]
fn part_type_add_get_list() {
    let mut db: MemDatabase<DbPartType> = MemDatabase::new();
    let root = PartType { name: "root type".to_string(), parent: None };
    root.add(&mut db).unwrap();
    let child = PartType { name: "child type".to_string(), parent: Some("root type".to_string()) };
    child.add(&mut db).unwrap();

    assert!(matches!(
        root.add(&mut db),
        Err(EleboxError::AlreadyExists(_, n)) if n == "root type"
    ));
    let missing = PartType { name: "x".to_string(), parent: Some("ghost".to_string()) };
    assert!(matches!(missing.add(&mut db), Err(EleboxError::NotExists(_, _))));

    let got = PartType::get(&db, "child type").unwrap();
    assert_eq!(got.parent.as_deref(), Some("root type"));

    let all = PartType::list(&db).unwrap();
    assert_eq!(all.len(), 2);
    assert_eq!(all[0].name, "root type");
    assert_eq!(all[0].parent, None);
    assert_eq!(all[1].parent.as_deref(), Some("root type"));
}

#[test]
fn part_type_delete_by_name_returns_id() {
    let mut db: MemDatabase<DbPartType> = MemDatabase::new();
    let t = PartType { name: "t".to_string(), parent: None };
    t.add(&mut db).unwrap();
    let id = db.get_id("t").unwrap();
    let deleted = PartType::delete_by_name(&mut db, "t").unwrap();
    assert_eq!(deleted, id);
    assert!(matches!(
        PartType::delete_by_name(&mut db, "t"),
        Err(EleboxError::NotExists(_, _))
    ));
}

#[test]
fn part_type_update_rewrites_in_place() {
    let mut db: MemDatabase<DbPartType> = MemDatabase::new();
    let a = PartType { name: "a".to_string(), parent: None };
    a.add(&mut db).unwrap();
    let id = db.get_id("a").unwrap();
    PartType::update(&mut db, "a", Some("b"), None).unwrap();
    // The record is rewritten under its existing id; the old name is gone.
    let all = PartType::list(&db).unwrap();
    assert_eq!(all.len(), 1);
    assert_eq!(all[0].name, "b");
    assert_eq!(db.get_id("b").unwrap(), id);
    assert!(db.get_id("a").is_err());

    assert!(matches!(
        PartType::update(&mut db, "b", None, Some("ghost")),
        Err(EleboxError::NotExists(_, _))
    ));
}

#[test]
fn category_import_unresolvable_parent_is_fatal() {
    let mut cats: CategoryHandler<MemDatabase<DbCategory>> =
        CategoryHandler { db: MemDatabase::new() };
    let batch = vec![
        Category::new("A", None, None),
        Category::new("X", Some("ghost"), None),
        Category::new("B", None, None),
    ];
    let res = cats.import(batch);
    assert!(matches!(res, Err(EleboxError::NotExists(_, _))));
    // The import stops at the malformed record; what preceded it stays.
    let names: Vec<String> = cats.list().unwrap().into_iter().map(|c| c.name).collect();
    assert_eq!(names, vec!["A".to_string()]);
}

#[test]
fn error_messages_read_as_expected() {
    let e = EleboxError::AlreadyExists("category".to_string(), "MCU".to_string());
    assert_eq!(e.message(), "category MCU already exists");
    let e = EleboxError::NotExists("part".to_string(), "R1".to_string());
    assert_eq!(e.message(), "part R1 does not exists");
    let e = EleboxError::InventoryShortage("R1".to_string());
    assert_eq!(e.message(), "Part R1 not enough stock");
    let e = EleboxError::DatabaseError(DbError::AccessFailed("db".to_string()));
    assert_eq!(e.message(), "database error db access failed");
    let e = DbError::CannotOpenDb("f.db".to_string());
    assert_eq!(e.message(), "cannot open or connect database f.db");
    let e = DbError::CannotOpenBucket("parts".to_string());
    assert_eq!(e.message(), "cannot open bucket parts");
    let e = DbError::NotExists("parts".to_string());
    assert_eq!(e.message(), "parts does not exists");
}

#[test]
fn default_data_seeds_fresh_store() {
    let mut cats: CategoryHandler<MemDatabase<DbCategory>> =
        CategoryHandler { db: MemDatabase::new() };
    let mut pkgs: PackageHandler<MemDatabase<DbPackage>> =
        PackageHandler { db: MemDatabase::new() };
    let mut mfrs: ManufacturerHandler<MemDatabase<DbManufacturer>> =
        ManufacturerHandler { db: MemDatabase::new() };
    let mut parts: PartHandler<MemDatabase<DbPart>> = PartHandler { db: MemDatabase::new() };

    create_default_db(&mut cats, &mut pkgs, &mut mfrs, &mut parts).unwrap();

    assert_eq!(cats.list().unwrap().len(), 24);
    assert_eq!(pkgs.list().unwrap().len(), 19);
    assert_eq!(mfrs.list().unwrap().len(), 9);
    assert_eq!(parts.list(&cats.db, &pkgs.db, &mfrs.db).unwrap().len(), 2);

    let ldo = cats.get("LDO").unwrap();
    assert_eq!(ldo.parent.as_deref(), Some("PMIC"));

    let rp = parts.get(&cats.db, &pkgs.db, &mfrs.db, "RP2040").unwrap();
    assert_eq!(rp.category, "MCU");
    assert_eq!(rp.quantity, 15);
    assert_eq!(rp.mfr.as_deref(), Some("Raspberry Pi"));

    // Seeding twice changes nothing: every name is already taken.
    create_default_db(&mut cats, &mut pkgs, &mut mfrs, &mut parts).unwrap();
    assert_eq!(cats.list().unwrap().len(), 24);
    assert_eq!(parts.list(&cats.db, &pkgs.db, &mfrs.db).unwrap().len(), 2);
}

#[test]
fn tree_cycle_is_cut_not_looped() {
    let mut cats: CategoryHandler<MemDatabase<DbCategory>> =
        CategoryHandler { db: MemDatabase::new() };
    // Two categories made mutually parented through renames.
    cats.add(&Category::new("a", None, None)).unwrap();
    cats.add(&Category::new("b", Some("a"), None)).unwrap();
    cats.update("a", &Category::new("a", Some("b"), None)).unwrap();

    // Neither is a root any more, so the forest is empty, and the builder
    // terminates rather than chasing the cycle.
    let forest = cats.get_tree().unwrap();
    assert_eq!(forest.len(), 0);
}

#[test]
fn manager_style_wiring_works_via_handlers() {
    // The composition root owns one store per entity kind and hands each
    // handler a borrow of the others for reference resolution.
    let mut cats: CategoryHandler<MemDatabase<DbCategory>> =
        CategoryHandler { db: MemDatabase::new() };
    let pkgs: PackageHandler<MemDatabase<DbPackage>> = PackageHandler { db: MemDatabase::new() };
    let mfrs: ManufacturerHandler<MemDatabase<DbManufacturer>> =
        ManufacturerHandler { db: MemDatabase::new() };
    let mut parts: PartHandler<MemDatabase<DbPart>> = PartHandler { db: MemDatabase::new() };

    cats.db.init().unwrap();
    assert!(cats.db.check().is_ok());

    cats.add(&Category::new("C", None, None)).unwrap();
    parts.add(&cats.db, &pkgs.db, &mfrs.db, &Part::new("P", "C", 1)).unwrap();
    assert_eq!(parts.list(&cats.db, &pkgs.db, &mfrs.db).unwrap().len(), 1);
}
