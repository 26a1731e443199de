use elebox::category::{Category, CategoryHandler};
use elebox::comm::Handler;
use elebox::db::{DbCategory, DbManufacturer, DbPackage, DbPart};
use elebox::errors::EleboxError;
use elebox::manufacturer::{Manufacturer, ManufacturerHandler};
use elebox::mem_db::MemDatabase;
use elebox::package::{Package, PackageHandler, PackageType};
use elebox::part::{Part, PartHandler};
use elebox::transfer::{export, import};

struct Store {
    cats: CategoryHandler<MemDatabase<DbCategory>>,
    pkgs: PackageHandler<MemDatabase<DbPackage>>,
    mfrs: ManufacturerHandler<MemDatabase<DbManufacturer>>,
    parts: PartHandler<MemDatabase<DbPart>>,
}

fn fresh_store() -> Store {
    Store {
        cats: CategoryHandler { db: MemDatabase::new() },
        pkgs: PackageHandler { db: MemDatabase::new() },
        mfrs: ManufacturerHandler { db: MemDatabase::new() },
        parts: PartHandler { db: MemDatabase::new() },
    }
}

#[test]
fn uniqueness_add_existing_name_fails() {
    let mut s = fresh_store();
    s.cats.add(&Category::new("MCU", None, None)).unwrap();
    s.pkgs.add(&Package::new("SOT-23", PackageType::Smt, None)).unwrap();
    s.mfrs.add(&Manufacturer::new("ST", None, None)).unwrap();
    s.parts
        .add(&s.cats.db, &s.pkgs.db, &s.mfrs.db, &Part::new("R1", "MCU", 1))
        .unwrap();

    assert!(matches!(
        s.cats.add(&Category::new("MCU", None, None)),
        Err(EleboxError::AlreadyExists(_, n)) if n == "MCU"
    ));
    assert!(matches!(
        s.pkgs.add(&Package::new("SOT-23", PackageType::Tht, None)),
        Err(EleboxError::AlreadyExists(_, n)) if n == "SOT-23"
    ));
    assert!(matches!(
        s.mfrs.add(&Manufacturer::new("ST", Some("x"), None)),
        Err(EleboxError::AlreadyExists(_, n)) if n == "ST"
    ));
    assert!(matches!(
        s.parts.add(&s.cats.db, &s.pkgs.db, &s.mfrs.db, &Part::new("R1", "MCU", 9)),
        Err(EleboxError::AlreadyExists(_, n)) if n == "R1"
    ));
}

#[test]
fn uniqueness_fresh_add_reads_back_unchanged() {
    let mut s = fresh_store();
    s.cats.add(&Category::new("MCU", None, None)).unwrap();
    s.pkgs
        .add(&Package::new("QFN-56", PackageType::Smt, Some("quad flat")))
        .unwrap();
    s.mfrs
        .add(&Manufacturer::new("Raspberry Pi", Some("RPi"), Some("https://example.net")))
        .unwrap();

    let m = s.mfrs.get("Raspberry Pi").unwrap();
    assert_eq!(m.name, "Raspberry Pi");
    assert_eq!(m.alias.as_deref(), Some("RPi"));
    assert_eq!(m.url.as_deref(), Some("https://example.net"));

    let p = s.pkgs.get("QFN-56").unwrap();
    assert!(matches!(p.pkg_type, PackageType::Smt));
    assert_eq!(p.alias.as_deref(), Some("quad flat"));

    let mut part = Part::new("RP2040", "MCU", 15);
    part.package = Some("QFN-56".to_string());
    part.mfr = Some("Raspberry Pi".to_string());
    s.parts.add(&s.cats.db, &s.pkgs.db, &s.mfrs.db, &part).unwrap();

    let got = s.parts.get(&s.cats.db, &s.pkgs.db, &s.mfrs.db, "RP2040").unwrap();
    assert_eq!(got.name, "RP2040");
    assert_eq!(got.quantity, 15);
    assert_eq!(got.category, "MCU");
    assert_eq!(got.package.as_deref(), Some("QFN-56"));
    assert_eq!(got.mfr.as_deref(), Some("Raspberry Pi"));
}

#[test]
fn rename_preserves_identity() {
    let mut s = fresh_store();
    s.cats.add(&Category::new("C", None, None)).unwrap();
    s.parts
        .add(&s.cats.db, &s.pkgs.db, &s.mfrs.db, &Part::new("P", "C", 1))
        .unwrap();

    s.cats.update("C", &Category::new("C2", None, None)).unwrap();

    let p = s.parts.get(&s.cats.db, &s.pkgs.db, &s.mfrs.db, "P").unwrap();
    assert_eq!(p.category, "C2");
}

#[test]
fn tombstone_on_delete() {
    let mut s = fresh_store();
    s.cats.add(&Category::new("C", None, None)).unwrap();
    s.mfrs.add(&Manufacturer::new("M", None, None)).unwrap();
    let mut with_mfr = Part::new("P", "C", 1);
    with_mfr.mfr = Some("M".to_string());
    s.parts.add(&s.cats.db, &s.pkgs.db, &s.mfrs.db, &with_mfr).unwrap();
    s.parts
        .add(&s.cats.db, &s.pkgs.db, &s.mfrs.db, &Part::new("Q", "C", 1))
        .unwrap();

    assert!(s.mfrs.delete("M").is_ok());

    let p = s.parts.get(&s.cats.db, &s.pkgs.db, &s.mfrs.db, "P").unwrap();
    assert_eq!(p.mfr.as_deref(), Some("__DELETE__"));

    // A part whose manufacturer was never set stays distinguishable.
    let q = s.parts.get(&s.cats.db, &s.pkgs.db, &s.mfrs.db, "Q").unwrap();
    assert_eq!(q.mfr, None);
}

#[test]
fn quantity_shortage() {
    let mut s = fresh_store();
    s.cats.add(&Category::new("C", None, None)).unwrap();
    s.parts
        .add(&s.cats.db, &s.pkgs.db, &s.mfrs.db, &Part::new("P", "C", 5))
        .unwrap();

    let res = s.parts.update_part_quantity("P", -6);
    assert!(matches!(res, Err(EleboxError::InventoryShortage(n)) if n == "P"));
    let p = s.parts.get(&s.cats.db, &s.pkgs.db, &s.mfrs.db, "P").unwrap();
    assert_eq!(p.quantity, 5);

    s.parts.update_part_quantity("P", -3).unwrap();
    let p = s.parts.get(&s.cats.db, &s.pkgs.db, &s.mfrs.db, "P").unwrap();
    assert_eq!(p.quantity, 2);

    s.parts.update_part_quantity("P", 40).unwrap();
    let p = s.parts.get(&s.cats.db, &s.pkgs.db, &s.mfrs.db, "P").unwrap();
    assert_eq!(p.quantity, 42);
}

#[test]
fn quantity_boundaries() {
    let mut s = fresh_store();
    s.cats.add(&Category::new("C", None, None)).unwrap();
    s.parts
        .add(&s.cats.db, &s.pkgs.db, &s.mfrs.db, &Part::new("P", "C", 65530))
        .unwrap();

    // Down to exactly zero is allowed.
    s.parts.update_part_quantity("P", -32768).unwrap();
    s.parts.update_part_quantity("P", -32762).unwrap();
    let p = s.parts.get(&s.cats.db, &s.pkgs.db, &s.mfrs.db, "P").unwrap();
    assert_eq!(p.quantity, 0);

    // One below zero is a shortage.
    assert!(matches!(
        s.parts.update_part_quantity("P", -1),
        Err(EleboxError::InventoryShortage(_))
    ));

    // Up to the top of the stored range is allowed.
    let mut t = fresh_store();
    t.cats.add(&Category::new("C", None, None)).unwrap();
    t.parts
        .add(&t.cats.db, &t.pkgs.db, &t.mfrs.db, &Part::new("Q", "C", 65530))
        .unwrap();
    t.parts.update_part_quantity("Q", 5).unwrap();
    let q = t.parts.get(&t.cats.db, &t.pkgs.db, &t.mfrs.db, "Q").unwrap();
    assert_eq!(q.quantity, u16::MAX);
}

#[test]
fn tree_reconstruction() {
    let mut s = fresh_store();
    s.cats.add(&Category::new("A", None, None)).unwrap();
    s.cats.add(&Category::new("B", Some("A"), None)).unwrap();
    s.cats.add(&Category::new("C", Some("A"), None)).unwrap();
    s.cats.add(&Category::new("D", Some("B"), None)).unwrap();

    let forest = s.cats.get_tree().unwrap();
    assert_eq!(forest.len(), 1);
    let a = &forest[0];
    assert_eq!(a.name, "A");
    assert_eq!(a.children.len(), 2);
    assert_eq!(a.children[0].name, "B");
    assert_eq!(a.children[1].name, "C");
    assert_eq!(a.children[0].children.len(), 1);
    assert_eq!(a.children[0].children[0].name, "D");
    assert_eq!(a.children[1].children.len(), 0);
}

fn sample_batches() -> (Vec<Category>, Vec<Package>, Vec<Manufacturer>, Vec<Part>) {
    // Categories deliberately in non-parent-first order.
    let cats = vec![
        Category::new("D", Some("B"), None),
        Category::new("B", Some("A"), None),
        Category::new("C", Some("A"), None),
        Category::new("A", None, None),
    ];
    let pkgs = vec![Package::new("SOT-23", PackageType::Smt, None)];
    let mfrs = vec![Manufacturer::new("M", None, None)];
    let mut p = Part::new("P", "A", 3);
    p.package = Some("SOT-23".to_string());
    p.mfr = Some("M".to_string());
    (cats, pkgs, mfrs, vec![p])
}

fn snapshot(s: &Store) -> (Vec<String>, Vec<String>, Vec<String>, Vec<String>) {
    let cats: Vec<String> = s
        .cats
        .list()
        .unwrap()
        .into_iter()
        .map(|c| format!("{:?} {:?} {:?}", c.name, c.parent, c.alias))
        .collect();
    let pkgs: Vec<String> = s
        .pkgs
        .list()
        .unwrap()
        .into_iter()
        .map(|p| format!("{:?} {:?} {:?}", p.name, p.pkg_type, p.alias))
        .collect();
    let mfrs: Vec<String> = s
        .mfrs
        .list()
        .unwrap()
        .into_iter()
        .map(|m| format!("{:?} {:?} {:?}", m.name, m.alias, m.url))
        .collect();
    let parts: Vec<String> = s
        .parts
        .list(&s.cats.db, &s.pkgs.db, &s.mfrs.db)
        .unwrap()
        .into_iter()
        .map(|p| format!("{:?} {} {:?} {:?} {:?}", p.name, p.quantity, p.category, p.package, p.mfr))
        .collect();
    (cats, pkgs, mfrs, parts)
}

#[test]
fn import_idempotence() {
    let mut s = fresh_store();
    let (c, k, m, p) = sample_batches();
    import(&mut s.cats, &mut s.pkgs, &mut s.mfrs, &mut s.parts, c, k, m, p).unwrap();
    let once = snapshot(&s);

    let (c, k, m, p) = sample_batches();
    import(&mut s.cats, &mut s.pkgs, &mut s.mfrs, &mut s.parts, c, k, m, p).unwrap();
    let twice = snapshot(&s);

    assert_eq!(once, twice);
    assert_eq!(once.0.len(), 4);
    assert_eq!(once.3.len(), 1);
}

#[test]
fn import_dependency_ordering() {
    let mut s = fresh_store();
    let (c, k, m, p) = sample_batches();
    import(&mut s.cats, &mut s.pkgs, &mut s.mfrs, &mut s.parts, c, k, m, p).unwrap();

    // Every child's parent resolves by name even though children came first.
    let d = s.cats.get("D").unwrap();
    assert_eq!(d.parent.as_deref(), Some("B"));
    let b = s.cats.get("B").unwrap();
    assert_eq!(b.parent.as_deref(), Some("A"));
    let c = s.cats.get("C").unwrap();
    assert_eq!(c.parent.as_deref(), Some("A"));
    let a = s.cats.get("A").unwrap();
    assert_eq!(a.parent, None);

    let p = s.parts.get(&s.cats.db, &s.pkgs.db, &s.mfrs.db, "P").unwrap();
    assert_eq!(p.category, "A");
}

#[test]
fn export_then_import_restores_state() {
    let mut s = fresh_store();
    let (c, k, m, p) = sample_batches();
    import(&mut s.cats, &mut s.pkgs, &mut s.mfrs, &mut s.parts, c, k, m, p).unwrap();
    let before = snapshot(&s);

    let (ec, ek, em, ep) = export(&s.cats, &s.pkgs, &s.mfrs, &s.parts).unwrap();

    let mut t = fresh_store();
    import(&mut t.cats, &mut t.pkgs, &mut t.mfrs, &mut t.parts, ec, ek, em, ep).unwrap();
    assert_eq!(snapshot(&t), before);
}
