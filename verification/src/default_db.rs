//! The starter data set a fresh store is seeded with.

use vstd::prelude::*;

use crate::category::{Category, CategoryHandler};
use crate::comm::{extends, has_name, Database, ids_unique};
use crate::db::{CustomField, CustomFieldType, DbCategory, DbManufacturer, DbPackage, DbPart,
    Supplier};
use crate::errors::EleboxError;
use crate::manufacturer::{Manufacturer, ManufacturerHandler};
use crate::package::{Package, PackageHandler, PackageType};
use crate::part::{Part, PartHandler};
use crate::transfer::import;

verus! {

/// Names of the categories a fresh store is seeded with.
pub open spec fn default_category_names() -> Seq<Seq<char>> {
    seq![
        "Resistors"@, "Variable Resistors"@, "Capacitors"@, "Electrolytic Caps"@,
        "Tantalum Caps"@, "Ceramic Caps"@, "Inductors"@, "Crystals"@, "Oscillators"@,
        "Diodes"@, "LED"@, "TVS"@, "MCU"@, "PMIC"@, "LDO"@, "DC-DC Regulators"@,
        "Buck Converters"@, "Boost Converters"@, "Connectors"@, "Buttons"@, "Transistors"@,
        "N-MOSFETs"@, "P-MOSFETs"@, "Modules"@,
    ]
}

/// Names of the packages a fresh store is seeded with.
pub open spec fn default_package_names() -> Seq<Seq<char>> {
    seq![
        "SMD 01005"@, "SMD 0201"@, "SMD 0402"@, "SMD 0603"@, "SMD 0805"@, "SMD 1008"@,
        "SMD 1206"@, "SMD 1210"@, "SMD 1806"@, "SMD 1812"@, "SMD 2010"@, "SMD 2512"@,
        "SOT-23"@, "SOT-23-5"@, "SOT-223"@, "SOIC-8"@, "QFN-56"@, "TO-92"@, "TO-220"@,
    ]
}

/// Names of the manufacturers a fresh store is seeded with.
pub open spec fn default_manufacturer_names() -> Seq<Seq<char>> {
    seq![
        "Raspberry Pi"@, "Texas Instruments"@, "Analog Devices"@, "STMicroelectronics"@,
        "Microchip"@, "Infineon"@, "ON Semiconductor"@, "ROHM"@, "Richtek"@,
    ]
}

/// Names of the sample parts a fresh store is seeded with.
pub open spec fn default_part_names() -> Seq<Seq<char>> {
    seq!["RP2040"@, "RT9183 3.3"@]
}

fn default_categories() -> (r: Vec<Category>)
    ensures
        r@.len() == default_category_names().len(),
        forall|i: int| 0 <= i < r@.len()
            ==> (#[trigger] r@[i])@.name == default_category_names()[i],
{
    let mut v: Vec<Category> = Vec::new();
    v.push(Category::new("Resistors", None, None));
    v.push(Category::new("Variable Resistors", Some("Resistors"), None));
    v.push(Category::new("Capacitors", None, None));
    v.push(Category::new("Electrolytic Caps", Some("Capacitors"), None));
    v.push(Category::new("Tantalum Caps", Some("Capacitors"), None));
    v.push(Category::new("Ceramic Caps", Some("Capacitors"), None));
    v.push(Category::new("Inductors", None, None));
    v.push(Category::new("Crystals", None, None));
    v.push(Category::new("Oscillators", None, None));
    v.push(Category::new("Diodes", None, None));
    v.push(Category::new("LED", Some("Diodes"), None));
    v.push(Category::new("TVS", Some("Diodes"), Some("Transient-voltage-suppression diode")));
    v.push(Category::new("MCU", None, Some("Microcontroller")));
    v.push(Category::new("PMIC", None, Some("Power Management IC")));
    v.push(Category::new("LDO", Some("PMIC"), Some("Linear, Low Drop Out Regulators")));
    v.push(Category::new("DC-DC Regulators", Some("PMIC"), None));
    v.push(Category::new("Buck Converters", Some("DC-DC Regulators"), None));
    v.push(Category::new("Boost Converters", Some("DC-DC Regulators"), None));
    v.push(Category::new("Connectors", None, None));
    v.push(Category::new("Buttons", None, None));
    v.push(Category::new("Transistors", None, None));
    v.push(Category::new("N-MOSFETs", Some("Transistors"), None));
    v.push(Category::new("P-MOSFETs", Some("Transistors"), None));
    v.push(Category::new("Modules", None, None));
    v
}

fn default_packages() -> (r: Vec<Package>)
    ensures
        r@.len() == default_package_names().len(),
        forall|i: int| 0 <= i < r@.len()
            ==> (#[trigger] r@[i])@.name == default_package_names()[i],
{
    let mut v: Vec<Package> = Vec::new();
    v.push(Package::new("SMD 01005", PackageType::Smt, Some("Metric 0402")));
    v.push(Package::new("SMD 0201", PackageType::Smt, Some("Metric 0603")));
    v.push(Package::new("SMD 0402", PackageType::Smt, Some("Metric 1005")));
    v.push(Package::new("SMD 0603", PackageType::Smt, Some("Metric 1608")));
    v.push(Package::new("SMD 0805", PackageType::Smt, Some("Metric 2012")));
    v.push(Package::new("SMD 1008", PackageType::Smt, Some("Metric 2520")));
    v.push(Package::new("SMD 1206", PackageType::Smt, Some("Metric 3216")));
    v.push(Package::new("SMD 1210", PackageType::Smt, Some("Metric 3225")));
    v.push(Package::new("SMD 1806", PackageType::Smt, Some("Metric 4516")));
    v.push(Package::new("SMD 1812", PackageType::Smt, Some("Metric 4532")));
    v.push(Package::new("SMD 2010", PackageType::Smt, Some("Metric 5025")));
    v.push(Package::new("SMD 2512", PackageType::Smt, Some("Metric 6332")));
    v.push(Package::new("SOT-23", PackageType::Smt, None));
    v.push(Package::new("SOT-23-5", PackageType::Smt, None));
    v.push(Package::new("SOT-223", PackageType::Smt, None));
    v.push(Package::new("SOIC-8", PackageType::Smt, None));
    v.push(Package::new("QFN-56", PackageType::Smt, None));
    v.push(Package::new("TO-92", PackageType::Tht, None));
    v.push(Package::new("TO-220", PackageType::Tht, None));
    v
}

fn default_manufacturers() -> (r: Vec<Manufacturer>)
    ensures
        r@.len() == default_manufacturer_names().len(),
        forall|i: int| 0 <= i < r@.len()
            ==> (#[trigger] r@[i])@.name == default_manufacturer_names()[i],
{
    let mut v: Vec<Manufacturer> = Vec::new();
    v.push(Manufacturer::new("Raspberry Pi", None, Some("https://www.raspberrypi.com/")));
    v.push(Manufacturer::new("Texas Instruments", Some("TI"), Some("https://www.ti.com/")));
    v.push(Manufacturer::new(
        "Analog Devices", Some("ADI"), Some("https://www.analog.com/en/index.html")));
    v.push(Manufacturer::new(
        "STMicroelectronics", Some("ST"), Some("https://www.st.com/content/st_com/en.html")));
    v.push(Manufacturer::new("Microchip", None, Some("https://www.microchip.com/")));
    v.push(Manufacturer::new("Infineon", None, Some("https://www.infineon.com/")));
    v.push(Manufacturer::new(
        "ON Semiconductor", Some("Onsemi"), Some("https://www.onsemi.com/")));
    v.push(Manufacturer::new("ROHM", None, Some("https://www.rohm.com/")));
    v.push(Manufacturer::new("Richtek", None, Some("https://www.richtek.com/")));
    v
}

fn rp2040() -> (r: Part)
    ensures
        r@.name == "RP2040"@,
{
    let mut p = Part::new("RP2040", "MCU", 15);
    p.alias = Some(String::from_str("RPi RP2040"));
    p.package = Some(String::from_str("QFN-56"));
    p.package_detail = Some(String::from_str("7x7mm P0.4mm 1EP3.2x3.2mm"));
    p.mfr = Some(String::from_str("Raspberry Pi"));
    p.mfr_no = Some(String::from_str("SC0914(7)"));
    p.datasheet_link = Some(String::from_str(
        "https://datasheets.raspberrypi.com/rp2040/rp2040-datasheet.pdf"));
    p.product_link = Some(String::from_str(
        "https://www.raspberrypi.com/documentation/microcontrollers/rp2040.html"));
    p.image_link = Some(String::from_str(
        "https://www.raspberrypi.com/documentation/microcontrollers/images/rp2040.jpg"));
    p.description = Some(String::from_str("Dual ARM Cortex-M0+ 133MHz, 264KB SRAM"));
    p.location = Some(String::from_str("Box #1"));
    p.custom_fields.push(CustomField {
        field_type: CustomFieldType::Normal,
        name: String::from_str("Mouser #"),
        value: String::from_str("358-SC09147"),
    });
    p.custom_fields.push(CustomField {
        field_type: CustomFieldType::Normal,
        name: String::from_str("DigiKey #"),
        value: String::from_str("2648-SC0914(7)CT-ND"),
    });
    p.suppliers.push(Supplier {
        name: String::from_str("Mouser"),
        link: String::from_str("https://www.mouser.com/ProductDetail/Raspberry-Pi/SC09147"),
        price: Some(String::from_str("0.8")),
        note: String::from_str("7' reel"),
    });
    p.suppliers.push(Supplier {
        name: String::from_str("DigiKey"),
        link: String::from_str(
            "https://www.digikey.com/en/products/detail/raspberry-pi/SC0914-7/14306009"),
        price: Some(String::from_str("0.8")),
        note: String::from_str("7' reel"),
    });
    p
}

fn rt9183() -> (r: Part)
    ensures
        r@.name == "RT9183 3.3"@,
{
    let mut p = Part::new("RT9183 3.3", "LDO", 55);
    p.package = Some(String::from_str("SOT-223"));
    p.package_detail = Some(String::from_str("TO-261-4, TO-261AA"));
    p.alias = Some(String::from_str("RT9183"));
    p.description = Some(String::from_str(
        "ultra low-dropout voltage, high output current with low ground current"));
    p.location = Some(String::from_str("Box #1"));
    p.mfr = Some(String::from_str("Richtek"));
    p.mfr_no = Some(String::from_str("RT9183-33GG"));
    p.datasheet_link = Some(String::from_str(
        "https://www.richtek.com/assets/product_file/RT9183/DS9183-24.pdf"));
    p.product_link = Some(String::from_str(
        "https://www.richtek.com/Products/Linear%20Regulator/RT9183"));
    p.image_link = Some(String::from_str(
        "https://www.richtek.com/~/media/Richtek/Products/ProductSpecs/RT9183/en/Version1/40038ommuf.jpg"));
    p.custom_fields.push(CustomField {
        field_type: CustomFieldType::Normal,
        name: String::from_str("Voltage output"),
        value: String::from_str("3.3V"),
    });
    p.custom_fields.push(CustomField {
        field_type: CustomFieldType::Link,
        name: String::from_str("DigiKey Product index"),
        value: String::from_str(
            "https://www.digikey.tw/en/products/base-product/richtek-usa-inc/1028/RT9183/332527"),
    });
    p
}

fn default_parts() -> (r: Vec<Part>)
    ensures
        r@.len() == default_part_names().len(),
        forall|i: int| 0 <= i < r@.len()
            ==> (#[trigger] r@[i])@.name == default_part_names()[i],
{
    let mut v: Vec<Part> = Vec::new();
    v.push(rp2040());
    v.push(rt9183());
    v
}

/// Seeds the four collections with a starter data set: a category tree for
/// common component families, the usual package footprints, a handful of
/// manufacturers, and two sample parts. Existing records are never touched;
/// a record whose name is already taken is skipped.
pub fn create_default_db<C: Database<DbCategory>, K: Database<DbPackage>,
    M: Database<DbManufacturer>, P: Database<DbPart>>(
    cats: &mut CategoryHandler<C>,
    pkgs: &mut PackageHandler<K>,
    mfrs: &mut ManufacturerHandler<M>,
    parts: &mut PartHandler<P>,
) -> (r: Result<(), EleboxError>)
    requires
        ids_unique(old(cats).db.contents()),
        ids_unique(old(pkgs).db.contents()),
        ids_unique(old(mfrs).db.contents()),
        ids_unique(old(parts).db.contents()),
    ensures
        ids_unique(final(cats).db.contents()),
        ids_unique(final(pkgs).db.contents()),
        ids_unique(final(mfrs).db.contents()),
        ids_unique(final(parts).db.contents()),
        extends(final(cats).db.contents(), old(cats).db.contents()),
        extends(final(pkgs).db.contents(), old(pkgs).db.contents()),
        extends(final(mfrs).db.contents(), old(mfrs).db.contents()),
        extends(final(parts).db.contents(), old(parts).db.contents()),
        r is Ok ==> (forall|i: int| 0 <= i < default_category_names().len()
            ==> has_name(final(cats).db.contents(), #[trigger] default_category_names()[i]))
            && (forall|i: int| 0 <= i < default_package_names().len()
                ==> has_name(final(pkgs).db.contents(),
                    #[trigger] default_package_names()[i]))
            && (forall|i: int| 0 <= i < default_manufacturer_names().len()
                ==> has_name(final(mfrs).db.contents(),
                    #[trigger] default_manufacturer_names()[i]))
            && (forall|i: int| 0 <= i < default_part_names().len()
                ==> has_name(final(parts).db.contents(), #[trigger] default_part_names()[i])),
{
    let cat_items = default_categories();
    let pkg_items = default_packages();
    let mfr_items = default_manufacturers();
    let part_items = default_parts();
    let ghost cv = cat_items@;
    let ghost kv = pkg_items@;
    let ghost mv = mfr_items@;
    let ghost pv = part_items@;
    let r = import(cats, pkgs, mfrs, parts, cat_items, pkg_items, mfr_items, part_items);
    proof {
        if r is Ok {
            assert forall|i: int| 0 <= i < default_category_names().len()
                implies has_name(cats.db.contents(),
                    #[trigger] default_category_names()[i]) by {
                assert(has_name(cats.db.contents(), cv[i]@.name));
            }
            assert forall|i: int| 0 <= i < default_package_names().len()
                implies has_name(pkgs.db.contents(),
                    #[trigger] default_package_names()[i]) by {
                assert(has_name(pkgs.db.contents(), kv[i]@.name));
            }
            assert forall|i: int| 0 <= i < default_manufacturer_names().len()
                implies has_name(mfrs.db.contents(),
                    #[trigger] default_manufacturer_names()[i]) by {
                assert(has_name(mfrs.db.contents(), mv[i]@.name));
            }
            assert forall|i: int| 0 <= i < default_part_names().len()
                implies has_name(parts.db.contents(),
                    #[trigger] default_part_names()[i]) by {
                assert(has_name(parts.db.contents(), pv[i]@.name));
            }
        }
    }
    r
}

} // verus!
