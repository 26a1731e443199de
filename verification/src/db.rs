//! The stored shapes of the four entity kinds, and the traits a record
//! satisfies to live in a store partition.

use vstd::prelude::*;

verus! {

/// Synthetic storage key: opaque, randomly generated, never reused.
pub type Id = String;

/// Spec-level shape shared by all stored records: each exposes the name
/// under which callers address it.
pub trait ItemView: Sized {
    /// The unique name carried by this record.
    spec fn name_of(self) -> Seq<char>;
}

/// A record that can report its own name.
pub trait Named: View where Self::V: ItemView {
    fn get_name(&self) -> (r: String)
        ensures
            r@ == self@.name_of(),
    ;
}

/// A record that binds to a fixed partition of the store.
pub trait DatabaseItem: Named + Sized where Self::V: ItemView {
    /// The partition name, at spec level.
    spec fn spec_bucket() -> Seq<char>;

    /// The partition this record kind is stored in.
    fn get_bucket() -> (r: String)
        ensures
            r@ == Self::spec_bucket(),
    ;

    /// A copy of the record with the same view.
    fn dup(&self) -> (r: Self)
        ensures
            r@ == self@,
    ;
}

/// Converts an optional string to its spec view.
pub open spec fn opt_view(o: Option<String>) -> Option<Seq<char>> {
    match o {
        Some(s) => Some(s@),
        None => None,
    }
}

/// An absent optional field is stored as the empty string.
pub open spec fn or_empty(o: Option<Seq<char>>) -> Seq<char> {
    match o {
        Some(s) => s,
        None => Seq::empty(),
    }
}

/// A stored empty string reads back as an absent optional field.
pub open spec fn none_if_empty(s: Seq<char>) -> Option<Seq<char>> {
    if s.len() == 0 {
        None
    } else {
        Some(s)
    }
}

/// Clones the string, or yields the empty string for `None`.
pub fn clone_or_empty(o: &Option<String>) -> (r: String)
    ensures
        r@ == or_empty(opt_view(*o)),
{
    match o {
        Some(s) => s.clone(),
        None => String::new(),
    }
}

/// Clones the string, unless it is empty, which stands for an absent field.
pub fn clone_none_if_empty(s: &String) -> (r: Option<String>)
    ensures
        opt_view(r) == none_if_empty(s@),
{
    if s.as_str().is_empty() {
        None
    } else {
        Some(s.clone())
    }
}

/// How a custom field's value is meant to be shown.
#[derive(Debug, Clone, Copy, PartialEq, Eq, Structural)]
pub enum CustomFieldType {
    Normal,
    Link,
}

/// A free-form named attribute attached to a part.
#[derive(Debug, Clone)]
pub struct CustomField {
    pub field_type: CustomFieldType,
    pub name: String,
    pub value: String,
}

#[verifier::ext_equal]
pub struct CustomFieldView {
    pub field_type: CustomFieldType,
    pub name: Seq<char>,
    pub value: Seq<char>,
}

impl View for CustomField {
    type V = CustomFieldView;

    open spec fn view(&self) -> CustomFieldView {
        CustomFieldView {
            field_type: self.field_type,
            name: self.name@,
            value: self.value@,
        }
    }
}

impl CustomField {
    /// A copy with the same view.
    pub fn dup(&self) -> (r: Self)
        ensures
            r@ == self@,
    {
        CustomField {
            field_type: self.field_type,
            name: self.name.clone(),
            value: self.value.clone(),
        }
    }
}

/// Where a part can be bought. The price is carried as decimal text so the
/// record stays a plain value; callers parse it if they need a number.
#[derive(Debug, Clone)]
pub struct Supplier {
    pub name: String,
    pub link: String,
    pub price: Option<String>,
    pub note: String,
}

#[verifier::ext_equal]
pub struct SupplierView {
    pub name: Seq<char>,
    pub link: Seq<char>,
    pub price: Option<Seq<char>>,
    pub note: Seq<char>,
}

impl View for Supplier {
    type V = SupplierView;

    open spec fn view(&self) -> SupplierView {
        SupplierView {
            name: self.name@,
            link: self.link@,
            price: opt_view(self.price),
            note: self.note@,
        }
    }
}

impl Supplier {
    /// A copy with the same view.
    pub fn dup(&self) -> (r: Self)
        ensures
            r@ == self@,
    {
        Supplier {
            name: self.name.clone(),
            link: self.link.clone(),
            price: match &self.price {
                Some(p) => Some(p.clone()),
                None => None,
            },
            note: self.note.clone(),
        }
    }
}

/// Stored shape of a part. References to category, package and manufacturer
/// are synthetic ids; an empty id means the reference was never set.
#[derive(Debug, Clone)]
pub struct DbPart {
    pub name: String,
    pub quantity: u16,
    pub category_id: Id,
    pub package_id: Id,
    pub package_detail: String,
    pub mfr_id: Id,
    pub alias: String,
    pub description: String,
    pub location: String,
    pub mfr_no: String,
    pub datasheet_link: String,
    pub product_link: String,
    pub image_link: String,
    pub custom_fields: Vec<CustomField>,
    pub suppliers: Vec<Supplier>,
    pub starred: bool,
}

#[verifier::ext_equal]
pub struct DbPartView {
    pub name: Seq<char>,
    pub quantity: u16,
    pub category_id: Seq<char>,
    pub package_id: Seq<char>,
    pub package_detail: Seq<char>,
    pub mfr_id: Seq<char>,
    pub alias: Seq<char>,
    pub description: Seq<char>,
    pub location: Seq<char>,
    pub mfr_no: Seq<char>,
    pub datasheet_link: Seq<char>,
    pub product_link: Seq<char>,
    pub image_link: Seq<char>,
    pub custom_fields: Seq<CustomFieldView>,
    pub suppliers: Seq<SupplierView>,
    pub starred: bool,
}

impl View for DbPart {
    type V = DbPartView;

    open spec fn view(&self) -> DbPartView {
        DbPartView {
            name: self.name@,
            quantity: self.quantity,
            category_id: self.category_id@,
            package_id: self.package_id@,
            package_detail: self.package_detail@,
            mfr_id: self.mfr_id@,
            alias: self.alias@,
            description: self.description@,
            location: self.location@,
            mfr_no: self.mfr_no@,
            datasheet_link: self.datasheet_link@,
            product_link: self.product_link@,
            image_link: self.image_link@,
            custom_fields: self.custom_fields@.map_values(|c: CustomField| c@),
            suppliers: self.suppliers@.map_values(|s: Supplier| s@),
            starred: self.starred,
        }
    }
}

impl ItemView for DbPartView {
    open spec fn name_of(self) -> Seq<char> {
        self.name
    }
}

impl Named for DbPart {
    fn get_name(&self) -> (r: String) {
        self.name.clone()
    }
}

/// Copies a list of custom fields, element views preserved.
pub(crate) fn dup_custom_fields(v: &Vec<CustomField>) -> (r: Vec<CustomField>)
    ensures
        r@.map_values(|c: CustomField| c@) == v@.map_values(|c: CustomField| c@),
{
    let mut r: Vec<CustomField> = Vec::new();
    let mut i: usize = 0;
    while i < v.len()
        invariant
            i <= v.len(),
            r@.len() == i,
            forall|j: int| 0 <= j < i ==> (#[trigger] r@[j])@ == v@[j]@,
        decreases v.len() - i,
    {
        r.push(v[i].dup());
        i = i + 1;
    }
    proof {
        assert(r@.map_values(|c: CustomField| c@) =~= v@.map_values(|c: CustomField| c@));
    }
    r
}

/// Copies a list of suppliers, element views preserved.
pub(crate) fn dup_suppliers(v: &Vec<Supplier>) -> (r: Vec<Supplier>)
    ensures
        r@.map_values(|s: Supplier| s@) == v@.map_values(|s: Supplier| s@),
{
    let mut r: Vec<Supplier> = Vec::new();
    let mut i: usize = 0;
    while i < v.len()
        invariant
            i <= v.len(),
            r@.len() == i,
            forall|j: int| 0 <= j < i ==> (#[trigger] r@[j])@ == v@[j]@,
        decreases v.len() - i,
    {
        r.push(v[i].dup());
        i = i + 1;
    }
    proof {
        assert(r@.map_values(|s: Supplier| s@) =~= v@.map_values(|s: Supplier| s@));
    }
    r
}

impl DatabaseItem for DbPart {
    open spec fn spec_bucket() -> Seq<char> {
        "parts"@
    }

    fn get_bucket() -> (r: String) {
        String::from_str("parts")
    }

    fn dup(&self) -> (r: Self) {
        DbPart {
            name: self.name.clone(),
            quantity: self.quantity,
            category_id: self.category_id.clone(),
            package_id: self.package_id.clone(),
            package_detail: self.package_detail.clone(),
            mfr_id: self.mfr_id.clone(),
            alias: self.alias.clone(),
            description: self.description.clone(),
            location: self.location.clone(),
            mfr_no: self.mfr_no.clone(),
            datasheet_link: self.datasheet_link.clone(),
            product_link: self.product_link.clone(),
            image_link: self.image_link.clone(),
            custom_fields: dup_custom_fields(&self.custom_fields),
            suppliers: dup_suppliers(&self.suppliers),
            starred: self.starred,
        }
    }
}

/// Stored shape of a category. `parent_id` holds the parent's synthetic id,
/// or the reserved root marker for a top-level category.
#[derive(Debug, Clone)]
pub struct DbCategory {
    pub name: String,
    pub parent_id: Id,
    pub alias: String,
}

#[verifier::ext_equal]
pub struct DbCategoryView {
    pub name: Seq<char>,
    pub parent_id: Seq<char>,
    pub alias: Seq<char>,
}

impl View for DbCategory {
    type V = DbCategoryView;

    open spec fn view(&self) -> DbCategoryView {
        DbCategoryView { name: self.name@, parent_id: self.parent_id@, alias: self.alias@ }
    }
}

impl ItemView for DbCategoryView {
    open spec fn name_of(self) -> Seq<char> {
        self.name
    }
}

impl Named for DbCategory {
    fn get_name(&self) -> (r: String) {
        self.name.clone()
    }
}

impl DatabaseItem for DbCategory {
    open spec fn spec_bucket() -> Seq<char> {
        "categories"@
    }

    fn get_bucket() -> (r: String) {
        String::from_str("categories")
    }

    fn dup(&self) -> (r: Self) {
        DbCategory {
            name: self.name.clone(),
            parent_id: self.parent_id.clone(),
            alias: self.alias.clone(),
        }
    }
}

/// Stored shape of a package. The mounting kind is kept as its lower-case
/// text form.
#[derive(Debug, Clone)]
pub struct DbPackage {
    pub pkg_type: String,
    pub name: String,
    pub alias: String,
}

#[verifier::ext_equal]
pub struct DbPackageView {
    pub pkg_type: Seq<char>,
    pub name: Seq<char>,
    pub alias: Seq<char>,
}

impl View for DbPackage {
    type V = DbPackageView;

    open spec fn view(&self) -> DbPackageView {
        DbPackageView { pkg_type: self.pkg_type@, name: self.name@, alias: self.alias@ }
    }
}

impl ItemView for DbPackageView {
    open spec fn name_of(self) -> Seq<char> {
        self.name
    }
}

impl Named for DbPackage {
    fn get_name(&self) -> (r: String) {
        self.name.clone()
    }
}

impl DatabaseItem for DbPackage {
    open spec fn spec_bucket() -> Seq<char> {
        "packages"@
    }

    fn get_bucket() -> (r: String) {
        String::from_str("packages")
    }

    fn dup(&self) -> (r: Self) {
        DbPackage {
            pkg_type: self.pkg_type.clone(),
            name: self.name.clone(),
            alias: self.alias.clone(),
        }
    }
}

/// Stored shape of a manufacturer. Unset optional fields are kept as empty
/// strings.
#[derive(Debug, Clone)]
pub struct DbManufacturer {
    pub name: String,
    pub alias: String,
    pub url: String,
}

#[verifier::ext_equal]
pub struct DbManufacturerView {
    pub name: Seq<char>,
    pub alias: Seq<char>,
    pub url: Seq<char>,
}

impl View for DbManufacturer {
    type V = DbManufacturerView;

    open spec fn view(&self) -> DbManufacturerView {
        DbManufacturerView { name: self.name@, alias: self.alias@, url: self.url@ }
    }
}

impl ItemView for DbManufacturerView {
    open spec fn name_of(self) -> Seq<char> {
        self.name
    }
}

impl Named for DbManufacturer {
    fn get_name(&self) -> (r: String) {
        self.name.clone()
    }
}

impl DatabaseItem for DbManufacturer {
    open spec fn spec_bucket() -> Seq<char> {
        "manufacturers"@
    }

    fn get_bucket() -> (r: String) {
        String::from_str("manufacturers")
    }

    fn dup(&self) -> (r: Self) {
        DbManufacturer {
            name: self.name.clone(),
            alias: self.alias.clone(),
            url: self.url.clone(),
        }
    }
}

} // verus!
