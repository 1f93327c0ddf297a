use vstd::prelude::*;

use crate::quantity::{fancy_display, packaging_text, Quantity, Unit};
use crate::store::Record;

verus! {

/// A point in time: whole seconds since the Unix epoch, and nanoseconds past that second.
#[derive(Clone, Copy, Debug, PartialEq, Eq, Structural)]
pub struct Timestamp {
    pub secs: i64,
    pub nanos: u32,
}

/// Relies on `chrono::Utc::now` for the current time, read through `DateTime::timestamp` and
/// `DateTime::timestamp_subsec_nanos`; the latter stays below 2,000,000,000.
#[verifier::external_body]
fn utc_now() -> (r: Timestamp)
    ensures
        r.nanos < 2_000_000_000,
{
    let now = chrono::Utc::now();
    Timestamp { secs: now.timestamp(), nanos: now.timestamp_subsec_nanos() }
}

impl Timestamp {
    /// The current time.
    pub fn now() -> (r: Timestamp)
        ensures
            r.nanos < 2_000_000_000,
    {
        utc_now()
    }
}

/// A product of the catalog.
#[derive(Debug)]
pub struct Product {
    /// Product ID
    pub product_id: u32,
    /// Product name
    pub name: String,
    /// Product description
    pub description: String,
    /// Product unit
    pub unit: Unit,
    /// Related SKUs
    pub skus: Vec<u32>,
    /// Created by UID
    pub created_by: u32,
    /// Created at
    pub created_at: Timestamp,
}

/// What a product holds, as plain values.
pub struct ProductView {
    pub product_id: u32,
    pub name: Seq<char>,
    pub description: Seq<char>,
    pub unit: Unit,
    pub skus: Seq<u32>,
    pub created_by: u32,
    pub created_at: Timestamp,
}

impl View for Product {
    type V = ProductView;

    open spec fn view(&self) -> ProductView {
        ProductView {
            product_id: self.product_id,
            name: self.name@,
            description: self.description@,
            unit: self.unit,
            skus: self.skus@,
            created_by: self.created_by,
            created_at: self.created_at,
        }
    }
}

impl Clone for Product {
    fn clone(&self) -> (r: Self)
        ensures
            r@ == self@,
    {
        Product {
            product_id: self.product_id,
            name: self.name.clone(),
            description: self.description.clone(),
            unit: self.unit,
            skus: self.skus.clone(),
            created_by: self.created_by,
            created_at: self.created_at,
        }
    }
}

impl Product {
    /// Create new product object
    pub fn new(product_id: u32, name: String, description: String, unit: Unit, created_by: u32) -> (r: Self)
        ensures
            r@.product_id == product_id,
            r@.name == name@,
            r@.description == description@,
            r@.unit == unit,
            r@.skus == Seq::<u32>::empty(),
            r@.created_by == created_by,
    {
        Product {
            product_id,
            name,
            description,
            unit,
            skus: Vec::new(),
            created_by,
            created_at: Timestamp::now(),
        }
    }

    /// Update product data
    pub fn update(&mut self, name: String, description: String, unit: Unit) -> (r: &Self)
        ensures
            final(self)@ == (ProductView { name: name@, description: description@, unit, ..old(self)@ }),
            r@ == final(self)@,
    {
        self.name = name;
        self.description = description;
        self.unit = unit;
        self
    }

    /// Add related SKU
    pub fn add_sku(&mut self, sku: u32) -> (r: &Self)
        ensures
            final(self)@ == (ProductView { skus: old(self)@.skus.push(sku), ..old(self)@ }),
            r@ == final(self)@,
    {
        self.skus.push(sku);
        self
    }
}

impl Default for Product {
    fn default() -> (r: Self)
        ensures
            r@.product_id == 0,
            r@.name.len() == 0,
            r@.description.len() == 0,
            r@.unit == Unit::Milliliter,
            r@.skus.len() == 0,
            r@.created_by == 0,
    {
        Product {
            product_id: 0,
            name: String::new(),
            description: String::new(),
            unit: Unit::Milliliter,
            skus: Vec::new(),
            created_by: 0,
            created_at: Timestamp::now(),
        }
    }
}

impl Record for Product {
    open spec fn key(&self) -> u32 {
        self.product_id
    }

    fn get_id(&self) -> (r: u32) {
        self.product_id
    }
}

/// The name shown for a SKU: the product's name, the SKU's own name and its packaging.
pub open spec fn display_name_text(parent: Seq<char>, sub: Seq<char>, packaging: Seq<char>) -> Seq<
    char,
> {
    parent + ", "@ + sub + ", "@ + packaging
}

/// Builds the name shown for a SKU.
pub fn display_name_of(parent: &str, sub: &str, packaging: &str) -> (r: String)
    ensures
        r@ == display_name_text(parent@, sub@, packaging@),
{
    let mut s = String::from_str(parent);
    s.append(", ");
    s.append(sub);
    s.append(", ");
    s.append(packaging);
    s
}

/// A sellable packaging of a product.
#[derive(Debug)]
pub struct Sku {
    /// SKU ID
    pub sku: u32,
    /// Related product_id
    pub product_id: u32,
    /// Related product name
    pub parent_name: String,
    /// SKU sub name
    pub sub_name: String,
    /// Product name + sub name + packaging
    pub display_name: String,
    /// Quantity + unit as fancy display
    pub display_packaging: String,
    /// Related product unit
    pub unit: Unit,
    /// Sku quantity
    pub quantity: Quantity,
    /// Whether it can be sold divided; only with a simple quantity
    pub can_divide: bool,
    /// Created by UID
    pub created_by: u32,
    /// Created at
    pub created_at: Timestamp,
}

/// What a SKU holds, as plain values.
pub struct SkuView {
    pub sku: u32,
    pub product_id: u32,
    pub parent_name: Seq<char>,
    pub sub_name: Seq<char>,
    pub display_name: Seq<char>,
    pub display_packaging: Seq<char>,
    pub unit: Unit,
    pub quantity: Quantity,
    pub can_divide: bool,
    pub created_by: u32,
    pub created_at: Timestamp,
}

impl SkuView {
    /// The derived fields agree with what they derive from.
    pub open spec fn derived_ok(self) -> bool {
        &&& self.display_packaging == packaging_text(self.quantity, self.unit)
        &&& self.display_name == display_name_text(
            self.parent_name,
            self.sub_name,
            self.display_packaging,
        )
    }

    /// The SKU is consistent: derived fields are current, and only a simple quantity divides.
    pub open spec fn wf(self) -> bool {
        &&& self.derived_ok()
        &&& (self.can_divide ==> self.quantity is Simple)
    }
}

impl View for Sku {
    type V = SkuView;

    open spec fn view(&self) -> SkuView {
        SkuView {
            sku: self.sku,
            product_id: self.product_id,
            parent_name: self.parent_name@,
            sub_name: self.sub_name@,
            display_name: self.display_name@,
            display_packaging: self.display_packaging@,
            unit: self.unit,
            quantity: self.quantity,
            can_divide: self.can_divide,
            created_by: self.created_by,
            created_at: self.created_at,
        }
    }
}

impl Clone for Sku {
    fn clone(&self) -> (r: Self)
        ensures
            r@ == self@,
    {
        Sku {
            sku: self.sku,
            product_id: self.product_id,
            parent_name: self.parent_name.clone(),
            sub_name: self.sub_name.clone(),
            display_name: self.display_name.clone(),
            display_packaging: self.display_packaging.clone(),
            unit: self.unit,
            quantity: self.quantity,
            can_divide: self.can_divide,
            created_by: self.created_by,
            created_at: self.created_at,
        }
    }
}

impl Sku {
    pub fn new(
        sku: u32,
        product_id: u32,
        parent: &Product,
        sub_name: String,
        quantity: Quantity,
        created_by: u32,
    ) -> (r: Self)
        ensures
            r@.sku == sku,
            r@.product_id == product_id,
            r@.parent_name == parent@.name,
            r@.sub_name == sub_name@,
            r@.unit == parent@.unit,
            r@.quantity == quantity,
            !r@.can_divide,
            r@.created_by == created_by,
            r@.wf(),
    {
        let mut res = Sku {
            sku,
            product_id,
            parent_name: parent.name.clone(),
            sub_name,
            display_name: String::new(),
            display_packaging: String::new(),
            quantity,
            unit: parent.unit,
            can_divide: false,
            created_by,
            created_at: Timestamp::now(),
        };
        res.reset();
        res
    }

    /// Update SKU data based on its related parent product
    pub fn update_parent(&mut self, parent: &Product) -> (r: &Self)
        requires
            old(self)@.wf(),
        ensures
            final(self)@.wf(),
            final(self)@ == (SkuView {
                parent_name: parent@.name,
                unit: parent@.unit,
                display_name: final(self)@.display_name,
                display_packaging: final(self)@.display_packaging,
                ..old(self)@
            }),
            r@ == final(self)@,
    {
        self.parent_name = parent.name.clone();
        self.unit = parent.unit;
        self.reset();
        self
    }

    /// Update SKU data. A SKU whose quantity stops being simple stops being divisible.
    pub fn update(&mut self, sub_name: String, quantity: Quantity) -> (r: &Self)
        requires
            old(self)@.wf(),
        ensures
            final(self)@.wf(),
            final(self)@ == (SkuView {
                sub_name: sub_name@,
                quantity,
                can_divide: old(self)@.can_divide && quantity is Simple,
                display_name: final(self)@.display_name,
                display_packaging: final(self)@.display_packaging,
                ..old(self)@
            }),
            r@ == final(self)@,
    {
        self.sub_name = sub_name;
        self.quantity = quantity;
        if let Quantity::Complex(_, _) = quantity {
            self.can_divide = false;
        }
        self.reset();
        self
    }

    /// Try to set divide: enabling it needs a simple quantity.
    pub fn set_divide(&mut self, can_divide: bool) -> (r: Result<&Self, String>)
        requires
            old(self)@.wf(),
        ensures
            final(self)@.wf(),
            (!can_divide || old(self)@.quantity is Simple) <==> r is Ok,
            r is Ok ==> final(self)@ == (SkuView { can_divide, ..old(self)@ }),
            r is Ok ==> r->Ok_0@ == final(self)@,
            r is Err ==> final(self)@ == old(self)@,
    {
        if !can_divide {
            self.can_divide = false;
            return Ok(self);
        }
        match self.quantity {
            Quantity::Simple(_) => {
                self.can_divide = true;
                Ok(self)
            },
            _ => Err(String::from_str("only a simple quantity can be divided")),
        }
    }

    /// Recomputes the derived fields; the packaging first, as the name includes it.
    pub fn reset(&mut self)
        ensures
            final(self)@.derived_ok(),
            final(self)@ == (SkuView {
                display_name: final(self)@.display_name,
                display_packaging: final(self)@.display_packaging,
                ..old(self)@
            }),
    {
        self.reset_display_packaging();
        self.reset_display_name();
    }

    /// Recomputes the display name from the names and the packaging.
    pub fn reset_display_name(&mut self)
        ensures
            final(self)@ == (SkuView {
                display_name: display_name_text(
                    old(self)@.parent_name,
                    old(self)@.sub_name,
                    old(self)@.display_packaging,
                ),
                ..old(self)@
            }),
    {
        self.display_name = display_name_of(
            self.parent_name.as_str(),
            self.sub_name.as_str(),
            self.display_packaging.as_str(),
        );
    }

    /// Recomputes the packaging from the quantity and the unit.
    pub fn reset_display_packaging(&mut self)
        ensures
            final(self)@ == (SkuView {
                display_packaging: packaging_text(old(self)@.quantity, old(self)@.unit),
                ..old(self)@
            }),
    {
        self.display_packaging = fancy_display(&self.quantity, &self.unit);
    }
}

impl Record for Sku {
    open spec fn key(&self) -> u32 {
        self.sku
    }

    fn get_id(&self) -> (r: u32) {
        self.sku
    }
}

impl Default for Sku {
    fn default() -> (r: Self)
        ensures
            r@.sku == 0,
            r@.product_id == 0,
            r@.parent_name.len() == 0,
            r@.sub_name.len() == 0,
            r@.display_name.len() == 0,
            r@.display_packaging.len() == 0,
            r@.quantity == Quantity::Simple(0),
            r@.unit == Unit::Milliliter,
            !r@.can_divide,
            r@.created_by == 0,
    {
        Sku {
            sku: 0,
            product_id: 0,
            parent_name: String::new(),
            sub_name: String::new(),
            display_name: String::new(),
            display_packaging: String::new(),
            quantity: Quantity::Simple(0),
            unit: Unit::Milliliter,
            can_divide: false,
            created_by: 0,
            created_at: Timestamp::now(),
        }
    }
}

} // verus!
