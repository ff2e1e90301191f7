//! Records of the shop tables.

use vstd::prelude::*;
use super::id::{BrandId, CategoryId, ProductId};
use crate::clock::{reading_wf, utc_now, ClockReading};

verus! {

/// A purchase: the products ordered and when.
pub struct Receipt {
    pub product: Vec<Order>,
    pub timestamp: Date,
}

/// So many of one product.
#[derive(Debug, Clone, Copy, PartialEq, Eq, Structural)]
pub struct Order {
    pub product_id: ProductId,
    pub product_amount: u8,
}

/// A product: its name in a fixed-size buffer, its category and brand.
#[derive(Debug, Clone, Copy)]
pub struct Product {
    pub name: [u8; 25],
    pub category_id: CategoryId,
    pub brand_id: BrandId,
}

/// A product in its compact form.
#[derive(Debug, Clone, Copy)]
pub struct CompactProduct {
    pub name: [u8; 25],
    pub category_id: CategoryId,
    pub brand_id: BrandId,
}

impl From<Product> for CompactProduct {
    fn from(value: Product) -> (r: Self) {
        CompactProduct { name: value.name, category_id: value.category_id, brand_id: value.brand_id }
    }
}

impl vstd::std_specs::convert::FromSpecImpl<Product> for CompactProduct {
    open spec fn obeys_from_spec() -> bool {
        true
    }

    open spec fn from_spec(v: Product) -> Self {
        CompactProduct { name: v.name, category_id: v.category_id, brand_id: v.brand_id }
    }
}

impl Default for Product {
    fn default() -> (r: Self)
        ensures
            r.name@ == Seq::new(25, |i: int| 0u8),
            r.category_id == (CategoryId { ver: 0, id: 0 }),
            r.brand_id == (BrandId { ver: 0, id: 0 }),
    {
        let r = Product {
            name: [0u8, 0, 0, 0, 0, 0, 0, 0, 0, 0, 0, 0, 0, 0, 0, 0, 0, 0, 0, 0, 0, 0, 0, 0, 0],
            category_id: CategoryId::default(),
            brand_id: BrandId::default(),
        };
        assert(r.name@ =~= Seq::new(25, |i: int| 0u8));
        r
    }
}

/// A product category.
pub struct Category {
    pub category_name: String,
}

impl Category {
    /// The category called `name`.
    pub fn new(name: String) -> (r: Self)
        ensures
            r.category_name == name,
    {
        Self { category_name: name }
    }
}

impl Default for Category {
    fn default() -> (r: Self)
        ensures
            r.category_name@ == Seq::<char>::empty(),
    {
        Self { category_name: String::new() }
    }
}

/// A brand.
pub struct Brand {
    pub brand_name: String,
}

impl Brand {
    /// The brand called `name`.
    pub fn new(name: String) -> (r: Self)
        ensures
            r.brand_name == name,
    {
        Self { brand_name: name }
    }
}

impl Default for Brand {
    fn default() -> (r: Self)
        ensures
            r.brand_name@ == Seq::<char>::empty(),
    {
        Self { brand_name: String::new() }
    }
}

/// When a purchase happened: year, day, hour, minute and second.
#[derive(Debug, Clone, Copy, PartialEq, Eq, Structural)]
pub struct Date {
    pub year: u16,
    pub day: u8,
    pub hour: u8,
    pub minute: u8,
    pub second: u8,
}

/// The date that a clock reading gives, each field cut to its width.
pub open spec fn date_of(c: ClockReading) -> Date {
    Date {
        year: c.year as u16,
        day: c.day as u8,
        hour: c.hour as u8,
        minute: c.minute as u8,
        second: c.second as u8,
    }
}

impl Date {
    /// The date of the clock reading `c`.
    pub fn from_reading(c: ClockReading) -> (r: Self)
        ensures
            r == date_of(c),
    {
        Self {
            year: #[verifier::truncate] (c.year as u16),
            day: #[verifier::truncate] (c.day as u8),
            hour: #[verifier::truncate] (c.hour as u8),
            minute: #[verifier::truncate] (c.minute as u8),
            second: #[verifier::truncate] (c.second as u8),
        }
    }

    /// The current date.
    pub fn new() -> (r: Self)
        ensures
            exists|c: ClockReading| reading_wf(c) && r == date_of(c),
    {
        let c = utc_now();
        Self::from_reading(c)
    }
}

} // verus!
