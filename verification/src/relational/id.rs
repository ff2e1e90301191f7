//! Identifiers of the records of the shop tables: a version and a number.

use vstd::prelude::*;

verus! {

/// The identifier of a product.
#[derive(Debug, Clone, Copy, PartialEq, Eq, Structural)]
pub struct ProductId {
    pub ver: u16,
    pub id: u16,
}

impl Default for ProductId {
    fn default() -> (r: Self)
        ensures
            r == (ProductId { ver: 0, id: 0 }),
    {
        ProductId { ver: 0, id: 0 }
    }
}

/// The identifier of a brand.
#[derive(Debug, Clone, Copy, PartialEq, Eq, Structural)]
pub struct BrandId {
    pub ver: u16,
    pub id: u16,
}

impl Default for BrandId {
    fn default() -> (r: Self)
        ensures
            r == (BrandId { ver: 0, id: 0 }),
    {
        BrandId { ver: 0, id: 0 }
    }
}

/// The identifier of a category.
#[derive(Debug, Clone, Copy, PartialEq, Eq, Structural)]
pub struct CategoryId {
    pub ver: u16,
    pub id: u16,
}

impl Default for CategoryId {
    fn default() -> (r: Self)
        ensures
            r == (CategoryId { ver: 0, id: 0 }),
    {
        CategoryId { ver: 0, id: 0 }
    }
}

} // verus!
