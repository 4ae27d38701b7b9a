//! The entities that a page yields.
use vstd::prelude::*;

verus! {

/// A buyer/seller link between two water systems.
pub struct BuyerSellerRelationship {
    pub buyer: String,
    pub buyer_name: String,
    pub seller: String,
    pub population: String,
    pub availability: String,
}

/// A water system, keyed by `ws_number`.
pub struct WaterDetail {
    pub is_number: Option<String>,
    pub st_code: String,
    pub ws_number: String,
    pub name: Option<String>,
}

/// One row of a buyers table: the five fields in page order.
pub struct RawRow {
    pub seller: String,
    pub buyer_name: String,
    pub buyer: String,
    pub population: String,
    pub availability: String,
}

impl RawRow {
    /// The fields in page order: seller, buyer name, buyer, population,
    /// availability.
    pub open spec fn fields(&self) -> Seq<Seq<char>> {
        seq![self.seller@, self.buyer_name@, self.buyer@, self.population@, self.availability@]
    }
}

pub open spec fn opt_view(o: Option<String>) -> Option<Seq<char>> {
    match o {
        Some(s) => Some(s@),
        None => None,
    }
}

pub fn copy_opt(o: &Option<String>) -> (r: Option<String>)
    ensures
        r == *o,
{
    match o {
        Some(s) => Some(s.clone()),
        None => None,
    }
}

impl WaterDetail {
    /// A system read from the seed list: its name is not known yet.
    pub fn seed(ws_number: String, st_code: String, is_number: String) -> (r: WaterDetail)
        ensures
            r.ws_number == ws_number,
            r.st_code == st_code,
            r.is_number == Some(is_number),
            r.name is None,
    {
        WaterDetail { is_number: Some(is_number), st_code, ws_number, name: None }
    }

    /// A field-by-field copy.
    pub fn duplicate(&self) -> (r: WaterDetail)
        ensures
            r == *self,
    {
        WaterDetail {
            is_number: copy_opt(&self.is_number),
            st_code: self.st_code.clone(),
            ws_number: self.ws_number.clone(),
            name: copy_opt(&self.name),
        }
    }
}

impl BuyerSellerRelationship {
    /// A field-by-field copy.
    pub fn duplicate(&self) -> (r: BuyerSellerRelationship)
        ensures
            r == *self,
    {
        BuyerSellerRelationship {
            buyer: self.buyer.clone(),
            buyer_name: self.buyer_name.clone(),
            seller: self.seller.clone(),
            population: self.population.clone(),
            availability: self.availability.clone(),
        }
    }
}

} // verus!
