//! The fare data model: one-way fare quotes as the upstream lookup reports
//! them, and the round-trip candidates built from them.
//!
//! A price's numeric amount is held in the currency's minor unit (cents), so
//! that sums and comparisons are exact integer arithmetic.  Equality and
//! ordering of prices go by the numeric amount alone; currency metadata is
//! carried along but never compared.

use vstd::prelude::*;

verus! {

/// One airport as the upstream lookup names it.
#[derive(Debug)]
pub struct Airport {
    pub country_name: String,
    pub iata_code: String,
    pub name: String,
    pub seo_name: String,
}

/// The flight leg of a fare quote: where it departs, where it lands, when.
#[derive(Debug)]
pub struct Outbound {
    pub departure_airport: Airport,
    pub arrival_airport: Airport,
    pub departure_date: String,
    pub arrival_date: String,
}

/// A monetary amount in minor units of its currency.
#[derive(Debug)]
pub struct Price {
    /// Amount in the currency's minor unit (cents).
    pub value: u64,
    pub currency_code: String,
    pub currency_symbol: String,
}

impl Price {
    /// The sum of two prices: amounts add, the currency metadata is taken
    /// from the left operand.
    pub fn plus(&self, other: &Price) -> (r: Price)
        requires
            self.value + other.value <= u64::MAX,
        ensures
            r.value == self.value + other.value,
            r.currency_code == self.currency_code,
            r.currency_symbol == self.currency_symbol,
    {
        Price {
            value: self.value + other.value,
            currency_code: self.currency_code.clone(),
            currency_symbol: self.currency_symbol.clone(),
        }
    }
}

impl PartialEq for Price {
    /// Prices are equal when their amounts are; currencies are not compared.
    fn eq(&self, other: &Price) -> (r: bool) {
        self.value == other.value
    }
}

impl vstd::std_specs::cmp::PartialEqSpecImpl for Price {
    open spec fn obeys_eq_spec() -> bool {
        true
    }

    open spec fn eq_spec(&self, other: &Price) -> bool {
        self.value == other.value
    }
}

impl PartialOrd for Price {
    /// Prices order by amount alone.
    fn partial_cmp(&self, other: &Price) -> (r: Option<core::cmp::Ordering>) {
        if self.value < other.value {
            Some(core::cmp::Ordering::Less)
        } else if self.value > other.value {
            Some(core::cmp::Ordering::Greater)
        } else {
            Some(core::cmp::Ordering::Equal)
        }
    }
}

impl vstd::std_specs::cmp::PartialOrdSpecImpl for Price {
    open spec fn obeys_partial_cmp_spec() -> bool {
        true
    }

    open spec fn partial_cmp_spec(&self, other: &Price) -> Option<core::cmp::Ordering> {
        if self.value < other.value {
            Some(core::cmp::Ordering::Less)
        } else if self.value > other.value {
            Some(core::cmp::Ordering::Greater)
        } else {
            Some(core::cmp::Ordering::Equal)
        }
    }
}

/// One priced one-way fare quote.
#[derive(Debug)]
pub struct Fare {
    pub outbound: Outbound,
    pub summary: Summary,
}

/// The pricing summary of a fare quote.
#[derive(Debug)]
pub struct Summary {
    pub price: Price,
}

/// What one one-way lookup yields: all fare quotes for that day, possibly
/// none.
#[derive(Debug)]
pub struct FlightResponse {
    pub fares: Vec<Fare>,
}

impl Default for FlightResponse {
    /// The empty response: no fares available.
    fn default() -> (r: FlightResponse)
        ensures
            r.fares@.len() == 0,
    {
        FlightResponse { fares: Vec::new() }
    }
}

/// One round-trip candidate: an outbound quote, an inbound quote, and their
/// combined price.
#[derive(Debug)]
pub struct ReturnFlight {
    pub to_destination: Fare,
    pub from_destination: Fare,
    pub price: Price,
}

/// An ordered collection of round-trip candidates.
#[derive(Debug)]
pub struct AllReturnFlights {
    pub flights: Vec<ReturnFlight>,
}

impl Default for AllReturnFlights {
    /// The empty collection: no round trips found.
    fn default() -> (r: AllReturnFlights)
        ensures
            r.flights@.len() == 0,
    {
        AllReturnFlights { flights: Vec::new() }
    }
}


impl Clone for Airport {
    /// An exact copy: the clone equals the original.
    fn clone(&self) -> (r: Airport)
        ensures
            r == *self,
    {
        Airport {
            country_name: self.country_name.clone(),
            iata_code: self.iata_code.clone(),
            name: self.name.clone(),
            seo_name: self.seo_name.clone(),
        }
    }
}

impl Clone for Outbound {
    /// An exact copy: the clone equals the original.
    fn clone(&self) -> (r: Outbound)
        ensures
            r == *self,
    {
        Outbound {
            departure_airport: self.departure_airport.clone(),
            arrival_airport: self.arrival_airport.clone(),
            departure_date: self.departure_date.clone(),
            arrival_date: self.arrival_date.clone(),
        }
    }
}

impl Clone for Price {
    /// An exact copy: the clone equals the original.
    fn clone(&self) -> (r: Price)
        ensures
            r == *self,
    {
        Price {
            value: self.value,
            currency_code: self.currency_code.clone(),
            currency_symbol: self.currency_symbol.clone(),
        }
    }
}

impl Clone for Summary {
    /// An exact copy: the clone equals the original.
    fn clone(&self) -> (r: Summary)
        ensures
            r == *self,
    {
        Summary { price: self.price.clone() }
    }
}

impl Clone for Fare {
    /// An exact copy: the clone equals the original.
    fn clone(&self) -> (r: Fare)
        ensures
            r == *self,
    {
        Fare { outbound: self.outbound.clone(), summary: self.summary.clone() }
    }
}

impl Clone for ReturnFlight {
    /// An exact copy: the clone equals the original.
    fn clone(&self) -> (r: ReturnFlight)
        ensures
            r == *self,
    {
        ReturnFlight {
            to_destination: self.to_destination.clone(),
            from_destination: self.from_destination.clone(),
            price: self.price.clone(),
        }
    }
}

} // verus!
