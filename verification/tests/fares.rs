use ryanair_api::aggregate::pair;
use ryanair_api::fare::{
    Airport, AllReturnFlights, Fare, FlightResponse, Outbound, Price, Summary,
};

fn airport(name: &str) -> Airport {
    Airport {
        country_name: "Ireland".to_string(),
        iata_code: "DUB".to_string(),
        name: name.to_string(),
        seo_name: name.to_string(),
    }
}

fn fare(tag: &str, value: u64, code: &str, symbol: &str) -> Fare {
    Fare {
        outbound: Outbound {
            departure_airport: airport(tag),
            arrival_airport: airport("somewhere"),
            departure_date: "2024-04-15T06:00:00".to_string(),
            arrival_date: "2024-04-15T08:00:00".to_string(),
        },
        summary: Summary {
            price: Price {
                value,
                currency_code: code.to_string(),
                currency_symbol: symbol.to_string(),
            },
        },
    }
}

#[test]
fn price_addition_sums_amounts_and_keeps_left_currency() {
    let a = Price {
        value: 1650,
        currency_code: "EUR".to_string(),
        currency_symbol: "€".to_string(),
    };
    let b = Price {
        value: 2025,
        currency_code: "GBP".to_string(),
        currency_symbol: "£".to_string(),
    };
    let sum = a.plus(&b);
    assert_eq!(sum.value, 3675);
    assert_eq!(sum.currency_code, "EUR");
    assert_eq!(sum.currency_symbol, "€");
}

#[test]
fn price_equality_and_order_go_by_amount_alone() {
    let eur = Price {
        value: 1000,
        currency_code: "EUR".to_string(),
        currency_symbol: "€".to_string(),
    };
    let gbp = Price {
        value: 1000,
        currency_code: "GBP".to_string(),
        currency_symbol: "£".to_string(),
    };
    let dearer = Price {
        value: 1001,
        currency_code: "EUR".to_string(),
        currency_symbol: "€".to_string(),
    };
    assert!(eur == gbp);
    assert!(eur < dearer);
    assert!(dearer > gbp);
    assert_eq!(eur.partial_cmp(&gbp), Some(std::cmp::Ordering::Equal));
}

#[test]
fn empty_cross_product_from_empty_outbound() {
    let inbound = vec![fare("in", 1000, "EUR", "€")];
    assert_eq!(pair(&Vec::new(), &inbound).len(), 0);
}

#[test]
fn empty_cross_product_from_empty_inbound() {
    let outbound = vec![fare("out", 1000, "EUR", "€")];
    assert_eq!(pair(&outbound, &Vec::new()).len(), 0);
}

#[test]
fn pair_emits_every_combination() {
    let outbound = vec![fare("o1", 100, "EUR", "€"), fare("o2", 200, "EUR", "€")];
    let inbound = vec![
        fare("i1", 10, "EUR", "€"),
        fare("i2", 20, "EUR", "€"),
        fare("i3", 30, "EUR", "€"),
    ];
    let candidates = pair(&outbound, &inbound);
    assert_eq!(candidates.len(), 6);
    let expected_totals = vec![110, 120, 130, 210, 220, 230];
    for (c, want) in candidates.iter().zip(expected_totals.iter()) {
        assert_eq!(c.price.value, *want);
    }
    assert_eq!(candidates[0].to_destination.outbound.departure_airport.name, "o1");
    assert_eq!(candidates[0].from_destination.outbound.departure_airport.name, "i1");
    assert_eq!(candidates[5].to_destination.outbound.departure_airport.name, "o2");
    assert_eq!(candidates[5].from_destination.outbound.departure_airport.name, "i3");
}

#[test]
fn pair_total_takes_inbound_currency() {
    // The total's currency metadata comes from the inbound (left) operand.
    let outbound = vec![fare("o", 100, "EUR", "€")];
    let inbound = vec![fare("i", 10, "GBP", "£")];
    let candidates = pair(&outbound, &inbound);
    assert_eq!(candidates[0].price.value, 110);
    assert_eq!(candidates[0].price.currency_code, "GBP");
    assert_eq!(candidates[0].price.currency_symbol, "£");
}

#[test]
fn default_collections_are_empty() {
    let response = FlightResponse::default();
    assert!(response.fares.is_empty());
    let flights = AllReturnFlights::default();
    assert!(flights.flights.is_empty());
}
