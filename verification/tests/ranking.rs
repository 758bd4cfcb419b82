use ryanair_api::fanout::{
    cheapest_from_outcomes, collect_candidates, AdmissionGate, FetchOutcome,
};
use ryanair_api::fare::{Airport, Fare, Outbound, Price, ReturnFlight, Summary};
use ryanair_api::rank::rank;

fn airport(name: &str) -> Airport {
    Airport {
        country_name: "Ireland".to_string(),
        iata_code: "DUB".to_string(),
        name: name.to_string(),
        seo_name: name.to_string(),
    }
}

fn fare(tag: &str, value: u64) -> Fare {
    Fare {
        outbound: Outbound {
            departure_airport: airport(tag),
            arrival_airport: airport("somewhere"),
            departure_date: "2024-04-15T06:00:00".to_string(),
            arrival_date: "2024-04-15T08:00:00".to_string(),
        },
        summary: Summary {
            price: Price {
                value,
                currency_code: "EUR".to_string(),
                currency_symbol: "€".to_string(),
            },
        },
    }
}

fn candidate(tag: &str, total: u64) -> ReturnFlight {
    ReturnFlight {
        to_destination: fare(tag, total / 2),
        from_destination: fare(tag, total - total / 2),
        price: Price {
            value: total,
            currency_code: "EUR".to_string(),
            currency_symbol: "€".to_string(),
        },
    }
}

#[test]
fn rank_sorts_by_ascending_total_price() {
    let input = vec![
        candidate("a", 300),
        candidate("b", 100),
        candidate("c", 250),
        candidate("d", 100),
        candidate("e", 50),
    ];
    let ranked = rank(input);
    let totals: Vec<u64> = ranked.iter().map(|c| c.price.value).collect();
    assert_eq!(totals, vec![50, 100, 100, 250, 300]);
}

#[test]
fn rank_is_stable_for_equal_prices() {
    let input = vec![
        candidate("first", 100),
        candidate("second", 100),
        candidate("cheap", 10),
        candidate("third", 100),
    ];
    let ranked = rank(input);
    assert_eq!(ranked[0].to_destination.outbound.departure_airport.name, "cheap");
    assert_eq!(ranked[1].to_destination.outbound.departure_airport.name, "first");
    assert_eq!(ranked[2].to_destination.outbound.departure_airport.name, "second");
    assert_eq!(ranked[3].to_destination.outbound.departure_airport.name, "third");
}

#[test]
fn rank_of_empty_is_empty() {
    assert!(rank(Vec::new()).is_empty());
}

#[test]
fn collect_appends_each_successful_unit() {
    let outcomes = vec![
        FetchOutcome::Success(vec![fare("o1", 100)], vec![fare("i1", 10), fare("i2", 20)]),
        FetchOutcome::Success(vec![fare("o2", 200)], vec![fare("i3", 30)]),
    ];
    let collected = collect_candidates(outcomes);
    let totals: Vec<u64> = collected.iter().map(|c| c.price.value).collect();
    assert_eq!(totals, vec![110, 120, 230]);
}

#[test]
fn one_failed_unit_among_many_is_isolated() {
    // One fetch unit fails; the other units' candidates all survive and no
    // error reaches the caller.
    let outcomes = vec![
        FetchOutcome::Success(vec![fare("o1", 300)], vec![fare("i1", 5)]),
        FetchOutcome::Failure,
        FetchOutcome::Success(vec![fare("o2", 100)], vec![fare("i2", 7)]),
    ];
    let ranked = cheapest_from_outcomes(outcomes);
    let totals: Vec<u64> = ranked.iter().map(|c| c.price.value).collect();
    assert_eq!(totals, vec![107, 305]);
}

#[test]
fn all_units_failing_yield_an_empty_result() {
    let outcomes = vec![FetchOutcome::Failure, FetchOutcome::Failure];
    assert!(cheapest_from_outcomes(outcomes).is_empty());
}

#[test]
fn gate_never_admits_more_than_its_ceiling() {
    let mut gate = AdmissionGate::new(2);
    assert!(gate.try_acquire());
    assert!(gate.try_acquire());
    // The ceiling is reached: a third unit must wait.
    assert!(!gate.try_acquire());
    assert_eq!(gate.active, 2);
    gate.release();
    assert!(gate.try_acquire());
    assert!(!gate.try_acquire());
    gate.release();
    gate.release();
    assert_eq!(gate.active, 0);
}

#[test]
fn gate_with_zero_ceiling_admits_nobody() {
    let mut gate = AdmissionGate::new(0);
    assert!(!gate.try_acquire());
    assert_eq!(gate.active, 0);
}
