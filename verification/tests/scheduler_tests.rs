//! Tests of one broadcast tick: destination parsing, the formatted
//! message, fan-out, and per-unit failure isolation.

use quotecast::model::{ApiError, BookSummary};
use quotecast::scheduler::{
    format_quote, parse_channel_id, plan_category, tick_dispatch, tick_fetch_categories,
    CategoryOutcome, DestinationPlan, Snapshot, SnapshotEntry,
};

fn summary(t: &str, a: &str, d: &str) -> BookSummary {
    BookSummary { title: t.to_string(), author: a.to_string(), description: d.to_string() }
}

fn entry(category: &str, destinations: &[&str]) -> SnapshotEntry {
    SnapshotEntry {
        category: category.to_string(),
        destinations: destinations.iter().map(|s| s.to_string()).collect(),
    }
}

#[test]
fn parse_channel_id_cases() {
    assert_eq!(parse_channel_id("123"), Some(123));
    assert_eq!(parse_channel_id("0"), Some(0));
    assert_eq!(parse_channel_id(""), None);
    assert_eq!(parse_channel_id("12a"), None);
    assert_eq!(parse_channel_id("-3"), None);
    assert_eq!(parse_channel_id("18446744073709551615"), Some(u64::MAX));
    assert_eq!(parse_channel_id("18446744073709551616"), None);
    assert_eq!(parse_channel_id("99999999999999999999999"), None);
}

#[test]
fn format_quote_exact_literal() {
    let b = summary("T", "A", "D");
    assert_eq!(format_quote(&b), "D\n-_A_");
}

#[test]
fn first_summary_is_the_quote() {
    // The scheduler selects the head of the fetched sequence, never a
    // later element.
    let summaries = vec![summary("T1", "A1", "first"), summary("T2", "A2", "second")];
    let plans = plan_category(&summaries, &vec!["7".to_string(), "8".to_string()]);
    assert_eq!(plans.len(), 2);
    for plan in &plans {
        match plan {
            DestinationPlan::Deliver { message, .. } => {
                assert_eq!(message, "first\n-_A1_");
            },
            DestinationPlan::InvalidDestination => panic!("both identifiers parse"),
        }
    }
}

#[test]
fn destination_failure_spares_siblings() {
    // Three destinations, one forced to fail its parse: the other two
    // still receive the formatted text.
    let summaries = vec![summary("T", "A", "D")];
    let dests = vec!["10".to_string(), "not a number".to_string(), "30".to_string()];
    let plans = plan_category(&summaries, &dests);
    assert_eq!(plans.len(), 3);
    match &plans[0] {
        DestinationPlan::Deliver { channel, message } => {
            assert_eq!(*channel, 10);
            assert_eq!(message, "D\n-_A_");
        },
        _ => panic!("first destination delivers"),
    }
    assert!(matches!(plans[1], DestinationPlan::InvalidDestination));
    match &plans[2] {
        DestinationPlan::Deliver { channel, message } => {
            assert_eq!(*channel, 30);
            assert_eq!(message, "D\n-_A_");
        },
        _ => panic!("third destination delivers"),
    }
}

#[test]
fn all_empty_destination_sets_mean_no_work() {
    // Every category empty: the fetch list is empty and a dispatch
    // with zero results performs zero deliveries.
    let snapshot = Snapshot {
        entries: vec![entry("funny", &[]), entry("fiction", &[]), entry("travel", &[])],
    };
    let fetch_list = tick_fetch_categories(&snapshot);
    assert!(fetch_list.is_empty());
    let outcomes = tick_dispatch(&snapshot, &vec![]);
    assert_eq!(outcomes.len(), 3);
    for outcome in &outcomes {
        assert!(matches!(outcome, CategoryOutcome::Skipped));
    }
}

#[test]
fn one_fetch_per_nonempty_category() {
    // The fetch list holds exactly the categories with a registered
    // destination, once each, however many destinations they have.
    let snapshot = Snapshot {
        entries: vec![
            entry("funny", &["1", "2", "3", "4"]),
            entry("fiction", &[]),
            entry("travel", &["5"]),
        ],
    };
    let fetch_list = tick_fetch_categories(&snapshot);
    assert_eq!(fetch_list, vec!["funny".to_string(), "travel".to_string()]);
}

#[test]
fn category_failure_spares_siblings() {
    // Three categories, the middle fetch forced to fail: the other two
    // still dispatch to their destinations.
    let snapshot = Snapshot {
        entries: vec![
            entry("funny", &["11"]),
            entry("fiction", &["22"]),
            entry("travel", &["33"]),
        ],
    };
    let results = vec![
        Ok(vec![summary("T1", "A1", "D1")]),
        Err(ApiError::TransportError),
        Ok(vec![summary("T3", "A3", "D3")]),
    ];
    let outcomes = tick_dispatch(&snapshot, &results);
    assert_eq!(outcomes.len(), 3);
    match &outcomes[0] {
        CategoryOutcome::Dispatched(plans) => match &plans[0] {
            DestinationPlan::Deliver { channel, message } => {
                assert_eq!(*channel, 11);
                assert_eq!(message, "D1\n-_A1_");
            },
            _ => panic!("first category delivers"),
        },
        _ => panic!("first category dispatches"),
    }
    assert!(matches!(&outcomes[1], CategoryOutcome::FetchFailed(ApiError::TransportError)));
    match &outcomes[2] {
        CategoryOutcome::Dispatched(plans) => match &plans[0] {
            DestinationPlan::Deliver { channel, message } => {
                assert_eq!(*channel, 33);
                assert_eq!(message, "D3\n-_A3_");
            },
            _ => panic!("third category delivers"),
        },
        _ => panic!("third category dispatches"),
    }
}

#[test]
fn unknown_category_is_an_ordinary_failure() {
    // A category present in the snapshot but unknown upstream comes
    // back as a transport or empty-result failure from the fetch, and
    // is handled exactly like any other per-category failure.
    let snapshot = Snapshot {
        entries: vec![entry("no such category", &["1"]), entry("funny", &["2"])],
    };
    let results = vec![Err(ApiError::EmptyResult), Ok(vec![summary("T", "A", "D")])];
    let outcomes = tick_dispatch(&snapshot, &results);
    assert!(matches!(&outcomes[0], CategoryOutcome::FetchFailed(ApiError::EmptyResult)));
    assert!(matches!(&outcomes[1], CategoryOutcome::Dispatched(_)));
}

#[test]
fn empty_destination_category_is_skipped_within_mixed_snapshot() {
    // A category with no destinations takes no result slot and gets no
    // dispatch, while its neighbours proceed.
    let snapshot = Snapshot {
        entries: vec![entry("funny", &[]), entry("travel", &["44", "55"])],
    };
    let results = vec![Ok(vec![summary("T", "A", "D")])];
    let outcomes = tick_dispatch(&snapshot, &results);
    assert!(matches!(&outcomes[0], CategoryOutcome::Skipped));
    match &outcomes[1] {
        CategoryOutcome::Dispatched(plans) => {
            assert_eq!(plans.len(), 2);
            // one fetched result shared by every destination
            for plan in plans {
                match plan {
                    DestinationPlan::Deliver { message, .. } => {
                        assert_eq!(message, "D\n-_A_");
                    },
                    _ => panic!("both destinations parse"),
                }
            }
        },
        _ => panic!("second category dispatches"),
    }
}
