use std::cmp::Ordering;

use feedback_rag::batching::{EmbeddingProducer, ProducerAction};
use feedback_rag::index::{top_k, Hit, VectorIndex};
use feedback_rag::prompt::{compose_prompt, Retrieval};
use feedback_rag::record::CustomerFeedback;

fn customer(id: &str, age: i32, income_cents: i64, satisfaction_tenths: i64) -> CustomerFeedback {
    CustomerFeedback {
        customer_id: id.to_string(),
        age,
        gender: "Female".to_string(),
        country: "France".to_string(),
        income_cents,
        product_quality: 7,
        service_quality: 9,
        purchase_frequency: 12,
        feedback_score: "High".to_string(),
        loyalty_level: "Gold".to_string(),
        satisfaction_tenths,
        profile_summary: String::new(),
    }
}

/// Drives a producer over `n` records in batches of `b`; the batches whose numbers are
/// in `failing` fail, the others embed record `p` as `p * 10`. Returns the pairs, the
/// dropped batches, every action taken, and how many embedding calls were made.
fn run(n: usize, b: usize, failing: &[usize]) -> (Vec<(usize, u64)>, Vec<usize>, Vec<ProducerAction>, usize) {
    let mut producer: EmbeddingProducer<u64> = EmbeddingProducer::new(n, b);
    let mut actions = Vec::new();
    let mut calls = 0;
    loop {
        let action = producer.next_action();
        actions.push(action);
        match action {
            ProducerAction::Embed { batch, start, end } => {
                calls += 1;
                if failing.contains(&batch) {
                    producer.record_failure();
                } else {
                    producer.record_success((start..end).map(|p| p as u64 * 10).collect());
                }
            }
            ProducerAction::Pause => producer.record_pause(),
            ProducerAction::Finished => break,
        }
    }
    let dropped = producer.dropped_batches().clone();
    (producer.into_pairs(), dropped, actions, calls)
}

#[test]
fn summary_is_identical_when_generated_twice() {
    let mut a = customer("C1", 34, 5250075, 873);
    a.generate_summary();
    let first = a.profile_summary.clone();
    a.generate_summary();
    assert_eq!(first, a.profile_summary);
    let mut b = customer("C1", 34, 5250075, 873);
    b.profile_summary = "stale".to_string();
    b.generate_summary();
    assert_eq!(first, b.profile_summary);
}

#[test]
fn summary_renders_every_field_in_order() {
    let mut a = customer("C1", 34, 5250075, 873);
    a.generate_summary();
    assert_eq!(
        a.profile_summary,
        "Customer Profile: 34 year old Female from France with income $52500.75. \
         Product Quality Rating: 7/10, Service Quality: 9/10. Purchases 12 times per year. \
         Feedback Score: High. Loyalty Level: Gold. Satisfaction Score: 87.3%"
    );
    assert_eq!(a.embedding_text(), a.profile_summary.as_str());
}

#[test]
fn summary_pads_fractions_and_keeps_signs() {
    let mut a = customer("C2", -3, 5, -5);
    a.generate_summary();
    assert!(a.profile_summary.contains(" -3 year old "));
    assert!(a.profile_summary.contains("with income $0.05."));
    assert!(a.profile_summary.contains("Satisfaction Score: -0.5%"));
    let mut b = customer("C3", 0, 100000, 1000);
    b.generate_summary();
    assert!(b.profile_summary.contains(" 0 year old "));
    assert!(b.profile_summary.contains("with income $1000.00."));
    assert!(b.profile_summary.ends_with("Satisfaction Score: 100.0%"));
}

#[test]
fn records_are_the_same_customer_by_identifier_alone() {
    let a = customer("C7", 30, 100, 10);
    let b = customer("C7", 61, 900, 20);
    let c = customer("C8", 30, 100, 10);
    assert!(a.same_customer(&b));
    assert!(!a.same_customer(&c));
}

#[test]
fn three_records_in_batches_of_two_with_second_failing() {
    let (pairs, dropped, actions, calls) = run(3, 2, &[1]);
    assert_eq!(calls, 2);
    assert_eq!(
        actions,
        vec![
            ProducerAction::Embed { batch: 0, start: 0, end: 2 },
            ProducerAction::Pause,
            ProducerAction::Embed { batch: 1, start: 2, end: 3 },
            ProducerAction::Pause,
            ProducerAction::Finished,
        ]
    );
    assert_eq!(pairs, vec![(0, 0), (1, 10)]);
    assert_eq!(dropped, vec![1]);
}

#[test]
fn chunking_makes_ceil_batches_and_keeps_order() {
    let (pairs, dropped, actions, calls) = run(7, 3, &[]);
    assert_eq!(calls, 3);
    let sizes: Vec<usize> = actions
        .iter()
        .filter_map(|a| match a {
            ProducerAction::Embed { start, end, .. } => Some(end - start),
            _ => None,
        })
        .collect();
    assert_eq!(sizes, vec![3, 3, 1]);
    assert_eq!(pairs, (0..7).map(|p| (p, p as u64 * 10)).collect::<Vec<_>>());
    assert!(dropped.is_empty());
    let (_, _, _, exact) = run(6, 3, &[]);
    assert_eq!(exact, 2);
}

#[test]
fn failed_batch_does_not_stop_later_batches() {
    let (pairs, dropped, _, calls) = run(5, 2, &[0]);
    assert_eq!(calls, 3);
    assert_eq!(pairs, vec![(2, 20), (3, 30), (4, 40)]);
    assert_eq!(dropped, vec![0]);
    let (all_failed, all_dropped, _, every_call) = run(5, 2, &[0, 1, 2]);
    assert_eq!(every_call, 3);
    assert!(all_failed.is_empty());
    assert_eq!(all_dropped, vec![0, 1, 2]);
}

#[test]
fn reply_of_wrong_length_drops_the_batch() {
    let mut producer: EmbeddingProducer<u64> = EmbeddingProducer::new(3, 2);
    assert_eq!(producer.next_action(), ProducerAction::Embed { batch: 0, start: 0, end: 2 });
    producer.record_success(vec![7]);
    assert_eq!(producer.next_action(), ProducerAction::Pause);
    producer.record_pause();
    assert_eq!(producer.next_action(), ProducerAction::Embed { batch: 1, start: 2, end: 3 });
    producer.record_success(vec![9]);
    assert_eq!(producer.pairs().clone(), vec![(2, 9)]);
    assert_eq!(producer.dropped_batches().clone(), vec![0]);
}

#[test]
fn no_records_means_no_batch() {
    let (pairs, dropped, actions, calls) = run(0, 4, &[]);
    assert_eq!(calls, 0);
    assert_eq!(actions, vec![ProducerAction::Finished]);
    assert!(pairs.is_empty());
    assert!(dropped.is_empty());
}

#[test]
fn self_match_comes_first() {
    // The query was embedded from the text of entry 2: a perfect similarity.
    let scores = vec![870000, 910000, 1000000, 650000];
    assert_eq!(top_k(&scores, 1), vec![2]);
    assert_eq!(top_k(&scores, 3), vec![2, 1, 0]);
}

#[test]
fn empty_index_answers_with_nothing() {
    let index: VectorIndex<u64> = VectorIndex::build(Vec::new());
    assert!(index.is_empty());
    for k in [1, 3, 100] {
        assert!(index.query(&Vec::new(), k).is_empty());
    }
    assert!(top_k(&Vec::new(), 0).is_empty());
}

#[test]
fn query_beyond_size_returns_every_entry_once_ranked() {
    let entries = vec![
        (customer("A", 20, 100, 10), 1u64),
        (customer("B", 30, 200, 20), 2u64),
        (customer("C", 40, 300, 30), 3u64),
    ];
    let index = VectorIndex::build(entries);
    assert_eq!(index.len(), 3);
    let hits = index.query(&vec![-250000, 900000, 400000], 10);
    assert_eq!(
        hits,
        vec![
            Hit { score: 900000, position: 1 },
            Hit { score: 400000, position: 2 },
            Hit { score: -250000, position: 0 },
        ]
    );
    assert_eq!(index.record(hits[0].position).customer_id, "B");
    assert_eq!(*index.embedding(hits[1].position), 3);
}

#[test]
fn ties_go_to_the_first_inserted() {
    assert_eq!(top_k(&vec![5, 9, 9, 5, 9], 4), vec![1, 2, 4, 0]);
    assert_eq!(top_k(&vec![3, 3, 3], 2), vec![0, 1]);
}

#[test]
fn empty_lookup_gives_the_no_profiles_notice() {
    let index: VectorIndex<u64> = VectorIndex::build(Vec::new());
    let query = "Which customers are at risk?";
    let hits = index.query(&Vec::new(), 3);
    let prompt = compose_prompt(query, &index, &Retrieval::Found(hits));
    assert_eq!(
        prompt,
        "Analysis Query: Which customers are at risk?\n\nWarning: No relevant customer profiles found."
    );
    assert!(prompt.contains(query));
}

#[test]
fn failed_lookup_gives_the_failure_notice() {
    let index = VectorIndex::build(vec![(customer("A", 20, 100, 10), 1u64)]);
    let query = "Find patterns in service quality.";
    let prompt = compose_prompt(query, &index, &Retrieval::Failed);
    assert_eq!(
        prompt,
        "Analysis Query: Find patterns in service quality.\n\nError: Failed to retrieve relevant customer profiles."
    );
    assert!(prompt.contains(query));
}

#[test]
fn found_profiles_are_numbered_and_rendered() {
    let mut entries = Vec::new();
    for (id, age) in [("C1", 34), ("C2", 51), ("C3", 29), ("C4", 45), ("C5", 38)] {
        entries.push((customer(id, age, 5250075, 873), 0u64));
    }
    let index = VectorIndex::build(entries);
    let hits = index.query(&vec![100000, 912345, 500000, 912344, -1500], 2);
    let prompt = compose_prompt("Who is loyal?", &index, &Retrieval::Found(hits));
    let profile = |n: usize, score: &str, id: &str, age: i32| {
        format!(
            "Profile {}:\n* Similarity Score: {}\n* Customer ID: {}\n* Demographics: {} year old Female from France\n\
             * Income: $52500.75\n* Satisfaction: 87.3%\n* Loyalty Level: Gold\n* Purchase Frequency: 12 purchases/year\n\
             * Product Quality: 7/10\n* Service Quality: 9/10\n* Feedback Score: High\n",
            n, score, id, age
        )
    };
    let expected = format!(
        "Analysis Query: Who is loyal?\n\nRelevant Customer Profiles (2 found):\n{}{}",
        profile(1, "0.912", "C2", 51),
        profile(2, "0.912", "C4", 45)
    );
    assert_eq!(prompt, expected);
}

#[test]
fn similarity_rounds_half_away_from_zero() {
    let index = VectorIndex::build(vec![(customer("A", 20, 100, 10), 0u64), (customer("B", 20, 100, 10), 0u64)]);
    let prompt = compose_prompt("q", &index, &Retrieval::Found(index.query(&vec![-1500, 999500], 2)));
    assert!(prompt.contains("Profile 1:\n* Similarity Score: 1.000\n* Customer ID: B\n"));
    assert!(prompt.contains("Profile 2:\n* Similarity Score: -0.002\n* Customer ID: A\n"));
}

#[test]
fn records_order_by_identifier_bytes() {
    let a = customer("C10", 30, 100, 10);
    let b = customer("C9", 20, 900, 20);
    let c = customer("C1", 40, 100, 10);
    let d = customer("C10", 55, 1, 1);
    assert_eq!(a.compare_by_id(&b), Ordering::Less);
    assert_eq!(b.compare_by_id(&a), Ordering::Greater);
    assert_eq!(c.compare_by_id(&a), Ordering::Less);
    assert_eq!(a.compare_by_id(&c), Ordering::Greater);
    assert_eq!(a.compare_by_id(&d), Ordering::Equal);
    assert_eq!(a.compare_by_id(&b), a.customer_id.cmp(&b.customer_id));
}
