//! Merging a query with what retrieval found into the prompt for the language model.
use vstd::prelude::*;
use crate::index::{Hit, VectorIndex};
use crate::record::CustomerFeedback;
use crate::text::{fixed_text, int_text, nat_text, push_fixed, push_int, push_nat};

verus! {

/// What the lookup branch of the pipeline produced.
#[derive(Debug)]
pub enum Retrieval {
    /// The lookup succeeded with these hits, best first (possibly none).
    Found(Vec<Hit>),
    /// The lookup failed (the query could not be embedded or the index could not answer).
    Failed,
}

/// A similarity in millionths, rounded half away from zero to thousandths.
pub open spec fn score_in_thousandths(score: int) -> int {
    if score < 0 {
        -((-score + 500) / 1000)
    } else {
        (score + 500) / 1000
    }
}

/// The text of the profile numbered `number`, retrieved with similarity `score`.
pub open spec fn profile_text(number: nat, score: i64, r: CustomerFeedback) -> Seq<char> {
    profile_head(number, score, r) + profile_tail(r)
}

/// Number, similarity, identifier, demographics, income and satisfaction of a profile.
pub open spec fn profile_head(number: nat, score: i64, r: CustomerFeedback) -> Seq<char> {
    "Profile "@ + nat_text(number) + ":\n* Similarity Score: "@ + fixed_text(
        score_in_thousandths(score as int),
        3,
    ) + "\n* Customer ID: "@ + r.customer_id@ + "\n* Demographics: "@ + int_text(r.age as int)
        + " year old "@ + r.gender@ + " from "@ + r.country@ + "\n* Income: $"@ + fixed_text(
        r.income_cents as int,
        2,
    ) + "\n* Satisfaction: "@ + fixed_text(r.satisfaction_tenths as int, 1)
}

/// Loyalty, purchases, quality ratings and feedback score of a profile.
pub open spec fn profile_tail(r: CustomerFeedback) -> Seq<char> {
    "%\n* Loyalty Level: "@ + r.loyalty_level@ + "\n* Purchase Frequency: "@ + int_text(
        r.purchase_frequency as int,
    ) + " purchases/year\n* Product Quality: "@ + int_text(r.product_quality as int)
        + "/10\n* Service Quality: "@ + int_text(r.service_quality as int) + "/10\n* Feedback Score: "@
        + r.feedback_score@ + "\n"@
}

/// The numbered profiles of the hits, in order, numbered from one.
pub open spec fn profiles_text<E>(hits: Seq<Hit>, entries: Seq<(CustomerFeedback, E)>) -> Seq<char>
    decreases hits.len(),
{
    if hits.len() == 0 {
        Seq::empty()
    } else {
        profiles_text(hits.drop_last(), entries) + profile_text(
            hits.len(),
            hits.last().score,
            entries[hits.last().position as int].0,
        )
    }
}

pub open spec fn query_header(query: Seq<char>) -> Seq<char> {
    "Analysis Query: "@ + query + "\n\n"@
}

/// The prompt for a query and the outcome of its lookup.
pub open spec fn prompt_text<E>(
    query: Seq<char>,
    entries: Seq<(CustomerFeedback, E)>,
    retrieval: Retrieval,
) -> Seq<char> {
    match retrieval {
        Retrieval::Failed => query_header(query) + "Error: Failed to retrieve relevant customer profiles."@,
        Retrieval::Found(hits) => if hits@.len() == 0 {
            query_header(query) + "Warning: No relevant customer profiles found."@
        } else {
            query_header(query) + "Relevant Customer Profiles ("@ + nat_text(hits@.len()) + " found):\n"@
                + profiles_text(hits@, entries)
        },
    }
}

/// The hits all name entries of the index.
pub open spec fn hits_in_index<E>(index: VectorIndex<E>, retrieval: Retrieval) -> bool {
    match retrieval {
        Retrieval::Found(hits) => forall|a: int|
            0 <= a < hits@.len() ==> (#[trigger] hits@[a].position as int) < index.entries().len(),
        Retrieval::Failed => true,
    }
}

fn rounded_score(score: i64) -> (r: i64)
    ensures
        r as int == score_in_thousandths(score as int),
{
    if score < 0 {
        let a: i128 = 0i128 - score as i128;
        (0i128 - (a + 500) / 1000) as i64
    } else {
        ((score as i128 + 500) / 1000) as i64
    }
}

fn push_profile_head(s: &mut String, number: usize, score: i64, r: &CustomerFeedback)
    ensures
        final(s)@ == old(s)@ + profile_head(number as nat, score, *r),
{
    s.append("Profile ");
    push_nat(s, number as u64);
    s.append(":\n* Similarity Score: ");
    push_fixed(s, rounded_score(score), 3);
    s.append("\n* Customer ID: ");
    s.append(r.customer_id.as_str());
    s.append("\n* Demographics: ");
    push_int(s, r.age as i64);
    s.append(" year old ");
    s.append(r.gender.as_str());
    s.append(" from ");
    s.append(r.country.as_str());
    s.append("\n* Income: $");
    push_fixed(s, r.income_cents, 2);
    s.append("\n* Satisfaction: ");
    push_fixed(s, r.satisfaction_tenths, 1);
    assert(final(s)@ =~= old(s)@ + profile_head(number as nat, score, *r));
}

fn push_profile_tail(s: &mut String, r: &CustomerFeedback)
    ensures
        final(s)@ == old(s)@ + profile_tail(*r),
{
    s.append("%\n* Loyalty Level: ");
    s.append(r.loyalty_level.as_str());
    s.append("\n* Purchase Frequency: ");
    push_int(s, r.purchase_frequency as i64);
    s.append(" purchases/year\n* Product Quality: ");
    push_int(s, r.product_quality as i64);
    s.append("/10\n* Service Quality: ");
    push_int(s, r.service_quality as i64);
    s.append("/10\n* Feedback Score: ");
    s.append(r.feedback_score.as_str());
    s.append("\n");
    assert(final(s)@ =~= old(s)@ + profile_tail(*r));
}

fn push_profile(s: &mut String, number: usize, score: i64, r: &CustomerFeedback)
    ensures
        final(s)@ == old(s)@ + profile_text(number as nat, score, *r),
{
    push_profile_head(s, number, score, r);
    push_profile_tail(s, r);
    assert(final(s)@ =~= old(s)@ + profile_text(number as nat, score, *r));
}

/// Merges the query and the outcome of its lookup into one prompt: the numbered
/// profiles found, a notice that none was found, or a notice that retrieval failed.
/// Neither an empty nor a failed lookup stops the prompt from being written.
pub fn compose_prompt<E>(query: &str, index: &VectorIndex<E>, retrieval: &Retrieval) -> (r: String)
    requires
        hits_in_index(*index, *retrieval),
    ensures
        r@ == prompt_text(query@, index.entries(), *retrieval),
{
    let mut s = String::new();
    s.append("Analysis Query: ");
    s.append(query);
    s.append("\n\n");
    match retrieval {
        Retrieval::Failed => {
            s.append("Error: Failed to retrieve relevant customer profiles.");
        },
        Retrieval::Found(hits) => {
            if hits.len() == 0 {
                s.append("Warning: No relevant customer profiles found.");
            } else {
                s.append("Relevant Customer Profiles (");
                push_nat(&mut s, hits.len() as u64);
                s.append(" found):\n");
                let ghost head = s@;
                let mut i: usize = 0;
                while i < hits.len()
                    invariant
                        i <= hits@.len(),
                        forall|a: int|
                            0 <= a < hits@.len() ==> (#[trigger] hits@[a].position as int) < index.entries().len(),
                        s@ == head + profiles_text(hits@.subrange(0, i as int), index.entries()),
                    decreases hits.len() - i,
                {
                    let h = &hits[i];
                    let ghost before = s@;
                    push_profile(&mut s, i + 1, h.score, index.record(h.position));
                    assert(hits@.subrange(0, i + 1).drop_last() =~= hits@.subrange(0, i as int));
                    assert(s@ =~= head + profiles_text(hits@.subrange(0, i + 1), index.entries()));
                    i = i + 1;
                }
                assert(hits@.subrange(0, hits@.len() as int) =~= hits@);
            }
        },
    }
    assert(s@ =~= prompt_text(query@, index.entries(), *retrieval));
    s
}

} // verus!
