//! Customer feedback records and their canonical text for embedding.
use vstd::prelude::*;
use crate::text::{fixed_text, int_text, push_fixed, push_int};
use std::cmp::Ordering;
use vstd::utf8::encode_utf8;

verus! {

/// One customer feedback record.
///
/// Money and percentages are held in fixed point: `income_cents` is the income in
/// hundredths of a unit, `satisfaction_tenths` the satisfaction in tenths of a percent.
/// `profile_summary` is derived from the other fields by `generate_summary`.
#[derive(Clone, Debug)]
pub struct CustomerFeedback {
    pub customer_id: String,
    pub age: i32,
    pub gender: String,
    pub country: String,
    pub income_cents: i64,
    pub product_quality: i32,
    pub service_quality: i32,
    pub purchase_frequency: i32,
    pub feedback_score: String,
    pub loyalty_level: String,
    pub satisfaction_tenths: i64,
    pub profile_summary: String,
}

/// The profile text of a record: every source field, in a fixed order.
pub open spec fn summary_text(r: CustomerFeedback) -> Seq<char> {
    "Customer Profile: "@ + int_text(r.age as int) + " year old "@ + r.gender@ + " from "@
        + r.country@ + " with income $"@ + fixed_text(r.income_cents as int, 2)
        + ". Product Quality Rating: "@ + int_text(r.product_quality as int)
        + "/10, Service Quality: "@ + int_text(r.service_quality as int) + "/10. Purchases "@
        + int_text(r.purchase_frequency as int) + " times per year. Feedback Score: "@
        + r.feedback_score@ + ". Loyalty Level: "@ + r.loyalty_level@
        + ". Satisfaction Score: "@ + fixed_text(r.satisfaction_tenths as int, 1) + "%"@
}

/// The lexicographic order of byte strings (a proper prefix comes first), which is
/// the order of `str`.
pub open spec fn lex_order(a: Seq<u8>, b: Seq<u8>) -> Ordering
    decreases a.len(),
{
    if a.len() == 0 {
        if b.len() == 0 {
            Ordering::Equal
        } else {
            Ordering::Less
        }
    } else if b.len() == 0 {
        Ordering::Greater
    } else if a[0] < b[0] {
        Ordering::Less
    } else if a[0] > b[0] {
        Ordering::Greater
    } else {
        lex_order(a.drop_first(), b.drop_first())
    }
}

/// Two records hold the same source fields (the derived summary aside).
pub open spec fn same_source(a: CustomerFeedback, b: CustomerFeedback) -> bool {
    &&& a.customer_id@ == b.customer_id@
    &&& a.age == b.age
    &&& a.gender@ == b.gender@
    &&& a.country@ == b.country@
    &&& a.income_cents == b.income_cents
    &&& a.product_quality == b.product_quality
    &&& a.service_quality == b.service_quality
    &&& a.purchase_frequency == b.purchase_frequency
    &&& a.feedback_score@ == b.feedback_score@
    &&& a.loyalty_level@ == b.loyalty_level@
    &&& a.satisfaction_tenths == b.satisfaction_tenths
}

/// The profile text depends on the source fields alone: two records with the same
/// source fields, whatever their current summaries, get identical texts.
pub proof fn summary_is_deterministic(a: CustomerFeedback, b: CustomerFeedback)
    requires
        same_source(a, b),
    ensures
        summary_text(a) == summary_text(b),
{
}

impl CustomerFeedback {
    /// Sets `profile_summary` to the profile text of the record; no other field changes.
    pub fn generate_summary(&mut self)
        ensures
            final(self).profile_summary@ == summary_text(*old(self)),
            same_source(*final(self), *old(self)),
    {
        let mut s = String::new();
        s.append("Customer Profile: ");
        push_int(&mut s, self.age as i64);
        s.append(" year old ");
        s.append(self.gender.as_str());
        s.append(" from ");
        s.append(self.country.as_str());
        s.append(" with income $");
        push_fixed(&mut s, self.income_cents, 2);
        s.append(". Product Quality Rating: ");
        push_int(&mut s, self.product_quality as i64);
        s.append("/10, Service Quality: ");
        push_int(&mut s, self.service_quality as i64);
        s.append("/10. Purchases ");
        push_int(&mut s, self.purchase_frequency as i64);
        s.append(" times per year. Feedback Score: ");
        s.append(self.feedback_score.as_str());
        s.append(". Loyalty Level: ");
        s.append(self.loyalty_level.as_str());
        s.append(". Satisfaction Score: ");
        push_fixed(&mut s, self.satisfaction_tenths, 1);
        s.append("%");
        assert(s@ =~= summary_text(*self));
        self.profile_summary = s;
    }

    /// The text used to embed this record.
    pub fn embedding_text(&self) -> (r: &str)
        ensures
            r@ == self.profile_summary@,
    {
        self.profile_summary.as_str()
    }

    /// Whether two records describe the same customer: records are equal exactly
    /// when their identifiers are.
    pub fn same_customer(&self, other: &CustomerFeedback) -> (r: bool)
        ensures
            r == (self.customer_id@ == other.customer_id@),
    {
        self.customer_id == other.customer_id
    }

    /// Orders records by identifier alone, lexicographically over its UTF-8 bytes.
    pub fn compare_by_id(&self, other: &CustomerFeedback) -> (r: Ordering)
        ensures
            r == lex_order(encode_utf8(self.customer_id@), encode_utf8(other.customer_id@)),
    {
        let a = self.customer_id.as_str().as_bytes();
        let b = other.customer_id.as_str().as_bytes();
        let ghost sa = a@;
        let ghost sb = b@;
        assert(sa == encode_utf8(self.customer_id@));
        assert(sb == encode_utf8(other.customer_id@));
        assert(sa.subrange(0, sa.len() as int) =~= sa);
        assert(sb.subrange(0, sb.len() as int) =~= sb);
        let mut i: usize = 0;
        while i < a.len() && i < b.len()
            invariant
                a@ == sa,
                b@ == sb,
                sa == encode_utf8(self.customer_id@),
                sb == encode_utf8(other.customer_id@),
                i <= sa.len(),
                i <= sb.len(),
                lex_order(sa, sb) == lex_order(sa.subrange(i as int, sa.len() as int), sb.subrange(i as int, sb.len() as int)),
            decreases sa.len() - i,
        {
            let x = a[i];
            let y = b[i];
            assert(sa.subrange(i as int, sa.len() as int)[0] == x);
            assert(sb.subrange(i as int, sb.len() as int)[0] == y);
            let ghost ta = sa.subrange(i as int, sa.len() as int);
            let ghost tb = sb.subrange(i as int, sb.len() as int);
            assert(ta.len() > 0 && tb.len() > 0);
            if x < y {
                assert(lex_order(ta, tb) == Ordering::Less);
                return Ordering::Less;
            }
            if x > y {
                assert(lex_order(ta, tb) == Ordering::Greater);
                return Ordering::Greater;
            }
            assert(sa.subrange(i as int, sa.len() as int).drop_first() =~= sa.subrange(i + 1, sa.len() as int));
            assert(sb.subrange(i as int, sb.len() as int).drop_first() =~= sb.subrange(i + 1, sb.len() as int));
            i = i + 1;
        }
        assert(i == sa.len() ==> sa.subrange(i as int, sa.len() as int).len() == 0);
        assert(i == sb.len() ==> sb.subrange(i as int, sb.len() as int).len() == 0);
        if i < a.len() {
            Ordering::Greater
        } else if i < b.len() {
            Ordering::Less
        } else {
            Ordering::Equal
        }
    }
}

} // verus!
