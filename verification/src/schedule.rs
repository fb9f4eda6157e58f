//! Cron evaluation: normalising five-field expressions to the six-field
//! (seconds-resolution) form, computing the next occurrence after an
//! instant, and due-detection inside a tolerance window. Expressions are
//! evaluated in UTC, so hour-valued schedules read as UTC times.

use vstd::prelude::*;

use crate::text::{fields, is_space, lemma_token_len_is, split_fields, token_len};

verus! {

/// The tolerance window, in seconds, that absorbs scheduler wake jitter:
/// an expression is due at `now` when its first occurrence strictly after
/// `now - 5` has already arrived.
pub const DUE_WINDOW_SECS: i64 = 5;

/// The last epoch second whose UTC datetime the evaluator can form
/// (23:59:59 of the largest year chrono represents). The search for the
/// next occurrence begins one second after `after`, so `after` must stay
/// strictly below this bound or that first step would overflow.
pub const MAX_EVAL_EPOCH_SECS: i64 = 8_210_266_876_799;

/// A five-field (minute-resolution) expression gains a literal `0`
/// seconds field; anything else passes through unchanged.
pub open spec fn spec_normalize_cron(e: Seq<char>) -> Seq<char> {
    if fields(e).len() == 5 {
        "0 "@ + e
    } else {
        e
    }
}

/// Normalises a standard five-field cron expression to the six-field
/// form (with a seconds field) that evaluation requires. The rewrite is
/// textual and is applied identically wherever an expression is
/// evaluated.
pub fn normalize_cron(expr: &str) -> (r: String)
    ensures
        r@ == spec_normalize_cron(expr@),
{
    let parts = split_fields(expr);
    if parts.len() == 5 {
        proof {
            assert(fields(expr@).len() == 5);
        }
        let mut r = String::from_str("0 ");
        r.append(expr);
        r
    } else {
        proof {
            assert(fields(expr@).len() == parts@.len());
        }
        String::from_str(expr)
    }
}

/// The first schedule time strictly after `after` (epoch seconds, UTC) of
/// a cron expression, or `None` when the expression does not parse or no
/// occurrence exists; a function of the expression and the instant alone.
pub uninterp spec fn cron_next(expr: Seq<char>, after: int) -> Option<i64>;

/// Relies on `cron::Schedule::from_str` and `Schedule::after` (evaluated
/// in UTC via chrono's epoch conversions): the first occurrence after an
/// instant is determined by the expression and the instant alone, and a
/// parse failure or an instant below the representable range yields no
/// occurrence. The occurrence search seeds itself at `after` plus one
/// second, and that addition panics past the end of the representable
/// range, so the bound keeps one second of headroom.
#[verifier::external_body]
fn cron_next_after(expr: &str, after: i64) -> (r: Option<i64>)
    requires
        after < MAX_EVAL_EPOCH_SECS,
    ensures
        r == cron_next(expr@, after as int),
{
    let schedule = match <::cron::Schedule as core::str::FromStr>::from_str(expr) {
        Ok(s) => s,
        Err(_) => return None,
    };
    let after_dt = match chrono::DateTime::<chrono::Utc>::from_timestamp(after, 0) {
        Some(t) => t,
        None => return None,
    };
    schedule.after(&after_dt).next().map(|t| t.timestamp())
}

/// The next occurrence of a (normalised) expression strictly after `now`.
pub fn get_next_run(cron_expr: &str, now: i64) -> (r: Option<i64>)
    requires
        now < MAX_EVAL_EPOCH_SECS,
    ensures
        r == cron_next(spec_normalize_cron(cron_expr@), now as int),
{
    let normalized = normalize_cron(cron_expr);
    cron_next_after(normalized.as_str(), now)
}

/// Due-detection: the first occurrence strictly after `now - 5` has
/// already arrived. A malformed expression is never due.
pub open spec fn due_at(e: Seq<char>, now: i64) -> bool {
    match cron_next(spec_normalize_cron(e), now - DUE_WINDOW_SECS) {
        Some(t) => t <= now,
        None => false,
    }
}

/// Whether an expression is due at `now`: its next occurrence after the
/// start of the tolerance window is not in the future. Derived fresh from
/// the clock each time; idempotence across loop iterations is the run
/// state table's concern, not the evaluator's.
pub fn is_due(cron_expr: &str, now: i64) -> (r: bool)
    requires
        now >= i64::MIN + DUE_WINDOW_SECS,
        now - DUE_WINDOW_SECS < MAX_EVAL_EPOCH_SECS,
    ensures
        r == due_at(cron_expr@, now),
{
    let normalized = normalize_cron(cron_expr);
    match cron_next_after(normalized.as_str(), now - DUE_WINDOW_SECS) {
        Some(t) => t <= now,
        None => false,
    }
}

/// A five-field expression evaluates identically to the six-field form
/// obtained by prefixing a literal `0` seconds field: both normalise to
/// the same text, so next-occurrence and due-detection agree on them
/// everywhere.
pub proof fn lemma_five_field_normalization(e: Seq<char>)
    requires
        fields(e).len() == 5,
    ensures
        spec_normalize_cron(e) == "0 "@ + e,
        spec_normalize_cron("0 "@ + e) == "0 "@ + e,
        forall|now: int| #[trigger] cron_next(spec_normalize_cron(e), now) == cron_next(
            spec_normalize_cron("0 "@ + e),
            now,
        ),
        forall|now: i64| #[trigger] due_at(e, now) == due_at("0 "@ + e, now),
{
    reveal_strlit("0 ");
    let s = "0 "@ + e;
    assert(s.len() == 2 + e.len());
    assert(!is_space(s[0]));
    assert(is_space(s[1]));
    lemma_token_len_is(s, 1);
    assert(fields(s) == seq![s.take(1)] + fields(s.skip(1)));
    assert(s.skip(1).len() == 1 + e.len());
    assert(is_space(s.skip(1)[0]));
    assert(fields(s.skip(1)) == fields(s.skip(1).drop_first()));
    assert(s.skip(1).drop_first() =~= e);
    assert(fields(s).len() == 6);
}

} // verus!
