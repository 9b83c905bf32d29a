use vstd::prelude::*;

verus! {

/// One row of the Codex `threads` table: the summary that the state database keeps of a session.
#[derive(Debug, PartialEq, Eq)]
pub struct ThreadSummary {
    pub id: String,
    pub title: String,
    pub cwd: String,
    pub model: Option<String>,
    pub created_at: i64,
    pub updated_at: i64,
    pub tokens_used: i64,
    pub rollout_path: String,
}

impl Clone for ThreadSummary {
    fn clone(&self) -> (r: Self)
        ensures
            r == *self,
    {
        let model = match &self.model {
            Some(m) => Some(m.clone()),
            None => None,
        };
        ThreadSummary {
            id: self.id.clone(),
            title: self.title.clone(),
            cwd: self.cwd.clone(),
            model,
            created_at: self.created_at,
            updated_at: self.updated_at,
            tokens_used: self.tokens_used,
            rollout_path: self.rollout_path.clone(),
        }
    }
}

/// Token counters of a session, as reported by the last `token_count` event of its rollout.
#[derive(Debug, Clone, Copy, PartialEq, Eq, Structural)]
pub struct TokenUsage {
    pub input_tokens: i64,
    pub cached_input_tokens: i64,
    pub output_tokens: i64,
    pub reasoning_output_tokens: i64,
    pub total_tokens: i64,
}

/// True when `x` can be held by an `i64`.
pub open spec fn fits_i64(x: int) -> bool {
    i64::MIN <= x <= i64::MAX
}

/// The usage with every counter at zero.
pub open spec fn zero_usage() -> TokenUsage {
    TokenUsage {
        input_tokens: 0,
        cached_input_tokens: 0,
        output_tokens: 0,
        reasoning_output_tokens: 0,
        total_tokens: 0,
    }
}

/// Whether adding `a` and `b` counter by counter stays within `i64`.
pub open spec fn can_combine(a: TokenUsage, b: TokenUsage) -> bool {
    &&& fits_i64(a.input_tokens + b.input_tokens)
    &&& fits_i64(a.cached_input_tokens + b.cached_input_tokens)
    &&& fits_i64(a.output_tokens + b.output_tokens)
    &&& fits_i64(a.reasoning_output_tokens + b.reasoning_output_tokens)
    &&& fits_i64(a.total_tokens + b.total_tokens)
}

/// The counter-by-counter sum of `a` and `b`, where it fits.
pub open spec fn combine(a: TokenUsage, b: TokenUsage) -> TokenUsage {
    TokenUsage {
        input_tokens: (a.input_tokens + b.input_tokens) as i64,
        cached_input_tokens: (a.cached_input_tokens + b.cached_input_tokens) as i64,
        output_tokens: (a.output_tokens + b.output_tokens) as i64,
        reasoning_output_tokens: (a.reasoning_output_tokens + b.reasoning_output_tokens) as i64,
        total_tokens: (a.total_tokens + b.total_tokens) as i64,
    }
}

impl Default for TokenUsage {
    fn default() -> (r: Self)
        ensures
            r == zero_usage(),
    {
        TokenUsage {
            input_tokens: 0,
            cached_input_tokens: 0,
            output_tokens: 0,
            reasoning_output_tokens: 0,
            total_tokens: 0,
        }
    }
}

impl TokenUsage {
    /// Adds two usages counter by counter.
    pub fn combined_with(self, other: TokenUsage) -> (r: TokenUsage)
        requires
            can_combine(self, other),
        ensures
            r == combine(self, other),
            r.input_tokens == self.input_tokens + other.input_tokens,
            r.cached_input_tokens == self.cached_input_tokens + other.cached_input_tokens,
            r.output_tokens == self.output_tokens + other.output_tokens,
            r.reasoning_output_tokens == self.reasoning_output_tokens
                + other.reasoning_output_tokens,
            r.total_tokens == self.total_tokens + other.total_tokens,
    {
        TokenUsage {
            input_tokens: self.input_tokens + other.input_tokens,
            cached_input_tokens: self.cached_input_tokens + other.cached_input_tokens,
            output_tokens: self.output_tokens + other.output_tokens,
            reasoning_output_tokens: self.reasoning_output_tokens + other.reasoning_output_tokens,
            total_tokens: self.total_tokens + other.total_tokens,
        }
    }
}

/// Rate-limit state of a session. A used percentage is a floating-point number in the
/// rollout; it is carried here by the IEEE-754 bit pattern of that `f64`, unchanged.
#[derive(Debug, Clone, Copy, PartialEq, Eq, Structural)]
pub struct RateLimit {
    pub primary_used_percent_bits: Option<u64>,
    pub primary_resets_at: Option<i64>,
    pub secondary_used_percent_bits: Option<u64>,
    pub secondary_resets_at: Option<i64>,
}

impl Default for RateLimit {
    fn default() -> (r: Self)
        ensures
            r.primary_used_percent_bits is None,
            r.primary_resets_at is None,
            r.secondary_used_percent_bits is None,
            r.secondary_resets_at is None,
    {
        RateLimit {
            primary_used_percent_bits: None,
            primary_resets_at: None,
            secondary_used_percent_bits: None,
            secondary_resets_at: None,
        }
    }
}

/// A session: its database summary and what its rollout file reported last.
#[derive(Debug, PartialEq, Eq)]
pub struct SessionRecord {
    pub summary: ThreadSummary,
    pub usage: Option<TokenUsage>,
    pub rate_limit: Option<RateLimit>,
}

impl Clone for SessionRecord {
    fn clone(&self) -> (r: Self)
        ensures
            r == *self,
    {
        SessionRecord {
            summary: self.summary.clone(),
            usage: self.usage,
            rate_limit: self.rate_limit,
        }
    }
}

/// The usage counted for a record: the rollout's usage where there is one, else the
/// database total alone.
pub open spec fn effective_usage_of(r: SessionRecord) -> TokenUsage {
    match r.usage {
        Some(u) => u,
        None => TokenUsage { total_tokens: r.summary.tokens_used, ..zero_usage() },
    }
}

impl SessionRecord {
    pub fn effective_usage(&self) -> (r: TokenUsage)
        ensures
            r == effective_usage_of(*self),
            self.usage is None ==> r.total_tokens == self.summary.tokens_used
                && r.input_tokens == 0 && r.cached_input_tokens == 0 && r.output_tokens == 0
                && r.reasoning_output_tokens == 0,
            self.usage matches Some(u) ==> r == u,
    {
        match self.usage {
            Some(u) => u,
            None => TokenUsage { total_tokens: self.summary.tokens_used, ..TokenUsage::default() },
        }
    }
}

} // verus!

verus! {

/// Adding two usages does not depend on their order: either both orders fit and agree, or
/// neither fits.
pub proof fn law_combine_commutes(a: TokenUsage, b: TokenUsage)
    ensures
        can_combine(a, b) == can_combine(b, a),
        combine(a, b) == combine(b, a),
{
}

/// Adding the zero usage always fits and changes nothing.
pub proof fn law_combine_zero(a: TokenUsage)
    ensures
        can_combine(a, zero_usage()),
        combine(a, zero_usage()) == a,
{
}

/// Adding usages is associative wherever all the sums fit.
pub proof fn law_combine_associates(a: TokenUsage, b: TokenUsage, c: TokenUsage)
    requires
        can_combine(a, b),
        can_combine(combine(a, b), c),
        can_combine(b, c),
        can_combine(a, combine(b, c)),
    ensures
        combine(combine(a, b), c) == combine(a, combine(b, c)),
{
}

/// A record whose rollout reported no usage counts its database total, and nothing else.
pub proof fn law_fallback_to_database_total(r: SessionRecord)
    requires
        r.usage is None,
    ensures
        effective_usage_of(r).total_tokens == r.summary.tokens_used,
        effective_usage_of(r).input_tokens == 0,
        effective_usage_of(r).cached_input_tokens == 0,
        effective_usage_of(r).output_tokens == 0,
        effective_usage_of(r).reasoning_output_tokens == 0,
{
}

} // verus!
