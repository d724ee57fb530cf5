//! How many tokens a piece of work may use.
use vstd::prelude::*;
use crate::agent_rt::types;
use crate::json::{Json, JsonNum, JsonV, NumV, ObjectBuilder};

verus! {

/// How many tokens were used, and by which model.
#[derive(Debug, PartialEq, Eq)]
pub struct UsageReport {
    pub input_tokens: u64,
    pub output_tokens: u64,
    pub model: Option<String>,
}

/// What a report is.
pub struct UsageV {
    pub input_tokens: u64,
    pub output_tokens: u64,
    pub model: Option<Seq<char>>,
}

impl View for UsageReport {
    type V = UsageV;

    open spec fn view(&self) -> UsageV {
        UsageV {
            input_tokens: self.input_tokens,
            output_tokens: self.output_tokens,
            model: types::opt_str(self.model),
        }
    }
}

/// The tokens that may be used, and those that were. What the tokens cost is counted by whoever
/// knows the prices, who says whether the money is used up.
#[derive(Debug, Clone, Copy, PartialEq, Eq, Structural)]
pub struct ResourceBudget {
    pub max_tokens: Option<u64>,
    pub tokens_used: u64,
}

/// A sum, or the greatest `u64` where it is more.
pub open spec fn capped_sum(a: u64, b: u64) -> u64 {
    if a + b > u64::MAX {
        u64::MAX
    } else {
        (a + b) as u64
    }
}

fn capped(a: u64, b: u64) -> (r: u64)
    ensures
        r == capped_sum(a, b),
{
    if a > u64::MAX - b {
        u64::MAX
    } else {
        a + b
    }
}

impl ResourceBudget {
    /// The tokens are used up.
    pub open spec fn tokens_gone(self) -> bool {
        self.max_tokens matches Some(max) && self.tokens_used >= max
    }

    /// The budget after a report.
    pub open spec fn after(self, u: UsageV) -> ResourceBudget {
        ResourceBudget {
            tokens_used: capped_sum(
                self.tokens_used,
                capped_sum(u.input_tokens, u.output_tokens),
            ),
            ..self
        }
    }

    /// A budget of which nothing was used.
    pub fn new(max_tokens: Option<u64>) -> (r: Self)
        ensures
            r == (ResourceBudget { max_tokens, tokens_used: 0 }),
    {
        ResourceBudget { max_tokens, tokens_used: 0 }
    }

    /// A budget without a limit.
    pub fn unlimited() -> (r: Self)
        ensures
            r == (ResourceBudget { max_tokens: None, tokens_used: 0 }),
    {
        ResourceBudget { max_tokens: None, tokens_used: 0 }
    }

    /// Counts the tokens of a report. True where the budget is now used up.
    pub fn record_usage(&mut self, usage: &UsageReport, cost_exhausted: bool) -> (r: bool)
        ensures
            *final(self) == old(self).after(usage@),
            r == (old(self).after(usage@).tokens_gone() || cost_exhausted),
    {
        let total: u64 = capped(usage.input_tokens, usage.output_tokens);
        self.tokens_used = capped(self.tokens_used, total);
        self.is_exhausted(cost_exhausted)
    }

    /// Whether the budget is used up.
    pub fn is_exhausted(&self, cost_exhausted: bool) -> (r: bool)
        ensures
            r == (self.tokens_gone() || cost_exhausted),
    {
        let tokens: bool = match self.max_tokens {
            Some(max) => self.tokens_used >= max,
            None => false,
        };
        tokens || cost_exhausted
    }

    /// How many tokens were used.
    pub fn tokens_used(&self) -> (r: u64)
        ensures
            r == self.tokens_used,
    {
        self.tokens_used
    }

    /// The budget as a JSON value, with the given costs.
    pub fn snapshot(&self, cost_usd: Json, max_cost_usd: Json) -> (r: Json)
        ensures
            r@ == budget_record(*self, cost_usd@, max_cost_usd@),
    {
        let mut o = ObjectBuilder::new();
        o.put_u64("tokens_used", self.tokens_used);
        o.put(
            "max_tokens",
            match self.max_tokens {
                Some(n) => Json::Num(JsonNum::PosInt(n)),
                None => Json::Null,
            },
        );
        o.put("cost_usd", cost_usd);
        o.put("max_cost_usd", max_cost_usd);
        assert(o@ =~= budget_record(*self, cost_usd@, max_cost_usd@)->Object_0);
        o.build()
    }

    /// The usage that the result of a worker reports, if it does.
    pub fn parse_usage(payload: &Json) -> (r: Option<UsageReport>)
        ensures
            usage_view(r) == reported_usage(payload@),
    {
        let usage = payload.get("usage")?;
        let input_tokens: u64 = usage.get_u64("input_tokens")?;
        let output_tokens: u64 = usage.get_u64("output_tokens")?;
        let model: Option<String> = match usage.get_str("model") {
            Some(s) => Some(s.clone()),
            None => None,
        };
        Some(UsageReport { input_tokens, output_tokens, model })
    }
}

/// The JSON value of a budget.
pub open spec fn budget_record(b: ResourceBudget, cost: JsonV, max_cost: JsonV) -> JsonV {
    JsonV::Object(
        seq![
            ("tokens_used"@, JsonV::Num(NumV::PosInt(b.tokens_used))),
            (
                "max_tokens"@,
                match b.max_tokens {
                    Some(n) => JsonV::Num(NumV::PosInt(n)),
                    None => JsonV::Null,
                },
            ),
            ("cost_usd"@, cost),
            ("max_cost_usd"@, max_cost),
        ],
    )
}

/// What an optional report is.
pub open spec fn usage_view(r: Option<UsageReport>) -> Option<UsageV> {
    match r {
        Some(u) => Some(u@),
        None => None,
    }
}

/// The usage that a value reports: both counts have to be there.
pub open spec fn reported_usage(v: JsonV) -> Option<UsageV> {
    match v.get("usage"@) {
        None => None,
        Some(u) => match (u.get_unsigned("input_tokens"@), u.get_unsigned("output_tokens"@)) {
            (Some(i), Some(o)) => Some(
                UsageV { input_tokens: i, output_tokens: o, model: u.get_text("model"@) },
            ),
            _ => None,
        },
    }
}

/// A budget that is used up stays used up.
pub proof fn law_exhausted_budget_stays(b: ResourceBudget, u: UsageV)
    requires
        b.tokens_gone(),
    ensures
        b.after(u).tokens_gone(),
{
}

/// A budget without a limit is never used up.
pub proof fn law_unlimited_never_exhausted(b: ResourceBudget)
    requires
        b.max_tokens is None,
    ensures
        !b.tokens_gone(),
{
}

/// Every token that is reported counts, those that went in and those that came out, and a budget is
/// used up exactly once they are as many as it allows.
pub proof fn law_all_tokens_count(b: ResourceBudget, u: UsageV)
    ensures
        b.after(u).max_tokens == b.max_tokens,
        b.tokens_used + u.input_tokens + u.output_tokens <= u64::MAX ==> b.after(u).tokens_used
            == b.tokens_used + u.input_tokens + u.output_tokens,
        b.tokens_used + u.input_tokens + u.output_tokens > u64::MAX ==> b.after(u).tokens_used
            == u64::MAX,
        b.max_tokens matches Some(max) ==> (b.after(u).tokens_gone() <==> b.after(u).tokens_used
            >= max),
{
}

/// The usage that is reported is the one that is read.
pub proof fn law_usage_is_read(v: JsonV, u: JsonV)
    requires
        v.get("usage"@) == Some(u),
    ensures
        reported_usage(v) is Some <==> u.get_unsigned("input_tokens"@) is Some && u.get_unsigned(
            "output_tokens"@,
        ) is Some,
        reported_usage(v) matches Some(r) ==> Some(r.input_tokens) == u.get_unsigned(
            "input_tokens"@,
        ) && Some(r.output_tokens) == u.get_unsigned("output_tokens"@) && r.model == u.get_text(
            "model"@,
        ),
{
}

} // verus!
