//! The breakpoint engine: rules, matching, and the rendezvous
//! bookkeeping for suspended requests.
//!
//! Matching is disjunctive across rules and conjunctive across the
//! fields of one rule; substrings fold ASCII case. The engine itself is
//! a value: the channel that delivers a decision lives with the caller,
//! keyed by the transaction id registered here.

use vstd::prelude::*;

verus! {

use vstd::string::StrSliceExecFns;
use crate::headers::string_bytes;
use crate::method::HttpMethod;
use crate::request::RequestEdit;
use crate::sys::fresh_id;
use crate::text::contains_ci;

/// Input payload for creating a breakpoint rule.
#[derive(Debug, Clone)]
pub struct BreakpointRuleInput {
    /// Whether the rule is active.
    pub enabled: bool,
    /// Match a specific method.
    pub method: Option<HttpMethod>,
    /// Case-insensitive host substring.
    pub host_contains: Option<String>,
    /// Case-insensitive path substring.
    pub path_contains: Option<String>,
}

impl Default for BreakpointRuleInput {
    /// An enabled rule that matches everything.
    fn default() -> (r: BreakpointRuleInput)
        ensures
            r.enabled == true,
            r.method is None,
            r.host_contains is None,
            r.path_contains is None,
    {
        BreakpointRuleInput { enabled: true, method: None, host_contains: None, path_contains: None }
    }
}

/// A stored breakpoint rule.
#[derive(Debug, Clone)]
pub struct BreakpointRule {
    /// Stable identifier.
    pub id: String,
    /// Whether the rule is active.
    pub enabled: bool,
    /// Match a specific method.
    pub method: Option<HttpMethod>,
    /// Case-insensitive host substring.
    pub host_contains: Option<String>,
    /// Case-insensitive path substring.
    pub path_contains: Option<String>,
}

/// What a request looks like to the breakpoint engine.
#[derive(Debug, Clone)]
pub struct BreakpointContext {
    /// The request method.
    pub method: HttpMethod,
    /// The target host.
    pub host: String,
    /// The request path.
    pub path: String,
}

/// The decision delivered for a suspended request.
pub enum BreakpointAction {
    /// Resume, applying the edit.
    Resume(RequestEdit),
    /// Abort with a reason.
    Abort(String),
}

/// The kind of a breakpoint event.
#[derive(Debug, Clone)]
pub enum BreakpointEventKind {
    /// A request was suspended.
    Hit,
    /// A suspended request was resumed.
    Resumed {
        /// Whether the resume carried a non-empty edit.
        edited: bool,
    },
    /// A suspended request was aborted.
    Aborted {
        /// The reason given.
        reason: String,
    },
}

/// An event on the breakpoint stream.
#[derive(Debug, Clone)]
pub struct BreakpointEvent {
    /// The transaction the event concerns.
    pub transaction_id: String,
    /// What happened.
    pub kind: BreakpointEventKind,
    /// The request context, present on hits.
    pub context: Option<BreakpointContext>,
}

impl BreakpointEvent {
    /// A hit event for a suspended request.
    pub fn hit(transaction_id: String, ctx: BreakpointContext) -> (r: BreakpointEvent)
        ensures
            r.transaction_id == transaction_id,
            r.kind is Hit,
            r.context == Some(ctx),
    {
        BreakpointEvent { transaction_id, kind: BreakpointEventKind::Hit, context: Some(ctx) }
    }

    /// A resumed event; `edited` says whether the edit was non-empty.
    pub fn resumed(transaction_id: String, edited: bool) -> (r: BreakpointEvent)
        ensures
            r.transaction_id == transaction_id,
            r.kind == (BreakpointEventKind::Resumed { edited }),
            r.context is None,
    {
        BreakpointEvent {
            transaction_id,
            kind: BreakpointEventKind::Resumed { edited },
            context: None,
        }
    }

    /// An aborted event with its reason.
    pub fn aborted(transaction_id: String, reason: String) -> (r: BreakpointEvent)
        ensures
            r.transaction_id == transaction_id,
            r.kind == (BreakpointEventKind::Aborted { reason }),
            r.context is None,
    {
        BreakpointEvent {
            transaction_id,
            kind: BreakpointEventKind::Aborted { reason },
            context: None,
        }
    }
}

/// Whether one rule matches a request: the rule must be enabled, and
/// every field it sets must match, substrings case-insensitively.
pub open spec fn spec_rule_matches(rule: BreakpointRule, ctx: BreakpointContext) -> bool {
    &&& rule.enabled
    &&& match rule.method {
        Some(m) => ctx.method == m,
        None => true,
    }
    &&& match rule.host_contains {
        Some(h) => contains_ci(string_bytes(ctx.host), string_bytes(h)),
        None => true,
    }
    &&& match rule.path_contains {
        Some(p) => contains_ci(string_bytes(ctx.path), string_bytes(p)),
        None => true,
    }
}

/// Whether any rule of the list matches: disjunction across rules.
pub open spec fn spec_any_rule_matches(rules: Seq<BreakpointRule>, ctx: BreakpointContext) -> bool {
    exists|i: int| 0 <= i < rules.len() && spec_rule_matches(#[trigger] rules[i], ctx)
}

/// Whether one rule matches a request.
pub fn rule_matches(rule: &BreakpointRule, ctx: &BreakpointContext) -> (r: bool)
    ensures
        r == spec_rule_matches(*rule, *ctx),
{
    if !rule.enabled {
        return false;
    }
    if let Some(m) = &rule.method {
        if ctx.method != *m {
            return false;
        }
    }
    if let Some(h) = &rule.host_contains {
        if !crate::text::str_contains_ci(ctx.host.as_str(), h.as_str()) {
            return false;
        }
    }
    if let Some(p) = &rule.path_contains {
        if !crate::text::str_contains_ci(ctx.path.as_str(), p.as_str()) {
            return false;
        }
    }
    true
}

/// The breakpoint engine: the ordered rules, and the ids of suspended
/// transactions awaiting a decision.
pub struct BreakpointEngine {
    rules: Vec<BreakpointRule>,
    pending: Vec<String>,
}

impl BreakpointEngine {
    /// The rules, in order.
    pub closed spec fn spec_rules(self) -> Seq<BreakpointRule> {
        self.rules@
    }

    /// The ids of suspended transactions, in registration order.
    pub closed spec fn spec_pending(self) -> Seq<String> {
        self.pending@
    }

    /// An engine with no rules and nothing suspended.
    pub fn new() -> (r: BreakpointEngine)
        ensures
            r.spec_rules().len() == 0,
            r.spec_pending().len() == 0,
    {
        BreakpointEngine { rules: Vec::new(), pending: Vec::new() }
    }

    /// The rules, in order.
    pub fn list_breakpoint_rules(&self) -> (r: Vec<BreakpointRule>)
        ensures
            r@ == self.spec_rules(),
    {
        let mut out: Vec<BreakpointRule> = Vec::new();
        let mut i: usize = 0;
        while i < self.rules.len()
            invariant
                i <= self.rules@.len(),
                out@ == self.rules@.subrange(0, i as int),
            decreases self.rules@.len() - i,
        {
            let rule = &self.rules[i];
            out.push(
                BreakpointRule {
                    id: rule.id.clone(),
                    enabled: rule.enabled,
                    method: rule.method,
                    host_contains: clone_opt_string(&rule.host_contains),
                    path_contains: clone_opt_string(&rule.path_contains),
                },
            );
            proof {
                assert(out@.last() == self.rules@[i as int]);
                assert(out@ =~= self.rules@.subrange(0, i + 1));
            }
            i += 1;
        }
        proof {
            assert(self.rules@.subrange(0, self.rules@.len() as int) =~= self.rules@);
        }
        out
    }

    /// Install a rule built from the input, under a fresh id; it is
    /// appended after the existing rules.
    pub fn add_breakpoint_rule(&mut self, input: BreakpointRuleInput) -> (r: BreakpointRule)
        ensures
            final(self).spec_rules().len() == old(self).spec_rules().len() + 1,
            final(self).spec_rules().take(old(self).spec_rules().len() as int) == old(
                self,
            ).spec_rules(),
            final(self).spec_rules().last() == r,
            final(self).spec_pending() == old(self).spec_pending(),
            r.enabled == input.enabled,
            r.method == input.method,
            r.host_contains == input.host_contains,
            r.path_contains == input.path_contains,
    {
        let rule = BreakpointRule {
            id: fresh_id(),
            enabled: input.enabled,
            method: input.method,
            host_contains: input.host_contains,
            path_contains: input.path_contains,
        };
        let copy = BreakpointRule {
            id: rule.id.clone(),
            enabled: rule.enabled,
            method: rule.method,
            host_contains: clone_opt_string(&rule.host_contains),
            path_contains: clone_opt_string(&rule.path_contains),
        };
        self.rules.push(rule);
        proof {
            assert(self.rules@.take(old(self).rules@.len() as int) =~= old(self).rules@);
        }
        copy
    }

    /// Remove the rules bearing this id; true when any was removed.
    pub fn remove_breakpoint_rule(&mut self, id: &str) -> (r: bool)
        ensures
            final(self).spec_rules() == old(self).spec_rules().filter(
                |rule: BreakpointRule| rule.id@ != id@,
            ),
            final(self).spec_pending() == old(self).spec_pending(),
            r == (final(self).spec_rules().len() != old(self).spec_rules().len()),
    {
        broadcast use vstd::seq_lib::group_filter_ensures;

        let before = self.rules.len();
        let mut out: Vec<BreakpointRule> = Vec::new();
        let mut i: usize = 0;
        while i < self.rules.len()
            invariant
                i <= self.rules@.len(),
                out@ == self.rules@.subrange(0, i as int).filter(
                    |rule: BreakpointRule| rule.id@ != id@,
                ),
            decreases self.rules@.len() - i,
        {
            let ghost prefix = self.rules@.subrange(0, i as int);
            let keep = !str_views_equal(self.rules[i].id.as_str(), id);
            if keep {
                let rule = &self.rules[i];
                out.push(
                    BreakpointRule {
                        id: rule.id.clone(),
                        enabled: rule.enabled,
                        method: rule.method,
                        host_contains: clone_opt_string(&rule.host_contains),
                        path_contains: clone_opt_string(&rule.path_contains),
                    },
                );
                proof {
                    assert(out@.last() == self.rules@[i as int]);
                }
            }
            proof {
                assert(self.rules@.subrange(0, i + 1) =~= prefix.push(self.rules@[i as int]));
                prefix.lemma_filter_push(
                    self.rules@[i as int],
                    |rule: BreakpointRule| rule.id@ != id@,
                );
                assert(out@ =~= self.rules@.subrange(0, i + 1).filter(
                    |rule: BreakpointRule| rule.id@ != id@,
                ));
            }
            i += 1;
        }
        proof {
            assert(self.rules@.subrange(0, self.rules@.len() as int) =~= self.rules@);
        }
        self.rules = out;
        self.rules.len() != before
    }

    /// Whether any installed rule matches the request.
    pub fn should_break(&self, ctx: &BreakpointContext) -> (r: bool)
        ensures
            r == spec_any_rule_matches(self.spec_rules(), *ctx),
    {
        let mut i: usize = 0;
        while i < self.rules.len()
            invariant
                i <= self.rules@.len(),
                forall|j: int|
                    0 <= j < i ==> !spec_rule_matches(#[trigger] self.rules@[j], *ctx),
            decreases self.rules@.len() - i,
        {
            if rule_matches(&self.rules[i], ctx) {
                return true;
            }
            i += 1;
        }
        false
    }

    /// Register a suspended transaction id.
    pub fn register_pending(&mut self, transaction_id: String)
        ensures
            final(self).spec_pending() == old(self).spec_pending().push(transaction_id),
            final(self).spec_rules() == old(self).spec_rules(),
    {
        self.pending.push(transaction_id);
    }

    /// Resolve a suspended transaction for resumption: its registration
    /// is removed before the caller delivers the decision. True when it
    /// was registered.
    pub fn resume_breakpoint(&mut self, transaction_id: &str) -> (r: bool)
        ensures
            final(self).spec_pending() == old(self).spec_pending().filter(
                |p: String| p@ != transaction_id@,
            ),
            final(self).spec_rules() == old(self).spec_rules(),
            r == (final(self).spec_pending().len() != old(self).spec_pending().len()),
    {
        self.take_pending(transaction_id)
    }

    /// Resolve a suspended transaction for abort: its registration is
    /// removed before the caller delivers the decision. True when it was
    /// registered.
    pub fn abort_breakpoint(&mut self, transaction_id: &str) -> (r: bool)
        ensures
            final(self).spec_pending() == old(self).spec_pending().filter(
                |p: String| p@ != transaction_id@,
            ),
            final(self).spec_rules() == old(self).spec_rules(),
            r == (final(self).spec_pending().len() != old(self).spec_pending().len()),
    {
        self.take_pending(transaction_id)
    }

    /// Take a suspended transaction id out, if present: the entry is
    /// removed before the decision is delivered. True when it was there.
    fn take_pending(&mut self, transaction_id: &str) -> (r: bool)
        ensures
            final(self).spec_pending() == old(self).spec_pending().filter(
                |p: String| p@ != transaction_id@,
            ),
            final(self).spec_rules() == old(self).spec_rules(),
            r == (final(self).spec_pending().len() != old(self).spec_pending().len()),
    {
        broadcast use vstd::seq_lib::group_filter_ensures;

        let before = self.pending.len();
        let mut out: Vec<String> = Vec::new();
        let mut i: usize = 0;
        while i < self.pending.len()
            invariant
                i <= self.pending@.len(),
                out@ == self.pending@.subrange(0, i as int).filter(
                    |p: String| p@ != transaction_id@,
                ),
            decreases self.pending@.len() - i,
        {
            let ghost prefix = self.pending@.subrange(0, i as int);
            if !str_views_equal(self.pending[i].as_str(), transaction_id) {
                out.push(self.pending[i].clone());
                proof {
                    assert(out@.last() == self.pending@[i as int]);
                }
            }
            proof {
                assert(self.pending@.subrange(0, i + 1) =~= prefix.push(
                    self.pending@[i as int],
                ));
                prefix.lemma_filter_push(
                    self.pending@[i as int],
                    |p: String| p@ != transaction_id@,
                );
                assert(out@ =~= self.pending@.subrange(0, i + 1).filter(
                    |p: String| p@ != transaction_id@,
                ));
            }
            i += 1;
        }
        proof {
            assert(self.pending@.subrange(0, self.pending@.len() as int) =~= self.pending@);
        }
        self.pending = out;
        self.pending.len() != before
    }

    /// Drop every rule and every pending registration, so a test can
    /// start from a clean engine.
    pub fn reset_for_tests(&mut self)
        ensures
            final(self).spec_rules().len() == 0,
            final(self).spec_pending().len() == 0,
    {
        self.rules = Vec::new();
        self.pending = Vec::new();
    }
}

/// Character-level string equality.
fn str_views_equal(a: &str, b: &str) -> (r: bool)
    ensures
        r == (a@ == b@),
{
    let an = a.unicode_len();
    let bn = b.unicode_len();
    if an != bn {
        proof {
            assert(a@.len() != b@.len());
        }
        return false;
    }
    let mut i: usize = 0;
    while i < an
        invariant
            i <= an,
            an == a@.len(),
            an == b@.len(),
            forall|j: int| 0 <= j < i ==> a@[j] == b@[j],
        decreases an - i,
    {
        if a.get_char(i) != b.get_char(i) {
            return false;
        }
        i += 1;
    }
    proof {
        assert(a@ =~= b@);
    }
    true
}

/// An exact copy of an optional string.
fn clone_opt_string(s: &Option<String>) -> (r: Option<String>)
    ensures
        r == *s,
{
    match s {
        Some(v) => Some(v.clone()),
        None => None,
    }
}

} // verus!
