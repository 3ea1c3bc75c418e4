//! What the service is asked and what it answers, apart from how either
//! travels: a request to be limited becomes a call of the counter, and the
//! counter's answer becomes a response.

use crate::command::{
    command_words, limiting_command, limiting_words, redrules_add_commands, redrules_add_words,
};
use crate::redlimit::{limiting_key_of, LimitArgs, LimitResult, RedRules};
use crate::table::Table;
use vstd::prelude::*;

verus! {

/// How long the service waits for the counter's answer, in ms. After that
/// the request counts as not limited.
pub const LIMITING_DEADLINE_MS: u64 = 100;

/// What the service is.
pub struct AppInfo {
    pub name: String,
    pub version: String,
}

/// A request to be limited.
pub struct LimitRequest {
    pub scope: String,
    pub path: String,
    pub id: String,
}

/// The call of the counter that a request leads to.
pub struct LimitCall {
    /// The arguments that the rules give the request.
    pub args: LimitArgs,
    /// The key of the counter.
    pub key: String,
    /// The command to send; none where the arguments are not valid, and the
    /// request is not to be limited.
    pub command: Option<rustis::resp::CommandBuilder>,
}

impl LimitRequest {
    /// The call of the counter that the request leads to at `now`.
    pub fn prepare(&self, rules: &RedRules, now: u64) -> (call: LimitCall)
        requires
            rules.wf(),
        ensures
            call.args == rules@.limit_args(now, self.scope@, self.path@, self.id@),
            call.key@ == limiting_key_of(rules@.ns, self.scope@, self.id@),
            call.command is Some <==> call.args.is_valid(),
            call.command is Some ==> command_words(call.command->0) == limiting_words(
                call.key@,
                call.args,
            ),
    {
        let args = rules.limit_args(now, self.scope.as_str(), self.path.as_str(), self.id.as_str());
        let key = rules.namespace().limiting_key(self.scope.as_str(), self.id.as_str());
        let command = limiting_command(key.as_str(), &args);
        LimitCall { args, key, command }
    }
}

/// What a request to be limited is answered.
#[derive(PartialEq, Eq, Structural, Debug, Clone, Copy)]
pub struct LimitResponse {
    /// The max count of the limit that applies.
    pub limit: u64,
    /// What of it is left in the period.
    pub remaining: u64,
    /// When to try again, in s since the epoch; 0 where the call was admitted.
    pub reset: u64,
    /// How long to wait before trying again, in ms; 0 where the call was
    /// admitted.
    pub retry: u64,
}

impl LimitResponse {
    /// The response to a request at `now` that was given the arguments
    /// `args` and the counter's answer `result`.
    pub open spec fn spec_new(args: LimitArgs, now: u64, result: LimitResult) -> LimitResponse {
        LimitResponse {
            limit: args.1,
            remaining: if args.1 > result.0 {
                (args.1 - result.0) as u64
            } else {
                0
            },
            reset: if result.1 > 0 {
                ((now + result.1) / 1000) as u64
            } else {
                0
            },
            retry: result.1,
        }
    }

    /// The response to a request at `now`: the max count as the limit, what
    /// the count leaves of it, and, where the call was rejected, the wait
    /// and the second in which it ends.
    pub fn new(args: &LimitArgs, now: u64, result: &LimitResult) -> (response: LimitResponse)
        ensures
            response == Self::spec_new(*args, now, *result),
    {
        let limit = args.1;
        let reset: u64 = if result.1 > 0 {
            ((now as u128 + result.1 as u128) / 1000) as u64
        } else {
            0
        };
        LimitResponse {
            limit,
            remaining: if limit > result.0 {
                limit - result.0
            } else {
                0
            },
            reset,
            retry: result.1,
        }
    }
}

/// A request to override what paths of a scope cost: for each path, a
/// quantity and a time to live in ms.
pub struct RedRulesRequest {
    pub scope: String,
    pub rules: Table<(u64, u64)>,
}

impl RedRulesRequest {
    /// The commands that store the overrides in the namespace `ns`.
    pub fn commands(&self, ns: &str) -> (commands: Vec<rustis::resp::CommandBuilder>)
        requires
            self.rules.wf(),
        ensures
            commands@.len() == self.rules.keys().len(),
            forall|i: int|
                0 <= i < commands@.len() ==> command_words(#[trigger] commands@[i])
                    == redrules_add_words(
                    ns@,
                    self.scope@,
                    self.rules.keys()[i],
                    self.rules@[self.rules.keys()[i]],
                ),
    {
        redrules_add_commands(ns, self.scope.as_str(), &self.rules)
    }
}

} // verus!
