//! The commands that call the store's functions, word by word.

use crate::redlimit::{LimitArgs, LimitResult};
use crate::table::Table;
use crate::text::decimal_digits;
use vstd::prelude::*;

verus! {

/// A command of the `rustis` client, while it is being put together.
#[verifier::external_type_specification]
#[verifier::external_body]
pub struct ExCommandBuilder(rustis::resp::CommandBuilder);

/// The words of a command: its name, then its arguments in the order in
/// which they were added, each read as text.
pub uninterp spec fn command_words(command: rustis::resp::CommandBuilder) -> Seq<Seq<char>>;

/// Calls `rustis::resp::cmd`. Not proved: that the new command holds its
/// name and no argument.
#[verifier::external_body]
fn new_command(name: &'static str) -> (command: rustis::resp::CommandBuilder)
    ensures
        command_words(command) == seq![name@],
{
    rustis::resp::cmd(name)
}

/// Calls `CommandBuilder::arg` with a string. Not proved: that the string
/// becomes the last argument, as it is, and that the rest stays.
#[verifier::external_body]
fn with_text(command: rustis::resp::CommandBuilder, text: &str) -> (longer:
    rustis::resp::CommandBuilder)
    ensures
        command_words(longer) == command_words(command).push(text@),
{
    command.arg(text)
}

/// Calls `CommandBuilder::arg` with a number. Not proved: that the number,
/// written in base ten, becomes the last argument, and that the rest stays.
#[verifier::external_body]
fn with_number(command: rustis::resp::CommandBuilder, number: u64) -> (longer:
    rustis::resp::CommandBuilder)
    ensures
        command_words(longer) == command_words(command).push(decimal_digits(number as nat)),
{
    command.arg(number)
}

/// The words that call `function` on the one key `key`, before the
/// arguments of the function.
pub open spec fn call_words(function: Seq<char>, key: Seq<char>) -> Seq<Seq<char>> {
    seq!["FCALL"@, function, "1"@, key]
}

/// A call of `function` on the one key `key`, without arguments yet.
fn function_call(function: &'static str, key: &str) -> (command: rustis::resp::CommandBuilder)
    ensures
        command_words(command) == call_words(function@, key@),
{
    let command = new_command("FCALL");
    let command = with_text(command, function);
    let command = with_text(command, "1");
    let command = with_text(command, key);
    assert(command_words(command) =~= call_words(function@, key@));
    command
}

/// The words that call the counter: the quantity, the max count and the
/// period always. Where bursts are limited, the max burst follows, and
/// behind it the burst period unless that is 0. A limit without a max
/// burst has no burst window, and nothing follows the period.
pub open spec fn limiting_words(key: Seq<char>, args: LimitArgs) -> Seq<Seq<char>> {
    let fixed = call_words("limiting"@, key).push(decimal_digits(args.0 as nat)).push(
        decimal_digits(args.1 as nat),
    ).push(decimal_digits(args.2 as nat));
    if args.3 == 0 {
        fixed
    } else if args.4 == 0 {
        fixed.push(decimal_digits(args.3 as nat))
    } else {
        fixed.push(decimal_digits(args.3 as nat)).push(decimal_digits(args.4 as nat))
    }
}

/// The command that charges `args` to the counter under `key`; none where
/// the arguments are not valid, for then the counter is not to be called.
pub fn limiting_command(key: &str, args: &LimitArgs) -> (command: Option<
    rustis::resp::CommandBuilder,
>)
    ensures
        command is Some <==> args.is_valid(),
        command is Some ==> command_words(command->0) == limiting_words(key@, *args),
{
    if !args.is_valid() {
        return None;
    }
    let mut command = function_call("limiting", key);
    command = with_number(command, args.0);
    command = with_number(command, args.1);
    command = with_number(command, args.2);
    if args.3 > 0 {
        command = with_number(command, args.3);
        if args.4 > 0 {
            command = with_number(command, args.4);
        }
    }
    Some(command)
}

impl LimitResult {
    /// What a call of the counter comes to, given the two numbers of the
    /// store's reply, if there was such a reply. Without one the call is
    /// admitted and counts as nothing.
    pub fn from_reply(reply: Option<(u64, u64)>) -> (result: LimitResult)
        ensures
            result == match reply {
                Some(pair) => LimitResult(pair.0, pair.1),
                None => LimitResult(0, 0),
            },
    {
        match reply {
            Some(pair) => LimitResult(pair.0, pair.1),
            None => LimitResult(0, 0),
        }
    }
}

/// The words that store the override of row `i` of `rules`: the scope, the
/// path, the quantity, and the time to live in ms.
pub open spec fn redrules_add_words(
    ns: Seq<char>,
    scope: Seq<char>,
    path: Seq<char>,
    rule: (u64, u64),
) -> Seq<Seq<char>> {
    call_words("redrules_add"@, ns).push(scope).push(path).push(
        decimal_digits(rule.0 as nat),
    ).push(decimal_digits(rule.1 as nat))
}

/// The commands that store the overrides `rules` of `scope`: one for each
/// path, row by row.
pub fn redrules_add_commands(ns: &str, scope: &str, rules: &Table<(u64, u64)>) -> (commands: Vec<
    rustis::resp::CommandBuilder,
>)
    requires
        rules.wf(),
    ensures
        commands@.len() == rules.keys().len(),
        forall|i: int|
            0 <= i < commands@.len() ==> command_words(#[trigger] commands@[i])
                == redrules_add_words(ns@, scope@, rules.keys()[i], rules@[rules.keys()[i]]),
{
    let mut commands: Vec<rustis::resp::CommandBuilder> = Vec::new();
    let n = rules.len();
    let mut i: usize = 0;
    while i < n
        invariant
            rules.wf(),
            n == rules.keys().len(),
            i <= n,
            commands@.len() == i,
            forall|k: int|
                0 <= k < i ==> command_words(#[trigger] commands@[k]) == redrules_add_words(
                    ns@,
                    scope@,
                    rules.keys()[k],
                    rules@[rules.keys()[k]],
                ),
        decreases n - i,
    {
        let rule = *rules.value_at(i);
        let mut command = function_call("redrules_add", ns);
        command = with_text(command, scope);
        command = with_text(command, rules.key_at(i).as_str());
        command = with_number(command, rule.0);
        command = with_number(command, rule.1);
        commands.push(command);
        i = i + 1;
    }
    commands
}

/// The words that put the first `upto` rows of a list on the floor list:
/// after the call, each id with its time to live in ms.
pub open spec fn redlist_add_words(
    ns: Seq<char>,
    keys: Seq<Seq<char>>,
    list: Map<Seq<char>, u64>,
    upto: int,
) -> Seq<Seq<char>>
    decreases upto,
{
    if upto <= 0 {
        call_words("redlist_add"@, ns)
    } else {
        redlist_add_words(ns, keys, list, upto - 1).push(keys[upto - 1]).push(
            decimal_digits(list[keys[upto - 1]] as nat),
        )
    }
}

/// The command that puts the ids of `list` on the floor list, row by row;
/// none where the list is empty.
pub fn redlist_add_command(ns: &str, list: &Table<u64>) -> (command: Option<
    rustis::resp::CommandBuilder,
>)
    requires
        list.wf(),
    ensures
        command is Some <==> list@.len() > 0,
        command is Some ==> command_words(command->0) == redlist_add_words(
            ns@,
            list.keys(),
            list@,
            list.keys().len() as int,
        ),
{
    if list.is_empty() {
        return None;
    }
    let mut command = function_call("redlist_add", ns);
    let n = list.len();
    let mut i: usize = 0;
    while i < n
        invariant
            list.wf(),
            n == list.keys().len(),
            i <= n,
            command_words(command) == redlist_add_words(ns@, list.keys(), list@, i as int),
        decreases n - i,
    {
        command = with_text(command, list.key_at(i).as_str());
        command = with_number(command, *list.value_at(i));
        i = i + 1;
    }
    Some(command)
}

/// The command that asks for the members of the floor list from `cursor` on.
pub fn redlist_scan_command(ns: &str, cursor: u64) -> (command: rustis::resp::CommandBuilder)
    ensures
        command_words(command) == call_words("redlist_scan"@, ns@).push(
            decimal_digits(cursor as nat),
        ),
{
    with_number(function_call("redlist_scan", ns), cursor)
}

/// The command that asks for all overrides.
pub fn redrules_all_command(ns: &str) -> (command: rustis::resp::CommandBuilder)
    ensures
        command_words(command) == call_words("redrules_all"@, ns@),
{
    function_call("redrules_all", ns)
}

/// The command that has the store sweep its floor list: an addition of
/// nothing.
pub fn redlist_sweep_command(ns: &str) -> (command: rustis::resp::CommandBuilder)
    ensures
        command_words(command) == call_words("redlist_add"@, ns@),
{
    function_call("redlist_add", ns)
}

/// The command that has the store sweep its overrides: an addition of
/// nothing.
pub fn redrules_sweep_command(ns: &str) -> (command: rustis::resp::CommandBuilder)
    ensures
        command_words(command) == call_words("redrules_add"@, ns@),
{
    function_call("redrules_add", ns)
}

/// The command that loads the functions of `script` into the store.
pub fn function_load_command(script: &str) -> (command: rustis::resp::CommandBuilder)
    ensures
        command_words(command) == seq!["FUNCTION"@, "LOAD"@, script@],
{
    let command = new_command("FUNCTION");
    let command = with_text(command, "LOAD");
    let command = with_text(command, script);
    assert(command_words(command) =~= seq!["FUNCTION"@, "LOAD"@, script@]);
    command
}

} // verus!
