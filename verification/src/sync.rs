//! Keeping the dynamic rules in step with the store: what to make of each
//! reply to a scan of the floor list and of the list of overrides, when to
//! scan again, when to ask the store to sweep, and what the worker that
//! does all this is to do next.

use crate::redlimit::{redrules_key_of, RedRules, RedRulesView, NS};
use crate::table::Table;
use crate::text::{contains, decimal_u64, occurs_in, parse_decimal};
use vstd::prelude::*;

verus! {

/// The most members that the store hands out in one scan of the floor list.
pub const REDLIST_SCAN_COUNT: usize = 10000;

/// What is wrong with a reply to a scan.
#[derive(PartialEq, Eq, Structural, Debug, Clone, Copy)]
pub enum ScanError {
    /// The cursor in front of the reply is no number.
    Cursor,
    /// The expiry of some member is no number.
    Expiry,
}

/// What each string of a reply says.
pub open spec fn texts(reply: Seq<String>) -> Seq<Seq<char>> {
    Seq::new(reply.len(), |i: int| reply[i]@)
}

/// How many members a reply holds: the pairs of an id and an expiry that
/// follow the cursor. An id without an expiry at the end is no member.
pub open spec fn reply_members(reply: Seq<Seq<char>>) -> int {
    if reply.len() == 0 {
        0
    } else {
        (reply.len() - 1) / 2
    }
}

/// The id of the `j`-th member of a reply.
pub open spec fn member_id(reply: Seq<Seq<char>>, j: int) -> Seq<char> {
    reply[1 + 2 * j]
}

/// The expiry of the `j`-th member of a reply, if it is a number.
pub open spec fn member_expiry(reply: Seq<Seq<char>>, j: int) -> Option<u64> {
    decimal_u64(reply[2 + 2 * j])
}

/// Whether the expiry of some member of a reply is no number.
pub open spec fn has_bad_expiry(reply: Seq<Seq<char>>) -> bool {
    exists|j: int| 0 <= j < reply_members(reply) && (#[trigger] member_expiry(reply, j)) is None
}

/// The list after the first `upto` members of a reply: each member that
/// expires after `now` is on it with its expiry, a later member replacing an
/// earlier one of the same id.
pub open spec fn absorbed(
    list: Map<Seq<char>, u64>,
    reply: Seq<Seq<char>>,
    now: u64,
    upto: int,
) -> Map<Seq<char>, u64>
    decreases upto,
{
    if upto <= 0 {
        list
    } else {
        let before = absorbed(list, reply, now, upto - 1);
        match member_expiry(reply, upto - 1) {
            Some(expiry) => if expiry > now {
                before.insert(member_id(reply, upto - 1), expiry)
            } else {
                before
            },
            None => before,
        }
    }
}

/// Whether one of the first `upto` members of a reply has expired by `now`.
pub open spec fn stale_among(reply: Seq<Seq<char>>, now: u64, upto: int) -> bool {
    exists|j: int|
        0 <= j < upto && (#[trigger] member_expiry(reply, j)) is Some && member_expiry(
            reply,
            j,
        )->0 <= now
}

/// The cursor for the next scan: the one that the store reported; where that
/// is the cursor that the scan was made with, one more, so that the scan
/// moves on (at the largest number it stays).
pub open spec fn next_cursor(cursor: u64, reported: u64) -> u64 {
    if reported != cursor {
        reported
    } else if cursor < u64::MAX {
        (cursor + 1) as u64
    } else {
        cursor
    }
}

/// Whether a reply asks for another scan: it ends with a whole member, and
/// holds as many members as one scan can return.
pub open spec fn scan_again(reply: Seq<Seq<char>>) -> bool {
    reply.len() % 2 == 1 && reply_members(reply) >= REDLIST_SCAN_COUNT
}

/// A pass over the floor list of the store, as plain mathematical values.
pub ghost struct ScanView {
    /// Where the next scan starts.
    pub cursor: u64,
    /// Whether a member was seen that had expired.
    pub has_stale: bool,
    /// The members seen that had not.
    pub list: Map<Seq<char>, u64>,
}

impl ScanView {
    /// The pass after a reply whose numbers could all be read.
    pub open spec fn after(self, now: u64, reply: Seq<Seq<char>>) -> ScanView {
        if reply.len() == 0 {
            self
        } else {
            ScanView {
                cursor: next_cursor(self.cursor, decimal_u64(reply[0])->0),
                has_stale: self.has_stale || stale_among(reply, now, reply_members(reply)),
                list: absorbed(self.list, reply, now, reply_members(reply)),
            }
        }
    }
}

/// A pass over the floor list of the store: one scan after another, each
/// from the cursor that the one before led to.
pub struct RedlistScan {
    cursor: u64,
    has_stale: bool,
    list: Table<u64>,
}

impl View for RedlistScan {
    type V = ScanView;

    closed spec fn view(&self) -> ScanView {
        ScanView { cursor: self.cursor, has_stale: self.has_stale, list: self.list@ }
    }
}

impl RedlistScan {
    /// The list is a well-formed table.
    pub closed spec fn wf(&self) -> bool {
        self.list.wf()
    }

    /// A pass that starts at `cursor` and has seen nothing yet.
    pub fn new(cursor: u64) -> (scan: Self)
        ensures
            scan.wf(),
            scan@ == (ScanView { cursor, has_stale: false, list: Map::empty() }),
    {
        RedlistScan { cursor, has_stale: false, list: Table::new() }
    }

    /// Where the next scan starts.
    pub fn cursor(&self) -> (c: u64)
        ensures
            c == self@.cursor,
    {
        self.cursor
    }

    /// Whether the store should be asked to sweep its floor list: the pass
    /// has seen a member that had expired.
    pub fn has_stale(&self) -> (b: bool)
        ensures
            b == self@.has_stale,
    {
        self.has_stale
    }

    /// Takes in the reply to the scan from `self.cursor()`. An empty reply
    /// ends the pass and changes nothing. Otherwise the reply is a cursor
    /// and then, member by member, an id and an expiry. `Ok` holds the pass
    /// as it now stands and says whether to scan again; a reply with a
    /// number that cannot be read is an error, and the pass is lost.
    pub fn absorb(self, now: u64, reply: &Vec<String>) -> (r: Result<
        (RedlistScan, bool),
        ScanError,
    >)
        requires
            self.wf(),
        ensures
            match r {
                Ok((scan, again)) => {
                    &&& reply@.len() > 0 ==> decimal_u64(reply@[0]@) is Some
                    &&& !has_bad_expiry(texts(reply@))
                    &&& scan.wf()
                    &&& scan@ == self@.after(now, texts(reply@))
                    &&& again == scan_again(texts(reply@))
                },
                Err(ScanError::Cursor) => reply@.len() > 0 && decimal_u64(reply@[0]@) is None,
                Err(ScanError::Expiry) => reply@.len() > 0 && decimal_u64(reply@[0]@) is Some
                    && has_bad_expiry(texts(reply@)),
            },
    {
        let ghost words = texts(reply@);
        let n = reply.len();
        if n == 0 {
            return Ok((self, false));
        }
        let reported = match parse_decimal(reply[0].as_str()) {
            Some(c) => c,
            None => {
                return Err(ScanError::Cursor);
            },
        };
        let ghost start = self@;
        let mut scan = self;
        if reported != scan.cursor {
            scan.cursor = reported;
        } else if scan.cursor < u64::MAX {
            scan.cursor = scan.cursor + 1;
        }
        let members = (n - 1) / 2;
        let mut j: usize = 0;
        while j < members
            invariant
                n == reply@.len(),
                words == texts(reply@),
                members == reply_members(words),
                decimal_u64(reply@[0]@) == Some(reported),
                j <= members,
                scan.wf(),
                scan.cursor == next_cursor(start.cursor, reported),
                scan.has_stale == (start.has_stale || stale_among(words, now, j as int)),
                scan.list@ == absorbed(start.list, words, now, j as int),
                forall|k: int| 0 <= k < j ==> (#[trigger] member_expiry(words, k)) is Some,
            decreases members - j,
        {
            let expiry = match parse_decimal(reply[2 + 2 * j].as_str()) {
                Some(e) => e,
                None => {
                    proof {
                        assert(member_expiry(words, j as int) is None);
                    }
                    return Err(ScanError::Expiry);
                },
            };
            proof {
                assert(member_expiry(words, j as int) == Some(expiry));
            }
            if expiry > now {
                scan.list.insert(reply[1 + 2 * j].clone(), expiry);
                proof {
                    assert forall|k: int|
                        0 <= k < j + 1 && (#[trigger] member_expiry(words, k)) is Some
                            && member_expiry(words, k)->0 <= now implies k < j by {}
                }
            } else {
                scan.has_stale = true;
            }
            j = j + 1;
        }
        let again = n % 2 == 1 && members >= REDLIST_SCAN_COUNT;
        Ok((scan, again))
    }

    /// Ends the pass: the cursor that it has reached, and the members that
    /// it has seen and that had not expired.
    pub fn finish(self) -> (r: (u64, Table<u64>))
        requires
            self.wf(),
        ensures
            r.0 == self@.cursor,
            r.1.wf(),
            r.1@ == self@.list,
    {
        (self.cursor, self.list)
    }
}

/// What `serde_json::from_str` makes of a text that is to hold one override:
/// the scope, the path, the quantity and the expiry of the JSON array
/// `[scope, path, quantity, expiry]`, or `None` where the text is no such array.
pub uninterp spec fn json_redrule(text: Seq<char>) -> Option<(Seq<char>, Seq<char>, u64, u64)>;

/// What a decoded override says, as plain mathematical values.
pub open spec fn redrule_view(entry: Option<(String, String, u64, u64)>) -> Option<
    (Seq<char>, Seq<char>, u64, u64),
> {
    match entry {
        Some(e) => Some((e.0@, e.1@, e.2, e.3)),
        None => None,
    }
}

/// Calls `serde_json::from_str` at the type `(String, String, u64, u64)`.
/// Not proved: that what comes back depends on the text alone, which is
/// what gives it the name `json_redrule`. A text that does not decode
/// gives `None`; the error that says why is dropped.
#[verifier::external_body]
fn decode_redrule(text: &str) -> (entry: Option<(String, String, u64, u64)>)
    ensures
        redrule_view(entry) == json_redrule(text@),
{
    serde_json::from_str::<(String, String, u64, u64)>(text).ok()
}

/// A reading of the store's list of overrides, as plain mathematical values.
pub ghost struct LoadView {
    /// The overrides read that had not expired, under `redrules_key_of`.
    pub rules: Map<Seq<char>, (u64, u64)>,
    /// Whether an override was read that had expired.
    pub has_stale: bool,
}

impl LoadView {
    /// The reading after one more entry. An entry that did not decode
    /// changes nothing; one that expires after `now` is stored under the
    /// key of its scope and path; any other one is stale.
    pub open spec fn with_entry(
        self,
        now: u64,
        entry: Option<(Seq<char>, Seq<char>, u64, u64)>,
    ) -> LoadView {
        match entry {
            None => self,
            Some((scope, path, quantity, expiry)) => if expiry > now {
                LoadView {
                    rules: self.rules.insert(redrules_key_of(scope, path), (quantity, expiry)),
                    has_stale: self.has_stale,
                }
            } else {
                LoadView { rules: self.rules, has_stale: true }
            },
        }
    }

    /// The reading after each of `data`, in order, has been decoded and
    /// taken in.
    pub open spec fn with_texts(self, now: u64, data: Seq<Seq<char>>) -> LoadView
        decreases data.len(),
    {
        if data.len() == 0 {
            self
        } else {
            self.with_texts(now, data.drop_last()).with_entry(now, json_redrule(data.last()))
        }
    }
}

/// A reading of the store's list of overrides.
pub struct RedrulesLoad {
    rules: Table<(u64, u64)>,
    has_stale: bool,
}

impl View for RedrulesLoad {
    type V = LoadView;

    closed spec fn view(&self) -> LoadView {
        LoadView { rules: self.rules@, has_stale: self.has_stale }
    }
}

impl RedrulesLoad {
    /// The overrides form a well-formed table.
    pub closed spec fn wf(&self) -> bool {
        self.rules.wf()
    }

    /// A reading that has seen nothing yet.
    pub fn new() -> (load: Self)
        ensures
            load.wf(),
            load@ == (LoadView { rules: Map::empty(), has_stale: false }),
    {
        RedrulesLoad { rules: Table::new(), has_stale: false }
    }

    /// Takes in one entry of the list, as it was decoded.
    pub fn absorb_entry(&mut self, now: u64, entry: Option<(String, String, u64, u64)>)
        requires
            old(self).wf(),
        ensures
            final(self).wf(),
            final(self)@ == old(self)@.with_entry(now, redrule_view(entry)),
    {
        match entry {
            Some(e) => {
                if e.3 > now {
                    self.rules.insert(NS::redrules_key(e.0.as_str(), e.1.as_str()), (e.2, e.3));
                } else {
                    self.has_stale = true;
                }
            },
            None => {},
        }
    }

    /// Decodes each text of the list and takes it in, in order.
    pub fn absorb(&mut self, now: u64, data: &Vec<String>)
        requires
            old(self).wf(),
        ensures
            final(self).wf(),
            final(self)@ == old(self)@.with_texts(now, texts(data@)),
    {
        let ghost start = self@;
        let ghost words = texts(data@);
        let n = data.len();
        let mut i: usize = 0;
        proof {
            assert(words.subrange(0, 0) =~= Seq::<Seq<char>>::empty());
        }
        while i < n
            invariant
                n == data@.len(),
                words == texts(data@),
                i <= n,
                self.wf(),
                self@ == start.with_texts(now, words.subrange(0, i as int)),
            decreases n - i,
        {
            let entry = decode_redrule(data[i].as_str());
            proof {
                let upto = words.subrange(0, i + 1);
                assert(upto.drop_last() =~= words.subrange(0, i as int));
                assert(upto.last() == data@[i as int]@);
            }
            self.absorb_entry(now, entry);
            i = i + 1;
        }
        proof {
            assert(words.subrange(0, n as int) =~= words);
        }
    }

    /// Whether the store should be asked to sweep its overrides: the
    /// reading has seen one that had expired.
    pub fn has_stale(&self) -> (b: bool)
        ensures
            b == self@.has_stale,
    {
        self.has_stale
    }

    /// Ends the reading: the overrides that it has seen and that had not
    /// expired.
    pub fn finish(self) -> (rules: Table<(u64, u64)>)
        requires
            self.wf(),
        ensures
            rules.wf(),
            rules@ == self@.rules,
    {
        self.rules
    }
}

/// Hands the resolver what a pass over the store has found, unless it found
/// nothing at all: then the resolver stays as it is, cursor included.
pub fn apply_sync(
    rules: &mut RedRules,
    now: u64,
    cursor: u64,
    redlist: Table<u64>,
    redrules: Table<(u64, u64)>,
) -> (changed: bool)
    requires
        old(rules).wf(),
        redlist.wf(),
        redrules.wf(),
    ensures
        final(rules).wf(),
        changed == (redlist@.len() > 0 || redrules@.len() > 0),
        final(rules)@ == if changed {
            RedRulesView {
                dynamic: old(rules)@.dynamic.updated(now, cursor, redlist@, redrules@),
                ..old(rules)@
            }
        } else {
            old(rules)@
        },
{
    if !redrules.is_empty() || !redlist.is_empty() {
        rules.dyn_update(now, cursor, redlist, redrules);
        true
    } else {
        false
    }
}

/// The words by which the store says that it does not know the functions.
pub open spec fn function_not_found() -> Seq<char> {
    "Function not found"@
}

/// The words by which the store says that it has the functions already.
pub open spec fn already_exists() -> Seq<char> {
    "already exists"@
}

/// Whether an error of the store calls for loading the functions anew.
pub fn needs_reload(error: &str) -> (b: bool)
    ensures
        b == occurs_in(function_not_found(), error@),
{
    contains(error, "Function not found")
}

/// What to make of the store's answer to loading the functions, given the
/// error that it answered with, if any: that the functions are there
/// already is fine; any other error stands.
pub fn load_outcome(error: Option<String>) -> (r: Result<(), String>)
    ensures
        match error {
            None => r is Ok,
            Some(e) => if occurs_in(already_exists(), e@) {
                r is Ok
            } else {
                r == Err::<(), String>(e)
            },
        },
{
    match error {
        None => Ok(()),
        Some(e) => {
            if contains(e.as_str(), "already exists") {
                Ok(())
            } else {
                Err(e)
            }
        },
    }
}

/// Where the worker stands.
#[derive(PartialEq, Eq, Structural, Debug, Clone, Copy)]
pub enum SyncState {
    /// Awake, with no pass under way.
    Idle,
    /// A pass over the store is under way.
    Ticking,
    /// Waiting for the next pass, or to be cancelled.
    Sleeping,
    /// Done for good.
    Cancelled,
}

/// What has happened to the worker.
pub enum SyncEvent {
    /// The sleep has run out.
    Woke,
    /// The worker was told to stop.
    Cancel,
    /// A pass has begun.
    TickStarted,
    /// The pass has ended well.
    TickOk,
    /// The pass has failed, with this error.
    TickFailed(String),
}

/// What the worker is to do next.
#[derive(PartialEq, Eq, Structural, Debug, Clone, Copy)]
pub enum SyncAction {
    /// Begin a pass over the store.
    StartTick,
    /// Let the pass run to its end.
    AwaitTick,
    /// Sleep for the interval, or until cancelled.
    Sleep,
    /// Load the functions into the store, then sleep.
    ReloadThenSleep,
    /// Stop.
    Stop,
    /// Nothing: the event does not concern the worker where it stands.
    Ignore,
}

impl SyncState {
    /// The state and the action that follow an event. The worker goes from
    /// sleeping to idle when it wakes, from idle to ticking when a pass
    /// begins, and from ticking to sleeping when the pass ends; only a
    /// sleeping worker can be cancelled, and a cancelled worker stays so.
    /// A pass that fails because the store does not know the functions has
    /// them loaded anew before the sleep.
    pub open spec fn spec_on(self, event: SyncEvent) -> (SyncState, SyncAction) {
        match (self, event) {
            (SyncState::Cancelled, _) => (SyncState::Cancelled, SyncAction::Stop),
            (SyncState::Sleeping, SyncEvent::Woke) => (SyncState::Idle, SyncAction::StartTick),
            (SyncState::Sleeping, SyncEvent::Cancel) => (SyncState::Cancelled, SyncAction::Stop),
            (SyncState::Idle, SyncEvent::TickStarted) => (
                SyncState::Ticking,
                SyncAction::AwaitTick,
            ),
            (SyncState::Ticking, SyncEvent::TickOk) => (SyncState::Sleeping, SyncAction::Sleep),
            (SyncState::Ticking, SyncEvent::TickFailed(error)) => (
                SyncState::Sleeping,
                if occurs_in(function_not_found(), error@) {
                    SyncAction::ReloadThenSleep
                } else {
                    SyncAction::Sleep
                },
            ),
            (state, _) => (state, SyncAction::Ignore),
        }
    }

    /// The state in which the worker starts: asleep, a pass being due only
    /// after the first interval.
    pub fn start() -> (state: SyncState)
        ensures
            state == SyncState::Sleeping,
    {
        SyncState::Sleeping
    }

    /// The state and the action that follow an event.
    pub fn on(self, event: &SyncEvent) -> (next: (SyncState, SyncAction))
        ensures
            next == self.spec_on(*event),
    {
        match self {
            SyncState::Cancelled => (SyncState::Cancelled, SyncAction::Stop),
            SyncState::Sleeping => match event {
                SyncEvent::Woke => (SyncState::Idle, SyncAction::StartTick),
                SyncEvent::Cancel => (SyncState::Cancelled, SyncAction::Stop),
                _ => (self, SyncAction::Ignore),
            },
            SyncState::Idle => match event {
                SyncEvent::TickStarted => (SyncState::Ticking, SyncAction::AwaitTick),
                _ => (self, SyncAction::Ignore),
            },
            SyncState::Ticking => match event {
                SyncEvent::TickOk => (SyncState::Sleeping, SyncAction::Sleep),
                SyncEvent::TickFailed(error) => {
                    if needs_reload(error.as_str()) {
                        (SyncState::Sleeping, SyncAction::ReloadThenSleep)
                    } else {
                        (SyncState::Sleeping, SyncAction::Sleep)
                    }
                },
                _ => (self, SyncAction::Ignore),
            },
        }
    }
}

/// No pass begins while another is under way, and the worker is cancelled
/// only out of its sleep: a pass that has begun runs to its end.
pub proof fn lemma_worker_moves(state: SyncState, event: SyncEvent)
    ensures
        state.spec_on(event).1 == SyncAction::StartTick ==> state == SyncState::Sleeping
            && state.spec_on(event).0 == SyncState::Idle,
        state.spec_on(event).0 == SyncState::Ticking ==> state == SyncState::Idle || state
            == SyncState::Ticking,
        state.spec_on(event).0 == SyncState::Cancelled ==> state == SyncState::Sleeping || state
            == SyncState::Cancelled,
        state == SyncState::Ticking ==> state.spec_on(event).0 == SyncState::Ticking
            || state.spec_on(event).0 == SyncState::Sleeping,
        state == SyncState::Cancelled ==> state.spec_on(event) == (
            SyncState::Cancelled,
            SyncAction::Stop,
        ),
{
}

} // verus!
