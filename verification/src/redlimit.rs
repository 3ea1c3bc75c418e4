//! The rule resolver: which limit applies to a request, given the static
//! rules and the dynamic overrides that the store hands out.

use crate::conf::{Rule, RuleView};
use crate::table::Table;
use vstd::prelude::*;

verus! {

/// The arguments of one call of the counter: quantity, max count per period,
/// period in ms, max burst, burst period in ms.
#[derive(PartialEq, Eq, Structural, Debug, Clone, Copy)]
pub struct LimitArgs(pub u64, pub u64, pub u64, pub u64, pub u64);

/// The longest period that a limit may have, in ms.
pub const MAX_PERIOD_MS: u64 = 60000;

impl LimitArgs {
    /// The arguments that charge `quantity` against the limit `others`.
    /// A limit of two, three or four numbers fills as many places after the
    /// quantity; any other length leaves them all 0.
    pub open spec fn spec_new(quantity: u64, others: Seq<u64>) -> LimitArgs {
        let n = others.len();
        if 2 <= n <= 4 {
            LimitArgs(
                quantity,
                others[0],
                others[1],
                if n >= 3 {
                    others[2]
                } else {
                    0
                },
                if n >= 4 {
                    others[3]
                } else {
                    0
                },
            )
        } else {
            LimitArgs(quantity, 0, 0, 0, 0)
        }
    }

    /// Whether the arguments can be handed to the counter: a quantity
    /// from 1 to the max count, a period from 1 ms to a minute, a max burst
    /// that is 0 or no less than the quantity, and a burst period that is no
    /// longer than the period.
    pub open spec fn spec_is_valid(&self) -> bool {
        &&& 0 < self.0 <= self.1
        &&& 0 < self.2 <= MAX_PERIOD_MS
        &&& (self.3 == 0 || self.0 <= self.3)
        &&& self.4 <= self.2
    }

    /// The arguments that charge `quantity` against the limit `others`.
    pub fn new(quantity: u64, others: &Vec<u64>) -> (args: Self)
        ensures
            args == Self::spec_new(quantity, others@),
    {
        let mut args = LimitArgs(quantity, 0, 0, 0, 0);
        let n = others.len();
        if 2 <= n && n <= 4 {
            args.1 = others[0];
            args.2 = others[1];
            if n >= 3 {
                args.3 = others[2];
            }
            if n >= 4 {
                args.4 = others[3];
            }
        }
        args
    }

    /// Whether the arguments can be handed to the counter.
    #[verifier::when_used_as_spec(spec_is_valid)]
    pub fn is_valid(&self) -> (b: bool)
        ensures
            b == self.spec_is_valid(),
    {
        self.0 > 0 && self.0 <= self.1 && self.2 > 0 && self.2 <= MAX_PERIOD_MS && (self.3 == 0
            || self.0 <= self.3) && (self.4 == 0 || self.4 <= self.2)
    }
}

/// What the counter answers: the count in the period, and how many ms to
/// wait. A wait of 0 admits the call; any other wait rejects it.
#[derive(PartialEq, Eq, Structural, Debug, Clone, Copy)]
pub struct LimitResult(pub u64, pub u64);

/// The key under which a scope's override for a path is stored.
pub open spec fn redrules_key_of(scope: Seq<char>, path: Seq<char>) -> Seq<char> {
    scope + seq![':'] + path
}

/// The key of the counter of an id within a scope.
pub open spec fn limiting_key_of(ns: Seq<char>, scope: Seq<char>, id: Seq<char>) -> Seq<char> {
    ns + seq![':'] + scope + seq![':'] + id
}

/// A namespace: the prefix of every key that one tenant has in the store.
pub struct NS(String);

impl View for NS {
    type V = Seq<char>;

    closed spec fn view(&self) -> Seq<char> {
        self.0@
    }
}

impl NS {
    /// The namespace of the name `namespace`.
    pub fn new(namespace: String) -> (ns: Self)
        ensures
            ns@ == namespace@,
    {
        NS(namespace)
    }

    /// The key of an id in the floor list: the id itself.
    pub fn redlist_key(id: &str) -> (key: &str)
        ensures
            key@ == id@,
    {
        id
    }

    /// The key of the override for a path of a scope: the scope, a colon,
    /// and the path.
    pub fn redrules_key(scope: &str, path: &str) -> (key: String)
        ensures
            key@ == redrules_key_of(scope@, path@),
    {
        proof {
            reveal_strlit(":");
        }
        let mut key = scope.to_owned();
        key.append(":");
        key.append(path);
        assert(key@ =~= redrules_key_of(scope@, path@));
        key
    }

    /// The key of the counter of an id within a scope: the namespace, the
    /// scope and the id, with a colon between each two.
    pub fn limiting_key(&self, scope: &str, id: &str) -> (key: String)
        ensures
            key@ == limiting_key_of(self@, scope@, id@),
    {
        proof {
            reveal_strlit(":");
        }
        let mut key = self.0.clone();
        key.append(":");
        key.append(scope);
        key.append(":");
        key.append(id);
        assert(key@ =~= limiting_key_of(self@, scope@, id@));
        key
    }

    /// The name of the namespace.
    pub fn as_str(&self) -> (s: &str)
        ensures
            s@ == self@,
    {
        self.0.as_str()
    }
}

/// A value that carries the time at which it stops to count, in ms.
pub trait Expiring {
    /// When the value expires, in ms.
    spec fn expiry(&self) -> u64;

    /// When the value expires, in ms.
    fn expires_at(&self) -> (e: u64)
        ensures
            e == self.expiry(),
    ;
}

/// An entry of the floor list is its own expiry.
impl Expiring for u64 {
    open spec fn expiry(&self) -> u64 {
        *self
    }

    fn expires_at(&self) -> (e: u64) {
        *self
    }
}

/// An override is a quantity and its expiry.
impl Expiring for (u64, u64) {
    open spec fn expiry(&self) -> u64 {
        self.1
    }

    fn expires_at(&self) -> (e: u64) {
        self.1
    }
}

/// Whether an entry that expires at `expiry` is still to be shown or kept at
/// `now`: only while its expiry lies ahead.
pub open spec fn is_live(expiry: u64, now: u64) -> bool {
    expiry > now
}

/// The entries of `m` whose expiry lies ahead at `now`.
pub open spec fn live<V: Expiring>(m: Map<Seq<char>, V>, now: u64) -> Map<Seq<char>, V> {
    Map::new(
        |k: Seq<char>| m.contains_key(k) && is_live(m[k].expiry(), now),
        |k: Seq<char>| m[k],
    )
}

/// The entries of `entries` whose expiry lies ahead at `now`, in a table of
/// their own.
pub fn live_entries<V: Expiring + Copy>(entries: &Table<V>, now: u64) -> (out: Table<V>)
    requires
        entries.wf(),
    ensures
        out.wf(),
        out@ == live(entries@, now),
{
    let mut out: Table<V> = Table::new();
    let n = entries.len();
    proof {
        entries.lemma_rows();
    }
    let mut i: usize = 0;
    while i < n
        invariant
            entries.wf(),
            out.wf(),
            n == entries.keys().len(),
            i <= n,
            forall|k: Seq<char>| #[trigger]
                out@.contains_key(k) <==> entries@.contains_key(k) && entries.row_of(k) < i
                    && is_live(entries@[k].expiry(), now),
            forall|k: Seq<char>| #[trigger] out@.contains_key(k) ==> out@[k] == entries@[k],
        decreases n - i,
    {
        proof {
            entries.lemma_rows();
        }
        let value = *entries.value_at(i);
        if value.expires_at() > now {
            out.insert(entries.key_at(i).clone(), value);
        }
        i = i + 1;
    }
    proof {
        entries.lemma_rows();
        assert(out@ =~= live(entries@, now));
    }
    out
}

/// Lays over `base` the entries of `delta` that are live after `now`.
pub fn overlay_live<V: Expiring + Copy>(base: &mut Table<V>, delta: &Table<V>, now: u64)
    requires
        old(base).wf(),
        delta.wf(),
    ensures
        final(base).wf(),
        final(base)@ == old(base)@.union_prefer_right(live(delta@, now)),
{
    let ghost start = base@;
    let n = delta.len();
    proof {
        delta.lemma_rows();
    }
    let mut i: usize = 0;
    while i < n
        invariant
            delta.wf(),
            base.wf(),
            n == delta.keys().len(),
            i <= n,
            forall|k: Seq<char>| #[trigger]
                base@.contains_key(k) <==> start.contains_key(k) || (delta@.contains_key(k)
                    && delta.row_of(k) < i && delta@[k].expiry() > now),
            forall|k: Seq<char>| #[trigger]
                base@.contains_key(k) ==> base@[k] == if delta@.contains_key(k) && delta.row_of(k)
                    < i && delta@[k].expiry() > now {
                    delta@[k]
                } else {
                    start[k]
                },
        decreases n - i,
    {
        proof {
            delta.lemma_rows();
        }
        let value = *delta.value_at(i);
        if value.expires_at() > now {
            base.insert(delta.key_at(i).clone(), value);
        }
        i = i + 1;
    }
    proof {
        delta.lemma_rows();
        assert(base@ =~= start.union_prefer_right(live(delta@, now)));
    }
}

/// The dynamic overrides, as plain mathematical values.
pub ghost struct DynView {
    /// For a scope and a path, under `redrules_key_of`: a quantity and its expiry.
    pub redrules: Map<Seq<char>, (u64, u64)>,
    /// For an id on the floor list: its expiry.
    pub redlist: Map<Seq<char>, u64>,
    /// How far the floor list of the store has been read.
    pub cursor: u64,
}

impl DynView {
    /// The state with nothing in it.
    pub open spec fn empty() -> DynView {
        DynView { redrules: Map::empty(), redlist: Map::empty(), cursor: 0 }
    }

    /// The state after an update at `now`: what has expired by `now` is gone,
    /// what of the two deltas expires later is laid over the rest, and the
    /// cursor is the larger of the old and the new one.
    pub open spec fn updated(
        self,
        now: u64,
        cursor: u64,
        redlist: Map<Seq<char>, u64>,
        redrules: Map<Seq<char>, (u64, u64)>,
    ) -> DynView {
        DynView {
            redrules: live(self.redrules, now).union_prefer_right(live(redrules, now)),
            redlist: live(self.redlist, now).union_prefer_right(live(redlist, now)),
            cursor: if cursor > self.cursor {
                cursor
            } else {
                self.cursor
            },
        }
    }
}

/// The dynamic overrides that an instance mirrors from the store.
pub struct DynRedRules {
    redrules: Table<(u64, u64)>,
    redlist: Table<u64>,
    redlist_cursor: u64,
}

impl View for DynRedRules {
    type V = DynView;

    closed spec fn view(&self) -> DynView {
        DynView {
            redrules: self.redrules@,
            redlist: self.redlist@,
            cursor: self.redlist_cursor,
        }
    }
}

impl DynRedRules {
    /// Both tables are well formed.
    pub closed spec fn wf(&self) -> bool {
        self.redrules.wf() && self.redlist.wf()
    }

    /// No override, and a cursor of 0.
    pub fn new() -> (d: Self)
        ensures
            d.wf(),
            d@ == DynView::empty(),
    {
        DynRedRules { redrules: Table::new(), redlist: Table::new(), redlist_cursor: 0 }
    }

    /// How far the floor list of the store has been read.
    pub fn redlist_cursor(&self) -> (c: u64)
        ensures
            c == self@.cursor,
    {
        self.redlist_cursor
    }

    /// The floor list as a reader sees it at `now`: the ids whose expiry
    /// lies ahead, each with its expiry.
    pub fn redlist(&self, now: u64) -> (list: Table<u64>)
        requires
            self.wf(),
        ensures
            list.wf(),
            list@ == live(self@.redlist, now),
    {
        live_entries(&self.redlist, now)
    }

    /// The overrides as a reader sees them at `now`: those whose expiry
    /// lies ahead, each with its quantity and expiry.
    pub fn redrules(&self, now: u64) -> (rules: Table<(u64, u64)>)
        requires
            self.wf(),
        ensures
            rules.wf(),
            rules@ == live(self@.redrules, now),
    {
        live_entries(&self.redrules, now)
    }

    /// Takes in what a pass over the store has found. Afterwards no entry
    /// is left that had expired by `now`, and the cursor has not gone back.
    pub fn update(
        &mut self,
        now: u64,
        redlist_cursor: u64,
        redlist: &Table<u64>,
        redrules: &Table<(u64, u64)>,
    )
        requires
            old(self).wf(),
            redlist.wf(),
            redrules.wf(),
        ensures
            final(self).wf(),
            final(self)@ == old(self)@.updated(now, redlist_cursor, redlist@, redrules@),
            final(self)@.cursor >= old(self)@.cursor,
            forall|k: Seq<char>| #[trigger]
                final(self)@.redlist.contains_key(k) ==> final(self)@.redlist[k] > now,
            forall|k: Seq<char>| #[trigger]
                final(self)@.redrules.contains_key(k) ==> final(self)@.redrules[k].1 > now,
    {
        if redlist_cursor > self.redlist_cursor {
            self.redlist_cursor = redlist_cursor;
        }
        let mut list = live_entries(&self.redlist, now);
        overlay_live(&mut list, redlist, now);
        self.redlist = list;
        let mut rules = live_entries(&self.redrules, now);
        overlay_live(&mut rules, redrules, now);
        self.redrules = rules;
    }
}

impl RuleView {
    /// What a call on `path` costs under this rule: the cost listed for the
    /// path, else the rule's own quantity; and 1 where that is 0.
    pub open spec fn cost_of(self, path: Seq<char>) -> u64 {
        let q = if self.path.contains_key(path) {
            self.path[path]
        } else {
            self.quantity
        };
        if q > 0 {
            q
        } else {
            1
        }
    }
}

/// The whole state of the resolver, as plain mathematical values.
pub ghost struct RedRulesView {
    pub ns: Seq<char>,
    /// The limit of the ids on the floor list.
    pub floor: Seq<u64>,
    /// The rule of the scopes that have none of their own.
    pub fallback: RuleView,
    /// The rule of each scope that has one.
    pub rules: Map<Seq<char>, RuleView>,
    pub dynamic: DynView,
}

/// The floor limit where the configuration names none.
pub open spec fn builtin_floor() -> Seq<u64> {
    seq![2, 10000, 1, 1000]
}

/// The fallback rule where the configuration names none.
pub open spec fn builtin_fallback() -> RuleView {
    RuleView { limit: seq![5, 5000, 2, 1000], quantity: 1, path: Map::empty() }
}

/// The scope under which the configuration names the fallback rule.
pub open spec fn fallback_scope() -> Seq<char> {
    seq!['*']
}

/// The scope under which the configuration names the floor limit.
pub open spec fn floor_scope() -> Seq<char> {
    seq!['-']
}

impl RedRulesView {
    /// The state that a configuration starts from: the rule under `*` is
    /// the fallback, the limit of the rule under `-` is the floor, every
    /// other rule belongs to the scope that it is named for, and there is no
    /// dynamic override.
    pub open spec fn initial(ns: Seq<char>, configured: Map<Seq<char>, RuleView>) -> RedRulesView {
        RedRulesView {
            ns,
            floor: if configured.contains_key(floor_scope()) {
                configured[floor_scope()].limit
            } else {
                builtin_floor()
            },
            fallback: if configured.contains_key(fallback_scope()) {
                configured[fallback_scope()]
            } else {
                builtin_fallback()
            },
            rules: configured.remove(fallback_scope()).remove(floor_scope()),
            dynamic: DynView::empty(),
        }
    }

    /// The rule of a scope: its own, or the fallback.
    pub open spec fn rule_for(self, scope: Seq<char>) -> RuleView {
        if self.rules.contains_key(scope) {
            self.rules[scope]
        } else {
            self.fallback
        }
    }

    /// Whether `id` is held to the floor at `now`: it is on the floor list,
    /// and `now` is not past its expiry. A request that comes in the very ms
    /// of the expiry is still held to the floor.
    pub open spec fn redlisted(self, now: u64, id: Seq<char>) -> bool {
        self.dynamic.redlist.contains_key(id) && self.dynamic.redlist[id] >= now
    }

    /// Whether the cost of `path` in `scope` is overridden at `now`: there
    /// is an override for it, and `now` is not past its expiry.
    pub open spec fn overridden(self, now: u64, scope: Seq<char>, path: Seq<char>) -> bool {
        let key = redrules_key_of(scope, path);
        self.dynamic.redrules.contains_key(key) && self.dynamic.redrules[key].1 >= now
    }

    /// The arguments for a request at `now`. No id: all zero, which is not
    /// valid and so limits nothing. An id on the floor list: a quantity of 1
    /// against the floor limit, whatever else holds. Otherwise the limit of
    /// the scope's rule, and as quantity the override for the path if there
    /// is one, else what the rule charges for the path.
    pub open spec fn limit_args(
        self,
        now: u64,
        scope: Seq<char>,
        path: Seq<char>,
        id: Seq<char>,
    ) -> LimitArgs {
        if id.len() == 0 {
            LimitArgs(0, 0, 0, 0, 0)
        } else if self.redlisted(now, id) {
            LimitArgs::spec_new(1, self.floor)
        } else if self.overridden(now, scope, path) {
            LimitArgs::spec_new(
                self.dynamic.redrules[redrules_key_of(scope, path)].0,
                self.rule_for(scope).limit,
            )
        } else {
            LimitArgs::spec_new(self.rule_for(scope).cost_of(path), self.rule_for(scope).limit)
        }
    }
}

/// What each configured rule says.
pub open spec fn rule_views(rules: Map<Seq<char>, Rule>) -> Map<Seq<char>, RuleView> {
    Map::new(|k: Seq<char>| rules.contains_key(k), |k: Seq<char>| rules[k]@)
}

/// Whether every configured rule is well formed.
pub open spec fn rules_wf(rules: Map<Seq<char>, Rule>) -> bool {
    forall|k: Seq<char>| #[trigger] rules.contains_key(k) ==> rules[k].wf()
}

/// The resolver: the static rules and the dynamic overrides.
pub struct RedRules {
    pub ns: NS,
    floor: Vec<u64>,
    defaut: Rule,
    rules: Table<Rule>,
    dyn_rules: DynRedRules,
}

impl View for RedRules {
    type V = RedRulesView;

    closed spec fn view(&self) -> RedRulesView {
        RedRulesView {
            ns: self.ns@,
            floor: self.floor@,
            fallback: self.defaut@,
            rules: rule_views(self.rules@),
            dynamic: self.dyn_rules@,
        }
    }
}

impl RedRules {
    /// Every table in the resolver is well formed.
    pub closed spec fn wf(&self) -> bool {
        &&& self.defaut.wf()
        &&& self.rules.wf()
        &&& rules_wf(self.rules@)
        &&& self.dyn_rules.wf()
    }

    /// The resolver that a configuration starts with: the rule named `*` is
    /// the fallback, the limit of the rule named `-` is the floor, and every
    /// other rule is that of the scope that it is named for.
    pub fn new(namespace: &str, rules: &Table<Rule>) -> (rr: Self)
        requires
            rules.wf(),
            rules_wf(rules@),
        ensures
            rr.wf(),
            rr@ == RedRulesView::initial(namespace@, rule_views(rules@)),
    {
        let mut floor: Vec<u64> = Vec::new();
        floor.push(2);
        floor.push(10000);
        floor.push(1);
        floor.push(1000);
        let mut limit: Vec<u64> = Vec::new();
        limit.push(5);
        limit.push(5000);
        limit.push(2);
        limit.push(1000);
        let mut rr = RedRules {
            ns: NS::new(namespace.to_owned()),
            floor,
            defaut: Rule { limit, quantity: 1, path: Table::new() },
            rules: Table::new(),
            dyn_rules: DynRedRules::new(),
        };
        assert(rr.floor@ =~= builtin_floor());
        assert(rr.defaut@.limit =~= builtin_fallback().limit);
        let star = "*".to_owned();
        let dash = "-".to_owned();
        proof {
            reveal_strlit("*");
            reveal_strlit("-");
            assert(star@ =~= fallback_scope());
            assert(dash@ =~= floor_scope());
            rules.lemma_rows();
        }
        let n = rules.len();
        let mut i: usize = 0;
        while i < n
            invariant
                rules.wf(),
                rules_wf(rules@),
                rr.wf(),
                n == rules.keys().len(),
                i <= n,
                star@ == fallback_scope(),
                dash@ == floor_scope(),
                rr.ns@ == namespace@,
                rr.dyn_rules@ == DynView::empty(),
                rr.floor@ == if rules@.contains_key(floor_scope()) && rules.row_of(floor_scope())
                    < i {
                    rules@[floor_scope()].limit@
                } else {
                    builtin_floor()
                },
                rr.defaut@ == if rules@.contains_key(fallback_scope()) && rules.row_of(
                    fallback_scope(),
                ) < i {
                    rules@[fallback_scope()]@
                } else {
                    builtin_fallback()
                },
                forall|k: Seq<char>| #[trigger]
                    rr.rules@.contains_key(k) <==> rules@.contains_key(k) && rules.row_of(k) < i
                        && k != fallback_scope() && k != floor_scope(),
                forall|k: Seq<char>| #[trigger]
                    rr.rules@.contains_key(k) ==> rr.rules@[k]@ == rules@[k]@,
            decreases n - i,
        {
            proof {
                rules.lemma_rows();
                assert(fallback_scope()[0] != floor_scope()[0]);
            }
            let scope = rules.key_at(i);
            let rule = rules.value_at(i);
            if *scope == star {
                rr.defaut = rule.clone();
            } else if *scope == dash {
                let limit = rule.limit.clone();
                assert(limit@ =~= rule.limit@);
                rr.floor = limit;
            } else {
                rr.rules.insert(scope.clone(), rule.clone());
            }
            i = i + 1;
        }
        proof {
            rules.lemma_rows();
            let configured = rule_views(rules@);
            assert(rr@.rules =~= configured.remove(fallback_scope()).remove(floor_scope()));
        }
        rr
    }

    /// The namespace of the keys in the store.
    pub fn namespace(&self) -> (ns: &NS)
        ensures
            ns@ == self@.ns,
    {
        &self.ns
    }

    /// The limit of the ids on the floor list.
    pub fn floor(&self) -> (limit: &Vec<u64>)
        ensures
            limit@ == self@.floor,
    {
        &self.floor
    }

    /// The rule of the scopes that have none of their own.
    pub fn default_rule(&self) -> (rule: &Rule)
        ensures
            rule@ == self@.fallback,
            self.wf() ==> rule.wf(),
    {
        &self.defaut
    }

    /// The rule that `scope` has of its own, if it has one.
    pub fn rule(&self, scope: &str) -> (rule: Option<&Rule>)
        requires
            self.wf(),
        ensures
            match rule {
                Some(r) => self@.rules.contains_key(scope@) && r@ == self@.rules[scope@] && r.wf(),
                None => !self@.rules.contains_key(scope@),
            },
    {
        self.rules.get(scope)
    }

    /// How far the floor list of the store has been read.
    pub fn redlist_cursor(&self) -> (c: u64)
        ensures
            c == self@.dynamic.cursor,
    {
        self.dyn_rules.redlist_cursor()
    }

    /// The floor list as a reader sees it at `now`: the ids whose expiry
    /// lies ahead, each with its expiry. An id whose expiry is `now` or
    /// earlier is not shown.
    pub fn redlist(&self, now: u64) -> (list: Table<u64>)
        requires
            self.wf(),
        ensures
            list.wf(),
            list@ == live(self@.dynamic.redlist, now),
    {
        self.dyn_rules.redlist(now)
    }

    /// The overrides as a reader sees them at `now`: those whose expiry
    /// lies ahead, each with its quantity and expiry. An override whose
    /// expiry is `now` or earlier is not shown.
    pub fn redrules(&self, now: u64) -> (rules: Table<(u64, u64)>)
        requires
            self.wf(),
        ensures
            rules.wf(),
            rules@ == live(self@.dynamic.redrules, now),
    {
        self.dyn_rules.redrules(now)
    }

    /// The arguments for a request at `now`: what the floor list, the
    /// overrides and the rules, in this order, make of the scope, the path
    /// and the id.
    pub fn limit_args(&self, now: u64, scope: &str, path: &str, id: &str) -> (args: LimitArgs)
        requires
            self.wf(),
        ensures
            args == self@.limit_args(now, scope@, path@, id@),
    {
        if id.is_empty() {
            return LimitArgs::new(0, &Vec::new());
        }
        match self.dyn_rules.redlist.get(NS::redlist_key(id)) {
            Some(ttl) => {
                if *ttl >= now {
                    return LimitArgs::new(1, &self.floor);
                }
            },
            None => {},
        }
        let rule = match self.rules.get(scope) {
            Some(rule) => rule,
            None => &self.defaut,
        };
        let key = NS::redrules_key(scope, path);
        match self.dyn_rules.redrules.get(key.as_str()) {
            Some(entry) => {
                if entry.1 >= now {
                    return LimitArgs::new(entry.0, &rule.limit);
                }
            },
            None => {},
        }
        let quantity = match rule.path.get(path) {
            Some(q) => *q,
            None => rule.quantity,
        };
        let quantity = if quantity > 0 {
            quantity
        } else {
            1
        };
        LimitArgs::new(quantity, &rule.limit)
    }

    /// Takes in what a pass over the store has found: the static rules stay,
    /// and the dynamic state is updated as `DynView::updated` says.
    /// Afterwards no entry is left that had expired by `now`, and the
    /// cursor has not gone back.
    pub fn dyn_update(
        &mut self,
        now: u64,
        redlist_cursor: u64,
        redlist: Table<u64>,
        redrules: Table<(u64, u64)>,
    )
        requires
            old(self).wf(),
            redlist.wf(),
            redrules.wf(),
        ensures
            final(self).wf(),
            final(self)@ == (RedRulesView {
                dynamic: old(self)@.dynamic.updated(now, redlist_cursor, redlist@, redrules@),
                ..old(self)@
            }),
            final(self)@.dynamic.cursor >= old(self)@.dynamic.cursor,
            forall|k: Seq<char>| #[trigger]
                final(self)@.dynamic.redlist.contains_key(k) ==> final(self)@.dynamic.redlist[k]
                    > now,
            forall|k: Seq<char>| #[trigger]
                final(self)@.dynamic.redrules.contains_key(k)
                    ==> final(self)@.dynamic.redrules[k].1 > now,
    {
        self.dyn_rules.update(now, redlist_cursor, &redlist, &redrules);
    }
}

/// An id that is on the floor list at `now` is charged 1 against the floor
/// limit, whatever the scope and the path are and whatever override is in
/// force. The id must not be empty: a request without an id is not limited.
pub proof fn lemma_redlisted_gets_floor(
    rules: RedRulesView,
    now: u64,
    scope: Seq<char>,
    path: Seq<char>,
    id: Seq<char>,
)
    requires
        id.len() > 0,
        rules.dynamic.redlist.contains_key(id),
        rules.dynamic.redlist[id] >= now,
    ensures
        rules.limit_args(now, scope, path, id) == LimitArgs::spec_new(1, rules.floor),
        rules.limit_args(now, scope, path, id).0 == 1,
        rules.floor.len() == 4 ==> rules.limit_args(now, scope, path, id) == LimitArgs(
            1,
            rules.floor[0],
            rules.floor[1],
            rules.floor[2],
            rules.floor[3],
        ),
{
}

/// Where neither the floor list nor an override applies, the limit is that
/// of the scope's own rule, or of the fallback rule for a scope without one,
/// and the quantity is what that rule charges for the path.
pub proof fn lemma_static_rule_applies(
    rules: RedRulesView,
    now: u64,
    scope: Seq<char>,
    path: Seq<char>,
    id: Seq<char>,
)
    requires
        id.len() > 0,
        !rules.redlisted(now, id),
        !rules.overridden(now, scope, path),
    ensures
        ({
            let rule = if rules.rules.contains_key(scope) {
                rules.rules[scope]
            } else {
                rules.fallback
            };
            let cost = if rule.path.contains_key(path) {
                rule.path[path]
            } else {
                rule.quantity
            };
            rules.limit_args(now, scope, path, id) == LimitArgs::spec_new(
                if cost > 0 {
                    cost
                } else {
                    1
                },
                rule.limit,
            )
        }),
{
}

/// After an update at `now`, no entry is left that had expired by `now`, so
/// that no reader at any time `then` sees one, and what a reader sees at
/// `then` expires after `then`. The cursor is no smaller than it was and no
/// smaller than the one handed in.
pub proof fn lemma_update_hides_expired(
    dynamic: DynView,
    now: u64,
    cursor: u64,
    redlist: Map<Seq<char>, u64>,
    redrules: Map<Seq<char>, (u64, u64)>,
    then: u64,
)
    ensures
        ({
            let after = dynamic.updated(now, cursor, redlist, redrules);
            &&& after.cursor >= dynamic.cursor
            &&& after.cursor >= cursor
            &&& forall|k: Seq<char>| #[trigger]
                after.redlist.contains_key(k) ==> after.redlist[k] > now
            &&& forall|k: Seq<char>| #[trigger]
                after.redrules.contains_key(k) ==> after.redrules[k].1 > now
            &&& forall|k: Seq<char>| #[trigger]
                live(after.redlist, then).contains_key(k) ==> live(after.redlist, then)[k] > now
                    && live(after.redlist, then)[k] > then
            &&& forall|k: Seq<char>| #[trigger]
                live(after.redrules, then).contains_key(k) ==> live(after.redrules, then)[k].1
                    > now && live(after.redrules, then)[k].1 > then
        }),
{
}

/// An update changes nothing for an entry that is still live and that the
/// deltas do not name, and a live entry of a delta replaces what was there.
pub proof fn lemma_update_keeps_live(
    dynamic: DynView,
    now: u64,
    cursor: u64,
    redlist: Map<Seq<char>, u64>,
    redrules: Map<Seq<char>, (u64, u64)>,
    id: Seq<char>,
)
    ensures
        ({
            let after = dynamic.updated(now, cursor, redlist, redrules);
            &&& redlist.contains_key(id) && redlist[id] > now ==> after.redlist.contains_key(id)
                && after.redlist[id] == redlist[id]
            &&& !(redlist.contains_key(id) && redlist[id] > now) ==> (after.redlist.contains_key(id)
                <==> dynamic.redlist.contains_key(id) && dynamic.redlist[id] > now)
            &&& !(redlist.contains_key(id) && redlist[id] > now) && after.redlist.contains_key(id)
                ==> after.redlist[id] == dynamic.redlist[id]
        }),
{
}

} // verus!
