//! The overrides as the store keeps them: what the store's functions
//! `redrules_add` and `redrules_all` do to them and answer.
//!
//! The store keeps each override under an id made of its scope and its
//! path, with the time at which it expires. Here the overrides are a value
//! and the time is an argument, as in `limiter`.

use crate::limiter::clamp;
use vstd::prelude::*;

verus! {

/// An override in the store.
pub struct Redrule {
    pub scope: String,
    pub path: String,
    pub quantity: u64,
    /// When the override expires, in ms.
    pub expiry: u64,
}

/// An override as plain mathematical values.
pub ghost struct RedruleView {
    pub scope: Seq<char>,
    pub path: Seq<char>,
    pub quantity: u64,
    pub expiry: u64,
}

impl View for Redrule {
    type V = RedruleView;

    open spec fn view(&self) -> RedruleView {
        RedruleView {
            scope: self.scope@,
            path: self.path@,
            quantity: self.quantity,
            expiry: self.expiry,
        }
    }
}

/// What each override says.
pub open spec fn rule_views(rules: Seq<Redrule>) -> Seq<RedruleView> {
    Seq::new(rules.len(), |i: int| rules[i]@)
}

/// What each of the tuples of a scope, a path, a quantity and an expiry says.
pub open spec fn tuple_views(tuples: Seq<(String, String, u64, u64)>) -> Seq<RedruleView> {
    Seq::new(
        tuples.len(),
        |i: int|
            RedruleView {
                scope: tuples[i].0@,
                path: tuples[i].1@,
                quantity: tuples[i].2,
                expiry: tuples[i].3,
            },
    )
}

/// The id under which the store keeps the override of a path of a scope:
/// the scope, and right behind it the path.
pub open spec fn rule_id(scope: Seq<char>, path: Seq<char>) -> Seq<char> {
    scope + path
}

/// Whether no id occurs twice.
pub open spec fn unique(s: Seq<RedruleView>) -> bool {
    forall|i: int, j: int|
        0 <= i < j < s.len() ==> rule_id(s[i].scope, s[i].path) != rule_id(s[j].scope, s[j].path)
}

/// The place of the first override with the id `id`; the number of
/// overrides where there is none.
pub open spec fn find(s: Seq<RedruleView>, id: Seq<char>) -> int
    decreases s.len(),
{
    if s.len() == 0 {
        0
    } else if rule_id(s[0].scope, s[0].path) == id {
        0
    } else {
        1 + find(s.drop_first(), id)
    }
}

/// The overrides without those that have expired before `now`.
pub open spec fn kept(s: Seq<RedruleView>, now: u64) -> Seq<RedruleView>
    decreases s.len(),
{
    if s.len() == 0 {
        s
    } else if s.last().expiry >= now {
        kept(s.drop_last(), now).push(s.last())
    } else {
        kept(s.drop_last(), now)
    }
}

/// The overrides with `r` among them: in place of the override of the same
/// id, if there is one, else behind the others.
pub open spec fn stored(s: Seq<RedruleView>, r: RedruleView) -> Seq<RedruleView> {
    let p = find(s, rule_id(r.scope, r.path));
    if p < s.len() {
        s.update(p, r)
    } else {
        s.push(r)
    }
}

/// What `find` finds: no override before it has the id, and the override
/// at it, if there is one, has.
pub proof fn lemma_find(s: Seq<RedruleView>, id: Seq<char>)
    ensures
        0 <= find(s, id) <= s.len(),
        forall|i: int| 0 <= i < find(s, id) ==> rule_id((#[trigger] s[i]).scope, s[i].path) != id,
        find(s, id) < s.len() ==> rule_id(s[find(s, id)].scope, s[find(s, id)].path) == id,
    decreases s.len(),
{
    if s.len() > 0 && rule_id(s[0].scope, s[0].path) != id {
        let rest = s.drop_first();
        lemma_find(rest, id);
        assert forall|i: int| 0 <= i < find(s, id) implies rule_id(
            (#[trigger] s[i]).scope,
            s[i].path,
        ) != id by {
            if i > 0 {
                assert(s[i] == rest[i - 1]);
            }
        }
        if find(s, id) < s.len() {
            assert(s[find(s, id)] == rest[find(rest, id)]);
        }
    }
}

/// The place that has the properties of `find` is what it finds.
pub proof fn lemma_find_is(s: Seq<RedruleView>, id: Seq<char>, k: int)
    requires
        0 <= k <= s.len(),
        forall|i: int| 0 <= i < k ==> rule_id((#[trigger] s[i]).scope, s[i].path) != id,
        k < s.len() ==> rule_id(s[k].scope, s[k].path) == id,
    ensures
        find(s, id) == k,
{
    lemma_find(s, id);
    let r = find(s, id);
    if r < k {
        assert(rule_id(s[r].scope, s[r].path) != id);
    }
    if k < r {
        assert(rule_id(s[k].scope, s[k].path) != id);
    }
}

/// Every override that is kept was there and has not expired before `now`,
/// and no id occurs twice among those kept if none did before.
pub proof fn lemma_kept(s: Seq<RedruleView>, now: u64)
    ensures
        forall|k: int| 0 <= k < kept(s, now).len() ==> s.contains(#[trigger] kept(s, now)[k]),
        forall|k: int| 0 <= k < kept(s, now).len() ==> (#[trigger] kept(s, now)[k]).expiry >= now,
        unique(s) ==> unique(kept(s, now)),
    decreases s.len(),
{
    if s.len() > 0 {
        let before = s.drop_last();
        lemma_kept(before, now);
        let kb = kept(before, now);
        let r = kept(s, now);
        assert forall|k: int| 0 <= k < kb.len() implies s.contains(#[trigger] kb[k]) by {
            let i = choose|i: int| 0 <= i < before.len() && before[i] == kb[k];
            assert(s[i] == kb[k]);
        }
        assert forall|k: int| 0 <= k < r.len() implies s.contains(#[trigger] r[k]) by {
            if k < kb.len() {
                assert(r[k] == kb[k]);
            } else {
                assert(r[k] == s[s.len() - 1]);
            }
        }
        if unique(s) {
            assert forall|i: int, j: int| 0 <= i < j < before.len() implies rule_id(
                before[i].scope,
                before[i].path,
            ) != rule_id(before[j].scope, before[j].path) by {
                assert(before[i] == s[i] && before[j] == s[j]);
            }
            assert forall|i: int, j: int| 0 <= i < j < r.len() implies rule_id(
                r[i].scope,
                r[i].path,
            ) != rule_id(r[j].scope, r[j].path) by {
                if j < kb.len() {
                    assert(r[i] == kb[i] && r[j] == kb[j]);
                } else {
                    let a = choose|a: int| 0 <= a < before.len() && before[a] == kb[i];
                    assert(s[a] == kb[i]);
                    assert(r[j] == s[s.len() - 1]);
                }
            }
        }
    }
}

/// No id occurs twice after an override is stored if none did before.
pub proof fn lemma_stored(s: Seq<RedruleView>, r: RedruleView)
    requires
        unique(s),
    ensures
        unique(stored(s, r)),
{
    lemma_find(s, rule_id(r.scope, r.path));
}

/// The overrides of one namespace.
pub struct Redrules {
    rules: Vec<Redrule>,
}

impl View for Redrules {
    type V = Seq<RedruleView>;

    closed spec fn view(&self) -> Seq<RedruleView> {
        rule_views(self.rules@)
    }
}

impl Redrules {
    /// No id occurs twice.
    pub closed spec fn wf(&self) -> bool {
        unique(self@)
    }

    /// What well-formed overrides are: no id occurs twice.
    pub proof fn lemma_wf(&self)
        requires
            self.wf(),
        ensures
            unique(self@),
    {
    }

    /// No override.
    pub fn new() -> (rules: Self)
        ensures
            rules.wf(),
            rules@ == Seq::<RedruleView>::empty(),
    {
        let rules = Redrules { rules: Vec::new() };
        assert(rules@ =~= Seq::<RedruleView>::empty());
        rules
    }

    /// An addition of nothing at `now`: the overrides that have expired
    /// before `now` are taken out.
    pub fn redrules_sweep(&mut self, now: u64)
        requires
            old(self).wf(),
        ensures
            final(self).wf(),
            final(self)@ == kept(old(self)@, now),
    {
        let ghost start = self@;
        let mut live: Vec<Redrule> = Vec::new();
        let n = self.rules.len();
        let mut i: usize = 0;
        proof {
            assert(start.subrange(0, 0) =~= Seq::<RedruleView>::empty());
            assert(rule_views(live@) =~= Seq::<RedruleView>::empty());
        }
        while i < n
            invariant
                n == self.rules@.len(),
                start == rule_views(self.rules@),
                i <= n,
                rule_views(live@) == kept(start.subrange(0, i as int), now),
            decreases n - i,
        {
            proof {
                let upto = start.subrange(0, i + 1);
                assert(upto.drop_last() =~= start.subrange(0, i as int));
                assert(upto.last() == self.rules@[i as int]@);
            }
            if self.rules[i].expiry >= now {
                let ghost before = rule_views(live@);
                live.push(
                    Redrule {
                        scope: self.rules[i].scope.clone(),
                        path: self.rules[i].path.clone(),
                        quantity: self.rules[i].quantity,
                        expiry: self.rules[i].expiry,
                    },
                );
                assert(rule_views(live@) =~= before.push(self.rules@[i as int]@));
            }
            i = i + 1;
        }
        proof {
            assert(start.subrange(0, n as int) =~= start);
            lemma_kept(start, now);
        }
        self.rules = live;
    }

    /// An addition at `now`: the overrides are swept of what has expired
    /// before `now`, and then the quantity for `path` in `scope` is stored,
    /// to expire `ttl` ms after `now`, in place of the override of the same
    /// id if there is one. The answer is 1 where the id is new, else 0.
    pub fn redrules_add(
        &mut self,
        now: u64,
        scope: &str,
        path: &str,
        quantity: u64,
        ttl: u64,
    ) -> (count: u64)
        requires
            old(self).wf(),
        ensures
            final(self).wf(),
            final(self)@ == stored(
                kept(old(self)@, now),
                RedruleView { scope: scope@, path: path@, quantity, expiry: clamp(now + ttl) },
            ),
            count == if find(kept(old(self)@, now), rule_id(scope@, path@)) == kept(
                old(self)@,
                now,
            ).len() {
                1u64
            } else {
                0u64
            },
    {
        self.redrules_sweep(now);
        let ghost swept = self@;
        let mut id = scope.to_owned();
        id.append(path);
        let n = self.rules.len();
        let mut p: usize = 0;
        let mut found = false;
        while p < n && !found
            invariant
                n == self.rules@.len(),
                swept == rule_views(self.rules@),
                id@ == rule_id(scope@, path@),
                p <= n,
                forall|i: int|
                    0 <= i < p ==> rule_id((#[trigger] swept[i]).scope, swept[i].path) != id@,
                found ==> p < n && rule_id(swept[p as int].scope, swept[p as int].path) == id@,
            decreases n - p + if found { 0int } else { 1int },
        {
            let mut other = self.rules[p].scope.clone();
            other.append(self.rules[p].path.as_str());
            if other == id {
                found = true;
            } else {
                p = p + 1;
            }
        }
        proof {
            lemma_find_is(swept, id@, p as int);
            lemma_stored(
                swept,
                RedruleView { scope: scope@, path: path@, quantity, expiry: clamp(now + ttl) },
            );
        }
        let expiry = match now.checked_add(ttl) {
            Some(e) => e,
            None => u64::MAX,
        };
        let rule = Redrule { scope: scope.to_owned(), path: path.to_owned(), quantity, expiry };
        let ghost rv = rule@;
        if p < n {
            self.rules[p] = rule;
            assert(rule_views(self.rules@) =~= swept.update(p as int, rv));
            0
        } else {
            self.rules.push(rule);
            assert(rule_views(self.rules@) =~= swept.push(rv));
            1
        }
    }

    /// All overrides, expired ones included: of each its scope, its path,
    /// its quantity and its expiry.
    pub fn redrules_all(&self) -> (all: Vec<(String, String, u64, u64)>)
        ensures
            tuple_views(all@) == self@,
    {
        let mut all: Vec<(String, String, u64, u64)> = Vec::new();
        let n = self.rules.len();
        let mut i: usize = 0;
        while i < n
            invariant
                n == self.rules@.len(),
                i <= n,
                tuple_views(all@) == rule_views(self.rules@).subrange(0, i as int),
            decreases n - i,
        {
            let ghost before = tuple_views(all@);
            all.push(
                (
                    self.rules[i].scope.clone(),
                    self.rules[i].path.clone(),
                    self.rules[i].quantity,
                    self.rules[i].expiry,
                ),
            );
            proof {
                assert(tuple_views(all@) =~= before.push(self.rules@[i as int]@));
                assert(rule_views(self.rules@).subrange(0, i + 1) =~= rule_views(
                    self.rules@,
                ).subrange(0, i as int).push(self.rules@[i as int]@));
            }
            i = i + 1;
        }
        proof {
            assert(rule_views(self.rules@).subrange(0, n as int) =~= rule_views(self.rules@));
        }
        all
    }
}

} // verus!
