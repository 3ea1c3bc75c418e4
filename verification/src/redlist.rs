//! The floor list as the store keeps it: what the store's functions
//! `redlist_add` and `redlist_scan` do to it and answer.
//!
//! The store keeps two scores for each member: the time at which it expires,
//! and a cursor score, which tells when it was added and orders the
//! members for scanning. Here the list is a value and the time is an
//! argument, as in `limiter`.

use crate::limiter::clamp;
use crate::sync::{
    member_expiry, member_id, reply_members, texts, ScanView, REDLIST_SCAN_COUNT,
};
use crate::table::Table;
use crate::text::{decimal_digits, decimal_u64, lemma_decimal_round_trip, write_decimal};
use vstd::prelude::*;

verus! {

/// A member of the floor list.
pub struct Member {
    pub id: String,
    /// The score by which scans go: the time of the addition in ms, plus
    /// the member's place in the addition.
    pub cursor: u64,
    /// When the member expires, in ms.
    pub expiry: u64,
}

/// A member as plain mathematical values.
pub ghost struct MemberView {
    pub id: Seq<char>,
    pub cursor: u64,
    pub expiry: u64,
}

impl View for Member {
    type V = MemberView;

    open spec fn view(&self) -> MemberView {
        MemberView { id: self.id@, cursor: self.cursor, expiry: self.expiry }
    }
}

/// What each member says.
pub open spec fn views(members: Seq<Member>) -> Seq<MemberView> {
    Seq::new(members.len(), |i: int| members[i]@)
}

/// Whether the members stand in the order of their cursor scores.
pub open spec fn sorted(s: Seq<MemberView>) -> bool {
    forall|i: int, j: int| 0 <= i <= j < s.len() ==> s[i].cursor <= s[j].cursor
}

/// Whether no id occurs twice.
pub open spec fn distinct(s: Seq<MemberView>) -> bool {
    forall|i: int, j: int| 0 <= i < j < s.len() ==> s[i].id != s[j].id
}

/// The place of the first member whose cursor score is `cursor` or more;
/// the length of the list where there is none.
pub open spec fn first_from(s: Seq<MemberView>, cursor: int) -> int
    decreases s.len(),
{
    if s.len() == 0 {
        0
    } else if s[0].cursor >= cursor {
        0
    } else {
        1 + first_from(s.drop_first(), cursor)
    }
}

/// The place of the first member with the id `id`; the length of the list
/// where there is none.
pub open spec fn position(s: Seq<MemberView>, id: Seq<char>) -> int
    decreases s.len(),
{
    if s.len() == 0 {
        0
    } else if s[0].id == id {
        0
    } else {
        1 + position(s.drop_first(), id)
    }
}

/// What `first_from` finds: no member before it has a score of `cursor` or
/// more, and the member at it, if there is one, has.
pub proof fn lemma_first_from(s: Seq<MemberView>, cursor: int)
    ensures
        0 <= first_from(s, cursor) <= s.len(),
        forall|i: int| 0 <= i < first_from(s, cursor) ==> (#[trigger] s[i]).cursor < cursor,
        first_from(s, cursor) < s.len() ==> s[first_from(s, cursor)].cursor >= cursor,
    decreases s.len(),
{
    if s.len() > 0 && s[0].cursor < cursor {
        let rest = s.drop_first();
        lemma_first_from(rest, cursor);
        assert forall|i: int| 0 <= i < first_from(s, cursor) implies (#[trigger] s[i]).cursor
            < cursor by {
            if i > 0 {
                assert(s[i] == rest[i - 1]);
            }
        }
        if first_from(s, cursor) < s.len() {
            assert(s[first_from(s, cursor)] == rest[first_from(rest, cursor)]);
        }
    }
}

/// The place that has the properties of `first_from` is what it finds.
pub proof fn lemma_first_from_is(s: Seq<MemberView>, cursor: int, k: int)
    requires
        0 <= k <= s.len(),
        forall|i: int| 0 <= i < k ==> (#[trigger] s[i]).cursor < cursor,
        k < s.len() ==> s[k].cursor >= cursor,
    ensures
        first_from(s, cursor) == k,
{
    lemma_first_from(s, cursor);
    let r = first_from(s, cursor);
    if r < k {
        assert(s[r].cursor < cursor);
    }
    if k < r {
        assert(s[k].cursor < cursor);
    }
}

/// What `position` finds: no member before it has the id, and the member at
/// it, if there is one, has.
pub proof fn lemma_position(s: Seq<MemberView>, id: Seq<char>)
    ensures
        0 <= position(s, id) <= s.len(),
        forall|i: int| 0 <= i < position(s, id) ==> (#[trigger] s[i]).id != id,
        position(s, id) < s.len() ==> s[position(s, id)].id == id,
    decreases s.len(),
{
    if s.len() > 0 && s[0].id != id {
        let rest = s.drop_first();
        lemma_position(rest, id);
        assert forall|i: int| 0 <= i < position(s, id) implies (#[trigger] s[i]).id != id by {
            if i > 0 {
                assert(s[i] == rest[i - 1]);
            }
        }
        if position(s, id) < s.len() {
            assert(s[position(s, id)] == rest[position(rest, id)]);
        }
    }
}

/// The place that has the properties of `position` is what it finds.
pub proof fn lemma_position_is(s: Seq<MemberView>, id: Seq<char>, k: int)
    requires
        0 <= k <= s.len(),
        forall|i: int| 0 <= i < k ==> (#[trigger] s[i]).id != id,
        k < s.len() ==> s[k].id == id,
    ensures
        position(s, id) == k,
{
    lemma_position(s, id);
    let r = position(s, id);
    if r < k {
        assert(s[r].id != id);
    }
    if k < r {
        assert(s[k].id != id);
    }
}

/// The list without the member that has the id `id`, if there is one.
pub open spec fn without(s: Seq<MemberView>, id: Seq<char>) -> Seq<MemberView> {
    if position(s, id) < s.len() {
        s.remove(position(s, id))
    } else {
        s
    }
}

/// The list with `m` in it: in place of the member of the same id, if
/// there is one, and behind every member whose score is no larger.
pub open spec fn placed(s: Seq<MemberView>, m: MemberView) -> Seq<MemberView> {
    let rest = without(s, m.id);
    rest.insert(first_from(rest, m.cursor + 1), m)
}

/// The list without the members that have expired before `now`.
pub open spec fn swept(s: Seq<MemberView>, now: u64) -> Seq<MemberView>
    decreases s.len(),
{
    if s.len() == 0 {
        s
    } else if s.last().expiry >= now {
        swept(s.drop_last(), now).push(s.last())
    } else {
        swept(s.drop_last(), now)
    }
}

/// A list without a member is as well ordered as it was, and does not hold
/// the member's id any more.
pub proof fn lemma_without(s: Seq<MemberView>, id: Seq<char>)
    requires
        sorted(s),
        distinct(s),
    ensures
        sorted(without(s, id)),
        distinct(without(s, id)),
        forall|i: int| 0 <= i < without(s, id).len() ==> (#[trigger] without(s, id)[i]).id != id,
{
    lemma_position(s, id);
    let p = position(s, id);
    let r = without(s, id);
    if p < s.len() {
        assert forall|i: int| 0 <= i < r.len() implies (#[trigger] r[i]).id != id by {
            if i < p {
                assert(r[i] == s[i]);
            } else {
                assert(r[i] == s[i + 1]);
            }
        }
        assert forall|i: int, j: int| 0 <= i <= j < r.len() implies r[i].cursor <= r[j].cursor by {
            let a = if i < p {
                i
            } else {
                i + 1
            };
            let b = if j < p {
                j
            } else {
                j + 1
            };
            assert(r[i] == s[a] && r[j] == s[b]);
        }
        assert forall|i: int, j: int| 0 <= i < j < r.len() implies r[i].id != r[j].id by {
            let a = if i < p {
                i
            } else {
                i + 1
            };
            let b = if j < p {
                j
            } else {
                j + 1
            };
            assert(r[i] == s[a] && r[j] == s[b]);
        }
    }
}

/// A list with a member placed in it is well ordered if it was.
pub proof fn lemma_placed(s: Seq<MemberView>, m: MemberView)
    requires
        sorted(s),
        distinct(s),
    ensures
        sorted(placed(s, m)),
        distinct(placed(s, m)),
{
    lemma_without(s, m.id);
    let rest = without(s, m.id);
    lemma_first_from(rest, m.cursor + 1);
    let k = first_from(rest, m.cursor + 1);
    let r = placed(s, m);
    assert(r.len() == rest.len() + 1);
    assert forall|i: int| 0 <= i < r.len() implies #[trigger] r[i] == (if i < k {
        rest[i]
    } else if i == k {
        m
    } else {
        rest[i - 1]
    }) by {}
    assert forall|i: int| k <= i < rest.len() implies (#[trigger] rest[i]).cursor > m.cursor by {
        assert(rest[k].cursor <= rest[i].cursor);
    }
    assert forall|i: int, j: int| 0 <= i <= j < r.len() implies r[i].cursor <= r[j].cursor by {
        if i < k && j > k {
            assert(rest[i].cursor <= rest[j - 1].cursor);
        }
    }
    assert forall|i: int, j: int| 0 <= i < j < r.len() implies r[i].id != r[j].id by {
        if i < k && j > k {
            assert(rest[i].id != rest[j - 1].id);
        }
    }
}

/// Every member of a swept list was in the list, and a swept list is well
/// ordered if the list was.
pub proof fn lemma_swept(s: Seq<MemberView>, now: u64)
    ensures
        forall|k: int| 0 <= k < swept(s, now).len() ==> s.contains(#[trigger] swept(s, now)[k]),
        forall|k: int| 0 <= k < swept(s, now).len() ==> (#[trigger] swept(s, now)[k]).expiry >= now,
        sorted(s) ==> sorted(swept(s, now)),
        distinct(s) ==> distinct(swept(s, now)),
    decreases s.len(),
{
    if s.len() > 0 {
        let before = s.drop_last();
        lemma_swept(before, now);
        let sb = swept(before, now);
        let r = swept(s, now);
        assert forall|k: int| 0 <= k < sb.len() implies s.contains(#[trigger] sb[k]) by {
            let i = choose|i: int| 0 <= i < before.len() && before[i] == sb[k];
            assert(s[i] == sb[k]);
        }
        assert forall|k: int| 0 <= k < r.len() implies s.contains(#[trigger] r[k]) by {
            if k < sb.len() {
                assert(r[k] == sb[k]);
            } else {
                assert(r[k] == s[s.len() - 1]);
            }
        }
        if sorted(s) {
            assert forall|i: int, j: int| 0 <= i <= j < before.len() implies before[i].cursor
                <= before[j].cursor by {
                assert(before[i] == s[i] && before[j] == s[j]);
            }
            assert forall|i: int, j: int| 0 <= i <= j < r.len() implies r[i].cursor
                <= r[j].cursor by {
                if j < sb.len() {
                    assert(r[i] == sb[i] && r[j] == sb[j]);
                } else if i < sb.len() {
                    let a = choose|a: int| 0 <= a < before.len() && before[a] == sb[i];
                    assert(s[a].cursor <= s[s.len() - 1].cursor);
                }
            }
        }
        if distinct(s) {
            assert forall|i: int, j: int| 0 <= i < j < before.len() implies before[i].id
                != before[j].id by {
                assert(before[i] == s[i] && before[j] == s[j]);
            }
            assert forall|i: int, j: int| 0 <= i < j < r.len() implies r[i].id != r[j].id by {
                if j < sb.len() {
                    assert(r[i] == sb[i] && r[j] == sb[j]);
                } else {
                    let a = choose|a: int| 0 <= a < before.len() && before[a] == sb[i];
                    assert(s[a].id != s[s.len() - 1].id);
                }
            }
        }
    }
}

/// The member that the `k`-th row of an addition at `now` makes, counting
/// from 1: its cursor score is the time plus its place, and it expires
/// after its time to live.
pub open spec fn new_member(now: u64, k: int, id: Seq<char>, ttl: u64) -> MemberView {
    MemberView { id, cursor: clamp(now + k), expiry: clamp(now + ttl) }
}

/// The list after an addition at `now` of the first `upto` rows of `keys`,
/// each with its time to live in `list`: first the list is swept, then the
/// rows are placed one by one.
pub open spec fn added(
    s: Seq<MemberView>,
    now: u64,
    keys: Seq<Seq<char>>,
    list: Map<Seq<char>, u64>,
    upto: int,
) -> Seq<MemberView>
    decreases upto,
{
    if upto <= 0 {
        swept(s, now)
    } else {
        placed(
            added(s, now, keys, list, upto - 1),
            new_member(now, upto, keys[upto - 1], list[keys[upto - 1]]),
        )
    }
}

/// How many of the first `upto` rows of an addition bring an id that the
/// list, swept, did not hold.
pub open spec fn added_new(
    s: Seq<MemberView>,
    now: u64,
    keys: Seq<Seq<char>>,
    list: Map<Seq<char>, u64>,
    upto: int,
) -> int
    decreases upto,
{
    if upto <= 0 {
        0
    } else {
        let before = added(s, now, keys, list, upto - 1);
        added_new(s, now, keys, list, upto - 1) + if position(before, keys[upto - 1])
            == before.len() {
            1int
        } else {
            0int
        }
    }
}

/// What one scan hands out: the members from the first whose cursor score
/// is `cursor` or more, in the order of their scores, and no more of them
/// than `REDLIST_SCAN_COUNT`.
pub open spec fn scan_page(s: Seq<MemberView>, cursor: u64) -> Seq<MemberView> {
    let from = first_from(s, cursor as int);
    let end = if s.len() - from > REDLIST_SCAN_COUNT {
        from + REDLIST_SCAN_COUNT
    } else {
        s.len() as int
    };
    s.subrange(from, end)
}

/// The id and the expiry of each of the first `upto` members of a page.
pub open spec fn pairs(page: Seq<MemberView>, upto: int) -> Seq<Seq<char>>
    decreases upto,
{
    if upto <= 0 {
        Seq::empty()
    } else {
        pairs(page, upto - 1).push(page[upto - 1].id).push(
            decimal_digits(page[upto - 1].expiry as nat),
        )
    }
}

/// The reply to a scan: nothing where the page is empty; else the cursor
/// score of the last member of the page, and then the id and the expiry of
/// each member.
pub open spec fn scan_reply(s: Seq<MemberView>, cursor: u64) -> Seq<Seq<char>> {
    let page = scan_page(s, cursor);
    if page.len() == 0 {
        Seq::empty()
    } else {
        seq![decimal_digits(page.last().cursor as nat)] + pairs(page, page.len() as int)
    }
}

/// The floor list of one namespace.
pub struct Redlist {
    members: Vec<Member>,
}

impl View for Redlist {
    type V = Seq<MemberView>;

    closed spec fn view(&self) -> Seq<MemberView> {
        views(self.members@)
    }
}

impl Redlist {
    /// The members stand in the order of their cursor scores, and no id
    /// occurs twice.
    pub closed spec fn wf(&self) -> bool {
        sorted(self@) && distinct(self@)
    }

    /// What a well-formed list is: its members stand in the order of their
    /// cursor scores, and no id occurs twice.
    pub proof fn lemma_wf(&self)
        requires
            self.wf(),
        ensures
            sorted(self@),
            distinct(self@),
    {
    }

    /// An empty list.
    pub fn new() -> (list: Self)
        ensures
            list.wf(),
            list@ == Seq::<MemberView>::empty(),
    {
        let list = Redlist { members: Vec::new() };
        assert(list@ =~= Seq::<MemberView>::empty());
        list
    }

    /// The number of members, expired ones included.
    pub fn len(&self) -> (n: usize)
        ensures
            n == self@.len(),
    {
        self.members.len()
    }

    /// Takes the members out that have expired before `now`.
    fn sweep(&mut self, now: u64)
        requires
            old(self).wf(),
        ensures
            final(self).wf(),
            final(self)@ == swept(old(self)@, now),
    {
        let ghost start = self@;
        let mut kept: Vec<Member> = Vec::new();
        let n = self.members.len();
        let mut i: usize = 0;
        proof {
            assert(start.subrange(0, 0) =~= Seq::<MemberView>::empty());
            assert(views(kept@) =~= Seq::<MemberView>::empty());
        }
        while i < n
            invariant
                n == self.members@.len(),
                start == views(self.members@),
                i <= n,
                views(kept@) == swept(start.subrange(0, i as int), now),
            decreases n - i,
        {
            proof {
                let upto = start.subrange(0, i + 1);
                assert(upto.drop_last() =~= start.subrange(0, i as int));
                assert(upto.last() == self.members@[i as int]@);
            }
            if self.members[i].expiry >= now {
                let ghost before = views(kept@);
                kept.push(
                    Member {
                        id: self.members[i].id.clone(),
                        cursor: self.members[i].cursor,
                        expiry: self.members[i].expiry,
                    },
                );
                assert(views(kept@) =~= before.push(self.members@[i as int]@));
            }
            i = i + 1;
        }
        proof {
            assert(start.subrange(0, n as int) =~= start);
            lemma_swept(start, now);
        }
        self.members = kept;
    }

    /// Puts a member in its place. Says whether its id is new to the list.
    fn place(&mut self, m: Member) -> (is_new: bool)
        requires
            old(self).wf(),
        ensures
            final(self).wf(),
            final(self)@ == placed(old(self)@, m@),
            is_new == (position(old(self)@, m@.id) == old(self)@.len()),
    {
        let ghost start = self@;
        let n = self.members.len();
        let mut p: usize = 0;
        while p < n && !(self.members[p].id == m.id)
            invariant
                n == self.members@.len(),
                start == views(self.members@),
                p <= n,
                forall|i: int| 0 <= i < p ==> (#[trigger] start[i]).id != m@.id,
            decreases n - p,
        {
            p = p + 1;
        }
        proof {
            lemma_position_is(start, m@.id, p as int);
            lemma_without(start, m@.id);
        }
        let is_new = p == n;
        if p < n {
            self.members.remove(p);
        }
        let ghost rest = without(start, m@.id);
        assert(views(self.members@) =~= rest);
        let len = self.members.len();
        let mut k: usize = 0;
        while k < len && self.members[k].cursor <= m.cursor
            invariant
                len == self.members@.len(),
                rest == views(self.members@),
                k <= len,
                forall|i: int| 0 <= i < k ==> (#[trigger] rest[i]).cursor < m.cursor + 1,
            decreases len - k,
        {
            k = k + 1;
        }
        proof {
            lemma_first_from_is(rest, m.cursor + 1, k as int);
            lemma_placed(start, m@);
        }
        let ghost mv = m@;
        self.members.insert(k, m);
        assert(views(self.members@) =~= rest.insert(k as int, mv));
        is_new
    }

    /// An addition at `now`: the list is swept of what has expired before
    /// `now`, and then each row of `list`, an id with its time to live in
    /// ms, becomes a member, in place of the member of the same id if
    /// there is one. The answer is the number of ids that are new.
    pub fn redlist_add(&mut self, now: u64, list: &Table<u64>) -> (count: usize)
        requires
            old(self).wf(),
            list.wf(),
        ensures
            final(self).wf(),
            final(self)@ == added(old(self)@, now, list.keys(), list@, list.keys().len() as int),
            count == added_new(old(self)@, now, list.keys(), list@, list.keys().len() as int),
    {
        let ghost start = self@;
        self.sweep(now);
        let n = list.len();
        let mut count: usize = 0;
        let mut i: usize = 0;
        while i < n
            invariant
                list.wf(),
                self.wf(),
                n == list.keys().len(),
                i <= n,
                count <= i,
                self@ == added(start, now, list.keys(), list@, i as int),
                count == added_new(start, now, list.keys(), list@, i as int),
            decreases n - i,
        {
            let ttl = *list.value_at(i);
            let cursor = match now.checked_add(i as u64) {
                Some(c) => match c.checked_add(1) {
                    Some(c) => c,
                    None => u64::MAX,
                },
                None => u64::MAX,
            };
            let expiry = match now.checked_add(ttl) {
                Some(e) => e,
                None => u64::MAX,
            };
            let m = Member { id: list.key_at(i).clone(), cursor, expiry };
            proof {
                assert(m@ == new_member(
                    now,
                    i + 1,
                    list.keys()[i as int],
                    list@[list.keys()[i as int]],
                ));
            }
            let is_new = self.place(m);
            if is_new {
                count = count + 1;
            }
            i = i + 1;
        }
        count
    }

    /// A scan from `cursor`.
    pub fn redlist_scan(&self, cursor: u64) -> (reply: Vec<String>)
        requires
            self.wf(),
        ensures
            texts(reply@) == scan_reply(self@, cursor),
    {
        let ghost s = self@;
        let n = self.members.len();
        let mut from: usize = 0;
        while from < n && self.members[from].cursor < cursor
            invariant
                n == self.members@.len(),
                s == views(self.members@),
                from <= n,
                forall|i: int| 0 <= i < from ==> (#[trigger] s[i]).cursor < cursor,
            decreases n - from,
        {
            from = from + 1;
        }
        proof {
            lemma_first_from_is(s, cursor as int, from as int);
        }
        let end: usize = if n - from > REDLIST_SCAN_COUNT {
            from + REDLIST_SCAN_COUNT
        } else {
            n
        };
        let ghost page = scan_page(s, cursor);
        assert(page =~= s.subrange(from as int, end as int));
        let mut reply: Vec<String> = Vec::new();
        if from < end {
            reply.push(write_decimal(self.members[end - 1].cursor));
            let ghost head = seq![decimal_digits(page.last().cursor as nat)];
            assert(texts(reply@) =~= head + pairs(page, 0));
            let mut i: usize = from;
            while i < end
                invariant
                    n == self.members@.len(),
                    s == views(self.members@),
                    from <= i <= end <= n,
                    page == s.subrange(from as int, end as int),
                    texts(reply@) == head + pairs(page, i - from),
                decreases end - i,
            {
                let ghost before = texts(reply@);
                reply.push(self.members[i].id.clone());
                reply.push(write_decimal(self.members[i].expiry));
                proof {
                    let j = i - from;
                    assert(page[j] == self.members@[i as int]@);
                    assert(texts(reply@) =~= before.push(page[j].id).push(
                        decimal_digits(page[j].expiry as nat),
                    ));
                    assert(head + pairs(page, j + 1) =~= (head + pairs(page, j)).push(
                        page[j].id,
                    ).push(decimal_digits(page[j].expiry as nat)));
                }
                i = i + 1;
            }
        } else {
            assert(texts(reply@) =~= Seq::<Seq<char>>::empty());
        }
        reply
    }
}

/// Where the members of a page stand among the pairs made of them.
pub proof fn lemma_pairs(page: Seq<MemberView>, upto: int)
    requires
        0 <= upto <= page.len(),
    ensures
        pairs(page, upto).len() == 2 * upto,
        forall|j: int|
            0 <= j < upto ==> pairs(page, upto)[2 * j] == (#[trigger] page[j]).id && pairs(
                page,
                upto,
            )[2 * j + 1] == decimal_digits(page[j].expiry as nat),
    decreases upto,
{
    if upto > 0 {
        lemma_pairs(page, upto - 1);
    }
}

/// A scan never goes back: of two scans of which the second starts above
/// the cursor that the first has handed out, the second hands out only
/// members with a higher score than any that the first has. So a member that
/// both hand out has been added anew in between. The list may have changed
/// between the two scans in any way.
pub proof fn lemma_scan_moves_on(
    before: Seq<MemberView>,
    after: Seq<MemberView>,
    first: u64,
    second: u64,
)
    requires
        sorted(before),
        sorted(after),
        scan_page(before, first).len() > 0,
        second > scan_page(before, first).last().cursor,
    ensures
        forall|i: int, j: int|
            0 <= i < scan_page(before, first).len() && 0 <= j < scan_page(after, second).len()
                ==> (#[trigger] scan_page(before, first)[i]).cursor < (#[trigger] scan_page(
                after,
                second,
            )[j]).cursor,
        forall|i: int, j: int|
            0 <= i < scan_page(before, first).len() && 0 <= j < scan_page(after, second).len()
                && (#[trigger] scan_page(before, first)[i]).id == (#[trigger] scan_page(
                after,
                second,
            )[j]).id ==> scan_page(before, first)[i].cursor != scan_page(after, second)[j].cursor,
{
    lemma_first_from(before, first as int);
    lemma_first_from(after, second as int);
    let p = scan_page(before, first);
    let q = scan_page(after, second);
    let fb = first_from(before, first as int);
    let fa = first_from(after, second as int);
    assert forall|i: int, j: int| 0 <= i < p.len() && 0 <= j < q.len() implies (
    #[trigger] p[i]).cursor < (#[trigger] q[j]).cursor by {
        assert(p[i] == before[fb + i]);
        assert(p.last() == before[fb + p.len() - 1]);
        assert(before[fb + i].cursor <= before[fb + p.len() - 1].cursor);
        assert(q[j] == after[fa + j]);
        assert(after[fa].cursor <= after[fa + j].cursor);
    }
}

/// A scan misses nothing: a page that is not full holds every member whose
/// cursor score is `cursor` or more, and a full page holds every such
/// member whose score is below that of its last member.
pub proof fn lemma_scan_misses_nothing(s: Seq<MemberView>, cursor: u64)
    requires
        sorted(s),
    ensures
        scan_page(s, cursor).len() <= REDLIST_SCAN_COUNT,
        forall|i: int|
            0 <= i < scan_page(s, cursor).len() ==> (#[trigger] scan_page(s, cursor)[i]).cursor
                >= cursor,
        forall|i: int|
            0 <= i < s.len() && (#[trigger] s[i]).cursor >= cursor && (scan_page(s, cursor).len()
                < REDLIST_SCAN_COUNT || s[i].cursor < scan_page(s, cursor).last().cursor)
                ==> scan_page(s, cursor).contains(s[i]),
{
    lemma_first_from(s, cursor as int);
    let from = first_from(s, cursor as int);
    let page = scan_page(s, cursor);
    assert forall|i: int| 0 <= i < page.len() implies (#[trigger] page[i]).cursor >= cursor by {
        assert(page[i] == s[from + i]);
        assert(s[from].cursor <= s[from + i].cursor);
    }
    assert forall|i: int|
        0 <= i < s.len() && (#[trigger] s[i]).cursor >= cursor && (page.len() < REDLIST_SCAN_COUNT
            || s[i].cursor < page.last().cursor) implies page.contains(s[i]) by {
        assert(i >= from);
        if page.len() >= REDLIST_SCAN_COUNT {
            assert(page.last() == s[from + page.len() - 1]);
            if i >= from + page.len() {
                assert(s[from + page.len() - 1].cursor <= s[i].cursor);
            }
        }
        assert(page[i - from] == s[i]);
    }
}

/// What a scan writes, its reader reads back: the cursor in front of the
/// reply is the score of the last member of the page, the reply holds as
/// many members as the page, and each has its id and its expiry.
pub proof fn lemma_reply_reads_back(s: Seq<MemberView>, cursor: u64)
    ensures
        scan_reply(s, cursor).len() == 0 <==> scan_page(s, cursor).len() == 0,
        scan_page(s, cursor).len() > 0 ==> {
            &&& scan_reply(s, cursor).len() == 1 + 2 * scan_page(s, cursor).len()
            &&& decimal_u64(scan_reply(s, cursor)[0]) == Some(scan_page(s, cursor).last().cursor)
            &&& reply_members(scan_reply(s, cursor)) == scan_page(s, cursor).len()
            &&& forall|j: int|
                0 <= j < scan_page(s, cursor).len() ==> member_id(scan_reply(s, cursor), j) == (
                #[trigger] scan_page(s, cursor)[j]).id && member_expiry(scan_reply(s, cursor), j)
                    == Some(scan_page(s, cursor)[j].expiry)
        },
{
    let page = scan_page(s, cursor);
    let reply = scan_reply(s, cursor);
    if page.len() > 0 {
        lemma_pairs(page, page.len() as int);
        lemma_decimal_round_trip(page.last().cursor as nat);
        assert forall|j: int| 0 <= j < page.len() implies member_id(reply, j) == (
        #[trigger] page[j]).id && member_expiry(reply, j) == Some(page[j].expiry) by {
            lemma_decimal_round_trip(page[j].expiry as nat);
            assert(reply[1 + 2 * j] == pairs(page, page.len() as int)[2 * j]);
            assert(reply[2 + 2 * j] == pairs(page, page.len() as int)[2 * j + 1]);
        }
    }
}

/// A pass never goes back. Let a reader scan the list `s` from the cursor
/// of its pass and take the reply in, and let `then` be the list at the
/// next scan, changed in any way. The cursor of the pass is then no smaller
/// than it was and no smaller than the score of any member that the scan
/// has handed out; the next scan, from that cursor, hands out no member with
/// a score below it; and so a member of the first scan whose score lies
/// below the cursor comes again only with another score.
pub proof fn lemma_load_moves_on(
    s: Seq<MemberView>,
    then: Seq<MemberView>,
    scan: ScanView,
    now: u64,
)
    requires
        sorted(s),
        sorted(then),
    ensures
        ({
            let page = scan_page(s, scan.cursor);
            let next = scan.after(now, scan_reply(s, scan.cursor));
            let again = scan_page(then, next.cursor);
            &&& next.cursor >= scan.cursor
            &&& forall|i: int| 0 <= i < page.len() ==> (#[trigger] page[i]).cursor <= next.cursor
            &&& forall|j: int| 0 <= j < again.len() ==> (#[trigger] again[j]).cursor >= next.cursor
            &&& forall|i: int, j: int|
                0 <= i < page.len() && 0 <= j < again.len() && (#[trigger] page[i]).id == (
                #[trigger] again[j]).id && page[i].cursor < next.cursor ==> again[j].cursor
                    != page[i].cursor
        }),
{
    let page = scan_page(s, scan.cursor);
    let next = scan.after(now, scan_reply(s, scan.cursor));
    lemma_reply_reads_back(s, scan.cursor);
    lemma_scan_misses_nothing(s, scan.cursor);
    lemma_scan_misses_nothing(then, next.cursor);
    lemma_first_from(s, scan.cursor as int);
    if page.len() > 0 {
        let from = first_from(s, scan.cursor as int);
        assert(page.last().cursor >= scan.cursor);
        assert forall|i: int| 0 <= i < page.len() implies (#[trigger] page[i]).cursor
            <= next.cursor by {
            assert(page[i] == s[from + i]);
            assert(page.last() == s[from + page.len() - 1]);
            assert(s[from + i].cursor <= s[from + page.len() - 1].cursor);
        }
    }
}

} // verus!
