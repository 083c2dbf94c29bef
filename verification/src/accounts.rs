//! Ranking the accounts replied to by the average impressions of the replies.
use vstd::prelude::*;

use crate::api::Reply;
use crate::order::{
    as_positions, lemma_as_positions_insert, lemma_insert_next_position, lemma_sorted_positions,
    positions,
};
use vstd::relations::total_ordering;

verus! {

/// One account replied to: its handle as first seen, the impressions of all the
/// replies to it, and how many replies there were. The average impressions per
/// reply is `total_impressions / reply_count`.
#[derive(Debug)]
pub struct AccountRank {
    pub handle: String,
    pub total_impressions: u64,
    pub reply_count: usize,
}

/// The average impressions rounded to the nearest whole number, halves away from
/// zero, and capped at `i64::MAX`; 0 when there are no replies.
pub open spec fn rounded_average(total: nat, count: nat) -> nat {
    if count == 0 {
        0
    } else {
        let r = (2 * total + count) / (2 * count);
        if r > i64::MAX {
            i64::MAX as nat
        } else {
            r
        }
    }
}

impl AccountRank {
    /// The average impressions per reply, rounded to the nearest whole number.
    pub fn rounded_avg_impressions(&self) -> (avg: u64)
        ensures
            avg == rounded_average(self.total_impressions as nat, self.reply_count as nat),
    {
        if self.reply_count == 0 {
            return 0;
        }
        let count = self.reply_count as u128;
        let r: u128 = (2 * (self.total_impressions as u128) + count) / (2 * count);
        if r > i64::MAX as u128 {
            i64::MAX as u64
        } else {
            r as u64
        }
    }
}


// ---------------------------------------------------------------- grouping

/// Names what `str::to_lowercase` returns for a string: its Unicode lowercase form.
pub uninterp spec fn lowercase(s: Seq<char>) -> Seq<char>;

/// Calls `str::to_lowercase`.
#[verifier::external_body]
fn to_lowercase(s: &str) -> (lower: String)
    ensures
        lower@ == lowercase(s@),
{
    s.to_lowercase()
}

/// The replies to one account so far: the key that groups them (the lowercase
/// handle), the handle as first seen, the sum of their impressions and their number.
pub struct Tally {
    pub key: Seq<char>,
    pub handle: Seq<char>,
    pub total: nat,
    pub count: nat,
}

/// The position of the tally with the given key, or -1 when there is none.
pub open spec fn key_position(tallies: Seq<Tally>, key: Seq<char>) -> int
    decreases tallies.len(),
{
    if tallies.len() == 0 {
        -1
    } else if tallies.last().key == key {
        tallies.len() - 1
    } else {
        key_position(tallies.drop_last(), key)
    }
}

/// The replies grouped by the lowercase handle they went to, in the order each
/// account was first replied to: the handle as first written, the sum of the
/// impressions and the number of replies.
pub open spec fn tally(replies: Seq<Reply>) -> Seq<Tally>
    decreases replies.len(),
{
    if replies.len() == 0 {
        Seq::empty()
    } else {
        let before = tally(replies.drop_last());
        let r = replies.last();
        let key = lowercase(r.to_username@);
        let i = key_position(before, key);
        if i >= 0 {
            before.update(
                i,
                Tally {
                    key: before[i].key,
                    handle: before[i].handle,
                    total: before[i].total + r.impressions as nat,
                    count: before[i].count + 1,
                },
            )
        } else {
            before.push(Tally { key, handle: r.to_username@, total: r.impressions as nat, count: 1 })
        }
    }
}

/// The sum of the impressions of the replies.
pub open spec fn total_impressions(replies: Seq<Reply>) -> nat
    decreases replies.len(),
{
    if replies.len() == 0 {
        0
    } else {
        total_impressions(replies.drop_last()) + replies.last().impressions as nat
    }
}

// ---------------------------------------------------------------- ranking

/// The count as the denominator of an average: a count of zero, which no account
/// has, is read as one.
pub open spec fn denominator(count: nat) -> nat {
    if count == 0 {
        1
    } else {
        count
    }
}

/// `a` has a strictly higher average impressions per reply than `b`.
pub open spec fn higher_average(a: Tally, b: Tally) -> bool {
    a.total * denominator(b.count) > b.total * denominator(a.count)
}

/// `a` and `b` have the same average impressions per reply.
pub open spec fn same_average(a: Tally, b: Tally) -> bool {
    a.total * denominator(b.count) == b.total * denominator(a.count)
}

/// Position `i` ranks no lower than position `j`: a higher average, or the same
/// average and first replied to no later.
pub open spec fn ranks_before(tallies: Seq<Tally>) -> spec_fn(int, int) -> bool {
    |i: int, j: int|
        higher_average(tallies[i], tallies[j]) || (same_average(tallies[i], tallies[j]) && i
            <= j)
}

/// The positions of the accounts by average impressions, highest first; accounts
/// with the same average keep the order in which they were first replied to.
pub open spec fn ranking_order(tallies: Seq<Tally>) -> Seq<int> {
    positions(tallies.len()).sort_by(ranks_before(tallies))
}

/// `order` lists positions of `tallies` by average impressions, highest first,
/// ties in order of first reply.
spec fn by_average(tallies: Seq<Tally>, order: Seq<int>) -> bool {
    &&& forall|k: int| 0 <= k < order.len() ==> 0 <= #[trigger] order[k] < tallies.len()
    &&& forall|k: int, l: int|
        #![trigger order[k], order[l]]
        0 <= k < l < order.len() ==> {
            ||| higher_average(tallies[order[k]], tallies[order[l]])
            ||| (same_average(tallies[order[k]], tallies[order[l]]) && order[k] < order[l])
        }
}

proof fn lemma_average_order(a: Tally, b: Tally, c: Tally)
    ensures
        (higher_average(a, b) || same_average(a, b)) && (higher_average(b, c) || same_average(b, c))
            ==> (higher_average(a, c) || same_average(a, c)),
        higher_average(a, b) && (higher_average(b, c) || same_average(b, c)) ==> higher_average(a, c),
        (higher_average(a, b) || same_average(a, b)) && higher_average(b, c) ==> higher_average(a, c),
{
    let (ta, ca, tb, cb, tc, cc) = (
        a.total as int,
        denominator(a.count) as int,
        b.total as int,
        denominator(b.count) as int,
        c.total as int,
        denominator(c.count) as int,
    );
    assert(ta * cb >= tb * ca && tb * cc >= tc * cb ==> ta * cc >= tc * ca) by (nonlinear_arith)
        requires
            ca > 0,
            cb > 0,
            cc > 0,
            ta >= 0,
            tb >= 0,
            tc >= 0,
    {
        if ta * cb >= tb * ca && tb * cc >= tc * cb {
            assert(ta * cb * cc >= tb * ca * cc);
            assert(tb * cc * ca >= tc * cb * ca);
            assert(ta * cc * cb >= tc * ca * cb);
        }
    }
    assert(ta * cb > tb * ca && tb * cc >= tc * cb ==> ta * cc > tc * ca) by (nonlinear_arith)
        requires
            ca > 0,
            cb > 0,
            cc > 0,
            ta >= 0,
            tb >= 0,
            tc >= 0,
    {
        if ta * cb > tb * ca && tb * cc >= tc * cb {
            assert(ta * cb * cc > tb * ca * cc);
            assert(tb * cc * ca >= tc * cb * ca);
            assert(ta * cc * cb > tc * ca * cb);
        }
    }
    assert(ta * cb >= tb * ca && tb * cc > tc * cb ==> ta * cc > tc * ca) by (nonlinear_arith)
        requires
            ca > 0,
            cb > 0,
            cc > 0,
            ta >= 0,
            tb >= 0,
            tc >= 0,
    {
        if ta * cb >= tb * ca && tb * cc > tc * cb {
            assert(ta * cb * cc >= tb * ca * cc);
            assert(tb * cc * ca > tc * cb * ca);
            assert(ta * cc * cb > tc * ca * cb);
        }
    }
}

proof fn lemma_ranks_before_is_total(tallies: Seq<Tally>)
    ensures
        total_ordering(ranks_before(tallies)),
{
    let leq = ranks_before(tallies);
    assert forall|x: int, y: int, z: int| #[trigger] leq(x, y) && #[trigger] leq(y, z) implies leq(
        x,
        z,
    ) by {
        lemma_average_order(tallies[x], tallies[y], tallies[z]);
    }
}

/// The most accounts a ranking lists.
pub const RANK_LIMIT: usize = 10;

/// The accounts of a ranking: the first `RANK_LIMIT` accounts in ranking order,
/// each with its handle as first written, its total impressions and its replies.
pub open spec fn top_ranks(tallies: Seq<Tally>, ranks: Seq<AccountRank>) -> bool {
    let order = ranking_order(tallies);
    &&& ranks.len() == if tallies.len() < RANK_LIMIT {
        tallies.len()
    } else {
        RANK_LIMIT as nat
    }
    &&& forall|k: int|
        0 <= k < ranks.len() ==> {
            &&& (#[trigger] ranks[k]).handle@ == tallies[order[k]].handle
            &&& ranks[k].total_impressions == tallies[order[k]].total
            &&& ranks[k].reply_count == tallies[order[k]].count
        }
}

proof fn lemma_tally_bounds(replies: Seq<Reply>)
    ensures
        forall|i: int|
            0 <= i < tally(replies).len() ==> {
                &&& 1 <= (#[trigger] tally(replies)[i]).count <= replies.len()
                &&& tally(replies)[i].total <= total_impressions(replies)
            },
        forall|i: int, j: int|
            0 <= i < j < tally(replies).len() ==> tally(replies)[i].key != tally(replies)[j].key,
        tally(replies).len() <= replies.len(),
    decreases replies.len(),
{
    if replies.len() > 0 {
        let before = tally(replies.drop_last());
        lemma_tally_bounds(replies.drop_last());
        lemma_key_position(before, lowercase(replies.last().to_username@));
    }
}

proof fn lemma_key_position(tallies: Seq<Tally>, key: Seq<char>)
    ensures
        -1 <= key_position(tallies, key) < tallies.len(),
        key_position(tallies, key) >= 0 ==> tallies[key_position(tallies, key)].key == key,
        key_position(tallies, key) < 0 ==> forall|i: int|
            0 <= i < tallies.len() ==> (#[trigger] tallies[i]).key != key,
    decreases tallies.len(),
{
    if tallies.len() > 0 {
        lemma_key_position(tallies.drop_last(), key);
        if key_position(tallies, key) < 0 {
            assert forall|i: int| 0 <= i < tallies.len() implies (#[trigger] tallies[i]).key != key by {
                if i < tallies.len() - 1 {
                    assert(tallies.drop_last()[i] == tallies[i]);
                }
            }
        }
    }
}

/// The impressions of each account's replies add up to no more than `u64::MAX`,
/// which ranking them needs.
pub open spec fn each_account_fits(replies: Seq<Reply>) -> bool {
    forall|i: int| 0 <= i < tally(replies).len() ==> (#[trigger] tally(replies)[i]).total <= u64::MAX
}

proof fn lemma_total_impressions_bound(replies: Seq<Reply>)
    ensures
        total_impressions(replies) <= replies.len() * u64::MAX,
    decreases replies.len(),
{
    if replies.len() > 0 {
        lemma_total_impressions_bound(replies.drop_last());
    }
}

/// Whether the impressions of each account's replies add up to no more than
/// `u64::MAX`.
pub fn account_totals_fit(replies: &[Reply]) -> (fit: bool)
    ensures
        fit == each_account_fits(replies@),
{
    let groups = group_replies(replies);
    let ghost ts = groups@.map_values(|g: Group| group_tally(g));
    for i in 0..groups.len()
        invariant
            ts == groups@.map_values(|g: Group| group_tally(g)),
            ts == tally(replies@),
            forall|j: int| 0 <= j < i ==> (#[trigger] ts[j]).total <= u64::MAX,
    {
        proof {
            assert(ts[i as int] == group_tally(groups@[i as int]));
        }
        if groups[i].total > u64::MAX as u128 {
            return false;
        }
    }
    true
}

/// The exec form of a tally.
struct Group {
    key: String,
    handle: String,
    total: u128,
    count: usize,
}

spec fn group_tally(g: Group) -> Tally {
    Tally { key: g.key@, handle: g.handle@, total: g.total as nat, count: g.count as nat }
}

/// Groups the replies by lowercase handle, in the order each account first appears.
fn group_replies(replies: &[Reply]) -> (groups: Vec<Group>)
    ensures
        groups@.map_values(|g: Group| group_tally(g)) == tally(replies@),
{
    let mut groups: Vec<Group> = Vec::new();
    for i in 0..replies.len()
        invariant
            groups@.map_values(|g: Group| group_tally(g)) == tally(replies@.take(i as int)),
    {
        let r = &replies[i];
        let key = to_lowercase(r.to_username.as_str());
        let ghost prefix = replies@.take(i as int);
        let ghost next = replies@.take(i + 1);
        let ghost before = groups@.map_values(|g: Group| group_tally(g));
        proof {
            assert(next.drop_last() =~= prefix);
            assert(next.last() == *r);
            lemma_tally_bounds(next);
            lemma_tally_bounds(prefix);
            lemma_total_impressions_bound(next);
            lemma_key_position(before, key@);
            assert(next.len() * u64::MAX <= u64::MAX * u64::MAX) by (nonlinear_arith)
                requires
                    next.len() <= u64::MAX,
            ;
        }
        let mut j: usize = groups.len();
        let mut found: bool = false;
        proof {
            assert(before.take(j as int) =~= before);
        }
        while j > 0 && !found
            invariant
                j <= groups@.len(),
                before == groups@.map_values(|g: Group| group_tally(g)),
                !found ==> key_position(before, key@) == key_position(before.take(j as int), key@),
                found ==> j > 0 && key_position(before, key@) == j - 1,
            decreases j + if found {
                0int
            } else {
                1int
            },
        {
            proof {
                assert(before.take(j as int).drop_last() =~= before.take(j - 1));
                assert(before.take(j as int).last() == group_tally(groups@[j - 1]));
            }
            if groups[j - 1].key == key {
                found = true;
            } else {
                j = j - 1;
            }
        }
        if found {
            proof {
                assert(key_position(before, key@) == j - 1);
                assert(before[j - 1].total + r.impressions <= total_impressions(next));
                assert(before[j - 1].count + 1 <= next.len());
            }
            let g = &groups[j - 1];
            let updated = Group {
                key: g.key.clone(),
                handle: g.handle.clone(),
                total: g.total + r.impressions as u128,
                count: g.count + 1,
            };
            groups.set(j - 1, updated);
        } else {
            proof {
                assert(j == 0);
                assert(before.take(0) =~= Seq::<Tally>::empty());
                assert(key_position(before, key@) == -1);
            }
            groups.push(
                Group { key, handle: r.to_username.clone(), total: r.impressions as u128, count: 1 },
            );
        }
        proof {
            assert(groups@.map_values(|g: Group| group_tally(g)) =~= tally(next));
        }
    }
    proof {
        assert(replies@.take(replies.len() as int) =~= replies@);
    }
    groups
}

/// Whether `a` has a strictly higher average impressions per reply than `b`.
fn average_above(a: &Group, b: &Group) -> (above: bool)
    requires
        a.count > 0,
        b.count > 0,
        a.total <= u64::MAX,
        b.total <= u64::MAX,
    ensures
        above == higher_average(group_tally(*a), group_tally(*b)),
{
    let (ta, cb, tb, ca) = (a.total, b.count as u128, b.total, a.count as u128);
    proof {
        assert(ta * cb <= u64::MAX * u64::MAX) by (nonlinear_arith)
            requires
                ta <= u64::MAX,
                cb <= u64::MAX,
        ;
        assert(tb * ca <= u64::MAX * u64::MAX) by (nonlinear_arith)
            requires
                tb <= u64::MAX,
                ca <= u64::MAX,
        ;
    }
    let lhs: u128 = ta * cb;
    let rhs: u128 = tb * ca;
    lhs > rhs
}

/// Positions of the groups by average impressions, highest first, ties in the
/// order the accounts were first replied to.
fn order_by_average(groups: &Vec<Group>) -> (order: Vec<usize>)
    requires
        forall|i: int| 0 <= i < groups@.len() ==> (#[trigger] groups@[i]).count > 0,
        forall|i: int| 0 <= i < groups@.len() ==> (#[trigger] groups@[i]).total <= u64::MAX,
    ensures
        as_positions(order@) == ranking_order(groups@.map_values(|g: Group| group_tally(g))),
        order@.len() == groups@.len(),
        forall|k: int| 0 <= k < order@.len() ==> #[trigger] order@[k] < groups@.len(),
{
    let ghost ts = groups@.map_values(|g: Group| group_tally(g));
    let mut order: Vec<usize> = Vec::new();
    proof {
        assert(as_positions(order@) =~= positions(0));
    }
    for i in 0..groups.len()
        invariant
            ts == groups@.map_values(|g: Group| group_tally(g)),
            forall|i: int| 0 <= i < groups@.len() ==> (#[trigger] groups@[i]).count > 0,
            forall|i: int| 0 <= i < groups@.len() ==> (#[trigger] groups@[i]).total <= u64::MAX,
            order@.len() == i,
            forall|k: int| 0 <= k < i ==> #[trigger] order@[k] < i,
            by_average(ts, as_positions(order@)),
            as_positions(order@).to_multiset() == positions(i as nat).to_multiset(),
    {
        let mut pos: usize = 0;
        while pos < order.len() && !average_above(&groups[i], &groups[order[pos]])
            invariant
                ts == groups@.map_values(|g: Group| group_tally(g)),
                forall|i: int| 0 <= i < groups@.len() ==> (#[trigger] groups@[i]).count > 0,
                forall|i: int| 0 <= i < groups@.len() ==> (#[trigger] groups@[i]).total <= u64::MAX,
                order@.len() == i,
                i < groups@.len(),
                pos <= i,
                forall|k: int| 0 <= k < i ==> #[trigger] order@[k] < i,
                forall|k: int|
                    0 <= k < pos ==> !higher_average(ts[i as int], ts[#[trigger] order@[k] as int]),
            decreases i - pos,
        {
            pos = pos + 1;
        }
        let ghost before = order@;
        order.insert(pos, i);
        proof {
            lemma_as_positions_insert(before, pos as int, i);
            lemma_insert_next_position(as_positions(before), i as nat, pos as int);
            assert forall|k: int| 0 <= k < i + 1 implies #[trigger] order@[k] < i + 1 by {
                if k < pos {
                    assert(order@[k] == before[k]);
                } else if k > pos {
                    assert(order@[k] == before[k - 1]);
                }
            }
            if pos < i {
                assert(higher_average(ts[i as int], ts[before[pos as int] as int]));
            }
            let ord = as_positions(order@);
            let prev = as_positions(before);
            assert forall|k: int, l: int| 0 <= k < l < i + 1 implies {
                ||| higher_average(ts[ord[k]], ts[ord[l]])
                ||| (same_average(ts[ord[k]], ts[ord[l]]) && ord[k] < ord[l])
            } by {
                if l < pos {
                    assert(ord[k] == prev[k] && ord[l] == prev[l]);
                } else if l == pos {
                    assert(ord[k] == prev[k]);
                    assert(!higher_average(ts[i as int], ts[prev[k]]));
                } else if k > pos {
                    assert(ord[k] == prev[k - 1] && ord[l] == prev[l - 1]);
                } else if k == pos {
                    assert(ord[l] == prev[l - 1]);
                    if l - 1 > pos {
                        assert(prev[pos as int] == ord[pos + 1]);
                        lemma_average_order(ts[i as int], ts[prev[pos as int]], ts[prev[l - 1]]);
                    }
                } else {
                    assert(ord[k] == prev[k] && ord[l] == prev[l - 1]);
                }
            }
        }
    }
    proof {
        let ord = as_positions(order@);
        lemma_ranks_before_is_total(ts);
        let leq = ranks_before(ts);
        assert forall|k: int, l: int| 0 <= k < l < ord.len() implies #[trigger] leq(ord[k], ord[l]) by {}
        lemma_sorted_positions(ord, ts.len(), leq);
    }
    order
}

/// The accounts replied to, ranked by average impressions per reply, highest
/// first, at most ten. Replies are grouped by handle regardless of case and each
/// account shows the handle as first written; accounts with the same average keep
/// the order in which they were first replied to.
pub fn rank(replies: &[Reply]) -> (ranks: Vec<AccountRank>)
    requires
        each_account_fits(replies@),
    ensures
        top_ranks(tally(replies@), ranks@),
{
    let groups = group_replies(replies);
    let ghost ts = groups@.map_values(|g: Group| group_tally(g));
    proof {
        lemma_tally_bounds(replies@);
        assert forall|i: int| 0 <= i < groups@.len() implies (#[trigger] groups@[i]).count > 0
            && groups@[i].total <= u64::MAX by {
            assert(ts[i] == group_tally(groups@[i]));
        }
    }
    let order = order_by_average(&groups);
    let ghost ord = as_positions(order@);
    let n = if groups.len() < RANK_LIMIT {
        groups.len()
    } else {
        RANK_LIMIT
    };
    let mut ranks: Vec<AccountRank> = Vec::new();
    for k in 0..n
        invariant
            n <= order@.len(),
            order@.len() == groups@.len(),
            forall|k: int| 0 <= k < order@.len() ==> #[trigger] order@[k] < groups@.len(),
            ts == groups@.map_values(|g: Group| group_tally(g)),
            forall|i: int| 0 <= i < groups@.len() ==> (#[trigger] groups@[i]).total <= u64::MAX,
            ord == as_positions(order@),
            ranks@.len() == k,
            forall|j: int|
                0 <= j < k ==> {
                    &&& (#[trigger] ranks@[j]).handle@ == ts[ord[j]].handle
                    &&& ranks@[j].total_impressions == ts[ord[j]].total
                    &&& ranks@[j].reply_count == ts[ord[j]].count
                },
    {
        let g = &groups[order[k]];
        proof {
            assert(ord[k as int] == order@[k as int] as int);
            assert(ts[ord[k as int]] == group_tally(groups@[order@[k as int] as int]));
        }
        ranks.push(
            AccountRank {
                handle: g.handle.clone(),
                total_impressions: g.total as u64,
                reply_count: g.count,
            },
        );
    }
    proof {
        assert(ts == tally(replies@));
        assert(ord == ranking_order(ts));
        assert(top_ranks(ts, ranks@));
    }
    ranks
}

// ---------------------------------------------------------------- laws

/// The replies whose lowercase handle is `key`, in order.
pub open spec fn replies_to(replies: Seq<Reply>, key: Seq<char>) -> Seq<Reply>
    decreases replies.len(),
{
    if replies.len() == 0 {
        Seq::empty()
    } else if lowercase(replies.last().to_username@) == key {
        replies_to(replies.drop_last(), key).push(replies.last())
    } else {
        replies_to(replies.drop_last(), key)
    }
}

/// Each account of the grouping stands for exactly the replies to its handle, in
/// any case: its count is their number, its total the sum of their impressions
/// (so its average is their mean), and its handle is written as in the first of
/// them; and every reply belongs to one of the accounts.
pub proof fn tally_is_replies_by_handle(replies: Seq<Reply>)
    ensures
        forall|i: int|
            0 <= i < tally(replies).len() ==> {
                let t = #[trigger] tally(replies)[i];
                let to = replies_to(replies, t.key);
                &&& t.count == to.len()
                &&& t.total == total_impressions(to)
                &&& to.len() > 0
                &&& t.handle == to[0].to_username@
            },
        forall|j: int|
            0 <= j < replies.len() ==> key_position(
                tally(replies),
                lowercase((#[trigger] replies[j]).to_username@),
            ) >= 0,
    decreases replies.len(),
{
    if replies.len() > 0 {
        let before = replies.drop_last();
        let r = replies.last();
        let key = lowercase(r.to_username@);
        tally_is_replies_by_handle(before);
        lemma_key_position(tally(before), key);
        lemma_tally_bounds(before);
        let ts = tally(replies);
        assert forall|i: int| 0 <= i < ts.len() implies {
            let t = #[trigger] ts[i];
            let to = replies_to(replies, t.key);
            &&& t.count == to.len()
            &&& t.total == total_impressions(to)
            &&& to.len() > 0
            &&& t.handle == to[0].to_username@
        } by {
            let t = ts[i];
            if i < tally(before).len() {
                let tb = tally(before)[i];
                assert(t.key == tb.key);
                let to_b = replies_to(before, tb.key);
                if tb.key == key {
                    let p = key_position(tally(before), key);
                    assert(p == i) by {
                        if p != i {
                            assert(tally(before)[p].key == key);
                        }
                    }
                    assert(t.count == tb.count + 1);
                    assert(t.total == tb.total + r.impressions);
                    assert(t.handle == tb.handle);
                    assert(replies_to(replies, t.key) == to_b.push(r));
                    assert(to_b.push(r).drop_last() =~= to_b);
                    assert(to_b.push(r).last() == r);
                    assert(total_impressions(to_b.push(r)) == total_impressions(to_b)
                        + r.impressions);
                    assert(to_b.push(r)[0] == to_b[0]);
                } else {
                    assert(t == tb);
                    assert(replies_to(replies, t.key) == to_b);
                }
            } else {
                assert(key_position(tally(before), key) < 0);
                assert(t.key == key);
                assert forall|k: int| 0 <= k < tally(before).len() implies (#[trigger] tally(
                    before,
                )[k]).key != key by {}
                lemma_no_key_no_replies(before, key);
                let to_b = replies_to(before, key);
                assert(to_b.len() == 0);
                assert(replies_to(replies, key) =~= seq![r]);
                assert(seq![r].drop_last() =~= Seq::<Reply>::empty());
                assert(seq![r].last() == r);
                assert(total_impressions(seq![r].drop_last()) == 0);
                assert(total_impressions(seq![r]) == r.impressions);
            }
        }
        assert forall|j: int| 0 <= j < replies.len() implies key_position(
            tally(replies),
            lowercase((#[trigger] replies[j]).to_username@),
        ) >= 0 by {
            lemma_key_position(ts, lowercase(replies[j].to_username@));
            if j < before.len() {
                let kj = lowercase(before[j].to_username@);
                assert(before[j] == replies[j]);
                lemma_key_position(tally(before), kj);
                let p = key_position(tally(before), kj);
                assert(ts[p].key == kj);
                if key_position(ts, kj) < 0 {
                    assert(ts[p].key != kj);
                }
            } else {
                let p = key_position(ts, key);
                if p < 0 {
                    let q = key_position(tally(before), key);
                    if q >= 0 {
                        assert(ts[q].key == key);
                    } else {
                        assert(ts[ts.len() - 1].key == key);
                    }
                }
            }
        }
    }
}

proof fn lemma_no_key_no_replies(replies: Seq<Reply>, key: Seq<char>)
    requires
        forall|k: int| 0 <= k < tally(replies).len() ==> (#[trigger] tally(replies)[k]).key != key,
        forall|j: int|
            0 <= j < replies.len() ==> key_position(
                tally(replies),
                lowercase((#[trigger] replies[j]).to_username@),
            ) >= 0,
    ensures
        replies_to(replies, key).len() == 0,
{
    if replies_to(replies, key).len() > 0 {
        lemma_replies_to_member(replies, key);
        let j = choose|j: int| 0 <= j < replies.len() && lowercase(replies[j].to_username@) == key;
        assert(key_position(tally(replies), lowercase(replies[j].to_username@)) >= 0);
        lemma_key_position(tally(replies), key);
    }
}

proof fn lemma_replies_to_member(replies: Seq<Reply>, key: Seq<char>)
    requires
        replies_to(replies, key).len() > 0,
    ensures
        exists|j: int| 0 <= j < replies.len() && lowercase(replies[j].to_username@) == key,
    decreases replies.len(),
{
    if lowercase(replies.last().to_username@) == key {
        assert(lowercase(replies[replies.len() - 1].to_username@) == key);
    } else {
        lemma_replies_to_member(replies.drop_last(), key);
        let j = choose|j: int|
            0 <= j < replies.drop_last().len() && lowercase(replies.drop_last()[j].to_username@)
                == key;
        assert(replies[j] == replies.drop_last()[j]);
    }
}

/// The ranking is in descending order of average impressions, and it lists every
/// account when there are at most ten, the ten best otherwise.
pub proof fn ranking_is_descending(replies: Seq<Reply>, ranks: Seq<AccountRank>)
    requires
        top_ranks(tally(replies), ranks),
    ensures
        forall|k: int, l: int|
            0 <= k < l < ranks.len() ==> (#[trigger] ranks[k]).total_impressions * (
            #[trigger] ranks[l]).reply_count >= ranks[l].total_impressions * ranks[k].reply_count,
        ranks.len() == if tally(replies).len() < RANK_LIMIT {
            tally(replies).len()
        } else {
            RANK_LIMIT as nat
        },
{
    let ts = tally(replies);
    let order = ranking_order(ts);
    let leq = ranks_before(ts);
    lemma_ranks_before_is_total(ts);
    positions(ts.len()).lemma_sort_by_ensures(leq);
    lemma_tally_bounds(replies);
    lemma_sort_len(ts.len(), leq);
    assert forall|k: int, l: int| 0 <= k < l < ranks.len() implies (#[trigger] ranks[k]).total_impressions * (
    #[trigger] ranks[l]).reply_count >= ranks[l].total_impressions * ranks[k].reply_count by {
        lemma_order_in_range(ts.len(), leq, k);
        lemma_order_in_range(ts.len(), leq, l);
        assert(leq(order[k], order[l]));
        let (a, b) = (ts[order[k]], ts[order[l]]);
        assert(a.count > 0 && b.count > 0);
    }
}

/// A ranked account stands for the account `t` of the grouping.
pub open spec fn lists(r: AccountRank, t: Tally) -> bool {
    &&& r.handle@ == t.handle
    &&& r.total_impressions == t.total
    &&& r.reply_count == t.count
}

/// Some account of the ranking stands for the account `t` of the grouping.
pub open spec fn listed(ranks: Seq<AccountRank>, t: Tally) -> bool {
    exists|k: int| 0 <= k < ranks.len() && lists(ranks[k], t)
}

/// The account `t` has an average no higher than that of each ranked account.
pub open spec fn below_every_listed(ranks: Seq<AccountRank>, t: Tally) -> bool {
    forall|k: int|
        0 <= k < ranks.len() ==> (#[trigger] ranks[k]).total_impressions * t.count >= t.total
            * ranks[k].reply_count
}

/// Where position `j` stands in the ranking order.
proof fn lemma_place_in_order(ts: Seq<Tally>, j: int) -> (p: int)
    requires
        0 <= j < ts.len(),
    ensures
        0 <= p < ts.len(),
        ranking_order(ts).len() == ts.len(),
        ranking_order(ts)[p] == j,
{
    broadcast use vstd::seq_lib::group_to_multiset_ensures;

    let n = ts.len();
    let leq = ranks_before(ts);
    lemma_ranks_before_is_total(ts);
    positions(n).lemma_sort_by_ensures(leq);
    lemma_sort_len(n, leq);
    let order = ranking_order(ts);
    assert(positions(n)[j] == j);
    assert(positions(n).contains(j));
    assert(order.to_multiset().count(j) > 0);
    assert(order.contains(j));
    choose|p: int| 0 <= p < order.len() && order[p] == j
}

/// The ranking holds the best accounts, not just some accounts in order: every
/// account replied to is either listed or has an average no higher than that of
/// each listed account; with at most ten accounts, every one is listed.
pub proof fn ranking_keeps_the_best(replies: Seq<Reply>, ranks: Seq<AccountRank>)
    requires
        top_ranks(tally(replies), ranks),
    ensures
        forall|j: int|
            0 <= j < tally(replies).len() ==> listed(ranks, #[trigger] tally(replies)[j])
                || below_every_listed(ranks, tally(replies)[j]),
        tally(replies).len() <= RANK_LIMIT ==> forall|j: int|
            0 <= j < tally(replies).len() ==> listed(ranks, #[trigger] tally(replies)[j]),
{
    let ts = tally(replies);
    let n = ts.len();
    let order = ranking_order(ts);
    let leq = ranks_before(ts);
    lemma_ranks_before_is_total(ts);
    positions(n).lemma_sort_by_ensures(leq);
    lemma_tally_bounds(replies);
    assert forall|j: int| 0 <= j < n implies listed(ranks, #[trigger] ts[j]) || below_every_listed(
        ranks,
        ts[j],
    ) && (n <= RANK_LIMIT ==> listed(ranks, ts[j])) by {
        let p = lemma_place_in_order(ts, j);
        if p < ranks.len() {
            assert(lists(ranks[p], ts[j]));
        } else {
            assert(n > RANK_LIMIT);
            assert forall|k: int| 0 <= k < ranks.len() implies (#[trigger] ranks[k]).total_impressions
                * ts[j].count >= ts[j].total * ranks[k].reply_count by {
                lemma_order_in_range(n, leq, k);
                assert(leq(order[k], order[p]));
                let a = ts[order[k]];
                assert(a.count > 0 && ts[j].count > 0);
            }
        }
    }
}

proof fn lemma_sort_len(n: nat, leq: spec_fn(int, int) -> bool)
    requires
        total_ordering(leq),
    ensures
        positions(n).sort_by(leq).len() == n,
{
    broadcast use vstd::seq_lib::group_to_multiset_ensures;

    positions(n).lemma_sort_by_ensures(leq);
    let sorted = positions(n).sort_by(leq);
    assert(sorted.to_multiset().len() == sorted.len());
    assert(positions(n).to_multiset().len() == positions(n).len());
}

proof fn lemma_order_in_range(n: nat, leq: spec_fn(int, int) -> bool, k: int)
    requires
        total_ordering(leq),
        0 <= k < n,
    ensures
        0 <= positions(n).sort_by(leq)[k] < n,
{
    lemma_sort_len(n, leq);
    broadcast use vstd::seq_lib::group_to_multiset_ensures;

    positions(n).lemma_sort_by_ensures(leq);
    let sorted = positions(n).sort_by(leq);
    assert(sorted.contains(sorted[k]));
    assert(positions(n).contains(sorted[k]));
}
} // verus!
