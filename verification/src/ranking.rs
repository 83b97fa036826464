//! Ranking of merged price levels: levels are ordered by price (bids from the highest,
//! asks from the lowest) and, at equal price, by amount from the largest; the summary
//! keeps the first `n` levels, which lie at the first `n` distinct prices.
use vstd::prelude::*;
use crate::binary64::{order_key, key_of};
use crate::sources::SourceId;

verus! {

/// One level of the combined book: the contributing exchange, and price and amount as
/// binary64 bit patterns.
#[derive(Debug, Clone, Copy, PartialEq, Eq, Structural)]
pub struct Level {
    pub exchange: SourceId,
    pub price: u64,
    pub amount: u64,
}

/// A side of the book.
#[derive(Debug, Clone, Copy, PartialEq, Eq, Structural)]
pub enum Side {
    Bid,
    Ask,
}

/// `a`'s price is strictly better than `b`'s on `side`: higher for bids, lower for asks.
pub open spec fn better_price(side: Side, a: Level, b: Level) -> bool {
    match side {
        Side::Bid => order_key(a.price) > order_key(b.price),
        Side::Ask => order_key(a.price) < order_key(b.price),
    }
}

/// `a` ranks strictly before `b` on `side`: a better price, or the same price and a
/// larger amount.
pub open spec fn ranks_before(side: Side, a: Level, b: Level) -> bool {
    ||| better_price(side, a, b)
    ||| (order_key(a.price) == order_key(b.price) && order_key(a.amount) > order_key(b.amount))
}

/// `s` with `x` inserted after every level that `x` does not rank before.
pub open spec fn insert_ranked(side: Side, s: Seq<Level>, x: Level) -> Seq<Level>
    decreases s.len(),
{
    if s.len() == 0 {
        seq![x]
    } else if ranks_before(side, x, s[0]) {
        seq![x] + s
    } else {
        seq![s[0]] + insert_ranked(side, s.drop_first(), x)
    }
}

/// The levels of `s` in ranking order; levels that rank equal keep their order in `s`.
pub open spec fn ranked(side: Side, s: Seq<Level>) -> Seq<Level>
    decreases s.len(),
{
    if s.len() == 0 {
        Seq::<Level>::empty()
    } else {
        insert_ranked(side, ranked(side, s.drop_last()), s.last())
    }
}

/// A new price starts at position `i` of `s`.
pub open spec fn starts_price(s: Seq<Level>, i: int) -> bool {
    i == 0 || order_key(s[i].price) != order_key(s[i - 1].price)
}

/// The number of prices that start before position `i` of `s`.
pub open spec fn prices_before(s: Seq<Level>, i: int) -> nat
    decreases i,
{
    if i <= 0 {
        0
    } else {
        prices_before(s, i - 1) + if starts_price(s, i - 1) {
            1nat
        } else {
            0nat
        }
    }
}

/// From position `i` on, the position at which the `n + 1`-th price of `s` starts, or the
/// length of `s` when it has no more than `n` prices.
pub open spec fn top_len_from(s: Seq<Level>, n: nat, i: int) -> int
    decreases s.len() - i,
{
    if i >= s.len() {
        s.len() as int
    } else if starts_price(s, i) && prices_before(s, i) >= n {
        i
    } else {
        top_len_from(s, n, i + 1)
    }
}

/// The levels of the first `n` prices of `s`.
pub open spec fn top_prices(s: Seq<Level>, n: nat) -> Seq<Level> {
    s.take(top_len_from(s, n, 0))
}

/// The number of levels of `s` whose price has key `k`.
pub open spec fn count_price(s: Seq<Level>, k: int) -> nat
    decreases s.len(),
{
    if s.len() == 0 {
        0
    } else {
        count_price(s.drop_last(), k) + if order_key(s.last().price) == k {
            1nat
        } else {
            0nat
        }
    }
}

/// No price of `s` has more than `n` levels.
pub open spec fn prices_fit(s: Seq<Level>, n: nat) -> bool {
    forall|i: int| 0 <= i < s.len() ==> #[trigger] count_price(s, order_key(s[i].price)) <= n
}

/// Computes `ranks_before(side, a, b)`.
pub fn level_ranks_before(side: Side, a: &Level, b: &Level) -> (r: bool)
    ensures
        r == ranks_before(side, *a, *b),
{
    let ka = key_of(a.price);
    let kb = key_of(b.price);
    let better = match side {
        Side::Bid => ka > kb,
        Side::Ask => ka < kb,
    };
    better || (ka == kb && key_of(a.amount) > key_of(b.amount))
}

/// Inserting at the first position whose level `x` ranks before is `insert_ranked`.
proof fn lemma_insert_ranked_at(side: Side, s: Seq<Level>, x: Level, j: int)
    requires
        0 <= j <= s.len(),
        forall|k: int| 0 <= k < j ==> !ranks_before(side, x, #[trigger] s[k]),
        j < s.len() ==> ranks_before(side, x, s[j]),
    ensures
        insert_ranked(side, s, x) == s.insert(j, x),
    decreases s.len(),
{
    if s.len() == 0 {
        assert(s.insert(j, x) =~= seq![x]);
    } else if j == 0 {
        assert(s.insert(j, x) =~= seq![x] + s);
    } else {
        let t = s.drop_first();
        assert forall|k: int| 0 <= k < j - 1 implies !ranks_before(side, x, #[trigger] t[k]) by {
            assert(t[k] == s[k + 1]);
        }
        lemma_insert_ranked_at(side, t, x, j - 1);
        assert(s.insert(j, x) =~= seq![s[0]] + t.insert(j - 1, x));
    }
}

/// Inserts `x` into `v` as `insert_ranked` does.
fn insert_level(side: Side, v: &mut Vec<Level>, x: Level)
    ensures
        final(v)@ == insert_ranked(side, old(v)@, x),
{
    let mut j: usize = 0;
    while j < v.len() && !level_ranks_before(side, &x, &v[j])
        invariant
            j <= v.len(),
            forall|k: int| 0 <= k < j ==> !ranks_before(side, x, #[trigger] v@[k]),
        decreases v.len() - j,
    {
        j = j + 1;
    }
    proof {
        lemma_insert_ranked_at(side, v@, x, j as int);
    }
    v.insert(j, x);
}

/// The levels of `levels` in ranking order.
pub fn rank_levels(side: Side, levels: &Vec<Level>) -> (r: Vec<Level>)
    ensures
        r@ == ranked(side, levels@),
{
    let mut out: Vec<Level> = Vec::new();
    let mut i: usize = 0;
    while i < levels.len()
        invariant
            i <= levels.len(),
            out@ == ranked(side, levels@.take(i as int)),
        decreases levels.len() - i,
    {
        proof {
            let next = levels@.take(i + 1);
            assert(next.drop_last() =~= levels@.take(i as int));
        }
        insert_level(side, &mut out, levels[i]);
        i = i + 1;
    }
    proof {
        assert(levels@.take(i as int) =~= levels@);
    }
    out
}

/// The levels of the first `n` prices of `s`.
pub fn take_top_prices(s: &Vec<Level>, n: usize) -> (r: Vec<Level>)
    ensures
        r@ == top_prices(s@, n as nat),
{
    let mut out: Vec<Level> = Vec::new();
    let mut prices: usize = 0;
    let mut i: usize = 0;
    loop
        invariant_except_break
            i <= s.len(),
            prices == prices_before(s@, i as int),
            prices <= i,
            out@ == s@.take(i as int),
            top_len_from(s@, n as nat, 0) == top_len_from(s@, n as nat, i as int),
        ensures
            out@ == top_prices(s@, n as nat),
        decreases s.len() - i,
    {
        if i >= s.len() {
            proof {
                assert(s@.take(i as int) =~= s@);
            }
            break;
        }
        let starts = i == 0 || key_of(s[i].price) != key_of(s[i - 1].price);
        if starts && prices >= n {
            proof {
                assert(starts_price(s@, i as int));
                assert(top_len_from(s@, n as nat, i as int) == i);
            }
            break;
        }
        if starts {
            prices = prices + 1;
        }
        out.push(s[i]);
        i = i + 1;
        proof {
            assert(out@ =~= s@.take(i as int));
        }
    }
    out
}

/// `s` is in ranking order: no level ranks before a level ahead of it.
pub open spec fn is_ranked(side: Side, s: Seq<Level>) -> bool {
    forall|i: int, j: int| 0 <= i < j < s.len() ==> !ranks_before(side, #[trigger] s[j], #[trigger] s[i])
}

/// The position at which `insert_ranked` puts `x`.
spec fn insert_pos(side: Side, s: Seq<Level>, x: Level) -> int
    decreases s.len(),
{
    if s.len() == 0 {
        0
    } else if ranks_before(side, x, s[0]) {
        0
    } else {
        1 + insert_pos(side, s.drop_first(), x)
    }
}

proof fn lemma_insert_pos(side: Side, s: Seq<Level>, x: Level)
    ensures
        0 <= insert_pos(side, s, x) <= s.len(),
        forall|k: int| 0 <= k < insert_pos(side, s, x) ==> !ranks_before(side, x, #[trigger] s[k]),
        insert_pos(side, s, x) < s.len() ==> ranks_before(side, x, s[insert_pos(side, s, x)]),
        insert_ranked(side, s, x) == s.insert(insert_pos(side, s, x), x),
    decreases s.len(),
{
    if s.len() > 0 && !ranks_before(side, x, s[0]) {
        let t = s.drop_first();
        lemma_insert_pos(side, t, x);
        assert forall|k: int| 0 <= k < insert_pos(side, s, x) implies !ranks_before(
            side,
            x,
            #[trigger] s[k],
        ) by {
            if k > 0 {
                assert(s[k] == t[k - 1]);
            }
        }
    }
    lemma_insert_ranked_at(side, s, x, insert_pos(side, s, x));
}

/// Inserting into a ranked sequence keeps it ranked.
proof fn lemma_insert_keeps_ranked(side: Side, s: Seq<Level>, x: Level)
    requires
        is_ranked(side, s),
    ensures
        is_ranked(side, insert_ranked(side, s, x)),
{
    lemma_insert_pos(side, s, x);
    let p = insert_pos(side, s, x);
    let t = s.insert(p, x);
    assert forall|i: int, j: int| 0 <= i < j < t.len() implies !ranks_before(
        side,
        #[trigger] t[j],
        #[trigger] t[i],
    ) by {
        if j < p {
            assert(t[i] == s[i] && t[j] == s[j]);
        } else if j == p {
            assert(t[i] == s[i]);
        } else if i < p {
            assert(t[i] == s[i] && t[j] == s[j - 1]);
        } else if i == p {
            assert(t[j] == s[j - 1]);
            assert(ranks_before(side, x, s[p]));
            if j - 1 > p {
                assert(!ranks_before(side, s[j - 1], s[p]));
            }
        } else {
            assert(t[i] == s[i - 1] && t[j] == s[j - 1]);
        }
    }
}

/// Ranking puts the levels in ranking order.
pub proof fn lemma_ranked_is_ranked(side: Side, s: Seq<Level>)
    ensures
        is_ranked(side, ranked(side, s)),
    decreases s.len(),
{
    if s.len() > 0 {
        lemma_ranked_is_ranked(side, s.drop_last());
        lemma_insert_keeps_ranked(side, ranked(side, s.drop_last()), s.last());
    }
}

/// Ranking keeps every level, as often as it occurs, and adds none.
pub proof fn lemma_ranked_is_permutation(side: Side, s: Seq<Level>)
    ensures
        ranked(side, s).to_multiset() == s.to_multiset(),
    decreases s.len(),
{
    broadcast use vstd::seq_lib::group_to_multiset_ensures;

    if s.len() == 0 {
        assert(ranked(side, s) =~= s);
    } else {
        let d = s.drop_last();
        lemma_ranked_is_permutation(side, d);
        lemma_insert_pos(side, ranked(side, d), s.last());
        assert(d.push(s.last()) =~= s);
    }
}

proof fn lemma_top_len(s: Seq<Level>, n: nat, i: int)
    requires
        0 <= i <= s.len(),
    ensures
        i <= top_len_from(s, n, i) <= s.len(),
        top_len_from(s, n, i) < s.len() ==> starts_price(s, top_len_from(s, n, i))
            && prices_before(s, top_len_from(s, n, i)) >= n,
        forall|k: int|
            i <= k < top_len_from(s, n, i) ==> !(#[trigger] starts_price(s, k) && prices_before(s, k)
                >= n),
    decreases s.len() - i,
{
    if i < s.len() && !(starts_price(s, i) && prices_before(s, i) >= n) {
        lemma_top_len(s, n, i + 1);
    }
}

proof fn lemma_prices_before_bounded(s: Seq<Level>, n: nat, k: int)
    requires
        0 <= k <= top_len_from(s, n, 0),
    ensures
        prices_before(s, k) <= n,
    decreases k,
{
    lemma_top_len(s, n, 0);
    if k > 0 {
        lemma_prices_before_bounded(s, n, k - 1);
        if starts_price(s, k - 1) {
            assert(!(starts_price(s, k - 1) && prices_before(s, k - 1) >= n));
        }
    }
}

proof fn lemma_prices_before_take(s: Seq<Level>, m: int, k: int)
    requires
        0 <= k <= m <= s.len(),
    ensures
        prices_before(s.take(m), k) == prices_before(s, k),
    decreases k,
{
    if k > 0 {
        lemma_prices_before_take(s, m, k - 1);
    }
}

/// The kept levels are a prefix of `s` with at most `n` prices (counted as runs of equal
/// price, which on a ranked sequence are its distinct prices); if levels are dropped,
/// exactly `n` prices are kept.
pub proof fn lemma_top_prices_bounded(s: Seq<Level>, n: nat)
    ensures
        top_prices(s, n).len() <= s.len(),
        top_prices(s, n) == s.take(top_prices(s, n).len() as int),
        prices_before(top_prices(s, n), top_prices(s, n).len() as int) <= n,
        top_prices(s, n).len() < s.len() ==> prices_before(
            top_prices(s, n),
            top_prices(s, n).len() as int,
        ) == n,
{
    lemma_top_len(s, n, 0);
    let m = top_len_from(s, n, 0);
    lemma_prices_before_bounded(s, n, m);
    lemma_prices_before_take(s, m, m);
}

/// On a ranked sequence every dropped level has a strictly worse price than every kept
/// level.
pub proof fn lemma_top_prices_drops_worse(side: Side, s: Seq<Level>, n: nat)
    requires
        is_ranked(side, s),
    ensures
        forall|i: int, j: int|
            0 <= i < top_prices(s, n).len() <= j < s.len() ==> better_price(
                side,
                #[trigger] s[i],
                #[trigger] s[j],
            ),
{
    lemma_top_len(s, n, 0);
    let m = top_len_from(s, n, 0);
    assert forall|i: int, j: int| 0 <= i < top_prices(s, n).len() <= j < s.len() implies better_price(
        side,
        #[trigger] s[i],
        #[trigger] s[j],
    ) by {
        assert(starts_price(s, m));
        if i < m - 1 {
            assert(!ranks_before(side, s[m - 1], s[i]));
        }
        assert(!ranks_before(side, s[m], s[m - 1]));
        if j > m {
            assert(!ranks_before(side, s[j], s[m]));
        }
    }
}

/// The ordering keys of the prices of `s`.
pub open spec fn price_keys(s: Seq<Level>) -> Set<int> {
    Set::new(|k: int| exists|i: int| 0 <= i < s.len() && order_key(#[trigger] s[i].price) == k)
}

/// Key `a` is a strictly better price than key `b` on `side`.
pub open spec fn better_key(side: Side, a: int, b: int) -> bool {
    match side {
        Side::Bid => a > b,
        Side::Ask => a < b,
    }
}

/// The distinct prices (by key) of `s` that are strictly better than key `k`.
pub open spec fn better_keys(side: Side, s: Seq<Level>, k: int) -> Set<int> {
    Set::new(|x: int| price_keys(s).contains(x) && better_key(side, x, k))
}

/// The price of `l` is among the `n` best distinct prices of `s`: fewer than `n` distinct
/// prices of `s` are strictly better.
pub open spec fn among_best_prices(side: Side, s: Seq<Level>, l: Level, n: nat) -> bool {
    better_keys(side, s, order_key(l.price)).len() < n
}

/// On a ranked sequence, the distinct prices of the first `i` levels are as many as the
/// prices that start before `i`.
proof fn lemma_price_keys_take(side: Side, r: Seq<Level>, i: int)
    requires
        is_ranked(side, r),
        0 <= i <= r.len(),
    ensures
        price_keys(r.take(i)).finite(),
        price_keys(r.take(i)).len() == prices_before(r, i),
    decreases i,
{
    if i == 0 {
        assert(price_keys(r.take(0)) =~= Set::<int>::empty());
    } else {
        lemma_price_keys_take(side, r, i - 1);
        let prev = price_keys(r.take(i - 1));
        let k = order_key(r[i - 1].price);
        assert forall|x: int| #[trigger] price_keys(r.take(i)).contains(x) == prev.insert(k).contains(x) by {
            if price_keys(r.take(i)).contains(x) {
                let q = choose|q: int| 0 <= q < r.take(i).len() && order_key(#[trigger] r.take(i)[q].price) == x;
                if q < i - 1 {
                    assert(r.take(i - 1)[q] == r.take(i)[q]);
                }
            }
            if prev.contains(x) {
                let q = choose|q: int| 0 <= q < r.take(i - 1).len() && order_key(#[trigger] r.take(i - 1)[q].price) == x;
                assert(r.take(i)[q] == r.take(i - 1)[q]);
            }
            if x == k {
                assert(r.take(i)[i - 1] == r[i - 1]);
            }
        }
        assert(price_keys(r.take(i)) =~= prev.insert(k));
        if starts_price(r, i - 1) {
            if prev.contains(k) {
                let q = choose|q: int| 0 <= q < r.take(i - 1).len() && order_key(#[trigger] r.take(i - 1)[q].price) == k;
                assert(r.take(i - 1)[q] == r[q]);
                assert(!ranks_before(side, r[i - 1], r[i - 2]));
                if q < i - 2 {
                    assert(!ranks_before(side, r[i - 2], r[q]));
                }
                assert(false);
            }
        } else {
            assert(r.take(i - 1)[i - 2] == r[i - 2]);
            assert(prev.contains(k));
        }
    }
}

/// Equal multisets of levels have the same price keys.
proof fn lemma_price_keys_permutation(s: Seq<Level>, t: Seq<Level>)
    requires
        s.to_multiset() == t.to_multiset(),
    ensures
        price_keys(s) == price_keys(t),
{
    broadcast use vstd::seq_lib::group_to_multiset_ensures;

    assert forall|x: int| price_keys(s).contains(x) implies price_keys(t).contains(x) by {
        let i = choose|i: int| 0 <= i < s.len() && order_key(#[trigger] s[i].price) == x;
        assert(s.contains(s[i]));
        assert(s.to_multiset().count(s[i]) > 0);
        assert(t.to_multiset().count(s[i]) > 0);
        assert(t.contains(s[i]));
        let j = choose|j: int| 0 <= j < t.len() && t[j] == s[i];
        assert(order_key(t[j].price) == x);
    }
    assert forall|x: int| price_keys(t).contains(x) implies price_keys(s).contains(x) by {
        let i = choose|i: int| 0 <= i < t.len() && order_key(#[trigger] t[i].price) == x;
        assert(t.contains(t[i]));
        assert(t.to_multiset().count(t[i]) > 0);
        assert(s.to_multiset().count(t[i]) > 0);
        assert(s.contains(t[i]));
        let j = choose|j: int| 0 <= j < s.len() && s[j] == t[i];
        assert(order_key(s[j].price) == x);
    }
    assert(price_keys(s) =~= price_keys(t));
}

/// The summary side keeps exactly the levels whose price is among the `n` best distinct
/// prices, each as often as it occurs, and drops every other level.
pub proof fn lemma_top_prices_are_best(side: Side, s: Seq<Level>, n: nat, l: Level)
    ensures
        top_prices(ranked(side, s), n).to_multiset().count(l) == if among_best_prices(side, s, l, n) {
            s.to_multiset().count(l)
        } else {
            0
        },
{
    broadcast use vstd::seq_lib::group_to_multiset_ensures;

    let r = ranked(side, s);
    lemma_ranked_is_ranked(side, s);
    lemma_ranked_is_permutation(side, s);
    lemma_price_keys_permutation(s, r);
    lemma_top_prices_bounded(r, n);
    lemma_top_prices_drops_worse(side, r, n);
    lemma_top_len(r, n, 0);
    let m = top_len_from(r, n, 0);
    let top = r.take(m);
    let rest = r.skip(m);
    assert(r =~= top + rest);
    vstd::seq_lib::lemma_multiset_commutative(top, rest);
    lemma_prices_before_take(r, m, m);
    lemma_price_keys_take(side, r, m);
    lemma_price_keys_take(side, r, r.len() as int);
    assert(r.take(r.len() as int) =~= r);
    let k = order_key(l.price);
    let better = better_keys(side, r, k);
    assert(better.subset_of(price_keys(r)));
    vstd::set_lib::lemma_len_subset(better, price_keys(r));
    assert(better_keys(side, s, k) == better);
    if among_best_prices(side, s, l, n) {
        if rest.contains(l) {
            let q0 = choose|q0: int| 0 <= q0 < rest.len() && rest[q0] == l;
            let q = m + q0;
            assert(r[q] == l);
            assert forall|x: int| #[trigger] price_keys(top).contains(x) implies better.contains(x) by {
                let i = choose|i: int| 0 <= i < top.len() && order_key(#[trigger] top[i].price) == x;
                assert(top[i] == r[i]);
                assert(better_price(side, r[i], r[q]));
                assert(price_keys(r).contains(x));
            }
            vstd::set_lib::lemma_len_subset(price_keys(top), better);
            assert(false);
        }
        assert(rest.to_multiset().count(l) == 0);
    } else {
        if top.contains(l) {
            let j = choose|j: int| 0 <= j < top.len() && top[j] == l;
            assert(top[j] == r[j]);
            assert forall|x: int| #[trigger] better.contains(x) implies price_keys(top).remove(k).contains(x) by {
                let q = choose|q: int| 0 <= q < r.len() && order_key(#[trigger] r[q].price) == x;
                if q >= j {
                    if q > j {
                        assert(!ranks_before(side, r[q], r[j]));
                    }
                    assert(false);
                }
                assert(top[q] == r[q]);
            }
            assert(price_keys(top).contains(k));
            vstd::set_lib::lemma_len_subset(better, price_keys(top).remove(k));
            assert(false);
        }
        assert(top.to_multiset().count(l) == 0);
    }
}

/// At most `n` levels: all of `s` when it has no more, else its first `n`.
pub open spec fn first_levels(s: Seq<Level>, n: nat) -> Seq<Level> {
    if s.len() <= n {
        s
    } else {
        s.take(n as int)
    }
}

/// The first `n` levels of `s`, or all of them when there are fewer.
pub fn take_first_levels(s: &Vec<Level>, n: usize) -> (r: Vec<Level>)
    ensures
        r@ == first_levels(s@, n as nat),
{
    let count = if s.len() <= n {
        s.len()
    } else {
        n
    };
    let mut out: Vec<Level> = Vec::new();
    let mut i: usize = 0;
    while i < count
        invariant
            i <= count <= s.len(),
            count == first_levels(s@, n as nat).len(),
            out@ == s@.take(i as int),
        decreases count - i,
    {
        out.push(s[i]);
        i = i + 1;
        proof {
            assert(out@ =~= s@.take(i as int));
        }
    }
    proof {
        assert(out@ =~= first_levels(s@, n as nat));
    }
    out
}

proof fn lemma_prices_before_at_most(s: Seq<Level>, i: int)
    requires
        0 <= i,
    ensures
        prices_before(s, i) <= i,
    decreases i,
{
    if i > 0 {
        lemma_prices_before_at_most(s, i - 1);
    }
}

/// The first `n` levels of a sequence lie within its first `n` prices.
pub proof fn lemma_first_levels_within_top_prices(s: Seq<Level>, n: nat)
    ensures
        first_levels(s, n) == top_prices(s, n).take(first_levels(s, n).len() as int),
        first_levels(s, n).len() <= top_prices(s, n).len(),
{
    lemma_top_len(s, n, 0);
    let m = top_len_from(s, n, 0);
    let k = first_levels(s, n).len() as int;
    if m < k {
        lemma_prices_before_at_most(s, m);
        assert(false);
    }
    assert(first_levels(s, n) =~= top_prices(s, n).take(k));
}

} // verus!
