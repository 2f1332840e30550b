//! The bounded, replace-by-key, least-recently-used eviction cache that
//! stores the messages of one group.
//!
//! Entries are modelled as a sequence of `(key, message)` pairs ordered from
//! least- to most-recently used. `put` inserts or replaces and in either case
//! moves the key to the most-recently-used end; when a new key arrives at a
//! full cache, the least-recently-used entry is evicted and handed back.

use vstd::prelude::*;

use crate::model::{Message, MessageView};

verus! {

/// Errors the cache can report.
#[derive(PartialEq, Eq, Structural, Debug, Clone, Copy)]
pub enum CacheError {
    /// A capacity of zero was requested.
    ZeroCapacity,
}

/// The model of the stored entries: each one is the message id paired with
/// the message, least-recently used first.
pub open spec fn entry_views(s: Seq<(String, Message)>) -> Seq<(Seq<char>, MessageView)> {
    s.map_values(|e: (String, Message)| (e.0@, e.1@))
}

/// No two entries share a key.
pub open spec fn distinct_keys(s: Seq<(Seq<char>, MessageView)>) -> bool {
    forall|i: int, j: int| 0 <= i < j < s.len() ==> s[i].0 != s[j].0
}

/// Some entry is stored under key `k`.
pub open spec fn has_key(s: Seq<(Seq<char>, MessageView)>, k: Seq<char>) -> bool {
    exists|i: int| 0 <= i < s.len() && s[i].0 == k
}

/// The entries without the first entry whose key is `k` (under
/// `distinct_keys`, without the only such entry).
pub open spec fn remove_key(s: Seq<(Seq<char>, MessageView)>, k: Seq<char>) -> Seq<
    (Seq<char>, MessageView),
>
    decreases s.len(),
{
    if s.len() == 0 {
        Seq::empty()
    } else if s.first().0 == k {
        s.drop_first()
    } else {
        seq![s.first()] + remove_key(s.drop_first(), k)
    }
}

/// The message stored under key `k`.
pub open spec fn lookup(s: Seq<(Seq<char>, MessageView)>, k: Seq<char>) -> MessageView
    recommends
        has_key(s, k),
    decreases s.len(),
{
    if s.len() == 0 {
        arbitrary()
    } else if s.first().0 == k {
        s.first().1
    } else {
        lookup(s.drop_first(), k)
    }
}

/// What `put` does to the entries: drop any entry sharing the key, append the
/// new entry at the most-recently-used end, and if that exceeds the capacity,
/// evict the least-recently-used entry.
pub open spec fn put_spec(
    s: Seq<(Seq<char>, MessageView)>,
    cap: nat,
    k: Seq<char>,
    v: MessageView,
) -> Seq<(Seq<char>, MessageView)> {
    let pushed = remove_key(s, k).push((k, v));
    if pushed.len() > cap {
        pushed.drop_first()
    } else {
        pushed
    }
}

/// `remove_key` at a witness index: removing key `k` whose first occurrence
/// is at `i` removes exactly the entry at `i`.
proof fn lemma_remove_key_at(s: Seq<(Seq<char>, MessageView)>, k: Seq<char>, i: int)
    requires
        0 <= i < s.len(),
        s[i].0 == k,
        forall|j: int| 0 <= j < i ==> s[j].0 != k,
    ensures
        remove_key(s, k) == s.remove(i),
        lookup(s, k) == s[i].1,
        has_key(s, k),
    decreases i,
{
    if i == 0 {
        assert(remove_key(s, k) =~= s.remove(0));
    } else {
        assert(s.first().0 != k);
        assert forall|j: int| 0 <= j < i - 1 implies s.drop_first()[j].0 != k by {
            assert(s[j + 1].0 != k);
        }
        lemma_remove_key_at(s.drop_first(), k, i - 1);
        assert(remove_key(s, k) =~= s.remove(i));
    }
}

/// Removing an absent key changes nothing.
proof fn lemma_remove_key_absent(s: Seq<(Seq<char>, MessageView)>, k: Seq<char>)
    requires
        !has_key(s, k),
    ensures
        remove_key(s, k) == s,
    decreases s.len(),
{
    if s.len() == 0 {
        assert(remove_key(s, k) =~= s);
    } else {
        assert(s[0].0 != k);
        assert forall|j: int| 0 <= j < s.drop_first().len() implies s.drop_first()[j].0 != k by {
            assert(s[j + 1].0 != k);
        }
        lemma_remove_key_absent(s.drop_first(), k);
        assert(remove_key(s, k) =~= s);
    }
}

/// Under distinct keys, `remove_key` keeps the other entries distinct, keeps
/// only keys that were present, forgets `k`, and shrinks by exactly one when
/// `k` was present.
proof fn lemma_remove_key_props(s: Seq<(Seq<char>, MessageView)>, k: Seq<char>)
    requires
        distinct_keys(s),
    ensures
        !has_key(remove_key(s, k), k),
        distinct_keys(remove_key(s, k)),
        forall|x: Seq<char>| has_key(remove_key(s, k), x) ==> has_key(s, x),
        has_key(s, k) ==> remove_key(s, k).len() == s.len() - 1,
        !has_key(s, k) ==> remove_key(s, k) == s,
{
    if has_key(s, k) {
        let i = choose|i: int| 0 <= i < s.len() && s[i].0 == k;
        assert forall|j: int| 0 <= j < i implies s[j].0 != k by {
            assert(s[j].0 != s[i].0);
        }
        lemma_remove_key_at(s, k, i);
        let r = s.remove(i);
        assert forall|j: int| 0 <= j < r.len() implies r[j].0 != k by {
            if j < i {
                assert(r[j] == s[j]);
                assert(s[j].0 != s[i].0);
            } else {
                assert(r[j] == s[j + 1]);
                assert(s[i].0 != s[j + 1].0);
            }
        }
        assert(!has_key(r, k));
        assert forall|a: int, b: int| 0 <= a < b < r.len() implies r[a].0 != r[b].0 by {
            let a0: int = if a < i {
                a
            } else {
                a + 1
            };
            let b0: int = if b < i {
                b
            } else {
                b + 1
            };
            assert(r[a] == s[a0]);
            assert(r[b] == s[b0]);
        }
        assert forall|x: Seq<char>| has_key(r, x) implies has_key(s, x) by {
            let j = choose|j: int| 0 <= j < r.len() && r[j].0 == x;
            if j < i {
                assert(s[j].0 == x);
            } else {
                assert(s[j + 1].0 == x);
            }
        }
    } else {
        lemma_remove_key_absent(s, k);
    }
}

/// One `put` keeps the cache well formed; inserting an existing key never
/// changes the cache size; and in every case the inserted key ends up
/// most-recently-used, holding the new value, which `lookup` then yields.
pub proof fn lemma_put_spec_props(
    s: Seq<(Seq<char>, MessageView)>,
    cap: nat,
    k: Seq<char>,
    v: MessageView,
)
    requires
        distinct_keys(s),
        s.len() <= cap,
        1 <= cap,
    ensures
        distinct_keys(put_spec(s, cap, k, v)),
        put_spec(s, cap, k, v).len() <= cap,
        put_spec(s, cap, k, v).last() == (k, v),
        has_key(put_spec(s, cap, k, v), k),
        lookup(put_spec(s, cap, k, v), k) == v,
        has_key(s, k) ==> put_spec(s, cap, k, v).len() == s.len(),
        !has_key(s, k) && s.len() < cap ==> put_spec(s, cap, k, v).len() == s.len() + 1,
        !has_key(s, k) && s.len() == cap ==> put_spec(s, cap, k, v).len() == cap,
{
    lemma_remove_key_props(s, k);
    let rm = remove_key(s, k);
    let pushed = rm.push((k, v));
    assert forall|a: int, b: int| 0 <= a < b < pushed.len() implies pushed[a].0 != pushed[b].0 by {
        if b < pushed.len() - 1 {
            assert(pushed[a] == rm[a]);
            assert(pushed[b] == rm[b]);
        } else {
            assert(pushed[a] == rm[a]);
            assert(!has_key(rm, k));
            assert(rm[a].0 != k);
        }
    }
    if pushed.len() > cap {
        let out = pushed.drop_first();
        assert forall|a: int, b: int| 0 <= a < b < out.len() implies out[a].0 != out[b].0 by {
            assert(out[a] == pushed[a + 1]);
            assert(out[b] == pushed[b + 1]);
        }
        assert(out.last() == (k, v));
        assert(has_key(out, k)) by {
            assert(out[out.len() - 1].0 == k);
        }
    } else {
        assert(has_key(pushed, k)) by {
            assert(pushed[pushed.len() - 1].0 == k);
        }
    }
    let out = put_spec(s, cap, k, v);
    assert(out.last() == (k, v));
    assert forall|j: int| 0 <= j < out.len() - 1 implies out[j].0 != k by {
        assert(out[j].0 != out[out.len() - 1].0);
    }
    lemma_remove_key_at(out, k, out.len() - 1);
}

/// What `resize` does to the entries: evict from the least-recently-used end
/// until the new bound holds; growing keeps everything.
pub open spec fn resize_spec(s: Seq<(Seq<char>, MessageView)>, cap: int) -> Seq<
    (Seq<char>, MessageView),
> {
    s.skip(
        if s.len() > cap {
            s.len() - cap
        } else {
            0
        },
    )
}

/// The keys of the entries, in order.
pub open spec fn keys_of(s: Seq<(Seq<char>, MessageView)>) -> Seq<Seq<char>> {
    s.map_values(|e: (Seq<char>, MessageView)| e.0)
}

/// No key occurs twice.
pub open spec fn distinct_seq(ks: Seq<Seq<char>>) -> bool {
    forall|i: int, j: int| 0 <= i < j < ks.len() ==> ks[i] != ks[j]
}

/// A key sequence without the first occurrence of `k`.
pub open spec fn remove_key_k(ks: Seq<Seq<char>>, k: Seq<char>) -> Seq<Seq<char>>
    decreases ks.len(),
{
    if ks.len() == 0 {
        Seq::empty()
    } else if ks.first() == k {
        ks.drop_first()
    } else {
        seq![ks.first()] + remove_key_k(ks.drop_first(), k)
    }
}

/// What one `put` of key `k` does to the key order.
pub open spec fn put_key_spec(ks: Seq<Seq<char>>, cap: nat, k: Seq<char>) -> Seq<Seq<char>> {
    let pushed = remove_key_k(ks, k).push(k);
    if pushed.len() > cap {
        pushed.drop_first()
    } else {
        pushed
    }
}

/// The cache contents after a whole sequence of puts on an initially empty
/// cache of capacity `cap`.
pub open spec fn run_puts(cap: nat, puts: Seq<(Seq<char>, MessageView)>) -> Seq<
    (Seq<char>, MessageView),
>
    decreases puts.len(),
{
    if puts.len() == 0 {
        Seq::empty()
    } else {
        put_spec(run_puts(cap, puts.drop_last()), cap, puts.last().0, puts.last().1)
    }
}

/// The distinct keys of `ks`, ordered by their last occurrence, earliest
/// first: the most-recently-touched key comes last.
pub open spec fn recent_keys(ks: Seq<Seq<char>>) -> Seq<Seq<char>>
    decreases ks.len(),
{
    if ks.len() == 0 {
        Seq::empty()
    } else {
        remove_key_k(recent_keys(ks.drop_last()), ks.last()).push(ks.last())
    }
}

/// The last `n` elements of `s`, or all of them when `s` is shorter.
pub open spec fn last_n(s: Seq<Seq<char>>, n: nat) -> Seq<Seq<char>> {
    if s.len() <= n {
        s
    } else {
        s.skip(s.len() - n)
    }
}

proof fn lemma_remove_key_k_at(ks: Seq<Seq<char>>, k: Seq<char>, i: int)
    requires
        0 <= i < ks.len(),
        ks[i] == k,
        forall|j: int| 0 <= j < i ==> ks[j] != k,
    ensures
        remove_key_k(ks, k) == ks.remove(i),
    decreases i,
{
    if i == 0 {
        assert(remove_key_k(ks, k) =~= ks.remove(0));
    } else {
        assert(ks.first() != k);
        assert forall|j: int| 0 <= j < i - 1 implies ks.drop_first()[j] != k by {
            assert(ks[j + 1] != k);
        }
        lemma_remove_key_k_at(ks.drop_first(), k, i - 1);
        assert(remove_key_k(ks, k) =~= ks.remove(i));
    }
}

proof fn lemma_remove_key_k_absent(ks: Seq<Seq<char>>, k: Seq<char>)
    requires
        !ks.contains(k),
    ensures
        remove_key_k(ks, k) == ks,
    decreases ks.len(),
{
    if ks.len() == 0 {
        assert(remove_key_k(ks, k) =~= ks);
    } else {
        assert(ks[0] != k);
        assert forall|j: int| 0 <= j < ks.drop_first().len() implies ks.drop_first()[j] != k by {
            assert(ks[j + 1] != k);
        }
        assert(!ks.drop_first().contains(k));
        lemma_remove_key_k_absent(ks.drop_first(), k);
        assert(remove_key_k(ks, k) =~= ks);
    }
}

/// The key order after every sequence of puts is distinct, and removing a
/// key keeps only keys that were present.
proof fn lemma_recent_keys_distinct(ks: Seq<Seq<char>>)
    ensures
        distinct_seq(recent_keys(ks)),
    decreases ks.len(),
{
    if ks.len() > 0 {
        lemma_recent_keys_distinct(ks.drop_last());
        let r = recent_keys(ks.drop_last());
        let k = ks.last();
        if r.contains(k) {
            let i = choose|i: int| 0 <= i < r.len() && r[i] == k;
            assert forall|j: int| 0 <= j < i implies r[j] != k by {
                assert(r[j] != r[i]);
            }
            lemma_remove_key_k_at(r, k, i);
            let rm = r.remove(i);
            assert forall|a: int, b: int| 0 <= a < b < rm.push(k).len() implies rm.push(k)[a]
                != rm.push(k)[b] by {
                let a0: int = if a < i {
                    a
                } else {
                    a + 1
                };
                if b < rm.len() {
                    let b0: int = if b < i {
                        b
                    } else {
                        b + 1
                    };
                    assert(rm.push(k)[a] == r[a0]);
                    assert(rm.push(k)[b] == r[b0]);
                } else {
                    assert(rm.push(k)[a] == r[a0]);
                    assert(a0 != i);
                    assert(r[a0] != r[i]);
                }
            }
        } else {
            lemma_remove_key_k_absent(r, k);
            assert forall|a: int, b: int| 0 <= a < b < r.push(k).len() implies r.push(k)[a]
                != r.push(k)[b] by {
                if b < r.len() {
                } else {
                    assert(r.push(k)[a] == r[a]);
                    assert(!r.contains(k));
                }
            }
        }
    }
}

/// One put of key `k` on the last-`cap` suffix of a distinct key order has
/// the same effect as refreshing `k` in the whole order and then taking the
/// last-`cap` suffix again.
proof fn lemma_run_keys_step(cap: nat, r: Seq<Seq<char>>, k: Seq<char>)
    requires
        1 <= cap,
        distinct_seq(r),
    ensures
        put_key_spec(last_n(r, cap), cap, k) == last_n(remove_key_k(r, k).push(k), cap),
{
    let split: int = if r.len() <= cap {
        0
    } else {
        r.len() - cap
    };
    let t = last_n(r, cap);
    assert(t =~= r.skip(split));
    assert(t.len() == r.len() - split);
    assert forall|j: int| 0 <= j < t.len() implies t[j] == r[j + split] by {}
    assert forall|a: int, b: int| 0 <= a < b < t.len() implies t[a] != t[b] by {
        assert(t[a] == r[a + split]);
        assert(t[b] == r[b + split]);
    }
    if t.contains(k) {
        let j = choose|j: int| 0 <= j < t.len() && t[j] == k;
        let i = j + split;
        assert(r[i] == k);
        assert forall|j2: int| 0 <= j2 < i implies r[j2] != k by {
            assert(r[j2] != r[i]);
        }
        assert forall|j2: int| 0 <= j2 < j implies t[j2] != k by {
            assert(t[j2] == r[j2 + split]);
        }
        lemma_remove_key_k_at(r, k, i);
        lemma_remove_key_k_at(t, k, j);
        r.remove_ensures(i);
        t.remove_ensures(j);
        let x = r.remove(i);
        let lhs = t.remove(j).push(k);
        assert(remove_key_k(t, k).push(k).len() == t.len());
        assert(put_key_spec(t, cap, k) == lhs);
        let rhs = last_n(x.push(k), cap);
        assert(x.push(k).len() == r.len());
        assert forall|j2: int| 0 <= j2 < lhs.len() implies lhs[j2] == rhs[j2] by {
            if r.len() <= cap {
                assert(rhs == x.push(k));
                if j2 < lhs.len() - 1 {
                    assert(lhs[j2] == t.remove(j)[j2]);
                    assert(x.push(k)[j2] == x[j2]);
                }
            } else {
                assert(rhs == x.push(k).skip(split));
                assert(rhs[j2] == x.push(k)[split + j2]);
                if j2 < lhs.len() - 1 {
                    assert(lhs[j2] == t.remove(j)[j2]);
                    assert(x.push(k)[split + j2] == x[split + j2]);
                    if j2 < j {
                        assert(t.remove(j)[j2] == t[j2]);
                        assert(x[split + j2] == r[split + j2]);
                    } else {
                        assert(t.remove(j)[j2] == t[j2 + 1]);
                        assert(x[split + j2] == r[split + j2 + 1]);
                    }
                } else {
                    assert(split + j2 == x.len());
                }
            }
        }
        assert(lhs.len() == rhs.len());
        assert(lhs =~= rhs);
    } else if r.contains(k) {
        let i = choose|i: int| 0 <= i < r.len() && r[i] == k;
        assert forall|j2: int| 0 <= j2 < i implies r[j2] != k by {
            assert(r[j2] != r[i]);
        }
        lemma_remove_key_k_at(r, k, i);
        lemma_remove_key_k_absent(t, k);
        r.remove_ensures(i);
        assert(i < split) by {
            if i >= split {
                assert(t[i - split] == r[i]);
                assert(t.contains(k));
            }
        }
        assert(r.len() > cap);
        assert(t.len() == cap);
        let x = r.remove(i);
        let lhs = t.push(k).drop_first();
        assert(put_key_spec(t, cap, k) == lhs);
        let rhs = last_n(x.push(k), cap);
        assert(x.push(k).len() == r.len());
        assert(rhs == x.push(k).skip(split));
        assert forall|j2: int| 0 <= j2 < lhs.len() implies lhs[j2] == rhs[j2] by {
            assert(rhs[j2] == x.push(k)[split + j2]);
            assert(lhs[j2] == t.push(k)[j2 + 1]);
            if j2 < cap - 1 {
                assert(lhs[j2] == t[j2 + 1]);
                assert(t[j2 + 1] == r[split + j2 + 1]);
                assert(x.push(k)[split + j2] == x[split + j2]);
                assert(x[split + j2] == r[split + j2 + 1]);
            } else {
                assert(split + j2 == x.len());
            }
        }
        assert(lhs.len() == rhs.len());
        assert(lhs =~= rhs);
    } else {
        assert forall|j2: int| 0 <= j2 < t.len() implies t[j2] != k by {
            assert(t[j2] == r[j2 + split]);
            assert(!r.contains(k));
        }
        assert(!t.contains(k));
        lemma_remove_key_k_absent(t, k);
        lemma_remove_key_k_absent(r, k);
        let rhs = last_n(r.push(k), cap);
        if t.len() < cap {
            assert(r.len() < cap);
            assert(put_key_spec(t, cap, k) == t.push(k));
            assert(rhs == r.push(k));
            assert(t == r);
        } else {
            assert(t.len() == cap);
            let lhs = t.push(k).drop_first();
            assert(put_key_spec(t, cap, k) == lhs);
            assert(r.push(k).len() > cap);
            assert(rhs == r.push(k).skip(r.len() + 1 - cap));
            assert forall|j2: int| 0 <= j2 < lhs.len() implies lhs[j2] == rhs[j2] by {
                assert(lhs[j2] == t.push(k)[j2 + 1]);
                assert(rhs[j2] == r.push(k)[split + 1 + j2]);
                if j2 < cap - 1 {
                    assert(lhs[j2] == t[j2 + 1]);
                    assert(t[j2 + 1] == r[split + j2 + 1]);
                    assert(r.push(k)[split + 1 + j2] == r[split + 1 + j2]);
                }
            }
            assert(lhs.len() == rhs.len());
            assert(lhs =~= rhs);
        }
    }
}

/// The keys of a `put` are the key-level put of the keys.
proof fn lemma_keys_of_remove(s: Seq<(Seq<char>, MessageView)>, k: Seq<char>)
    ensures
        keys_of(remove_key(s, k)) == remove_key_k(keys_of(s), k),
    decreases s.len(),
{
    if s.len() == 0 {
        assert(keys_of(remove_key(s, k)) =~= remove_key_k(keys_of(s), k));
    } else if s.first().0 == k {
        assert(keys_of(s).first() == s.first().0);
        assert(keys_of(s.drop_first()) =~= keys_of(s).drop_first());
    } else {
        lemma_keys_of_remove(s.drop_first(), k);
        assert(keys_of(s.drop_first()) =~= keys_of(s).drop_first());
        assert(keys_of(seq![s.first()] + remove_key(s.drop_first(), k)) =~= seq![keys_of(s).first()]
            + keys_of(remove_key(s.drop_first(), k)));
        assert(keys_of(remove_key(s, k)) =~= remove_key_k(keys_of(s), k));
    }
}

proof fn lemma_keys_of_put(s: Seq<(Seq<char>, MessageView)>, cap: nat, k: Seq<char>, v: MessageView)
    ensures
        keys_of(put_spec(s, cap, k, v)) == put_key_spec(keys_of(s), cap, k),
{
    lemma_keys_of_remove(s, k);
    let rm = remove_key(s, k);
    assert(keys_of(rm.push((k, v))) =~= keys_of(rm).push(k));
    if rm.push((k, v)).len() > cap {
        assert(keys_of(rm.push((k, v)).drop_first()) =~= keys_of(rm.push((k, v))).drop_first());
    }
}

/// Every sequence of `put` calls on an initially empty cache of capacity
/// `cap` leaves at most `cap` entries, each key held at most once, and the
/// held keys are exactly the most recently touched distinct keys of the
/// sequence (all of them when fewer than `cap` keys were ever touched),
/// ordered from least- to most-recently used.
pub proof fn lemma_cache_holds_recent_keys(cap: nat, puts: Seq<(Seq<char>, MessageView)>)
    requires
        1 <= cap,
    ensures
        run_puts(cap, puts).len() <= cap,
        distinct_keys(run_puts(cap, puts)),
        keys_of(run_puts(cap, puts)) == last_n(recent_keys(keys_of(puts)), cap),
    decreases puts.len(),
{
    if puts.len() == 0 {
        assert(keys_of(run_puts(cap, puts)) =~= last_n(recent_keys(keys_of(puts)), cap));
    } else {
        let prev = puts.drop_last();
        let (k, v) = puts.last();
        lemma_cache_holds_recent_keys(cap, prev);
        lemma_put_spec_props(run_puts(cap, prev), cap, k, v);
        lemma_keys_of_put(run_puts(cap, prev), cap, k, v);
        lemma_recent_keys_distinct(keys_of(prev));
        lemma_run_keys_step(cap, recent_keys(keys_of(prev)), k);
        assert(keys_of(prev) =~= keys_of(puts).drop_last());
        assert(keys_of(puts).last() == k);
        assert(recent_keys(keys_of(puts)) == remove_key_k(recent_keys(keys_of(prev)), k).push(k));
        assert(run_puts(cap, puts) == put_spec(run_puts(cap, prev), cap, k, v));
        assert(keys_of(run_puts(cap, puts)) == put_key_spec(keys_of(run_puts(cap, prev)), cap, k));
        assert(keys_of(run_puts(cap, prev)) == last_n(recent_keys(keys_of(prev)), cap));
    }
}

/// A fixed-capacity, replace-on-duplicate-key, least-recently-used store of
/// message records.
pub struct EvictionCache {
    entries: Vec<(String, Message)>,
    capacity: usize,
}

impl EvictionCache {
    /// The stored entries, least-recently used first.
    pub closed spec fn contents(&self) -> Seq<(Seq<char>, MessageView)> {
        entry_views(self.entries@)
    }

    /// The bound on how many entries the cache may hold.
    pub closed spec fn cap(&self) -> nat {
        self.capacity as nat
    }

    /// Invariant: the capacity is at least one, the entries fit it, and no
    /// two entries share a key.
    pub closed spec fn wf(&self) -> bool {
        &&& 1 <= self.capacity
        &&& self.entries@.len() <= self.capacity
        &&& distinct_keys(self.contents())
    }

    /// What well-formedness gives every caller: the capacity is at least
    /// one, the entries fit it, and no two entries share a key.
    pub proof fn lemma_wf_bounds(&self)
        requires
            self.wf(),
        ensures
            1 <= self.cap(),
            self.contents().len() <= self.cap(),
            distinct_keys(self.contents()),
    {
    }

    /// Create an empty cache. A capacity of zero is rejected, not clamped.
    pub fn new(capacity: usize) -> (r: Result<EvictionCache, CacheError>)
        ensures
            capacity == 0 ==> r == Result::<EvictionCache, CacheError>::Err(
                CacheError::ZeroCapacity,
            ),
            capacity >= 1 ==> (r matches Ok(c) && c.wf() && c.cap() == capacity && c.contents()
                == Seq::<(Seq<char>, MessageView)>::empty()),
    {
        if capacity == 0 {
            Err(CacheError::ZeroCapacity)
        } else {
            let c = EvictionCache { entries: Vec::new(), capacity };
            proof {
                assert(c.contents() =~= Seq::<(Seq<char>, MessageView)>::empty());
            }
            Ok(c)
        }
    }

    /// The index of the entry stored under `key`, if any.
    fn find_key(&self, key: &String) -> (r: Option<usize>)
        ensures
            match r {
                Some(i) => i < self.contents().len() && self.contents()[i as int].0 == key@
                    && (forall|j: int| 0 <= j < i ==> self.contents()[j].0 != key@),
                None => !has_key(self.contents(), key@),
            },
    {
        let n = self.entries.len();
        let mut i: usize = 0;
        while i < n
            invariant
                i <= n,
                n == self.entries@.len(),
                forall|j: int| 0 <= j < i ==> self.contents()[j].0 != key@,
            decreases n - i,
        {
            let e = &self.entries[i];
            if e.0 == *key {
                return Some(i);
            }
            i += 1;
        }
        None
    }

    /// How many entries the cache currently holds.
    pub fn len(&self) -> (r: usize)
        ensures
            r == self.contents().len(),
    {
        self.entries.len()
    }

    /// The capacity bound.
    pub fn capacity(&self) -> (r: usize)
        ensures
            r == self.cap(),
    {
        self.capacity
    }

    /// Whether an entry is stored under `key`.
    pub fn contains(&self, key: &String) -> (r: bool)
        ensures
            r == has_key(self.contents(), key@),
    {
        self.find_key(key).is_some()
    }

    /// Insert or replace the entry under `key` and mark it most-recently
    /// used. If the cache is full and `key` is new, the least-recently-used
    /// entry is evicted and returned; inserting an existing key never changes
    /// the cache size.
    pub fn put(&mut self, key: String, value: Message) -> (evicted: Option<(String, Message)>)
        requires
            old(self).wf(),
        ensures
            final(self).wf(),
            final(self).cap() == old(self).cap(),
            final(self).contents() == put_spec(
                old(self).contents(),
                old(self).cap(),
                key@,
                value@,
            ),
            final(self).contents().last() == (key@, value@),
            has_key(old(self).contents(), key@) ==> final(self).contents().len() == old(
                self,
            ).contents().len() && evicted is None,
            !has_key(old(self).contents(), key@) && old(self).contents().len() < old(self).cap()
                ==> final(self).contents().len() == old(self).contents().len() + 1 && evicted
                is None,
            !has_key(old(self).contents(), key@) && old(self).contents().len() == old(self).cap()
                ==> (evicted matches Some(e) && (e.0@, e.1@) == old(self).contents().first()
                && final(self).contents().len() == old(self).cap()),
    {
        proof {
            lemma_put_spec_props(old(self).contents(), old(self).cap(), key@, value@);
        }
        match self.find_key(&key) {
            Some(i) => {
                proof {
                    lemma_remove_key_at(old(self).contents(), key@, i as int);
                }
                let _replaced = self.entries.remove(i);
                proof {
                    assert(self.contents() =~= old(self).contents().remove(i as int));
                }
                self.entries.push((key, value));
                proof {
                    assert(self.contents() =~= remove_key(old(self).contents(), key@).push(
                        (key@, value@),
                    ));
                }
                None
            },
            None => {
                proof {
                    lemma_remove_key_absent(old(self).contents(), key@);
                }
                if self.entries.len() < self.capacity {
                    self.entries.push((key, value));
                    proof {
                        assert(self.contents() =~= remove_key(old(self).contents(), key@).push(
                            (key@, value@),
                        ));
                    }
                    None
                } else {
                    let evicted_entry = self.entries.remove(0);
                    self.entries.push((key, value));
                    proof {
                        assert(self.contents() =~= remove_key(old(self).contents(), key@).push(
                            (key@, value@),
                        ).drop_first());
                    }
                    Some(evicted_entry)
                }
            },
        }
    }

    /// Delete the entry under `key` unconditionally. Removing an absent key
    /// is not an error: the cache is left untouched and `None` is returned.
    pub fn remove(&mut self, key: &String) -> (r: Option<Message>)
        requires
            old(self).wf(),
        ensures
            final(self).wf(),
            final(self).cap() == old(self).cap(),
            final(self).contents() == remove_key(old(self).contents(), key@),
            match r {
                Some(m) => has_key(old(self).contents(), key@) && m@ == lookup(
                    old(self).contents(),
                    key@,
                ),
                None => !has_key(old(self).contents(), key@) && *final(self) == *old(self),
            },
    {
        proof {
            lemma_remove_key_props(old(self).contents(), key@);
        }
        match self.find_key(key) {
            Some(i) => {
                proof {
                    lemma_remove_key_at(old(self).contents(), key@, i as int);
                }
                let removed = self.entries.remove(i);
                proof {
                    assert(self.contents() =~= old(self).contents().remove(i as int));
                }
                Some(removed.1)
            },
            None => {
                proof {
                    lemma_remove_key_absent(old(self).contents(), key@);
                }
                None
            },
        }
    }

    /// Change the capacity. Shrinking evicts least-recently-used entries
    /// until the new bound holds; growing has no side effects. A new capacity
    /// of zero is rejected and the cache is left entirely unchanged.
    pub fn resize(&mut self, new_capacity: usize) -> (r: Result<(), CacheError>)
        requires
            old(self).wf(),
        ensures
            final(self).wf(),
            new_capacity == 0 ==> r == Result::<(), CacheError>::Err(CacheError::ZeroCapacity)
                && *final(self) == *old(self),
            new_capacity >= 1 ==> r == Result::<(), CacheError>::Ok(()) && final(self).cap()
                == new_capacity && final(self).contents() == resize_spec(
                old(self).contents(),
                new_capacity as int,
            ),
    {
        if new_capacity == 0 {
            return Err(CacheError::ZeroCapacity);
        }
        self.capacity = new_capacity;
        while self.entries.len() > new_capacity
            invariant
                self.capacity == new_capacity,
                self.entries@.len() <= old(self).entries@.len(),
                self.entries@.len() >= new_capacity || self.entries@.len() == old(
                    self,
                ).entries@.len(),
                self.entries@ == old(self).entries@.skip(
                    old(self).entries@.len() - self.entries@.len(),
                ),
            decreases self.entries@.len(),
        {
            let ghost prev = self.entries@;
            let ghost dropped: int = old(self).entries@.len() - prev.len();
            let _evicted = self.entries.remove(0);
            proof {
                assert(self.entries@ == prev.remove(0));
                assert forall|j: int| 0 <= j < self.entries@.len() implies self.entries@[j] == old(
                    self,
                ).entries@.skip(dropped + 1)[j] by {
                    assert(self.entries@[j] == prev[j + 1]);
                    assert(prev[j + 1] == old(self).entries@[dropped + j + 1]);
                }
                assert(self.entries@ =~= old(self).entries@.skip(dropped + 1));
                assert(dropped + 1 == old(self).entries@.len() - self.entries@.len());
            }
        }
        proof {
            let excess: int = if old(self).contents().len() > new_capacity {
                old(self).contents().len() - new_capacity
            } else {
                0
            };
            assert(self.entries@.len() == old(self).entries@.len() - excess);
            assert forall|j: int| 0 <= j < self.contents().len() implies self.contents()[j] == old(
                self,
            ).contents().skip(excess)[j] by {
                assert(self.entries@[j] == old(self).entries@[excess + j]);
            }
            assert(self.contents() =~= old(self).contents().skip(excess));
            assert forall|a: int, b: int|
                0 <= a < b < self.contents().len() implies self.contents()[a].0
                != self.contents()[b].0 by {
                assert(self.contents()[a] == old(self).contents()[a + excess]);
                assert(self.contents()[b] == old(self).contents()[b + excess]);
            }
        }
        Ok(())
    }

    /// The entries from least- to most-recently used, as a finite,
    /// restartable sequence. Renderers walk it in reverse to see the most
    /// recent entries first.
    pub fn iter_by_recency(&self) -> (r: &Vec<(String, Message)>)
        ensures
            entry_views(r@) == self.contents(),
    {
        &self.entries
    }

    /// Drop every entry, keeping the capacity.
    pub fn clear(&mut self)
        requires
            old(self).wf(),
        ensures
            final(self).wf(),
            final(self).cap() == old(self).cap(),
            final(self).contents() == Seq::<(Seq<char>, MessageView)>::empty(),
    {
        self.entries.clear();
        proof {
            assert(self.contents() =~= Seq::<(Seq<char>, MessageView)>::empty());
        }
    }
}

} // verus!
