//! The statistics screen: totals, the average session, the day streak, the
//! last fourteen days and the time spent on each topic.

use vstd::prelude::*;
use crate::clock::{local_stamp, local_now, timestamp_valid, local_day_of, lemma_stamp_read, lemma_local_now_read, local_now_read, LocalStamp, DATE_MIN_DAYS, DATE_MAX_DAYS, day_in_range, pred_day, sub_days, days_earlier, day_before};
use crate::model::{Session, Database, total_secs};
use crate::text::{trim, trim_spec, owned};
use crate::lang::{Language, Msg, text, say};

verus! {

/// `m` with `v` added to the value of `k` (a missing key counts as 0).
pub open spec fn add_to<K>(m: Map<K, int>, k: K, v: int) -> Map<K, int> {
    m.insert(
        k,
        if m.contains_key(k) {
            m[k] + v
        } else {
            v
        },
    )
}

/// The value of `k` in `m`, 0 when `k` is missing.
pub open spec fn value_or_zero<K>(m: Map<K, int>, k: K) -> int {
    if m.contains_key(k) {
        m[k]
    } else {
        0
    }
}

/// The active seconds of the sessions, summed by local day. `days[i]` is the
/// local day of session `i`; a session without one is left out.
pub open spec fn day_totals(s: Seq<Session>, days: Seq<Option<i32>>) -> Map<int, int>
    decreases s.len(),
{
    if s.len() == 0 {
        Map::empty()
    } else {
        let m = day_totals(s.drop_last(), days);
        match days[s.len() - 1] {
            Some(d) => add_to(m, d as int, s.last().duration_secs as int),
            None => m,
        }
    }
}

/// `v` lists the entries of `m`, each key once.
pub open spec fn lists_days(v: Seq<(i32, i64)>, m: Map<int, int>) -> bool {
    &&& forall|i: int, j: int| 0 <= i < j < v.len() ==> (#[trigger] v[i]).0 != (#[trigger] v[j]).0
    &&& forall|i: int|
        0 <= i < v.len() ==> m.contains_key((#[trigger] v[i]).0 as int) && m[v[i].0 as int]
            == v[i].1
    &&& forall|k: int| #[trigger] m.contains_key(k) ==> exists|i: int| 0 <= i < v.len() && v[i].0 == k
}

proof fn lemma_total_prefix(s: Seq<Session>, i: int)
    requires
        0 <= i <= s.len(),
    ensures
        0 <= total_secs(s.take(i)) <= total_secs(s),
    decreases s.len(),
{
    if i == s.len() {
        assert(s.take(i) =~= s);
        lemma_total_nonneg(s);
    } else {
        lemma_total_prefix(s.drop_last(), i);
        assert(s.drop_last().take(i) =~= s.take(i));
    }
}

proof fn lemma_total_nonneg(s: Seq<Session>)
    ensures
        total_secs(s) >= 0,
    decreases s.len(),
{
    if s.len() > 0 {
        lemma_total_nonneg(s.drop_last());
    }
}

proof fn lemma_day_totals_bounded(s: Seq<Session>, days: Seq<Option<i32>>)
    ensures
        forall|k: int| #[trigger]
            day_totals(s, days).contains_key(k) ==> 0 <= day_totals(s, days)[k] <= total_secs(s),
    decreases s.len(),
{
    if s.len() > 0 {
        lemma_day_totals_bounded(s.drop_last(), days);
        lemma_total_nonneg(s.drop_last());
        let prev = day_totals(s.drop_last(), days);
        let cur = day_totals(s, days);
        assert(total_secs(s) == total_secs(s.drop_last()) + s.last().duration_secs);
        match days[s.len() - 1] {
            Some(d) => {
                assert forall|k: int| #[trigger] cur.contains_key(k) implies 0 <= cur[k]
                    <= total_secs(s) by {
                    if k != d as int {
                        assert(prev.contains_key(k));
                    }
                }
            },
            None => {},
        }
    }
}

/// The position of day `d` in the list, if it is there.
fn find_day(v: &Vec<(i32, i64)>, d: i32) -> (r: Option<usize>)
    ensures
        r matches Some(i) ==> i < v@.len() && v@[i as int].0 == d,
        r is None ==> forall|i: int| 0 <= i < v@.len() ==> (#[trigger] v@[i]).0 != d,
{
    let mut i: usize = 0;
    while i < v.len()
        invariant
            0 <= i <= v.len(),
            forall|k: int| 0 <= k < i ==> (#[trigger] v@[k]).0 != d,
        decreases v.len() - i,
    {
        if v[i].0 == d {
            return Some(i);
        }
        i = i + 1;
    }
    None
}

/// Sums the active seconds of the sessions by local day.
pub fn sum_by_day(sessions: &Vec<Session>, days: &Vec<Option<i32>>) -> (v: Vec<(i32, i64)>)
    requires
        days@.len() == sessions@.len(),
        total_secs(sessions@) <= i64::MAX,
    ensures
        lists_days(v@, day_totals(sessions@, days@)),
{
    let mut v: Vec<(i32, i64)> = Vec::new();
    let mut i: usize = 0;
    while i < sessions.len()
        invariant
            0 <= i <= sessions.len(),
            days@.len() == sessions@.len(),
            total_secs(sessions@) <= i64::MAX,
            lists_days(v@, day_totals(sessions@.take(i as int), days@)),
        decreases sessions.len() - i,
    {
        let ghost pre = sessions@.take(i as int);
        let ghost m = day_totals(pre, days@);
        proof {
            assert(sessions@.take((i + 1) as int).drop_last() =~= pre);
            lemma_day_totals_bounded(pre, days@);
            lemma_total_prefix(sessions@, (i + 1) as int);
            lemma_total_prefix(sessions@, i as int);
            assert(total_secs(sessions@.take((i + 1) as int)) == total_secs(pre)
                + sessions@[i as int].duration_secs);
        }
        match days[i] {
            Some(d) => {
                let dur = sessions[i].duration_secs;
                let ghost m2 = add_to(m, d as int, dur as int);
                match find_day(&v, d) {
                    Some(j) => {
                        let ghost old_v = v@;
                        let cur = v[j].1;
                        proof {
                            assert(m.contains_key(d as int));
                        }
                        let nv = cur + dur as i64;
                        v.set(j, (d, nv));
                        proof {
                            assert forall|k: int| #[trigger] m2.contains_key(k) implies exists|x: int|
                                0 <= x < v@.len() && v@[x].0 == k by {
                                if k != d as int {
                                    assert(m.contains_key(k));
                                    let x = choose|x: int| 0 <= x < old_v.len() && old_v[x].0 == k;
                                    assert(v@[x].0 == k);
                                } else {
                                    assert(v@[j as int].0 == k);
                                }
                            }
                            assert forall|x: int| 0 <= x < v@.len() implies m2.contains_key(
                                (#[trigger] v@[x]).0 as int,
                            ) && m2[v@[x].0 as int] == v@[x].1 by {
                                if x != j as int {
                                    assert(old_v[x].0 != d);
                                }
                            }
                        }
                    },
                    None => {
                        let ghost old_v = v@;
                        proof {
                            assert(!m.contains_key(d as int));
                            assert(dur <= i64::MAX);
                        }
                        v.push((d, dur as i64));
                        proof {
                            assert forall|k: int| #[trigger] m2.contains_key(k) implies exists|x: int|
                                0 <= x < v@.len() && v@[x].0 == k by {
                                if k != d as int {
                                    assert(m.contains_key(k));
                                    let x = choose|x: int| 0 <= x < old_v.len() && old_v[x].0 == k;
                                    assert(v@[x].0 == k);
                                } else {
                                    assert(v@[old_v.len() as int].0 == k);
                                }
                            }
                            assert forall|x: int| 0 <= x < v@.len() implies m2.contains_key(
                                (#[trigger] v@[x]).0 as int,
                            ) && m2[v@[x].0 as int] == v@[x].1 by {
                                if x < old_v.len() {
                                    assert(v@[x] == old_v[x]);
                                    assert(old_v[x].0 != d);
                                } else {
                                    assert(v@[x] == (d, dur as i64));
                                }
                            }
                        }
                    },
                }
            },
            None => {},
        }
        i = i + 1;
    }
    proof {
        assert(sessions@.take(i as int) =~= sessions@);
    }
    v
}

/// The total of day `d` in the list, 0 when the day is not there.
pub fn day_total(v: &Vec<(i32, i64)>, d: i32) -> (r: i64)
    ensures
        forall|m: Map<int, int>| lists_days(v@, m) ==> r == value_or_zero(m, d as int),
{
    match find_day(v, d) {
        Some(j) => v[j].1,
        None => 0,
    }
}

/// The `n` days ending at `start` (counting backwards) all have study time
/// and lie in range.
pub open spec fn run_from(m: Map<int, int>, start: int, n: int) -> bool {
    forall|k: int| 0 <= k < n ==> DATE_MIN_DAYS <= start - k && #[trigger] m.contains_key(start - k)
}

/// `n` is the day streak on `today`: the unbroken run of days with study
/// time that ends today, or yesterday when today has none yet.
pub open spec fn is_streak(m: Map<int, int>, today: int, n: int) -> bool {
    let start = if m.contains_key(today) {
        Some(today)
    } else {
        pred_day(today)
    };
    match start {
        None => n == 0,
        Some(st) => {
            &&& n >= 0
            &&& run_from(m, st, n)
            &&& (st - n < DATE_MIN_DAYS || !m.contains_key(st - n))
        },
    }
}

/// There is one streak for a given day.
pub proof fn streak_is_unique(m: Map<int, int>, today: int, a: int, b: int)
    requires
        is_streak(m, today, a),
        is_streak(m, today, b),
    ensures
        a == b,
{
    let start = if m.contains_key(today) {
        Some(today)
    } else {
        pred_day(today)
    };
    if let Some(st) = start {
        if a < b {
            assert(m.contains_key(st - a));
        } else if b < a {
            assert(m.contains_key(st - b));
        }
    }
}

/// The day streak on `today` over the day totals in `v`.
pub fn streak(v: &Vec<(i32, i64)>, today: i32) -> (n: u32)
    requires
        day_in_range(today as int),
    ensures
        forall|m: Map<int, int>| lists_days(v@, m) ==> is_streak(m, today as int, n as int),
{
    let start: Option<i32> = if find_day(v, today).is_some() {
        Some(today)
    } else {
        day_before(today)
    };
    let mut n: u32 = 0;
    match start {
        None => {
            proof {
                assert forall|m: Map<int, int>| lists_days(v@, m) implies is_streak(
                    m,
                    today as int,
                    n as int,
                ) by {
                    let i = choose|i: int| 0 <= i < v@.len() && v@[i].0 == today;
                }
            }
            n
        },
        Some(st) => {
            proof {
                assert forall|m: Map<int, int>| lists_days(v@, m) implies (if m.contains_key(
                    today as int,
                ) {
                    Some(today as int)
                } else {
                    pred_day(today as int)
                }) == Some(st as int) by {
                    if m.contains_key(today as int) {
                        let i = choose|i: int| 0 <= i < v@.len() && v@[i].0 == today;
                    }
                }
            }
            let mut cursor: i32 = st;
            loop
                invariant
                    DATE_MIN_DAYS <= cursor <= DATE_MAX_DAYS,
                    cursor == st - n,
                    day_in_range(st as int),
                    n as int <= st - DATE_MIN_DAYS,
                    forall|m: Map<int, int>| lists_days(v@, m) ==> run_from(m, st as int, n as int),
                    forall|m: Map<int, int>| lists_days(v@, m) ==> (if m.contains_key(today as int) {
                        Some(today as int)
                    } else {
                        pred_day(today as int)
                    }) == Some(st as int),
                ensures
                    forall|m: Map<int, int>| lists_days(v@, m) ==> is_streak(m, today as int, n as int),
                decreases cursor - DATE_MIN_DAYS,
            {
                if find_day(v, cursor).is_some() {
                    proof {
                        assert forall|m: Map<int, int>| lists_days(v@, m) implies run_from(
                            m,
                            st as int,
                            (n + 1) as int,
                        ) by {
                            let i = choose|i: int| 0 <= i < v@.len() && v@[i].0 == cursor;
                            assert(m.contains_key(v@[i].0 as int));
                            assert forall|k: int| 0 <= k < n + 1 implies DATE_MIN_DAYS <= st - k
                                && #[trigger] m.contains_key(st - k) by {
                                if k < n {
                                    assert(run_from(m, st as int, n as int));
                                }
                            }
                        }
                    }
                    n = n + 1;
                    match day_before(cursor) {
                        Some(p) => {
                            cursor = p;
                        },
                        None => {
                            return n;
                        },
                    }
                } else {
                    proof {
                        assert forall|m: Map<int, int>| lists_days(v@, m) implies !m.contains_key(
                            st - n,
                        ) by {
                            if m.contains_key(st - n) {
                                let i = choose|i: int| 0 <= i < v@.len() && v@[i].0 == st - n;
                            }
                        }
                    }
                    return n;
                }
            }
        },
    }
}

/// The day shown in row `i` of the last fourteen days (row 13 is today).
pub open spec fn recent_day(today: int, i: int) -> int {
    match sub_days(today, 13 - i) {
        Some(d) => d,
        None => today,
    }
}

/// The largest value in the list, and at least 1.
pub open spec fn max_at_least_one(v: Seq<(i32, i64)>) -> int
    decreases v.len(),
{
    if v.len() == 0 {
        1
    } else {
        let r = max_at_least_one(v.drop_last());
        if v.last().1 > r {
            v.last().1 as int
        } else {
            r
        }
    }
}

/// The last fourteen days, oldest first, each with its study time.
pub fn last_fourteen(v: &Vec<(i32, i64)>, today: i32) -> (r: Vec<(i32, i64)>)
    ensures
        r@.len() == 14,
        forall|i: int| 0 <= i < 14 ==> (#[trigger] r@[i]).0 == recent_day(today as int, i),
        forall|m: Map<int, int>, i: int|
            #![trigger lists_days(v@, m), r@[i]]
            lists_days(v@, m) && 0 <= i < 14 ==> r@[i].1 == value_or_zero(
                m,
                r@[i].0 as int,
            ),
{
    let mut r: Vec<(i32, i64)> = Vec::new();
    let mut i: u64 = 0;
    while i < 14
        invariant
            0 <= i <= 14,
            r@.len() == i,
            forall|k: int| 0 <= k < i ==> (#[trigger] r@[k]).0 == recent_day(today as int, k),
            forall|m: Map<int, int>, k: int|
                #![trigger lists_days(v@, m), r@[k]]
                lists_days(v@, m) && 0 <= k < i ==> r@[k].1 == value_or_zero(
                    m,
                    r@[k].0 as int,
                ),
        decreases 14 - i,
    {
        let d = match days_earlier(today, 13 - i) {
            Some(x) => x,
            None => today,
        };
        let secs = day_total(v, d);
        r.push((d, secs));
        i = i + 1;
    }
    r
}

/// The largest study time of the listed days, and at least 1.
pub fn max_day(v: &Vec<(i32, i64)>) -> (r: i64)
    ensures
        r == max_at_least_one(v@),
{
    let mut r: i64 = 1;
    let mut i: usize = 0;
    while i < v.len()
        invariant
            0 <= i <= v.len(),
            r == max_at_least_one(v@.take(i as int)),
        decreases v.len() - i,
    {
        proof {
            assert(v@.take((i + 1) as int).drop_last() =~= v@.take(i as int));
        }
        if v[i].1 > r {
            r = v[i].1;
        }
        i = i + 1;
    }
    proof {
        assert(v@.take(i as int) =~= v@);
    }
    r
}

} // verus!

verus! {

/// The topic a session is counted under: its trimmed topic, or "(no
/// topic)" ("(konu yok)" in Turkish) when that is empty.
pub open spec fn topic_key(lang: Language, t: Seq<char>) -> Seq<char> {
    let tt = trim_spec(t);
    if tt.len() == 0 {
        text(lang, Msg::NoTopic)
    } else {
        tt
    }
}

/// The active seconds of the sessions, summed by topic.
pub open spec fn topic_totals(lang: Language, s: Seq<Session>) -> Map<Seq<char>, int>
    decreases s.len(),
{
    if s.len() == 0 {
        Map::empty()
    } else {
        add_to(
            topic_totals(lang, s.drop_last()),
            topic_key(lang, s.last().topic@),
            s.last().duration_secs as int,
        )
    }
}

/// `v` lists the entries of `m`, each topic once.
pub open spec fn lists_topics(v: Seq<(String, i64)>, m: Map<Seq<char>, int>) -> bool {
    &&& forall|i: int, j: int|
        0 <= i < j < v.len() ==> (#[trigger] v[i]).0@ != (#[trigger] v[j]).0@
    &&& forall|i: int|
        0 <= i < v.len() ==> m.contains_key((#[trigger] v[i]).0@) && m[v[i].0@] == v[i].1
    &&& forall|k: Seq<char>| #[trigger] m.contains_key(k) ==> exists|i: int| 0 <= i < v.len() && v[i].0@ == k
}

/// The topic a session is counted under.
pub fn topic_key_of(lang: Language, topic: &String) -> (r: String)
    ensures
        r@ == topic_key(lang, topic@),
{
    let t = trim(topic.as_str());
    if t.unicode_len() == 0 {
        owned(say(lang, Msg::NoTopic))
    } else {
        owned(t)
    }
}

proof fn lemma_topic_totals_bounded(lang: Language, s: Seq<Session>)
    ensures
        forall|k: Seq<char>| #[trigger]
            topic_totals(lang, s).contains_key(k) ==> 0 <= topic_totals(lang, s)[k] <= total_secs(s),
    decreases s.len(),
{
    if s.len() > 0 {
        lemma_topic_totals_bounded(lang, s.drop_last());
        lemma_total_nonneg(s.drop_last());
        let prev = topic_totals(lang, s.drop_last());
        let cur = topic_totals(lang, s);
        let key = topic_key(lang, s.last().topic@);
        assert forall|k: Seq<char>| #[trigger] cur.contains_key(k) implies 0 <= cur[k]
            <= total_secs(s) by {
            if k != key {
                assert(prev.contains_key(k));
            }
        }
    }
}

fn find_topic(v: &Vec<(String, i64)>, key: &String) -> (r: Option<usize>)
    ensures
        r matches Some(i) ==> i < v@.len() && v@[i as int].0@ == key@,
        r is None ==> forall|i: int| 0 <= i < v@.len() ==> (#[trigger] v@[i]).0@ != key@,
{
    let mut i: usize = 0;
    while i < v.len()
        invariant
            0 <= i <= v.len(),
            forall|k: int| 0 <= k < i ==> (#[trigger] v@[k]).0@ != key@,
        decreases v.len() - i,
    {
        if v[i].0 == *key {
            return Some(i);
        }
        i = i + 1;
    }
    None
}

/// The total of the times in a topic list.
pub open spec fn pair_sum(v: Seq<(String, i64)>) -> int
    decreases v.len(),
{
    if v.len() == 0 {
        0
    } else {
        pair_sum(v.drop_last()) + v.last().1
    }
}

proof fn lemma_pair_sum_update(v: Seq<(String, i64)>, j: int, y: (String, i64))
    requires
        0 <= j < v.len(),
    ensures
        pair_sum(v.update(j, y)) == pair_sum(v) - v[j].1 + y.1,
    decreases v.len(),
{
    if j < v.len() - 1 {
        lemma_pair_sum_update(v.drop_last(), j, y);
        assert(v.update(j, y).drop_last() =~= v.drop_last().update(j, y));
    } else {
        assert(v.update(j, y).drop_last() =~= v.drop_last());
    }
}

proof fn lemma_pair_sum_insert(v: Seq<(String, i64)>, j: int, x: (String, i64))
    requires
        0 <= j <= v.len(),
    ensures
        pair_sum(v.insert(j, x)) == pair_sum(v) + x.1,
    decreases v.len(),
{
    if j < v.len() {
        lemma_pair_sum_insert(v.drop_last(), j, x);
        assert(v.insert(j, x).drop_last() =~= v.drop_last().insert(j, x));
    } else {
        assert(v.insert(j, x).drop_last() =~= v);
    }
}

/// Sums the active seconds of the sessions by topic.
pub fn sum_by_topic(lang: Language, sessions: &Vec<Session>) -> (v: Vec<(String, i64)>)
    requires
        total_secs(sessions@) <= i64::MAX,
    ensures
        lists_topics(v@, topic_totals(lang, sessions@)),
        pair_sum(v@) == total_secs(sessions@),
{
    let mut v: Vec<(String, i64)> = Vec::new();
    let mut i: usize = 0;
    while i < sessions.len()
        invariant
            0 <= i <= sessions.len(),
            total_secs(sessions@) <= i64::MAX,
            lists_topics(v@, topic_totals(lang, sessions@.take(i as int))),
            pair_sum(v@) == total_secs(sessions@.take(i as int)),
        decreases sessions.len() - i,
    {
        let ghost pre = sessions@.take(i as int);
        let ghost m = topic_totals(lang, pre);
        proof {
            assert(sessions@.take((i + 1) as int).drop_last() =~= pre);
            lemma_topic_totals_bounded(lang, pre);
            lemma_total_prefix(sessions@, (i + 1) as int);
            lemma_total_prefix(sessions@, i as int);
            assert(total_secs(sessions@.take((i + 1) as int)) == total_secs(pre)
                + sessions@[i as int].duration_secs);
        }
        let key = topic_key_of(lang, &sessions[i].topic);
        let dur = sessions[i].duration_secs;
        let ghost m2 = add_to(m, key@, dur as int);
        match find_topic(&v, &key) {
            Some(j) => {
                let ghost old_v = v@;
                proof {
                    assert(m.contains_key(key@));
                }
                let nv = v[j].1 + dur as i64;
                proof {
                    lemma_pair_sum_update(old_v, j as int, (key, nv));
                }
                v.set(j, (key, nv));
                proof {
                    assert forall|k: Seq<char>| #[trigger] m2.contains_key(k) implies exists|x: int|
                        0 <= x < v@.len() && v@[x].0@ == k by {
                        if k != key@ {
                            assert(m.contains_key(k));
                            let x = choose|x: int| 0 <= x < old_v.len() && old_v[x].0@ == k;
                            assert(v@[x].0@ == k);
                        } else {
                            assert(v@[j as int].0@ == k);
                        }
                    }
                    assert forall|x: int| 0 <= x < v@.len() implies m2.contains_key(
                        (#[trigger] v@[x]).0@,
                    ) && m2[v@[x].0@] == v@[x].1 by {
                        if x != j as int {
                            assert(old_v[x].0@ != key@);
                        }
                    }
                    assert forall|x: int, y: int| 0 <= x < y < v@.len() implies (#[trigger] v@[x]).0@
                        != (#[trigger] v@[y]).0@ by {
                        assert(old_v[x].0@ != old_v[y].0@);
                    }
                }
            },
            None => {
                let ghost old_v = v@;
                proof {
                    assert(!m.contains_key(key@));
                    assert(dur <= i64::MAX);
                }
                let ghost kv = key@;
                v.push((key, dur as i64));
                proof {
                    assert(v@.drop_last() =~= old_v);
                    assert forall|k: Seq<char>| #[trigger] m2.contains_key(k) implies exists|x: int|
                        0 <= x < v@.len() && v@[x].0@ == k by {
                        if k != kv {
                            assert(m.contains_key(k));
                            let x = choose|x: int| 0 <= x < old_v.len() && old_v[x].0@ == k;
                            assert(v@[x].0@ == k);
                        } else {
                            assert(v@[old_v.len() as int].0@ == k);
                        }
                    }
                    assert forall|x: int| 0 <= x < v@.len() implies m2.contains_key(
                        (#[trigger] v@[x]).0@,
                    ) && m2[v@[x].0@] == v@[x].1 by {
                        if x < old_v.len() {
                            assert(v@[x] == old_v[x]);
                            assert(old_v[x].0@ != kv);
                        }
                    }
                    assert forall|x: int, y: int| 0 <= x < y < v@.len() implies (#[trigger] v@[x]).0@
                        != (#[trigger] v@[y]).0@ by {
                        if y < old_v.len() {
                            assert(old_v[x].0@ != old_v[y].0@);
                        } else {
                            assert(old_v[x].0@ != kv);
                        }
                    }
                }
            },
        }
        i = i + 1;
    }
    proof {
        assert(sessions@.take(i as int) =~= sessions@);
    }
    v
}

} // verus!

verus! {

/// Text order: character by character by code point, a proper prefix first
/// (the order of `String`, whose UTF-8 bytes keep code point order).
pub open spec fn chars_lt(a: Seq<char>, b: Seq<char>) -> bool
    decreases a.len(),
{
    if a.len() == 0 {
        b.len() > 0
    } else if b.len() == 0 {
        false
    } else if a[0] != b[0] {
        (a[0] as int) < (b[0] as int)
    } else {
        chars_lt(a.drop_first(), b.drop_first())
    }
}

/// No text comes before itself.
pub proof fn text_order_is_irreflexive(a: Seq<char>)
    ensures
        !chars_lt(a, a),
    decreases a.len(),
{
    if a.len() > 0 {
        text_order_is_irreflexive(a.drop_first());
    }
}

/// Text order is transitive.
pub proof fn text_order_is_transitive(a: Seq<char>, b: Seq<char>, c: Seq<char>)
    requires
        chars_lt(a, b),
        chars_lt(b, c),
    ensures
        chars_lt(a, c),
    decreases a.len(),
{
    if a.len() > 0 && b.len() > 0 && c.len() > 0 {
        if a[0] == b[0] && b[0] == c[0] {
            text_order_is_transitive(a.drop_first(), b.drop_first(), c.drop_first());
        }
    }
}

/// Of two different texts, one comes before the other.
pub proof fn text_order_is_total(a: Seq<char>, b: Seq<char>)
    requires
        a != b,
    ensures
        chars_lt(a, b) || chars_lt(b, a),
    decreases a.len(),
{
    if a.len() > 0 && b.len() > 0 {
        if a[0] == b[0] {
            if a.drop_first() == b.drop_first() {
                assert(a =~= seq![a[0]] + a.drop_first());
                assert(b =~= seq![b[0]] + b.drop_first());
            }
            text_order_is_total(a.drop_first(), b.drop_first());
        } else {
            assert((a[0] as int) != (b[0] as int));
        }
    } else if a.len() == 0 && b.len() == 0 {
        assert(a =~= b);
    }
}

/// Whether `a` is listed before `b` on the statistics screen: more time
/// first, and equal times in text order of the topic.
pub open spec fn ranks_before(a: (String, i64), b: (String, i64)) -> bool {
    a.1 > b.1 || (a.1 == b.1 && chars_lt(a.0@, b.0@))
}

/// `r` holds the entries of `m` from most to least time, equal times in
/// text order of the topic.
pub open spec fn ranked_topics(r: Seq<(String, i64)>, m: Map<Seq<char>, int>) -> bool {
    &&& forall|i: int|
        0 <= i < r.len() ==> m.contains_key((#[trigger] r[i]).0@) && m[r[i].0@] == r[i].1
    &&& forall|k: Seq<char>| #[trigger] m.contains_key(k) ==> exists|i: int| 0 <= i < r.len() && r[i].0@ == k
    &&& forall|i: int, j: int| 0 <= i < j < r.len() ==> ranks_before(#[trigger] r[i], #[trigger] r[j])
}

/// Compares two texts in text order.
pub fn text_lt(a: &String, b: &String) -> (r: bool)
    ensures
        r == chars_lt(a@, b@),
{
    let n = a.as_str().unicode_len();
    let m = b.as_str().unicode_len();
    let mut i: usize = 0;
    proof {
        assert(a@.skip(0) =~= a@);
        assert(b@.skip(0) =~= b@);
    }
    while i < n && i < m
        invariant
            n == a@.len(),
            m == b@.len(),
            0 <= i <= n,
            i <= m,
            chars_lt(a@.skip(i as int), b@.skip(i as int)) == chars_lt(a@, b@),
        decreases n - i,
    {
        let x = a.as_str().get_char(i);
        let y = b.as_str().get_char(i);
        proof {
            assert(a@.skip(i as int)[0] == x);
            assert(b@.skip(i as int)[0] == y);
            assert(a@.skip(i as int).drop_first() =~= a@.skip((i + 1) as int));
            assert(b@.skip(i as int).drop_first() =~= b@.skip((i + 1) as int));
        }
        if x != y {
            return (x as u32) < (y as u32);
        }
        i = i + 1;
    }
    i < m && i == n
}

fn ranks_before_exec(a: &(String, i64), b: &(String, i64)) -> (r: bool)
    ensures
        r == ranks_before(*a, *b),
{
    a.1 > b.1 || (a.1 == b.1 && text_lt(&a.0, &b.0))
}

/// Orders topic totals from most to least time, equal times in text order
/// of the topic.
pub fn rank_topics(v: Vec<(String, i64)>) -> (r: Vec<(String, i64)>)
    requires
        forall|i: int, j: int| 0 <= i < j < v@.len() ==> (#[trigger] v@[i]).0@ != (#[trigger] v@[j]).0@,
    ensures
        r@.to_multiset() == v@.to_multiset(),
        pair_sum(r@) == pair_sum(v@),
        forall|i: int, j: int| 0 <= i < j < r@.len() ==> ranks_before(#[trigger] r@[i], #[trigger] r@[j]),
{
    broadcast use vstd::seq_lib::group_to_multiset_ensures;
    let ghost orig = v@;
    let mut input = v;
    let n = input.len();
    let mut r: Vec<(String, i64)> = Vec::new();
    let mut k: usize = 0;
    while input.len() > 0
        invariant
            n == orig.len(),
            k + input@.len() == orig.len(),
            input@ == orig.skip(k as int),
            r@.to_multiset() == orig.take(k as int).to_multiset(),
            pair_sum(r@) == pair_sum(orig.take(k as int)),
            forall|i: int, j: int| 0 <= i < j < r@.len() ==> ranks_before(#[trigger] r@[i], #[trigger] r@[j]),
            forall|i: int| 0 <= i < r@.len() ==> orig.take(k as int).contains(#[trigger] r@[i]),
            forall|i: int, j: int| 0 <= i < j < orig.len() ==> (#[trigger] orig[i]).0@ != (#[trigger] orig[j]).0@,
        decreases input@.len(),
    {
        let x = input.remove(0);
        proof {
            assert(orig.take((k + 1) as int).drop_last() =~= orig.take(k as int));
            assert(orig.take((k + 1) as int).last() == x);
            assert(orig[k as int] == x);
            assert(input@ =~= orig.skip((k + 1) as int));
        }
        let mut j: usize = r.len();
        while j > 0 && ranks_before_exec(&x, &r[j - 1])
            invariant
                0 <= j <= r@.len(),
                forall|t: int| j <= t < r@.len() ==> ranks_before(x, #[trigger] r@[t]),
            decreases j,
        {
            j = j - 1;
        }
        let ghost before = r@;
        proof {
            if j > 0 {
                // the entry before the gap ranks before x: their topics differ
                let p = j - 1;
                let i0 = choose|i0: int| 0 <= i0 < k && orig.take(k as int)[i0] == before[p as int];
                assert(orig[i0] == before[p as int]);
                assert(before[p as int].0@ != x.0@);
                text_order_is_total(before[p as int].0@, x.0@);
            }
        }
        r.insert(j, x);
        proof {
            assert forall|a: int, b: int| 0 <= a < b < r@.len() implies ranks_before(
                #[trigger] r@[a],
                #[trigger] r@[b],
            ) by {
                if b < j {
                    assert(r@[a] == before[a] && r@[b] == before[b]);
                } else if b == j {
                    assert(r@[a] == before[a]);
                    if a < j - 1 {
                        assert(ranks_before(before[a], before[j - 1]));
                        if before[a].1 == before[j - 1].1 && before[j - 1].1 == x.1 {
                            text_order_is_transitive(before[a].0@, before[j - 1].0@, x.0@);
                        }
                    }
                } else if a < j {
                    assert(r@[a] == before[a] && r@[b] == before[b - 1]);
                } else if a == j {
                    assert(r@[b] == before[b - 1]);
                } else {
                    assert(r@[a] == before[a - 1] && r@[b] == before[b - 1]);
                }
            }
            assert forall|i: int| 0 <= i < r@.len() implies orig.take((k + 1) as int).contains(
                #[trigger] r@[i],
            ) by {
                if i == j {
                    assert(orig.take((k + 1) as int)[k as int] == x);
                } else {
                    let w = if i < j {
                        before[i]
                    } else {
                        before[i - 1]
                    };
                    assert(r@[i] == w);
                    let i0 = choose|i0: int| 0 <= i0 < k && orig.take(k as int)[i0] == w;
                    assert(orig.take((k + 1) as int)[i0] == w);
                }
            }
            vstd::seq_lib::to_multiset_insert(before, j as int, x);
            lemma_pair_sum_insert(before, j as int, x);
            assert(orig.take((k + 1) as int).drop_last() =~= orig.take(k as int));
            assert(orig.take((k + 1) as int) =~= orig.take(k as int).push(x));
            vstd::seq_lib::to_multiset_build(orig.take(k as int), x);
            assert(r@ == before.insert(j as int, x));
            assert(r@.to_multiset() == orig.take((k + 1) as int).to_multiset());
        }
        k = k + 1;
    }
    proof {
        assert(orig.take(k as int) =~= orig);
    }
    r
}

} // verus!

verus! {

/// Everything the statistics screen shows.
#[derive(Debug)]
pub struct Stats {
    /// Active time of all sessions, in seconds.
    pub total_secs: i64,
    /// Number of sessions.
    pub count: u64,
    /// Active time per session, rounded down (the total when there is none).
    pub average_secs: i64,
    /// Days in a row with study time, ending today or yesterday.
    pub streak: u32,
    /// Number of different local days with a session.
    pub distinct_days: u64,
    /// The last fourteen days, oldest first, with their study time.
    pub last14: Vec<(i32, i64)>,
    /// The largest study time among the last fourteen days, at least 1.
    pub max_day: i64,
    /// Time per topic, most first, equal times in text order of the topic.
    pub topics: Vec<(String, i64)>,
}

proof fn lemma_lists_days_len(v: Seq<(i32, i64)>, m: Map<int, int>)
    requires
        lists_days(v, m),
    ensures
        m.dom().finite(),
        m.dom().len() == v.len(),
{
    let keys = v.map_values(|p: (i32, i64)| p.0 as int);
    assert(m.dom() =~= keys.to_set()) by {
        assert forall|k: int| m.dom().contains(k) implies keys.to_set().contains(k) by {
            let i = choose|i: int| 0 <= i < v.len() && v[i].0 == k;
            assert(keys[i] == k);
        }
        assert forall|k: int| keys.to_set().contains(k) implies m.dom().contains(k) by {
            let i = choose|i: int| 0 <= i < keys.len() && keys[i] == k;
            assert(m.contains_key(v[i].0 as int));
        }
    }
    assert(keys.no_duplicates()) by {
        assert forall|i: int, j: int| 0 <= i < keys.len() && 0 <= j < keys.len() && i != j implies keys[i] != keys[j] by {
            if i < j {
                assert(v[i].0 != v[j].0);
            } else {
                assert(v[j].0 != v[i].0);
            }
        }
    }
    keys.unique_seq_to_set();
}

/// `st` is the statistics of the sessions `s`, whose starts fall on the
/// local days `days`, seen on the local day `today`.
pub open spec fn stats_match(lang: Language, st: Stats, s: Seq<Session>, days: Seq<Option<i32>>, today: int) -> bool {
    &&& st.total_secs == total_secs(s)
    &&& st.count == s.len()
    &&& st.average_secs == total_secs(s) / (if s.len() > 0 {
        s.len() as int
    } else {
        1
    })
    &&& is_streak(day_totals(s, days), today, st.streak as int)
    &&& day_totals(s, days).dom().finite()
    &&& st.distinct_days == day_totals(s, days).dom().len()
    &&& st.last14@.len() == 14
    &&& forall|i: int|
        0 <= i < 14 ==> (#[trigger] st.last14@[i]).0 == recent_day(today, i) && st.last14@[i].1
            == value_or_zero(day_totals(s, days), st.last14@[i].0 as int)
    &&& st.max_day == max_at_least_one(st.last14@)
    &&& ranked_topics(st.topics@, topic_totals(lang, s))
    &&& pair_sum(st.topics@) == st.total_secs
}

/// The statistics of the sessions, given the local day of each session's
/// start (`None` where there is none) and today's local day.
pub fn stats_for_days(lang: Language, sessions: &Vec<Session>, days: &Vec<Option<i32>>, today: i32) -> (st: Stats)
    requires
        days@.len() == sessions@.len(),
        total_secs(sessions@) <= i64::MAX,
        day_in_range(today as int),
    ensures
        stats_match(lang, st, sessions@, days@, today as int),
{
    broadcast use vstd::seq_lib::group_to_multiset_ensures;
    let ghost dm = day_totals(sessions@, days@);
    let by_day = sum_by_day(sessions, days);
    let by_topic = sum_by_topic(lang, sessions);
    let mut total: i64 = 0;
    let mut i: usize = 0;
    while i < sessions.len()
        invariant
            0 <= i <= sessions.len(),
            total_secs(sessions@) <= i64::MAX,
            total == total_secs(sessions@.take(i as int)),
        decreases sessions.len() - i,
    {
        proof {
            assert(sessions@.take((i + 1) as int).drop_last() =~= sessions@.take(i as int));
            lemma_total_prefix(sessions@, (i + 1) as int);
            lemma_total_prefix(sessions@, i as int);
            assert(total_secs(sessions@.take((i + 1) as int)) == total_secs(sessions@.take(i as int))
                + sessions@[i as int].duration_secs);
        }
        total = total + sessions[i].duration_secs as i64;
        i = i + 1;
    }
    proof {
        assert(sessions@.take(i as int) =~= sessions@);
        lemma_total_nonneg(sessions@);
        lemma_lists_days_len(by_day@, dm);
    }
    let count = sessions.len() as u64;
    let average: i64 = if count > 0 {
        ((total as u64) / count) as i64
    } else {
        total
    };
    let streak_days = streak(&by_day, today);
    let last14 = last_fourteen(&by_day, today);
    let max = max_day(&last14);
    let ghost tv = by_topic@;
    let ranked = rank_topics(by_topic);
    proof {
        let tm = topic_totals(lang, sessions@);
        assert forall|i: int| 0 <= i < ranked@.len() implies tm.contains_key(
            (#[trigger] ranked@[i]).0@,
        ) && tm[ranked@[i].0@] == ranked@[i].1 by {
            assert(ranked@.to_multiset().count(ranked@[i]) > 0);
            assert(tv.contains(ranked@[i]));
        }
        assert forall|k: Seq<char>| #[trigger] tm.contains_key(k) implies exists|i: int|
            0 <= i < ranked@.len() && ranked@[i].0@ == k by {
            let j = choose|j: int| 0 <= j < tv.len() && tv[j].0@ == k;
            assert(tv.to_multiset().count(tv[j]) > 0);
            assert(ranked@.contains(tv[j]));
        }
    }
    Stats {
        total_secs: total,
        count,
        average_secs: average,
        streak: streak_days,
        distinct_days: by_day.len() as u64,
        last14,
        max_day: max,
        topics: ranked,
    }
}

} // verus!

verus! {

/// The local day on which each session started (`None` where `chrono` does
/// not accept the instant).
pub fn local_days(sessions: &Vec<Session>) -> (days: Vec<Option<i32>>)
    ensures
        days@.len() == sessions@.len(),
        forall|i: int|
            0 <= i < days@.len() ==> local_day_of(sessions@[i].started_at, #[trigger] days@[i]),
{
    let mut days: Vec<Option<i32>> = Vec::new();
    let mut i: usize = 0;
    while i < sessions.len()
        invariant
            0 <= i <= sessions.len(),
            days@.len() == i,
            forall|k: int|
                0 <= k < i ==> local_day_of(sessions@[k].started_at, #[trigger] days@[k]),
        decreases sessions.len() - i,
    {
        let r = local_stamp(sessions[i].started_at);
        proof {
            lemma_stamp_read(sessions@[i as int].started_at, r);
        }
        let d = match r {
            Some(s) => Some(s.days),
            None => None,
        };
        days.push(d);
        i = i + 1;
    }
    days
}

/// The statistics of the database as seen now, in the local time zone, with
/// sessions without a topic listed in the database's language.
/// Totals, the average and the topics do not depend on the clock or the
/// time zone; the day-based figures are those of the local days on which
/// the sessions started and of today, each as `chrono` read it.
pub fn compute_stats(db: &Database) -> (st: Stats)
    requires
        total_secs(db.sessions@) <= i64::MAX,
    ensures
        st.total_secs == total_secs(db.sessions@),
        st.count == db.sessions@.len(),
        ranked_topics(st.topics@, topic_totals(db.language, db.sessions@)),
        exists|days: Seq<Option<i32>>, today: int|
            {
                &&& days.len() == db.sessions@.len()
                &&& day_in_range(today)
                &&& exists|now: LocalStamp| #[trigger] local_now_read(now) && now.days == today
                &&& forall|i: int|
                    0 <= i < days.len() ==> local_day_of(db.sessions@[i].started_at, #[trigger] days[i])
                &&& stats_match(db.language, st, db.sessions@, days, today)
            },
{
    let days = local_days(&db.sessions);
    let now = local_now();
    proof {
        lemma_local_now_read(now);
    }
    let today = now.days;
    stats_for_days(db.language, &db.sessions, &days, today)
}

} // verus!

verus! {

/// There are never more days with study time than sessions.
pub proof fn distinct_days_at_most_sessions(s: Seq<Session>, days: Seq<Option<i32>>)
    ensures
        day_totals(s, days).dom().finite(),
        day_totals(s, days).dom().len() <= s.len(),
    decreases s.len(),
{
    if s.len() > 0 {
        distinct_days_at_most_sessions(s.drop_last(), days);
        let m = day_totals(s.drop_last(), days);
        match days[s.len() - 1] {
            Some(d) => {
                assert(add_to(m, d as int, s.last().duration_secs as int).dom() =~= m.dom().insert(d as int));
            },
            None => {},
        }
    }
}

} // verus!

verus! {

/// The streak is never longer than the number of days with study time.
pub proof fn streak_at_most_distinct_days(s: Seq<Session>, days: Seq<Option<i32>>, today: int, n: int)
    requires
        is_streak(day_totals(s, days), today, n),
    ensures
        n <= day_totals(s, days).dom().len(),
{
    let m = day_totals(s, days);
    distinct_days_at_most_sessions(s, days);
    let start = if m.contains_key(today) {
        Some(today)
    } else {
        pred_day(today)
    };
    if let Some(st) = start {
        let r = vstd::set_lib::set_int_range(st - n + 1, st + 1);
        vstd::set_lib::lemma_int_range(st - n + 1, st + 1);
        assert forall|d: int| r.contains(d) implies m.dom().contains(d) by {
            let k = st - d;
            assert(0 <= k < n);
            assert(m.contains_key(st - k));
        }
        vstd::set_lib::lemma_len_subset(r, m.dom());
    }
}

/// How many topics the statistics screen lists.
pub const TOPICS_SHOWN: usize = 15;

/// Topics and their times, the topics taken as text.
pub open spec fn topic_views(v: Seq<(String, i64)>) -> Seq<(Seq<char>, i64)> {
    v.map_values(|p: (String, i64)| (p.0@, p.1))
}

/// The topics the statistics screen lists: the first fifteen of the ranked
/// topics (all of them when there are fewer).
pub fn shown_topics(st: &Stats) -> (r: Vec<(String, i64)>)
    ensures
        topic_views(r@) == topic_views(st.topics@).take(
            if st.topics@.len() < TOPICS_SHOWN {
                st.topics@.len() as int
            } else {
                TOPICS_SHOWN as int
            },
        ),
{
    let n = if st.topics.len() < TOPICS_SHOWN {
        st.topics.len()
    } else {
        TOPICS_SHOWN
    };
    let ghost all = topic_views(st.topics@);
    let mut r: Vec<(String, i64)> = Vec::new();
    let mut i: usize = 0;
    while i < n
        invariant
            0 <= i <= n,
            n <= st.topics@.len(),
            all == topic_views(st.topics@),
            r@.len() == i,
            topic_views(r@) == all.take(i as int),
        decreases n - i,
    {
        let t = st.topics[i].0.clone();
        let v = st.topics[i].1;
        let ghost before = r@;
        r.push((t, v));
        proof {
            assert(topic_views(r@) =~= all.take((i + 1) as int)) by {
                assert forall|k: int| 0 <= k < i + 1 implies topic_views(r@)[k] == all[k] by {
                    if k < i {
                        assert(r@[k] == before[k]);
                        assert(topic_views(before)[k] == all[k]);
                    } else {
                        assert(r@[k] == (t, v));
                        assert(all[k] == (st.topics@[k].0@, st.topics@[k].1));
                    }
                }
            }
        }
        i = i + 1;
    }
    r
}

/// The order in which the session list shows `n` sessions kept oldest
/// first: newest first.
pub fn newest_first(n: usize) -> (r: Vec<usize>)
    ensures
        r@.len() == n,
        forall|i: int| 0 <= i < n ==> #[trigger] r@[i] == n - 1 - i,
{
    let mut r: Vec<usize> = Vec::new();
    let mut k: usize = n;
    while k > 0
        invariant
            0 <= k <= n,
            r@.len() == n - k,
            forall|i: int| 0 <= i < n - k ==> #[trigger] r@[i] == n - 1 - i,
        decreases k,
    {
        k = k - 1;
        r.push(k);
    }
    r
}

} // verus!
