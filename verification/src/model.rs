//! The session database: what a saved session holds, how sessions are kept
//! in order of their start, how ids are handed out and how a session is
//! deleted.

use vstd::prelude::*;
use crate::clock::UtcTime;
use crate::lang::{Language, default_language};

verus! {

broadcast use vstd::seq_lib::group_to_multiset_ensures;

/// A file attached to a session: its name and the path of the kept copy.
#[derive(Clone, Debug)]
pub struct Attachment {
    pub file_name: String,
    pub path: String,
}

/// A saved study session.
#[derive(Clone, Debug)]
pub struct Session {
    pub id: u64,
    pub started_at: UtcTime,
    pub ended_at: UtcTime,
    /// Active study time in seconds, pauses left out.
    pub duration_secs: u64,
    pub topic: String,
    pub notes: String,
    pub tags: Vec<String>,
    pub attachments: Vec<Attachment>,
}

/// All saved sessions, the next id to hand out and the chosen language of
/// the interface.
#[derive(Clone, Debug)]
pub struct Database {
    pub next_id: u64,
    pub sessions: Vec<Session>,
    pub language: Language,
}

/// Sessions in order of their start, earlier first.
pub open spec fn sorted_by_start(s: Seq<Session>) -> bool {
    forall|i: int, j: int| 0 <= i < j < s.len() ==> (#[trigger] s[i]).started_at.le((#[trigger] s[j]).started_at)
}

/// Where a session starting at `x` goes among the first `j` of the sorted
/// sessions `s`: after every session that does not start later than `x`.
pub open spec fn insert_pos(s: Seq<Session>, x: UtcTime, j: int) -> int
    decreases j,
{
    if j <= 0 {
        0
    } else if s[j - 1].started_at.le(x) {
        j
    } else {
        insert_pos(s, x, j - 1)
    }
}

/// The sessions sorted by start, stably: sessions that start at the same
/// instant keep their order (`sort_by_key(|s| s.started_at)`).
pub open spec fn sort_by_start(s: Seq<Session>) -> Seq<Session>
    decreases s.len(),
{
    if s.len() == 0 {
        Seq::empty()
    } else {
        let r = sort_by_start(s.drop_last());
        r.insert(insert_pos(r, s.last().started_at, r.len() as int), s.last())
    }
}

proof fn lemma_insert_pos(s: Seq<Session>, x: UtcTime, j: int)
    requires
        0 <= j <= s.len(),
    ensures
        0 <= insert_pos(s, x, j) <= j,
        insert_pos(s, x, j) > 0 ==> s[insert_pos(s, x, j) - 1].started_at.le(x),
        forall|k: int| insert_pos(s, x, j) <= k < j ==> !(#[trigger] s[k]).started_at.le(x),
    decreases j,
{
    if j > 0 && !s[j - 1].started_at.le(x) {
        lemma_insert_pos(s, x, j - 1);
    }
}

proof fn lemma_insert_sorted(r: Seq<Session>, x: Session)
    requires
        sorted_by_start(r),
    ensures
        sorted_by_start(r.insert(insert_pos(r, x.started_at, r.len() as int), x)),
{
    let p = insert_pos(r, x.started_at, r.len() as int);
    lemma_insert_pos(r, x.started_at, r.len() as int);
    let t = r.insert(p, x);
    assert forall|i: int, j: int| 0 <= i < j < t.len() implies (#[trigger] t[i]).started_at.le(
        (#[trigger] t[j]).started_at,
    ) by {
        if i < p && j < p {
            assert(t[i] == r[i] && t[j] == r[j]);
        } else if i < p && j == p {
            assert(t[i] == r[i]);
            assert(r[i].started_at.le(r[p - 1].started_at));
        } else if i < p {
            assert(t[i] == r[i] && t[j] == r[j - 1]);
        } else if i == p {
            assert(t[j] == r[j - 1]);
            assert(!r[j - 1].started_at.le(x.started_at));
        } else {
            assert(t[i] == r[i - 1] && t[j] == r[j - 1]);
        }
    }
}

/// Sorting puts the sessions in order of their start.
pub proof fn sort_by_start_is_sorted(s: Seq<Session>)
    ensures
        sorted_by_start(sort_by_start(s)),
    decreases s.len(),
{
    if s.len() > 0 {
        sort_by_start_is_sorted(s.drop_last());
        lemma_insert_sorted(sort_by_start(s.drop_last()), s.last());
    }
}

/// Sorting keeps every session, each as often as before.
pub proof fn sort_by_start_keeps_sessions(s: Seq<Session>)
    ensures
        sort_by_start(s).to_multiset() == s.to_multiset(),
        sort_by_start(s).len() == s.len(),
    decreases s.len(),
{
    if s.len() > 0 {
        sort_by_start_keeps_sessions(s.drop_last());
        let r = sort_by_start(s.drop_last());
        lemma_insert_pos(r, s.last().started_at, r.len() as int);
        vstd::seq_lib::to_multiset_insert(r, insert_pos(r, s.last().started_at, r.len() as int), s.last());
        assert(s.drop_last().push(s.last()) =~= s);
    }
}

/// Sessions that are already in order are left as they are.
pub proof fn sort_by_start_keeps_sorted(s: Seq<Session>)
    requires
        sorted_by_start(s),
    ensures
        sort_by_start(s) == s,
    decreases s.len(),
{
    if s.len() > 0 {
        assert(sorted_by_start(s.drop_last()));
        sort_by_start_keeps_sorted(s.drop_last());
        let r = s.drop_last();
        assert(s.len() == 1 || r[r.len() - 1].started_at.le(s.last().started_at));
        assert(insert_pos(r, s.last().started_at, r.len() as int) == r.len());
        assert(r.insert(r.len() as int, s.last()) =~= s);
    }
}

/// Sorts sessions by their start, keeping the order of sessions that start
/// at the same instant.
pub fn sort_sessions(v: &mut Vec<Session>)
    ensures
        final(v)@ == sort_by_start(old(v)@),
{
    let ghost orig = v@;
    let mut input: Vec<Session> = Vec::new();
    std::mem::swap(&mut input, v);
    let mut k: usize = 0;
    let n = input.len();
    while input.len() > 0
        invariant
            n == orig.len(),
            k + input@.len() == n,
            input@ == orig.skip(k as int),
            v@ == sort_by_start(orig.take(k as int)),
            sorted_by_start(v@),
        decreases input@.len(),
    {
        let x = input.remove(0);
        let mut j: usize = v.len();
        while j > 0 && !v[j - 1].started_at.is_le(&x.started_at)
            invariant
                0 <= j <= v.len(),
                insert_pos(v@, x.started_at, j as int) == insert_pos(
                    v@,
                    x.started_at,
                    v.len() as int,
                ),
            decreases j,
        {
            j = j - 1;
        }
        proof {
            lemma_insert_sorted(v@, x);
            assert(orig.take((k + 1) as int).drop_last() =~= orig.take(k as int));
            assert(orig.take((k + 1) as int).last() == x);
            assert(input@ =~= orig.skip((k + 1) as int));
        }
        v.insert(j, x);
        k = k + 1;
    }
    proof {
        assert(orig.take(n as int) =~= orig);
    }
}

/// The sessions without those that carry the id `id`, in their order.
pub open spec fn without_id(s: Seq<Session>, id: u64) -> Seq<Session>
    decreases s.len(),
{
    if s.len() == 0 {
        Seq::empty()
    } else if s.last().id == id {
        without_id(s.drop_last(), id)
    } else {
        without_id(s.drop_last(), id).push(s.last())
    }
}

/// Every id in use is below the next id to hand out.
pub open spec fn ids_below_next(s: Seq<Session>, next_id: u64) -> bool {
    forall|i: int| 0 <= i < s.len() ==> (#[trigger] s[i]).id < next_id
}

/// The id handed to the next new session: the next id, but never 0.
pub open spec fn fresh_id(next_id: u64) -> u64 {
    if next_id < 1 {
        1
    } else {
        next_id
    }
}

impl Database {
    /// An empty database.
    pub fn new() -> (db: Database)
        ensures
            db.next_id == 0,
            db.sessions@.len() == 0,
            db.language == default_language(),
    {
        Database { next_id: 0, sessions: Vec::new(), language: Language::English }
    }

    /// Hands out a new session id and moves the next id past it.
    pub fn allocate_id(&mut self) -> (id: u64)
        requires
            old(self).next_id < u64::MAX,
        ensures
            id == fresh_id(old(self).next_id),
            final(self).next_id == id + 1,
            final(self).sessions == old(self).sessions,
            final(self).language == old(self).language,
    {
        let id = if self.next_id < 1 {
            1
        } else {
            self.next_id
        };
        self.next_id = id + 1;
        id
    }

    /// Adds a session and puts the sessions back in order of their start.
    pub fn insert_session(&mut self, s: Session)
        ensures
            final(self).sessions@ == sort_by_start(old(self).sessions@.push(s)),
            final(self).next_id == old(self).next_id,
            final(self).language == old(self).language,
    {
        self.sessions.push(s);
        sort_sessions(&mut self.sessions);
    }

    /// Removes the sessions with the id `id`, keeping the others in order.
    pub fn delete_session(&mut self, id: u64)
        ensures
            final(self).sessions@ == without_id(old(self).sessions@, id),
            final(self).next_id == old(self).next_id,
            final(self).language == old(self).language,
    {
        let ghost orig = self.sessions@;
        let ghost nid = self.next_id;
        let mut input: Vec<Session> = Vec::new();
        std::mem::swap(&mut input, &mut self.sessions);
        let mut k: usize = 0;
        let n = input.len();
        while input.len() > 0
            invariant
                n == orig.len(),
                k + input@.len() == n,
                input@ == orig.skip(k as int),
                self.sessions@ == without_id(orig.take(k as int), id),
                self.next_id == nid,
                self.language == old(self).language,
            decreases input@.len(),
        {
            let x = input.remove(0);
            proof {
                assert(orig.take((k + 1) as int).drop_last() =~= orig.take(k as int));
                assert(orig.take((k + 1) as int).last() == x);
                assert(input@ =~= orig.skip((k + 1) as int));
            }
            if x.id != id {
                self.sessions.push(x);
            }
            k = k + 1;
        }
        proof {
            assert(orig.take(n as int) =~= orig);
        }
    }

    /// The total of the active time of all sessions, in seconds.
    pub fn total_duration(&self) -> (t: u128)
        ensures
            t == total_secs(self.sessions@),
    {
        let mut t: u128 = 0;
        let mut i: usize = 0;
        while i < self.sessions.len()
            invariant
                0 <= i <= self.sessions.len(),
                t == total_secs(self.sessions@.take(i as int)),
                t <= i * 18446744073709551615,
            decreases self.sessions.len() - i,
        {
            proof {
                assert(self.sessions@.take((i + 1) as int).drop_last() =~= self.sessions@.take(
                    i as int,
                ));
            }
            t = t + self.sessions[i].duration_secs as u128;
            i = i + 1;
        }
        proof {
            assert(self.sessions@.take(i as int) =~= self.sessions@);
        }
        t
    }
}

/// The total of the active time of the sessions, in seconds.
pub open spec fn total_secs(s: Seq<Session>) -> int
    decreases s.len(),
{
    if s.len() == 0 {
        0
    } else {
        total_secs(s.drop_last()) + s.last().duration_secs
    }
}

/// After a deletion no session carries the deleted id.
pub proof fn delete_removes_id(s: Seq<Session>, id: u64)
    ensures
        forall|i: int| 0 <= i < without_id(s, id).len() ==> (#[trigger] without_id(s, id)[i]).id != id,
    decreases s.len(),
{
    if s.len() > 0 {
        delete_removes_id(s.drop_last(), id);
        let r = without_id(s.drop_last(), id);
        let w = without_id(s, id);
        assert forall|i: int| 0 <= i < w.len() implies (#[trigger] w[i]).id != id by {
            if i < r.len() {
                assert(w[i] == r[i]);
            }
        }
    }
}

/// A deletion keeps every session with another id.
pub proof fn delete_keeps_others(s: Seq<Session>, id: u64)
    ensures
        forall|x: Session| #[trigger] s.contains(x) && x.id != id ==> without_id(s, id).contains(x),
        forall|x: Session| #[trigger] without_id(s, id).contains(x) ==> s.contains(x),
    decreases s.len(),
{
    if s.len() > 0 {
        delete_keeps_others(s.drop_last(), id);
        let r = without_id(s.drop_last(), id);
        assert forall|x: Session| #[trigger] s.contains(x) && x.id != id implies without_id(
            s,
            id,
        ).contains(x) by {
            let i = choose|i: int| 0 <= i < s.len() && s[i] == x;
            if i < s.len() - 1 {
                assert(s.drop_last()[i] == x);
                assert(s.drop_last().contains(x));
                let k = choose|k: int| 0 <= k < r.len() && r[k] == x;
                if s.last().id != id {
                    assert(without_id(s, id)[k] == x);
                }
            } else {
                assert(without_id(s, id) == r.push(s.last()));
                assert(without_id(s, id)[r.len() as int] == x);
            }
        }
        assert forall|x: Session| #[trigger] without_id(s, id).contains(x) implies s.contains(x) by {
            let k = choose|k: int| 0 <= k < without_id(s, id).len() && without_id(s, id)[k] == x;
            if k < r.len() {
                assert(r[k] == x);
                assert(r.contains(x));
                let i = choose|i: int| 0 <= i < s.drop_last().len() && s.drop_last()[i] == x;
                assert(s[i] == x);
            } else {
                assert(s[s.len() - 1] == x);
            }
        }
    }
}

/// Deleting an id that no session carries changes nothing.
pub proof fn delete_absent_id_changes_nothing(s: Seq<Session>, id: u64)
    requires
        forall|i: int| 0 <= i < s.len() ==> (#[trigger] s[i]).id != id,
    ensures
        without_id(s, id) == s,
    decreases s.len(),
{
    if s.len() > 0 {
        delete_absent_id_changes_nothing(s.drop_last(), id);
        assert(s.drop_last().push(s.last()) =~= s);
    }
}

/// No two sessions share an id.
pub open spec fn ids_distinct(s: Seq<Session>) -> bool {
    forall|i: int, j: int| 0 <= i < j < s.len() ==> (#[trigger] s[i]).id != (#[trigger] s[j]).id
}

proof fn lemma_sort_members(s: Seq<Session>)
    ensures
        sort_by_start(s).len() == s.len(),
        forall|i: int|
            0 <= i < s.len() ==> exists|j: int| 0 <= j < s.len() && #[trigger] sort_by_start(s)[i] == s[j],
    decreases s.len(),
{
    if s.len() > 0 {
        let d = s.drop_last();
        lemma_sort_members(d);
        let r = sort_by_start(d);
        let p = insert_pos(r, s.last().started_at, r.len() as int);
        lemma_insert_pos(r, s.last().started_at, r.len() as int);
        let t = r.insert(p, s.last());
        assert forall|i: int| 0 <= i < s.len() implies exists|j: int|
            0 <= j < s.len() && #[trigger] sort_by_start(s)[i] == s[j] by {
            if i == p {
                assert(t[i] == s[s.len() - 1]);
            } else {
                let k = if i < p {
                    i
                } else {
                    i - 1
                };
                assert(t[i] == r[k]);
                assert(sort_by_start(d)[k] == r[k]);
                let j = choose|j: int| 0 <= j < d.len() && sort_by_start(d)[k] == d[j];
                assert(s[j] == d[j]);
            }
        }
    }
}

proof fn lemma_sort_ids_distinct(s: Seq<Session>)
    requires
        ids_distinct(s),
    ensures
        ids_distinct(sort_by_start(s)),
    decreases s.len(),
{
    if s.len() > 0 {
        let d = s.drop_last();
        assert(ids_distinct(d)) by {
            assert forall|i: int, j: int| 0 <= i < j < d.len() implies (#[trigger] d[i]).id != (
            #[trigger] d[j]).id by {
                assert(d[i] == s[i] && d[j] == s[j]);
            }
        }
        lemma_sort_ids_distinct(d);
        lemma_sort_members(d);
        let r = sort_by_start(d);
        let x = s.last();
        let p = insert_pos(r, x.started_at, r.len() as int);
        lemma_insert_pos(r, x.started_at, r.len() as int);
        let t = r.insert(p, x);
        assert forall|k: int| 0 <= k < r.len() implies (#[trigger] r[k]).id != x.id by {
            assert(sort_by_start(d)[k] == r[k]);
            let j = choose|j: int| 0 <= j < d.len() && sort_by_start(d)[k] == d[j];
            assert(d[j] == s[j]);
            assert(s[j].id != s[s.len() - 1].id);
        }
        assert forall|i: int, j: int| 0 <= i < j < t.len() implies (#[trigger] t[i]).id != (
        #[trigger] t[j]).id by {
            if i < p && j < p {
                assert(t[i] == r[i] && t[j] == r[j]);
            } else if i < p && j == p {
                assert(t[i] == r[i]);
            } else if i < p {
                assert(t[i] == r[i] && t[j] == r[j - 1]);
            } else if i == p {
                assert(t[j] == r[j - 1]);
            } else {
                assert(t[i] == r[i - 1] && t[j] == r[j - 1]);
            }
        }
    }
}

/// Saving a session under a freshly handed-out id keeps the ids distinct
/// and below the new next id, which is at least 2.
pub proof fn saving_keeps_ids_fresh(sessions: Seq<Session>, next_id: u64, s: Session)
    requires
        ids_distinct(sessions),
        ids_below_next(sessions, next_id),
        next_id < u64::MAX,
        s.id == fresh_id(next_id),
    ensures
        ids_distinct(sort_by_start(sessions.push(s))),
        ids_below_next(sort_by_start(sessions.push(s)), (fresh_id(next_id) + 1) as u64),
        fresh_id(next_id) + 1 >= 2,
{
    let t = sessions.push(s);
    assert(ids_distinct(t)) by {
        assert forall|i: int, j: int| 0 <= i < j < t.len() implies (#[trigger] t[i]).id != (
        #[trigger] t[j]).id by {
            if j == sessions.len() {
                assert(t[i] == sessions[i]);
            } else {
                assert(t[i] == sessions[i] && t[j] == sessions[j]);
            }
        }
    }
    lemma_sort_ids_distinct(t);
    lemma_sort_members(t);
    assert forall|i: int| 0 <= i < sort_by_start(t).len() implies (#[trigger] sort_by_start(t)[i]).id
        < (fresh_id(next_id) + 1) as u64 by {
        let j = choose|j: int| 0 <= j < t.len() && sort_by_start(t)[i] == t[j];
        if j < sessions.len() {
            assert(t[j] == sessions[j]);
        }
    }
}

/// A handed-out id is carried by no session, and the next id stays above
/// every id in use.
pub proof fn allocated_id_is_fresh(s: Seq<Session>, next_id: u64)
    requires
        ids_below_next(s, next_id),
        next_id < u64::MAX,
    ensures
        forall|i: int| 0 <= i < s.len() ==> (#[trigger] s[i]).id != fresh_id(next_id),
        ids_below_next(s, (fresh_id(next_id) + 1) as u64),
{
}

} // verus!

verus! {

/// Two sessions cover the same span: same start and same end.
pub open spec fn same_span(a: Session, b: Session) -> bool {
    a.started_at == b.started_at && a.ended_at == b.ended_at
}

/// Some session of `s` covers the span of `b`.
pub open spec fn has_span(s: Seq<Session>, b: Session) -> bool {
    exists|i: int| 0 <= i < s.len() && same_span(#[trigger] s[i], b)
}

/// A backup merged into the sessions `cur` whose next id is `next`: each
/// backup session, in order, is skipped when a session with the same start
/// and end is already there, and otherwise added under a fresh id. Gives
/// the sessions (before sorting) and the next id.
pub open spec fn merge_spec(cur: Seq<Session>, next: u64, backup: Seq<Session>) -> (Seq<Session>, u64)
    decreases backup.len(),
{
    if backup.len() == 0 {
        (cur, next)
    } else {
        let (r, n) = merge_spec(cur, next, backup.drop_last());
        let b = backup.last();
        if has_span(r, b) {
            (r, n)
        } else {
            (r.push(Session { id: fresh_id(n), ..b }), (fresh_id(n) + 1) as u64)
        }
    }
}

/// How many backup sessions were added and how many were skipped.
#[derive(Clone, Copy, Debug, PartialEq, Eq, Structural)]
pub struct ImportReport {
    pub imported: u64,
    pub skipped: u64,
}

fn spans_contain(s: &Vec<Session>, b: &Session) -> (r: bool)
    ensures
        r == has_span(s@, *b),
{
    let mut i: usize = 0;
    while i < s.len()
        invariant
            0 <= i <= s.len(),
            forall|k: int| 0 <= k < i ==> !same_span(#[trigger] s@[k], *b),
        decreases s.len() - i,
    {
        if s[i].started_at == b.started_at && s[i].ended_at == b.ended_at {
            proof {
                assert(same_span(s@[i as int], *b));
            }
            return true;
        }
        i = i + 1;
    }
    false
}

impl Database {
    /// Merges a backup into the database: sessions already there are kept,
    /// a backup session with the same start and end as one already there is
    /// skipped, the others are added under fresh ids; then the sessions are
    /// put in order of their start. On an empty database this restores the
    /// backup.
    pub fn import_sessions(&mut self, backup: Vec<Session>) -> (rep: ImportReport)
        requires
            old(self).next_id + backup@.len() < u64::MAX,
        ensures
            final(self).sessions@ == sort_by_start(
                merge_spec(old(self).sessions@, old(self).next_id, backup@).0,
            ),
            final(self).next_id == merge_spec(old(self).sessions@, old(self).next_id, backup@).1,
            final(self).language == old(self).language,
            rep.imported + rep.skipped == backup@.len(),
            rep.imported == merge_spec(old(self).sessions@, old(self).next_id, backup@).0.len()
                - old(self).sessions@.len(),
    {
        let ghost cur = self.sessions@;
        let ghost next = self.next_id;
        let ghost bs = backup@;
        let mut backup = backup;
        let n = backup.len();
        let mut k: usize = 0;
        let mut imported: u64 = 0;
        let mut skipped: u64 = 0;
        while backup.len() > 0
            invariant
                n == bs.len(),
                k + backup@.len() == n,
                backup@ == bs.skip(k as int),
                (self.sessions@, self.next_id) == merge_spec(cur, next, bs.take(k as int)),
                imported + skipped == k,
                self.sessions@.len() == cur.len() + imported,
                self.next_id <= next + imported + 1,
                imported <= k,
                next + n < u64::MAX,
                self.next_id >= next,
                self.language == old(self).language,
            decreases backup@.len(),
        {
            let b = backup.remove(0);
            proof {
                assert(bs.take((k + 1) as int).drop_last() =~= bs.take(k as int));
                assert(bs.take((k + 1) as int).last() == b);
                assert(backup@ =~= bs.skip((k + 1) as int));
            }
            if spans_contain(&self.sessions, &b) {
                skipped = skipped + 1;
            } else {
                let id = self.allocate_id();
                let s = Session { id, ..b };
                self.sessions.push(s);
                imported = imported + 1;
            }
            k = k + 1;
        }
        proof {
            assert(bs.take(n as int) =~= bs);
        }
        sort_sessions(&mut self.sessions);
        ImportReport { imported, skipped }
    }
}

/// Importing keeps every session that was there.
pub proof fn import_keeps_existing(cur: Seq<Session>, next: u64, backup: Seq<Session>)
    ensures
        merge_spec(cur, next, backup).0.len() >= cur.len(),
        forall|i: int| 0 <= i < cur.len() ==> merge_spec(cur, next, backup).0[i] == cur[i],
    decreases backup.len(),
{
    if backup.len() > 0 {
        import_keeps_existing(cur, next, backup.drop_last());
    }
}

/// A backup session is skipped only when a session with its start and end
/// is there; otherwise it is added, under a fresh id.
pub proof fn import_skips_only_duplicates(cur: Seq<Session>, next: u64, backup: Seq<Session>)
    ensures
        forall|j: int| 0 <= j < backup.len() ==> has_span(merge_spec(cur, next, backup).0, #[trigger] backup[j]),
    decreases backup.len(),
{
    if backup.len() > 0 {
        let prefix = backup.drop_last();
        import_skips_only_duplicates(cur, next, prefix);
        import_keeps_prefix(cur, next, backup);
        let r = merge_spec(cur, next, prefix).0;
        let b = backup.last();
        let r2 = merge_spec(cur, next, backup).0;
        assert forall|j: int| 0 <= j < backup.len() implies has_span(r2, #[trigger] backup[j]) by {
            if j < prefix.len() {
                assert(backup[j] == prefix[j]);
                assert(has_span(r, prefix[j]));
                let i = choose|i: int| 0 <= i < r.len() && same_span(#[trigger] r[i], prefix[j]);
                assert(r2[i] == r[i]);
            } else if !has_span(r, b) {
                assert(same_span(r2[r.len() as int], b));
            }
        }
    }
}

proof fn import_keeps_prefix(cur: Seq<Session>, next: u64, backup: Seq<Session>)
    requires
        backup.len() > 0,
    ensures
        merge_spec(cur, next, backup).0.len() >= merge_spec(cur, next, backup.drop_last()).0.len(),
        forall|i: int|
            0 <= i < merge_spec(cur, next, backup.drop_last()).0.len() ==> merge_spec(
                cur,
                next,
                backup,
            ).0[i] == merge_spec(cur, next, backup.drop_last()).0[i],
{
}

/// Sessions added by an import carry ids that no session had before and
/// that stay below the next id; the next id never goes down.
pub proof fn import_ids_are_fresh(cur: Seq<Session>, next: u64, backup: Seq<Session>)
    requires
        ids_below_next(cur, next),
        next + backup.len() < u64::MAX,
    ensures
        ids_below_next(merge_spec(cur, next, backup).0, merge_spec(cur, next, backup).1),
        merge_spec(cur, next, backup).1 >= next,
        merge_spec(cur, next, backup).1 <= next + backup.len() + 1,
        forall|i: int, j: int|
            0 <= i < cur.len() && cur.len() <= j < merge_spec(cur, next, backup).0.len() ==> (
            #[trigger] cur[i]).id != (#[trigger] merge_spec(cur, next, backup).0[j]).id,
        forall|j: int| cur.len() <= j < merge_spec(cur, next, backup).0.len() ==> (#[trigger] merge_spec(cur, next, backup).0[j]).id >= next,
    decreases backup.len(),
{
    if backup.len() > 0 {
        import_ids_are_fresh(cur, next, backup.drop_last());
        import_keeps_existing(cur, next, backup.drop_last());
    }
}

/// Importing into an empty database restores every backup session whose
/// span no earlier backup session shares.
pub proof fn import_into_empty_restores(next: u64, backup: Seq<Session>)
    requires
        forall|i: int, j: int| 0 <= i < j < backup.len() ==> !same_span(#[trigger] backup[i], #[trigger] backup[j]),
    ensures
        merge_spec(Seq::empty(), next, backup).0.len() == backup.len(),
        forall|j: int|
            0 <= j < backup.len() ==> same_span(
                #[trigger] merge_spec(Seq::empty(), next, backup).0[j],
                backup[j],
            ) && merge_spec(Seq::empty(), next, backup).0[j].topic == backup[j].topic,
        forall|j: int|
            0 <= j < backup.len() ==> #[trigger] merge_spec(Seq::empty(), next, backup).0[j] == (Session {
                id: merge_spec(Seq::empty(), next, backup).0[j].id,
                ..backup[j]
            }),
    decreases backup.len(),
{
    if backup.len() > 0 {
        let prefix = backup.drop_last();
        assert forall|i: int, j: int| 0 <= i < j < prefix.len() implies !same_span(
            #[trigger] prefix[i],
            #[trigger] prefix[j],
        ) by {
            assert(prefix[i] == backup[i] && prefix[j] == backup[j]);
        }
        import_into_empty_restores(next, prefix);
        let r = merge_spec(Seq::empty(), next, prefix).0;
        let b = backup.last();
        if has_span(r, b) {
            let i = choose|i: int| 0 <= i < r.len() && same_span(#[trigger] r[i], b);
            assert(same_span(r[i], prefix[i]));
            assert(same_span(backup[i], backup[backup.len() - 1]));
        }
    }
}

/// Every session an import adds is one of the backup sessions under a new
/// id: its start, end, duration, topic, notes, tags and attachments are
/// those of a backup session.
pub proof fn imported_sessions_keep_their_fields(cur: Seq<Session>, next: u64, backup: Seq<Session>)
    ensures
        merge_spec(cur, next, backup).0.len() >= cur.len(),
        forall|i: int|
            #![trigger merge_spec(cur, next, backup).0[i]]
            cur.len() <= i < merge_spec(cur, next, backup).0.len() ==> exists|j: int|
                #![trigger backup[j]]
                0 <= j < backup.len() && merge_spec(cur, next, backup).0[i] == (Session {
                    id: merge_spec(cur, next, backup).0[i].id,
                    ..backup[j]
                }),
    decreases backup.len(),
{
    if backup.len() > 0 {
        let prefix = backup.drop_last();
        imported_sessions_keep_their_fields(cur, next, prefix);
        let r = merge_spec(cur, next, prefix).0;
        let m = merge_spec(cur, next, backup).0;
        assert forall|i: int| #![trigger m[i]] cur.len() <= i < m.len() implies exists|j: int|
            #![trigger backup[j]]
            0 <= j < backup.len() && m[i] == (Session { id: m[i].id, ..backup[j] }) by {
            if i < r.len() {
                assert(m[i] == r[i]);
                let j = choose|j: int| #![trigger prefix[j]] 0 <= j < prefix.len() && r[i] == (Session { id: r[i].id, ..prefix[j] });
                assert(prefix[j] == backup[j]);
                assert(m[i] == (Session { id: m[i].id, ..backup[j] }));
            } else {
                let k = backup.len() - 1;
                assert(m[i] == (Session { id: m[i].id, ..backup[k] }));
            }
        }
    }
}

} // verus!

verus! {

proof fn lemma_merge_noop(cur: Seq<Session>, next: u64, backup: Seq<Session>)
    requires
        forall|j: int| 0 <= j < backup.len() ==> has_span(cur, #[trigger] backup[j]),
    ensures
        merge_spec(cur, next, backup) == (cur, next),
    decreases backup.len(),
{
    if backup.len() > 0 {
        let prefix = backup.drop_last();
        assert forall|j: int| 0 <= j < prefix.len() implies has_span(cur, #[trigger] prefix[j]) by {
            assert(prefix[j] == backup[j]);
        }
        lemma_merge_noop(cur, next, prefix);
        assert(has_span(cur, backup[backup.len() - 1]));
    }
}

/// Importing the same backup a second time changes nothing.
pub proof fn import_twice_changes_nothing(cur: Seq<Session>, next: u64, backup: Seq<Session>)
    ensures
        merge_spec(merge_spec(cur, next, backup).0, merge_spec(cur, next, backup).1, backup) == merge_spec(cur, next, backup),
{
    import_skips_only_duplicates(cur, next, backup);
    lemma_merge_noop(merge_spec(cur, next, backup).0, merge_spec(cur, next, backup).1, backup);
}

} // verus!

verus! {

/// Whether the total active time of the database fits in an `i64`, which
/// the summary and the statistics need.
pub fn total_secs_fits(db: &Database) -> (b: bool)
    ensures
        b == (total_secs(db.sessions@) <= i64::MAX),
{
    db.total_duration() <= 9223372036854775807u128
}

} // verus!

verus! {

proof fn lemma_without_id_insert(x: Seq<Session>, p: int, s: Session)
    requires
        0 <= p <= x.len(),
        forall|i: int| 0 <= i < x.len() ==> (#[trigger] x[i]).id != s.id,
    ensures
        without_id(x.insert(p, s), s.id) == x,
    decreases x.len(),
{
    if p == x.len() {
        assert(x.insert(p, s) =~= x.push(s));
        assert(x.push(s).drop_last() =~= x);
        delete_absent_id_changes_nothing(x, s.id);
    } else {
        let y = x.drop_last();
        lemma_without_id_insert(y, p, s);
        assert(x.insert(p, s) =~= y.insert(p, s).push(x.last()));
        assert(x.insert(p, s).drop_last() =~= y.insert(p, s));
        assert(y.push(x.last()) =~= x);
    }
}

/// Deleting a session that was just added under a fresh id gives back the
/// sessions as they were, when they were in order.
pub proof fn delete_undoes_insert(sessions: Seq<Session>, s: Session)
    requires
        sorted_by_start(sessions),
        forall|i: int| 0 <= i < sessions.len() ==> (#[trigger] sessions[i]).id != s.id,
    ensures
        without_id(sort_by_start(sessions.push(s)), s.id) == sessions,
{
    sort_by_start_keeps_sorted(sessions);
    assert(sessions.push(s).drop_last() =~= sessions);
    let p = insert_pos(sessions, s.started_at, sessions.len() as int);
    lemma_insert_pos(sessions, s.started_at, sessions.len() as int);
    lemma_without_id_insert(sessions, p, s);
}

} // verus!

verus! {

/// A session added to the database is listed in it.
pub proof fn inserted_session_is_listed(sessions: Seq<Session>, s: Session)
    ensures
        sort_by_start(sessions.push(s)).contains(s),
{
    sort_by_start_keeps_sessions(sessions.push(s));
    assert(sessions.push(s)[sessions.len() as int] == s);
    assert(sessions.push(s).to_multiset().count(s) > 0);
}

} // verus!

verus! {

/// The sessions that start at the instant `t`, in their order.
pub open spec fn starting_at(s: Seq<Session>, t: UtcTime) -> Seq<Session>
    decreases s.len(),
{
    if s.len() == 0 {
        Seq::empty()
    } else if s.last().started_at == t {
        starting_at(s.drop_last(), t).push(s.last())
    } else {
        starting_at(s.drop_last(), t)
    }
}

proof fn lemma_starting_at_concat(a: Seq<Session>, b: Seq<Session>, t: UtcTime)
    ensures
        starting_at(a + b, t) == starting_at(a, t) + starting_at(b, t),
    decreases b.len(),
{
    if b.len() == 0 {
        assert(a + b =~= a);
        assert(starting_at(a, t) + starting_at(b, t) =~= starting_at(a, t));
    } else {
        lemma_starting_at_concat(a, b.drop_last(), t);
        assert((a + b).drop_last() =~= a + b.drop_last());
        assert((a + b).last() == b.last());
        if b.last().started_at == t {
            assert(starting_at(a, t) + starting_at(b, t) =~= (starting_at(a, t) + starting_at(
                b.drop_last(),
                t,
            )).push(b.last()));
        }
    }
}

proof fn lemma_starting_at_none(b: Seq<Session>, t: UtcTime)
    requires
        forall|k: int| 0 <= k < b.len() ==> (#[trigger] b[k]).started_at != t,
    ensures
        starting_at(b, t) == Seq::<Session>::empty(),
    decreases b.len(),
{
    if b.len() > 0 {
        lemma_starting_at_none(b.drop_last(), t);
    }
}

/// Sorting keeps the order of sessions that start at the same instant.
pub proof fn sort_by_start_is_stable(s: Seq<Session>, t: UtcTime)
    ensures
        starting_at(sort_by_start(s), t) == starting_at(s, t),
    decreases s.len(),
{
    if s.len() > 0 {
        sort_by_start_is_stable(s.drop_last(), t);
        let r = sort_by_start(s.drop_last());
        let x = s.last();
        let p = insert_pos(r, x.started_at, r.len() as int);
        lemma_insert_pos(r, x.started_at, r.len() as int);
        let head = r.take(p);
        let tail = r.skip(p);
        assert(r =~= head + tail);
        assert(r.insert(p, x) =~= head + (seq![x] + tail));
        lemma_starting_at_concat(head, seq![x] + tail, t);
        lemma_starting_at_concat(seq![x], tail, t);
        lemma_starting_at_concat(head, tail, t);
        assert(seq![x].drop_last() =~= Seq::<Session>::empty());
        assert(seq![x].last() == x);
        assert(starting_at(Seq::<Session>::empty(), t) == Seq::<Session>::empty());
        assert(starting_at(seq![x], t) == if x.started_at == t {
            starting_at(seq![x].drop_last(), t).push(x)
        } else {
            starting_at(seq![x].drop_last(), t)
        });
        if x.started_at == t {
            assert forall|k: int| 0 <= k < tail.len() implies (#[trigger] tail[k]).started_at != t by {
                assert(tail[k] == r[p + k]);
                assert(!r[p + k].started_at.le(x.started_at));
            }
            lemma_starting_at_none(tail, t);
            assert(starting_at(seq![x], t) =~= seq![x]);
            assert(starting_at(r.insert(p, x), t) =~= starting_at(head, t).push(x));
            assert(starting_at(r, t) =~= starting_at(head, t));
        } else {
            assert(starting_at(seq![x], t) =~= Seq::<Session>::empty());
            assert(starting_at(r.insert(p, x), t) =~= starting_at(r, t));
        }
    }
}

} // verus!
