//! The tracker's screen state and what each button does to it: the timer
//! screen, the form that saves a finished session, the session list, files
//! dropped on the window and the results of exports.

use vstd::prelude::*;
use vstd::string::*;
use crate::text::{owned, trim, trim_spec, parse_tags, tags_spec, views, push_decimal, decimal, join, join_spec};
use crate::lang::{Language, Msg, text, say};
use crate::clock::{UtcTime, utc_now, LocalStamp, reads, timestamp_valid, stamp_read, clock_read, lemma_clock_read};
use crate::timer::RunningTimer;
use crate::model::{Attachment, Session, Database, sort_by_start, without_id, total_secs};
use crate::format::{fmt_dt_in, fmt_dur_human_in, fmt_hms, hms_spec, dur_human_in_spec, local_dt_in_spec};
use crate::paths::{add_manual_path_in, manual_outcome};

verus! {

/// The tabs of the window.
#[derive(Clone, Copy, Debug, PartialEq, Eq, Structural)]
pub enum Tab {
    Timer,
    Sessions,
    Stats,
    Export,
}

/// A finished session waiting for its topic, notes and tags.
#[derive(Debug)]
pub struct Draft {
    pub started_at: UtcTime,
    pub ended_at: UtcTime,
    /// Active time in seconds.
    pub duration_secs: u64,
    pub topic: String,
    pub notes: String,
    /// The tags as typed, separated by commas.
    pub tags: String,
    /// Paths of the files to attach.
    pub attachments: Vec<String>,
    /// Whether "discard" was clicked once and waits for confirmation.
    pub discard_armed: bool,
}

/// The buttons of the timer screen.
#[derive(Clone, Copy, Debug, PartialEq, Eq, Structural)]
pub enum TimerAction {
    Start,
    Pause,
    Resume,
    Finish,
    CancelArm,
    CancelUnarm,
    CancelDo,
}

/// The two kinds of export.
#[derive(Clone, Copy, Debug, PartialEq, Eq, Structural)]
pub enum ExportKind {
    Csv,
    Json,
}

/// Everything the window remembers between frames, apart from file paths.
#[derive(Debug)]
pub struct MesaiState {
    pub db: Database,
    pub tab: Tab,
    pub timer: Option<RunningTimer>,
    /// Files collected while the timer runs.
    pub pending_attachments: Vec<String>,
    pub draft: Option<Draft>,
    /// The path input box.
    pub manual_path: String,
    /// The status line at the bottom.
    pub status: String,
    /// Whether "cancel" was clicked once and waits for confirmation.
    pub cancel_armed: bool,
    /// The session whose deletion waits for confirmation.
    pub confirm_delete: Option<u64>,
    /// The last file exported.
    pub last_export: Option<String>,
}

/// The copies that were made, in order, leaving out those that failed.
pub open spec fn made_copies(c: Seq<Option<Attachment>>) -> Seq<Attachment>
    decreases c.len(),
{
    if c.len() == 0 {
        Seq::empty()
    } else {
        match c.last() {
            Some(a) => made_copies(c.drop_last()).push(a),
            None => made_copies(c.drop_last()),
        }
    }
}

/// The number of copies that failed.
pub open spec fn failed_copies(c: Seq<Option<Attachment>>) -> nat
    decreases c.len(),
{
    if c.len() == 0 {
        0
    } else {
        failed_copies(c.drop_last()) + if c.last() is None {
            1nat
        } else {
            0nat
        }
    }
}

/// The status after a session was saved.
pub open spec fn saved_msg(lang: Language, failed: nat) -> Seq<char> {
    if failed == 0 {
        text(lang, Msg::Saved)
    } else {
        text(lang, Msg::SavedFailedBefore) + decimal(failed) + text(lang, Msg::SavedFailedAfter)
    }
}

/// The session a draft becomes, with its id and the copies made of its files.
pub open spec fn session_of_draft(s: Session, d: Draft, id: u64, copies: Seq<Option<Attachment>>) -> bool {
    &&& s.id == id
    &&& s.started_at == d.started_at
    &&& s.ended_at == d.ended_at
    &&& s.duration_secs == d.duration_secs
    &&& s.topic@ == trim_spec(d.topic@)
    &&& s.notes@ == trim_spec(d.notes@)
    &&& views(s.tags@) == tags_spec(d.tags@)
    &&& s.attachments@ == made_copies(copies)
}

/// The label of a running or paused timer.
pub open spec fn timer_label(lang: Language, paused: bool) -> Seq<char> {
    if paused {
        text(lang, Msg::PausedLabel)
    } else {
        text(lang, Msg::Running)
    }
}

/// The title of a session in the list: start, duration and topic.
pub open spec fn session_title_spec(lang: Language, start: Seq<char>, s: Session) -> Seq<char> {
    start + "  •  "@ + dur_human_in_spec(lang, s.duration_secs as i64 as int) + "  •  "@ + (if s.topic@.len()
        == 0 {
        text(lang, Msg::NoTopic)
    } else {
        s.topic@
    })
}

/// The line above the session list: number of sessions and total time.
pub open spec fn sessions_summary_spec(lang: Language, n: nat, total: int) -> Seq<char> {
    text(lang, Msg::TotalBefore) + decimal(n) + text(lang, Msg::SessionsAfter) + dur_human_in_spec(
        lang,
        total,
    )
}

/// The status after files were dropped on the window.
pub open spec fn dropped_msg(lang: Language, n: nat) -> Seq<char> {
    decimal(n) + text(lang, Msg::DroppedAfter)
}

/// The status after an export.
pub open spec fn export_msg(lang: Language, kind: ExportKind, ok: bool, detail: Seq<char>) -> Seq<char> {
    match kind {
        ExportKind::Csv => if ok {
            text(lang, Msg::CsvWritten) + detail
        } else {
            text(lang, Msg::CsvError) + detail
        },
        ExportKind::Json => if ok {
            text(lang, Msg::JsonWritten) + detail
        } else {
            text(lang, Msg::JsonError) + detail
        },
    }
}

fn take_vec(v: &mut Vec<String>) -> (r: Vec<String>)
    ensures
        r@ == old(v)@,
        final(v)@ == Seq::<String>::empty(),
{
    let mut r: Vec<String> = Vec::new();
    std::mem::swap(&mut r, v);
    r
}

fn extend_vec(v: &mut Vec<String>, more: Vec<String>)
    ensures
        final(v)@ == old(v)@ + more@,
{
    let ghost start = v@;
    let ghost m = more@;
    let mut more = more;
    let mut k: usize = 0;
    let n = more.len();
    while more.len() > 0
        invariant
            n == m.len(),
            k + more@.len() == n,
            more@ == m.skip(k as int),
            v@ == start + m.take(k as int),
        decreases more@.len(),
    {
        let x = more.remove(0);
        proof {
            assert(m.take((k + 1) as int) =~= m.take(k as int).push(x));
            assert(more@ =~= m.skip((k + 1) as int));
        }
        v.push(x);
        k = k + 1;
    }
    proof {
        assert(m.take(n as int) =~= m);
    }
}

/// The state after the running session was dropped: no timer, no collected
/// files, the confirmation withdrawn.
pub open spec fn cancelled(old: MesaiState, new: MesaiState) -> bool {
    &&& new.timer is None
    &&& new.pending_attachments@.len() == 0
    &&& !new.cancel_armed
    &&& new.draft is None
    &&& new.status@ == text(old.db.language, Msg::Cancelled)
}

/// What a button of the timer screen does at the instant `now`, from the
/// state `old` to the state `new` (besides leaving the database, tab,
/// pending deletion, path input and last export as they were). Dropping
/// the running session takes two clicks: without the first one the second
/// changes nothing.
pub open spec fn timer_step(old: MesaiState, new: MesaiState, act: TimerAction, now: UtcTime) -> bool {
    let lang = old.db.language;
    &&& new.db == old.db
    &&& new.tab == old.tab
    &&& new.confirm_delete == old.confirm_delete
    &&& new.manual_path == old.manual_path
    &&& new.last_export == old.last_export
    &&& match act {
        TimerAction::Start => {
            &&& new.timer == Some(RunningTimer::started(now))
            &&& new.pending_attachments@.len() == 0
            &&& !new.cancel_armed
            &&& new.draft is None
            &&& new.status@ == text(lang, Msg::Started)
        },
        TimerAction::Pause => {
            &&& new.timer == match old.timer {
                Some(t) => Some(t.paused_at(now)),
                None => None,
            }
            &&& new.pending_attachments == old.pending_attachments
            &&& new.cancel_armed == old.cancel_armed
            &&& new.draft is None
            &&& new.status@ == text(lang, Msg::Paused)
        },
        TimerAction::Resume => {
            &&& new.timer == match old.timer {
                Some(t) => Some(t.resumed_at(now)),
                None => None,
            }
            &&& new.pending_attachments == old.pending_attachments
            &&& new.cancel_armed == old.cancel_armed
            &&& new.draft is None
            &&& new.status@ == text(lang, Msg::Resumed)
        },
        TimerAction::Finish => match old.timer {
            Some(t) => {
                &&& new.timer is None
                &&& new.draft matches Some(d) && {
                    &&& d.started_at == t.started_at
                    &&& d.ended_at == now
                    &&& d.duration_secs == (if t.reading(now) > 0 {
                        t.reading(now)
                    } else {
                        0
                    })
                    &&& d.topic@ == Seq::<char>::empty()
                    &&& d.notes@ == Seq::<char>::empty()
                    &&& d.tags@ == Seq::<char>::empty()
                    &&& d.attachments@ == old.pending_attachments@
                    &&& !d.discard_armed
                }
                &&& new.pending_attachments@.len() == 0
                &&& !new.cancel_armed
                &&& new.status@ == text(lang, Msg::Finished)
            },
            None => {
                &&& new.timer is None
                &&& new.draft is None
                &&& new.pending_attachments == old.pending_attachments
                &&& new.cancel_armed == old.cancel_armed
                &&& new.status == old.status
            },
        },
        TimerAction::CancelArm => {
            &&& new.timer == old.timer
            &&& new.pending_attachments == old.pending_attachments
            &&& new.cancel_armed
            &&& new.draft is None
            &&& new.status == old.status
        },
        TimerAction::CancelUnarm => {
            &&& new.timer == old.timer
            &&& new.pending_attachments == old.pending_attachments
            &&& !new.cancel_armed
            &&& new.draft is None
            &&& new.status == old.status
        },
        TimerAction::CancelDo => if old.cancel_armed {
            cancelled(old, new)
        } else {
            &&& new.timer == old.timer
            &&& new.pending_attachments == old.pending_attachments
            &&& new.cancel_armed == old.cancel_armed
            &&& new.draft is None
            &&& new.status == old.status
        },
    }
}

/// What "discard" does: a draft whose discard was armed is dropped;
/// otherwise nothing changes.
pub open spec fn discard_step(old: MesaiState, new: MesaiState) -> bool {
    if old.draft matches Some(d) && d.discard_armed {
        &&& new.draft is None
        &&& new.status@ == text(old.db.language, Msg::NotSaved)
        &&& new == (MesaiState { draft: new.draft, status: new.status, ..old })
    } else {
        new == old
    }
}

/// What confirming the deletion of the session `id` does: when that
/// deletion was asked for, the session goes and the confirmation is
/// withdrawn; otherwise nothing changes.
pub open spec fn delete_step(old: MesaiState, new: MesaiState, id: u64) -> bool {
    if old.confirm_delete == Some(id) {
        &&& new.db.sessions@ == without_id(old.db.sessions@, id)
        &&& new.db.next_id == old.db.next_id
        &&& new.db.language == old.db.language
        &&& new.confirm_delete is None
        &&& new.status@ == text(old.db.language, Msg::Deleted)
        &&& new == (MesaiState { db: new.db, confirm_delete: None, status: new.status, ..old })
    } else {
        new == old
    }
}

impl MesaiState {
    /// The state of a fresh window over a loaded database, greeting in the
    /// database's language.
    pub fn new(db: Database) -> (st: MesaiState)
        ensures
            st.db == db,
            st.tab == Tab::Timer,
            st.timer is None,
            st.pending_attachments@.len() == 0,
            st.draft is None,
            st.manual_path@ == Seq::<char>::empty(),
            st.status@ == text(db.language, Msg::Ready),
            !st.cancel_armed,
            st.confirm_delete is None,
            st.last_export is None,
    {
        let status = owned(say(db.language, Msg::Ready));
        MesaiState {
            db,
            tab: Tab::Timer,
            timer: None,
            pending_attachments: Vec::new(),
            draft: None,
            manual_path: String::new(),
            status,
            cancel_armed: false,
            confirm_delete: None,
            last_export: None,
        }
    }

    /// Chooses the language of the interface; it is kept with the data.
    pub fn set_language(&mut self, lang: Language)
        ensures
            *final(self) == (MesaiState { db: Database { language: lang, ..old(self).db }, ..*old(self) }),
    {
        self.db.language = lang;
    }

    /// Applies a button of the timer screen at the instant `now`.
    pub fn timer_action_at(&mut self, act: TimerAction, now: UtcTime)
        requires
            old(self).draft is None,
        ensures
            timer_step(*old(self), *final(self), act, now),
    {
        let lang = self.db.language;
        match act {
            TimerAction::Start => {
                self.timer = Some(RunningTimer::new_at(now));
                self.pending_attachments = Vec::new();
                self.cancel_armed = false;
                self.status = owned(say(lang, Msg::Started));
            },
            TimerAction::Pause => {
                match &mut self.timer {
                    Some(t) => {
                        t.pause_at(now);
                    },
                    None => {},
                }
                self.status = owned(say(lang, Msg::Paused));
            },
            TimerAction::Resume => {
                match &mut self.timer {
                    Some(t) => {
                        t.resume_at(now);
                    },
                    None => {},
                }
                self.status = owned(say(lang, Msg::Resumed));
            },
            TimerAction::Finish => {
                match self.timer {
                    Some(t) => {
                        self.timer = None;
                        let e = t.elapsed_at(now);
                        let secs: u64 = if e > 0 {
                            e as u64
                        } else {
                            0
                        };
                        let attachments = take_vec(&mut self.pending_attachments);
                        self.draft = Some(
                            Draft {
                                started_at: t.started_at,
                                ended_at: now,
                                duration_secs: secs,
                                topic: String::new(),
                                notes: String::new(),
                                tags: String::new(),
                                attachments,
                                discard_armed: false,
                            },
                        );
                        self.cancel_armed = false;
                        self.status = owned(say(lang, Msg::Finished));
                    },
                    None => {},
                }
            },
            TimerAction::CancelArm => {
                self.cancel_armed = true;
            },
            TimerAction::CancelUnarm => {
                self.cancel_armed = false;
            },
            TimerAction::CancelDo => {
                if self.cancel_armed {
                    self.timer = None;
                    self.pending_attachments = Vec::new();
                    self.cancel_armed = false;
                    self.status = owned(say(lang, Msg::Cancelled));
                }
            },
        }
    }

    /// Applies a button of the timer screen now.
    pub fn timer_action(&mut self, act: TimerAction)
        requires
            old(self).draft is None,
        ensures
            exists|now: UtcTime| #[trigger] clock_read(now) && timer_step(*old(self), *final(self), act, now),
    {
        let now = utc_now();
        proof {
            lemma_clock_read(now);
        }
        self.timer_action_at(act, now);
    }

    /// Removes a file from those collected while the timer runs.
    pub fn remove_pending(&mut self, i: usize)
        requires
            i < old(self).pending_attachments@.len(),
        ensures
            final(self).pending_attachments@ == old(self).pending_attachments@.remove(i as int),
            *final(self) == (MesaiState {
                pending_attachments: final(self).pending_attachments,
                ..*old(self)
            }),
    {
        self.pending_attachments.remove(i);
    }

    /// Adds the typed path to the files collected while the timer runs and
    /// shows the outcome in the status line.
    pub fn add_pending_path(&mut self)
        ensures
            manual_outcome(
                old(self).db.language,
                old(self).pending_attachments@,
                old(self).manual_path@,
                final(self).pending_attachments@,
                final(self).manual_path@,
                final(self).status@,
            ),
            *final(self) == (MesaiState {
                pending_attachments: final(self).pending_attachments,
                manual_path: final(self).manual_path,
                status: final(self).status,
                ..*old(self)
            }),
    {
        let lang = self.db.language;
        let msg = add_manual_path_in(lang, &mut self.pending_attachments, &mut self.manual_path);
        self.status = msg;
    }

    /// Removes a file from the draft's attachments.
    pub fn remove_draft_attachment(&mut self, i: usize)
        requires
            old(self).draft matches Some(d) && i < d.attachments@.len(),
        ensures
            final(self).draft matches Some(d) && d.attachments@ == old(self).draft->0.attachments@.remove(i as int)
                && d == (Draft { attachments: d.attachments, ..old(self).draft->0 }),
            *final(self) == (MesaiState { draft: final(self).draft, ..*old(self) }),
    {
        match &mut self.draft {
            Some(d) => {
                d.attachments.remove(i);
            },
            None => {},
        }
    }

    /// Adds the typed path to the draft's attachments and shows the outcome
    /// in the status line.
    pub fn add_draft_path(&mut self)
        ensures
            match old(self).draft {
                Some(d) => final(self).draft matches Some(e) && manual_outcome(
                    old(self).db.language,
                    d.attachments@,
                    old(self).manual_path@,
                    e.attachments@,
                    final(self).manual_path@,
                    final(self).status@,
                ) && e == (Draft { attachments: e.attachments, ..d }),
                None => final(self).draft is None && final(self).status == old(self).status
                    && final(self).manual_path == old(self).manual_path,
            },
            *final(self) == (MesaiState {
                draft: final(self).draft,
                manual_path: final(self).manual_path,
                status: final(self).status,
                ..*old(self)
            }),
    {
        let lang = self.db.language;
        match &mut self.draft {
            Some(d) => {
                let msg = add_manual_path_in(lang, &mut d.attachments, &mut self.manual_path);
                self.status = msg;
            },
            None => {},
        }
    }

    /// Arms or disarms the "discard" confirmation of the draft.
    pub fn set_discard_armed(&mut self, armed: bool)
        ensures
            match old(self).draft {
                Some(d) => final(self).draft == Some(Draft { discard_armed: armed, ..d }),
                None => final(self).draft is None,
            },
            *final(self) == (MesaiState { draft: final(self).draft, ..*old(self) }),
    {
        match &mut self.draft {
            Some(d) => {
                d.discard_armed = armed;
            },
            None => {},
        }
    }

    /// Drops the draft without saving it, once "discard" was armed.
    pub fn discard_draft(&mut self)
        ensures
            discard_step(*old(self), *final(self)),
    {
        let armed = match &self.draft {
            Some(d) => d.discard_armed,
            None => false,
        };
        if armed {
            self.draft = None;
            self.status = owned(say(self.db.language, Msg::NotSaved));
        }
    }

    /// Takes the draft out to be saved.
    pub fn take_draft(&mut self) -> (d: Option<Draft>)
        ensures
            d == old(self).draft,
            final(self).draft is None,
            *final(self) == (MesaiState { draft: None, ..*old(self) }),
    {
        let mut d: Option<Draft> = None;
        std::mem::swap(&mut d, &mut self.draft);
        d
    }

    /// Turns a draft into a saved session: `id` was handed out for it and
    /// `copies` are the outcomes of copying its files, in order. The
    /// session's topic and notes are trimmed, its tags parsed, the sessions
    /// put back in order of their start, and the status tells how many
    /// copies failed. Nothing else changes.
    pub fn persist_draft(&mut self, d: Draft, id: u64, copies: Vec<Option<Attachment>>)
        ensures
            exists|s: Session|
                {
                    &&& session_of_draft(s, d, id, copies@)
                    &&& final(self).db.sessions@ == sort_by_start(old(self).db.sessions@.push(s))
                },
            final(self).db.next_id == old(self).db.next_id,
            final(self).db.language == old(self).db.language,
            final(self).status@ == saved_msg(old(self).db.language, failed_copies(copies@)),
            *final(self) == (MesaiState { db: final(self).db, status: final(self).status, ..*old(self) }),
    {
        let ghost cs = copies@;
        let mut copies = copies;
        let mut attachments: Vec<Attachment> = Vec::new();
        let mut failed: u64 = 0;
        let mut k: usize = 0;
        let n = copies.len();
        while copies.len() > 0
            invariant
                n == cs.len(),
                k + copies@.len() == n,
                copies@ == cs.skip(k as int),
                attachments@ == made_copies(cs.take(k as int)),
                failed == failed_copies(cs.take(k as int)),
                failed <= k,
            decreases copies@.len(),
        {
            let c = copies.remove(0);
            proof {
                assert(cs.take((k + 1) as int).drop_last() =~= cs.take(k as int));
                assert(cs.take((k + 1) as int).last() == c);
                assert(copies@ =~= cs.skip((k + 1) as int));
            }
            match c {
                Some(a) => {
                    attachments.push(a);
                },
                None => {
                    failed = failed + 1;
                },
            }
            k = k + 1;
        }
        proof {
            assert(cs.take(n as int) =~= cs);
        }
        let topic = owned(trim(d.topic.as_str()));
        let notes = owned(trim(d.notes.as_str()));
        let tags = parse_tags(d.tags.as_str());
        let s = Session {
            id,
            started_at: d.started_at,
            ended_at: d.ended_at,
            duration_secs: d.duration_secs,
            topic,
            notes,
            tags,
            attachments,
        };
        let ghost sv = s;
        self.db.insert_session(s);
        let lang = self.db.language;
        if failed == 0 {
            self.status = owned(say(lang, Msg::Saved));
        } else {
            let mut msg = owned(say(lang, Msg::SavedFailedBefore));
            push_decimal(&mut msg, failed);
            msg.append(say(lang, Msg::SavedFailedAfter));
            self.status = msg;
        }
        proof {
            assert(session_of_draft(sv, d, id, cs));
        }
    }

    /// Deletes the session `id` once its deletion was confirmed (its files
    /// are removed by the caller first), and withdraws the confirmation.
    pub fn delete_session(&mut self, id: u64)
        ensures
            delete_step(*old(self), *final(self), id),
    {
        let asked = match self.confirm_delete {
            Some(x) => x == id,
            None => false,
        };
        if asked {
            self.db.delete_session(id);
            self.confirm_delete = None;
            self.status = owned(say(self.db.language, Msg::Deleted));
        }
    }

    /// Asks for confirmation before deleting the session `id`.
    pub fn arm_delete(&mut self, id: u64)
        ensures
            *final(self) == (MesaiState { confirm_delete: Some(id), ..*old(self) }),
    {
        self.confirm_delete = Some(id);
    }

    /// Withdraws the pending deletion.
    pub fn disarm_delete(&mut self)
        ensures
            *final(self) == (MesaiState { confirm_delete: None, ..*old(self) }),
    {
        self.confirm_delete = None;
    }

    /// Files dropped on the window: they go to the draft if there is one,
    /// else to the running timer's files; without either they are refused.
    pub fn files_dropped(&mut self, paths: Vec<String>)
        ensures
            *final(self) == (MesaiState {
                draft: final(self).draft,
                pending_attachments: final(self).pending_attachments,
                status: final(self).status,
                ..*old(self)
            }),
            paths@.len() == 0 ==> *final(self) == *old(self),
            paths@.len() > 0 ==> match old(self).draft {
                Some(d) => final(self).draft matches Some(e) && e.attachments@ == d.attachments@
                    + paths@ && e == (Draft { attachments: e.attachments, ..d })
                    && final(self).status@ == dropped_msg(old(self).db.language, paths@.len())
                    && final(self).pending_attachments == old(self).pending_attachments,
                None => if old(self).timer is Some {
                    &&& final(self).pending_attachments@ == old(self).pending_attachments@
                        + paths@
                    &&& final(self).status@ == dropped_msg(old(self).db.language, paths@.len())
                    &&& final(self).draft is None
                } else {
                    &&& final(self).pending_attachments == old(self).pending_attachments
                    &&& final(self).status@ == text(old(self).db.language, Msg::NeedTimer)
                    &&& final(self).draft is None
                },
            },
    {
        let n = paths.len();
        if n == 0 {
            return ;
        }
        let lang = self.db.language;
        let mut msg = String::new();
        push_decimal(&mut msg, n as u64);
        msg.append(say(lang, Msg::DroppedAfter));
        match &mut self.draft {
            Some(d) => {
                extend_vec(&mut d.attachments, paths);
                self.status = msg;
                return ;
            },
            None => {},
        }
        if self.timer.is_some() {
            extend_vec(&mut self.pending_attachments, paths);
            self.status = msg;
        } else {
            self.status = owned(say(lang, Msg::NeedTimer));
        }
    }

    /// Whether the window must be redrawn soon: while the timer runs.
    pub fn needs_repaint(&self) -> (b: bool)
        ensures
            b == (self.timer matches Some(t) && !t.paused),
    {
        match &self.timer {
            Some(t) => !t.paused,
            None => false,
        }
    }

    /// Shows the outcome of an export in the status line; a written file is
    /// remembered.
    pub fn record_export(&mut self, kind: ExportKind, result: Result<String, String>)
        ensures
            match result {
                Ok(p) => final(self).status@ == export_msg(old(self).db.language, kind, true, p@)
                    && final(self).last_export == Some(p),
                Err(e) => final(self).status@ == export_msg(old(self).db.language, kind, false, e@)
                    && final(self).last_export == old(self).last_export,
            },
            *final(self) == (MesaiState {
                status: final(self).status,
                last_export: final(self).last_export,
                ..*old(self)
            }),
    {
        let lang = self.db.language;
        match result {
            Ok(p) => {
                let mut msg = match kind {
                    ExportKind::Csv => owned(say(lang, Msg::CsvWritten)),
                    ExportKind::Json => owned(say(lang, Msg::JsonWritten)),
                };
                msg.append(p.as_str());
                self.status = msg;
                self.last_export = Some(p);
            },
            Err(e) => {
                let mut msg = match kind {
                    ExportKind::Csv => owned(say(lang, Msg::CsvError)),
                    ExportKind::Json => owned(say(lang, Msg::JsonError)),
                };
                msg.append(e.as_str());
                self.status = msg;
            },
        }
    }

    /// Shows a failed save in the status line.
    pub fn record_save_error(&mut self, err: &str)
        ensures
            final(self).status@ == text(old(self).db.language, Msg::SaveError) + err@,
            *final(self) == (MesaiState { status: final(self).status, ..*old(self) }),
    {
        let mut msg = owned(say(self.db.language, Msg::SaveError));
        msg.append(err);
        self.status = msg;
    }
}

/// The label of a running or paused timer.
pub fn timer_label_text(lang: Language, paused: bool) -> (r: &'static str)
    ensures
        r@ == timer_label(lang, paused),
{
    if paused {
        say(lang, Msg::PausedLabel)
    } else {
        say(lang, Msg::Running)
    }
}

/// The label of a timer and its reading, as the top bar shows it:
/// "Running · 00:12:34".
pub fn timer_badge_at(lang: Language, t: &RunningTimer, now: UtcTime) -> (r: String)
    ensures
        r@ == timer_label(lang, t.paused) + " · "@ + hms_spec(t.reading(now)),
{
    let mut r = owned(timer_label_text(lang, t.paused));
    r.append(" · ");
    let h = fmt_hms(t.elapsed_at(now));
    r.append(h.as_str());
    r
}

/// The label of a timer and its reading now, as the top bar shows it.
pub fn timer_badge(lang: Language, t: &RunningTimer) -> (r: String)
    ensures
        exists|now: UtcTime|
            #[trigger] clock_read(now) && r@ == timer_label(lang, t.paused) + " · "@ + hms_spec(t.reading(now)),
{
    let now = utc_now();
    proof {
        lemma_clock_read(now);
    }
    timer_badge_at(lang, t, now)
}

/// The title of a session in the list, given its start as written.
pub fn session_title_with(lang: Language, start: &str, s: &Session) -> (r: String)
    ensures
        r@ == session_title_spec(lang, start@, *s),
{
    let mut r = owned(start);
    r.append("  •  ");
    let d = fmt_dur_human_in(lang, s.duration_secs as i64);
    r.append(d.as_str());
    r.append("  •  ");
    if s.topic.as_str().unicode_len() == 0 {
        r.append(say(lang, Msg::NoTopic));
    } else {
        r.append(s.topic.as_str());
    }
    r
}

/// The title of a session in the list: start in local time (a reading of
/// the session's start, or nothing if `chrono` refuses the instant),
/// duration, topic.
pub fn session_title(lang: Language, s: &Session) -> (r: String)
    ensures
        timestamp_valid(s.started_at) ==> exists|st: LocalStamp|
            #[trigger] stamp_read(s.started_at, Some(st)) && reads(s.started_at, st) && r@
                == session_title_spec(lang, local_dt_in_spec(lang, st), *s),
        !timestamp_valid(s.started_at) ==> r@ == session_title_spec(lang, Seq::<char>::empty(), *s),
{
    let start = fmt_dt_in(lang, &s.started_at);
    session_title_with(lang, start.as_str(), s)
}

/// The line above the session list, in the database's language.
pub fn sessions_summary(db: &Database) -> (r: String)
    requires
        total_secs(db.sessions@) <= i64::MAX,
    ensures
        r@ == sessions_summary_spec(db.language, db.sessions@.len(), total_secs(db.sessions@)),
{
    let total = db.total_duration();
    let mut r = owned(say(db.language, Msg::TotalBefore));
    push_decimal(&mut r, db.sessions.len() as u64);
    r.append(say(db.language, Msg::SessionsAfter));
    let d = fmt_dur_human_in(db.language, total as i64);
    r.append(d.as_str());
    r
}

/// The tags of a session as the list shows them, "c, shell".
pub fn tags_line(s: &Session) -> (r: String)
    ensures
        r@ == join_spec(views(s.tags@), ", "@),
{
    join(&s.tags, ", ")
}

/// The status after an import: how many sessions came in and how many
/// were skipped as already there.
pub open spec fn imported_msg(lang: Language, imported: nat, skipped: nat) -> Seq<char> {
    decimal(imported) + text(lang, Msg::ImportedAfter) + decimal(skipped) + text(lang, Msg::SkippedAfter)
}

impl MesaiState {
    /// Shows the outcome of an import in the status line.
    pub fn record_import(&mut self, imported: u64, skipped: u64)
        ensures
            final(self).status@ == imported_msg(old(self).db.language, imported as nat, skipped as nat),
            *final(self) == (MesaiState { status: final(self).status, ..*old(self) }),
    {
        let lang = self.db.language;
        let mut msg = String::new();
        push_decimal(&mut msg, imported);
        msg.append(say(lang, Msg::ImportedAfter));
        push_decimal(&mut msg, skipped);
        msg.append(say(lang, Msg::SkippedAfter));
        self.status = msg;
    }

    /// Shows a failed import in the status line.
    pub fn record_import_error(&mut self, err: &str)
        ensures
            final(self).status@ == text(old(self).db.language, Msg::ImportError) + err@,
            *final(self) == (MesaiState { status: final(self).status, ..*old(self) }),
    {
        let mut msg = owned(say(self.db.language, Msg::ImportError));
        msg.append(err);
        self.status = msg;
    }
}

/// The status after a JSON backup was written: as after any export, and,
/// when some attachments were too large to go in, how many.
pub open spec fn backup_msg(lang: Language, result: Result<Seq<char>, Seq<char>>, skipped: nat) -> Seq<char> {
    match result {
        Ok(p) => if skipped == 0 {
            export_msg(lang, ExportKind::Json, true, p)
        } else {
            export_msg(lang, ExportKind::Json, true, p) + text(lang, Msg::LargeBefore) + decimal(skipped)
                + text(lang, Msg::LargeAfter)
        },
        Err(e) => export_msg(lang, ExportKind::Json, false, e),
    }
}

impl MesaiState {
    /// Shows the outcome of writing a JSON backup, in which `skipped`
    /// attachments were too large to go in; a written file is remembered.
    pub fn record_backup(&mut self, result: Result<String, String>, skipped: u64)
        ensures
            final(self).status@ == backup_msg(
                old(self).db.language,
                match result {
                    Ok(p) => Ok(p@),
                    Err(e) => Err(e@),
                },
                skipped as nat,
            ),
            final(self).last_export == match result {
                Ok(p) => Some(p),
                Err(_) => old(self).last_export,
            },
            *final(self) == (MesaiState {
                status: final(self).status,
                last_export: final(self).last_export,
                ..*old(self)
            }),
    {
        let ok = result.is_ok();
        self.record_export(ExportKind::Json, result);
        if ok && skipped > 0 {
            let lang = self.db.language;
            self.status.append(say(lang, Msg::LargeBefore));
            push_decimal(&mut self.status, skipped);
            self.status.append(say(lang, Msg::LargeAfter));
        }
    }
}

/// The positions, in order, of the sessions whose ids are not among
/// `before`: the sessions an import added.
pub fn added_sessions(sessions: &Vec<Session>, before: &Vec<u64>) -> (r: Vec<usize>)
    ensures
        forall|k: int| 0 <= k < r@.len() ==> (#[trigger] r@[k]) < sessions@.len()
            && !before@.contains(sessions@[r@[k] as int].id),
        forall|k: int, l: int| 0 <= k < l < r@.len() ==> (#[trigger] r@[k]) < (#[trigger] r@[l]),
        forall|i: int|
            0 <= i < sessions@.len() && !before@.contains((#[trigger] sessions@[i]).id) ==> r@.contains(
                i as usize,
            ),
{
    let mut r: Vec<usize> = Vec::new();
    let mut i: usize = 0;
    while i < sessions.len()
        invariant
            0 <= i <= sessions.len(),
            forall|k: int| 0 <= k < r@.len() ==> (#[trigger] r@[k]) < i
                && !before@.contains(sessions@[r@[k] as int].id),
            forall|k: int, l: int| 0 <= k < l < r@.len() ==> (#[trigger] r@[k]) < (#[trigger] r@[l]),
            forall|j: int|
                0 <= j < i && !before@.contains((#[trigger] sessions@[j]).id) ==> r@.contains(
                    j as usize,
                ),
        decreases sessions.len() - i,
    {
        let id = sessions[i].id;
        let mut seen = false;
        let mut j: usize = 0;
        while j < before.len()
            invariant
                0 <= j <= before.len(),
                seen <==> exists|m: int| 0 <= m < j && before@[m] == id,
            decreases before.len() - j,
        {
            if before[j] == id {
                seen = true;
            }
            j = j + 1;
        }
        let ghost old_r = r@;
        if !seen {
            r.push(i);
            proof {
                assert(r@[old_r.len() as int] == i);
                assert forall|jj: int|
                    0 <= jj < i + 1 && !before@.contains((#[trigger] sessions@[jj]).id) implies r@.contains(
                    jj as usize,
                ) by {
                    if jj < i {
                        let m = choose|m: int| 0 <= m < old_r.len() && old_r[m] == jj as usize;
                        assert(r@[m] == jj as usize);
                    } else {
                        assert(r@[old_r.len() as int] == jj as usize);
                    }
                }
            }
        } else {
            proof {
                let m = choose|m: int| 0 <= m < before@.len() && before@[m] == id;
                assert(before@.contains(sessions@[i as int].id));
            }
        }
        i = i + 1;
    }
    r
}

/// The attachment records of a restored session: the new copy where one
/// was made, otherwise the record from the backup as it was.
pub fn restored_attachments(olds: Vec<Attachment>, copies: Vec<Option<Attachment>>) -> (r: Vec<Attachment>)
    requires
        olds@.len() == copies@.len(),
    ensures
        r@.len() == olds@.len(),
        forall|i: int| 0 <= i < r@.len() ==> #[trigger] r@[i] == match copies@[i] {
            Some(c) => c,
            None => olds@[i],
        },
{
    let ghost os = olds@;
    let ghost cs = copies@;
    let mut olds = olds;
    let mut copies = copies;
    let mut r: Vec<Attachment> = Vec::new();
    let n = olds.len();
    let mut k: usize = 0;
    while olds.len() > 0
        invariant
            n == os.len(),
            os.len() == cs.len(),
            k + olds@.len() == n,
            olds@.len() == copies@.len(),
            olds@ == os.skip(k as int),
            copies@ == cs.skip(k as int),
            r@.len() == k,
            forall|i: int| 0 <= i < k ==> #[trigger] r@[i] == match cs[i] {
                Some(c) => c,
                None => os[i],
            },
        decreases olds@.len(),
    {
        let a = olds.remove(0);
        let c = copies.remove(0);
        proof {
            assert(os.skip(k as int)[0] == a);
            assert(cs.skip(k as int)[0] == c);
            assert(olds@ =~= os.skip((k + 1) as int));
            assert(copies@ =~= cs.skip((k + 1) as int));
        }
        match c {
            Some(x) => {
                r.push(x);
            },
            None => {
                r.push(a);
            },
        }
        k = k + 1;
    }
    r
}

/// A running session is never dropped by one click: without the first
/// click the confirming one leaves the timer and its files as they were.
pub proof fn cancel_takes_two_clicks(old: MesaiState, new: MesaiState, now: UtcTime)
    requires
        timer_step(old, new, TimerAction::CancelDo, now),
        !old.cancel_armed,
    ensures
        new.timer == old.timer,
        new.pending_attachments == old.pending_attachments,
{
}

/// A finished session is never dropped unsaved by one click: without the
/// first click "discard" leaves the draft as it was.
pub proof fn discard_takes_two_clicks(old: MesaiState, new: MesaiState)
    requires
        discard_step(old, new),
        old.draft matches Some(d) && !d.discard_armed,
    ensures
        new == old,
{
}

/// A session is deleted only when its deletion was asked for first.
pub proof fn delete_takes_two_clicks(old: MesaiState, new: MesaiState, id: u64)
    requires
        delete_step(old, new, id),
        old.confirm_delete != Some(id),
    ensures
        new == old,
{
}

/// No button of the timer screen makes a running timer and an unsaved
/// draft exist together.
pub proof fn timer_and_draft_exclude(old: MesaiState, new: MesaiState, act: TimerAction, now: UtcTime)
    requires
        old.draft is None,
        timer_step(old, new, act, now),
    ensures
        !(new.timer is Some && new.draft is Some),
{
}

/// The attachments of a saved session are exactly the copies that were
/// made, in order: the `Some` entries of the copy outcomes; their number and
/// the number of failures make up all the outcomes, and with no failure
/// every outcome is kept.
pub proof fn saved_attachments_are_the_copies(c: Seq<Option<Attachment>>)
    ensures
        made_copies(c) == c.filter_map(|o: Option<Attachment>| o),
        made_copies(c).len() + failed_copies(c) == c.len(),
        failed_copies(c) == 0 ==> made_copies(c).len() == c.len() && forall|k: int|
            0 <= k < c.len() ==> #[trigger] c[k] == Some(made_copies(c)[k]),
    decreases c.len(),
{
    if c.len() > 0 {
        let d = c.drop_last();
        saved_attachments_are_the_copies(d);
        match c.last() {
            Some(a) => {
                assert(made_copies(c) == made_copies(d).push(a));
                assert(d.filter_map(|o: Option<Attachment>| o) + seq![a] =~= d.filter_map(
                    |o: Option<Attachment>| o,
                ).push(a));
                if failed_copies(c) == 0 {
                    assert forall|k: int| 0 <= k < c.len() implies #[trigger] c[k] == Some(
                        made_copies(c)[k],
                    ) by {
                        if k < d.len() {
                            assert(c[k] == d[k]);
                        }
                    }
                }
            },
            None => {},
        }
    }
}

} // verus!
