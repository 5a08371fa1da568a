//! File paths: where the data lives, `~` expansion, the path typed by hand,
//! the export folder, and the names under which attachments are kept.
//! Paths are handled as text; separators are Unix ones.

use vstd::prelude::*;
use vstd::string::*;
use crate::text::{split_on, owned, trim, trim_spec, push_decimal, decimal, digit_char, views};
use crate::model::Attachment;
use crate::lang::{Language, Msg, text, say, default_language};

verus! {

// ---------------------------------------------------------------------------
// Joining
// ---------------------------------------------------------------------------

/// `base` joined with `p` (`Path::join` on Unix): an absolute `p` replaces
/// `base`; otherwise a `/` goes between them unless `base` is empty or
/// already ends with one.
pub open spec fn join_spec(base: Seq<char>, p: Seq<char>) -> Seq<char> {
    if p.len() > 0 && p[0] == '/' {
        p
    } else if base.len() > 0 && base.last() != '/' {
        base + seq!['/'] + p
    } else {
        base + p
    }
}

/// Joins a path with another.
pub fn join_path(base: &str, p: &str) -> (r: String)
    ensures
        r@ == join_spec(base@, p@),
{
    let pn = p.unicode_len();
    if pn > 0 && p.get_char(0) == '/' {
        return owned(p);
    }
    let bn = base.unicode_len();
    let mut r = owned(base);
    if bn > 0 && base.get_char(bn - 1) != '/' {
        r.append("/");
    }
    r.append(p);
    proof {
        reveal_strlit("/");
        assert(r@ =~= join_spec(base@, p@));
    }
    r
}

// ---------------------------------------------------------------------------
// Calls into the environment and the file system
// ---------------------------------------------------------------------------

/// The user's home folder (`dirs::home_dir`), as text (bytes that are not UTF-8
/// are replaced, so such a folder is not found again under this name).
/// Trusted only to return; what it returns depends on the environment.
#[verifier::external_body]
pub(crate) fn home_dir() -> (r: Option<String>) {
    dirs::home_dir().map(|p| p.to_string_lossy().into_owned())
}

/// The user's data folder (`dirs::data_dir`), as text (bytes that are not UTF-8
/// are replaced, so such a folder is not found again under this name).
/// Trusted only to return; what it returns depends on the environment.
#[verifier::external_body]
pub(crate) fn data_dir() -> (r: Option<String>) {
    dirs::data_dir().map(|p| p.to_string_lossy().into_owned())
}

/// The user's documents folder (`dirs::document_dir`), as text (bytes that are not UTF-8
/// are replaced, so such a folder is not found again under this name).
/// Trusted only to return; what it returns depends on the environment.
#[verifier::external_body]
pub(crate) fn document_dir() -> (r: Option<String>) {
    dirs::document_dir().map(|p| p.to_string_lossy().into_owned())
}

/// Whether something exists at the path (`Path::exists`).
/// Trusted only to return; the answer depends on the disk.
#[verifier::external_body]
pub(crate) fn path_exists(p: &str) -> (r: bool) {
    std::path::Path::new(p).exists()
}

/// Whether the path names a regular file (`Path::is_file`).
/// Trusted only to return; the answer depends on the disk.
#[verifier::external_body]
pub(crate) fn path_is_file(p: &str) -> (r: bool) {
    std::path::Path::new(p).is_file()
}

/// The components of a Unix path that name something: the pieces between
/// slashes, leaving out empty ones and ".".
pub open spec fn path_segments(p: Seq<char>) -> Seq<Seq<char>> {
    split_on(p, '/').filter(|c: Seq<char>| c.len() > 0 && c != "."@)
}

/// The last component of a Unix path, as `Path::file_name` finds it: the
/// last component that names something, unless there is none or it is "..".
pub open spec fn path_file_name(p: Seq<char>) -> Option<Seq<char>> {
    let f = path_segments(p);
    if f.len() == 0 || f.last() == ".."@ {
        None
    } else {
        Some(f.last())
    }
}

/// The last component of a path (`Path::file_name`).
/// Trusted: the result is `path_file_name` of the path.
#[verifier::external_body]
pub(crate) fn file_name_of(p: &str) -> (r: Option<String>)
    ensures
        match r {
            Some(n) => path_file_name(p@) == Some(n@),
            None => path_file_name(p@) is None,
        },
{
    std::path::Path::new(p).file_name().map(|n| n.to_string_lossy().into_owned())
}

/// An optional text taken as characters.
pub open spec fn opt_view(o: Option<String>) -> Option<Seq<char>> {
    match o {
        Some(s) => Some(s@),
        None => None,
    }
}

/// Whether `home_dir` (`dirs::home_dir`) was asked and answered `h`.
pub closed spec fn asked_home(h: Option<String>) -> bool {
    call_ensures(home_dir, (), h)
}

/// Whether `data_dir` (`dirs::data_dir`) was asked and answered `d`.
pub closed spec fn asked_data_dir(d: Option<String>) -> bool {
    call_ensures(data_dir, (), d)
}

/// Whether `document_dir` (`dirs::document_dir`) was asked and answered `d`.
pub closed spec fn asked_documents(d: Option<String>) -> bool {
    call_ensures(document_dir, (), d)
}

/// Whether `Path::is_file` (through `path_is_file`) was asked about `path`
/// and answered `b`.
pub closed spec fn asked_file(path: Seq<char>, b: bool) -> bool {
    exists|q: &str| q@ == path && #[trigger] call_ensures(path_is_file, (q,), b)
}

// ---------------------------------------------------------------------------
// Where the data lives
// ---------------------------------------------------------------------------

/// The places of the tracker's files.
#[derive(Clone, Debug)]
pub struct Paths {
    /// The data folder, `<base>/mesai`.
    pub data_dir: String,
    /// The database file, `<data_dir>/data.json`.
    pub db_file: String,
    /// The folder of attachment copies, `<data_dir>/attachments`.
    pub attach_dir: String,
}

/// The places of the tracker's files under the folder `base`.
pub fn paths_from_base(base: &str) -> (p: Paths)
    ensures
        p.data_dir@ == join_spec(base@, "mesai"@),
        p.db_file@ == join_spec(p.data_dir@, "data.json"@),
        p.attach_dir@ == join_spec(p.data_dir@, "attachments"@),
{
    let data_dir = join_path(base, "mesai");
    let db_file = join_path(data_dir.as_str(), "data.json");
    let attach_dir = join_path(data_dir.as_str(), "attachments");
    Paths { data_dir, db_file, attach_dir }
}

/// The folder the data folder lies in: the user's data folder, or the
/// working folder when there is none.
pub open spec fn base_or_here(base: Option<String>) -> Seq<char> {
    match base {
        Some(b) => b@,
        None => "."@,
    }
}

/// The places of the tracker's files under the user's data folder `base`,
/// or under the working folder when there is none.
pub fn paths_for(base: Option<String>) -> (p: Paths)
    ensures
        p.data_dir@ == join_spec(base_or_here(base), "mesai"@),
        p.db_file@ == join_spec(p.data_dir@, "data.json"@),
        p.attach_dir@ == join_spec(p.data_dir@, "attachments"@),
{
    match base {
        Some(b) => paths_from_base(b.as_str()),
        None => paths_from_base("."),
    }
}

/// The places of the tracker's files under the user's data folder, or under
/// the working folder when there is none. Which data folder the platform
/// has is read from the environment: `base` is what `dirs::data_dir`
/// answered.
pub fn app_paths() -> (p: Paths)
    ensures
        exists|base: Option<String>|
            #[trigger] asked_data_dir(base) && p.data_dir@ == join_spec(base_or_here(base), "mesai"@),
        p.db_file@ == join_spec(p.data_dir@, "data.json"@),
        p.attach_dir@ == join_spec(p.data_dir@, "attachments"@),
{
    let base = data_dir();
    proof {
        assert(asked_data_dir(base));
    }
    paths_for(base)
}

/// The folder an export goes to: the documents folder if it exists, else
/// the home folder, else the working folder.
pub open spec fn export_dir_spec(doc: Option<Seq<char>>, doc_exists: bool, home: Option<Seq<char>>) -> Seq<char> {
    match doc {
        Some(d) if doc_exists => d,
        _ => match home {
            Some(h) => h,
            None => "."@,
        },
    }
}

/// Picks the export folder from what the environment offers.
pub fn choose_export_dir(doc: Option<String>, doc_exists: bool, home: Option<String>) -> (r: String)
    ensures
        r@ == export_dir_spec(
            match doc {
                Some(d) => Some(d@),
                None => None,
            },
            doc_exists,
            match home {
                Some(h) => Some(h@),
                None => None,
            },
        ),
{
    match doc {
        Some(d) if doc_exists => d,
        _ => match home {
            Some(h) => h,
            None => owned("."),
        },
    }
}

/// The folder an export goes to: `doc` is what `dirs::document_dir`
/// answered, `ex` what `Path::exists` answered about that folder, and
/// `home`, asked only when the documents folder is not there, what
/// `dirs::home_dir` answered.
pub fn export_dir() -> (r: String)
    ensures
        exists|doc: Option<String>, ex: bool, home: Option<String>|
            {
                &&& asked_documents(doc)
                &&& match doc {
                    Some(d) => asked_disk(d@, ex),
                    None => !ex,
                }
                &&& (!ex ==> asked_home(home))
                &&& r@ == #[trigger] export_dir_spec(opt_view(doc), ex, opt_view(home))
            },
{
    let doc = document_dir();
    proof {
        assert(asked_documents(doc));
    }
    let exists = match &doc {
        Some(d) => {
            let q = d.as_str();
            let b = path_exists(q);
            proof {
                assert(call_ensures(path_exists, (q,), b));
                assert(asked_disk(d@, b));
            }
            b
        },
        None => false,
    };
    if exists {
        let r = choose_export_dir(doc, true, None);
        proof {
            assert(r@ == export_dir_spec(opt_view(doc), exists, opt_view(None)));
        }
        r
    } else {
        let home = home_dir();
        proof {
            assert(asked_home(home));
        }
        let ghost hv = home;
        let r = choose_export_dir(doc, false, home);
        proof {
            assert(r@ == export_dir_spec(opt_view(doc), exists, opt_view(hv)));
        }
        r
    }
}

// ---------------------------------------------------------------------------
// A path typed by hand
// ---------------------------------------------------------------------------

/// Whether `s` starts with "~/".
pub open spec fn starts_with_tilde(s: Seq<char>) -> bool {
    s.len() >= 2 && s[0] == '~' && s[1] == '/'
}

/// `s` with a leading "~/" replaced by the home folder, when there is one.
pub open spec fn expand_tilde_spec(s: Seq<char>, home: Option<Seq<char>>) -> Seq<char> {
    if starts_with_tilde(s) {
        match home {
            Some(h) => join_spec(h, s.skip(2)),
            None => s,
        }
    } else {
        s
    }
}

/// Replaces a leading "~/" with the given home folder.
pub fn expand_tilde_with(s: &str, home: Option<String>) -> (r: String)
    ensures
        r@ == expand_tilde_spec(
            s@,
            match home {
                Some(h) => Some(h@),
                None => None,
            },
        ),
{
    let n = s.unicode_len();
    if n >= 2 && s.get_char(0) == '~' && s.get_char(1) == '/' {
        match home {
            Some(h) => join_path(h.as_str(), s.substring_char(2, n)),
            None => owned(s),
        }
    } else {
        owned(s)
    }
}

/// Replaces a leading "~/" with the user's home folder, as
/// `dirs::home_dir` answers it.
pub fn expand_tilde(s: &str) -> (r: String)
    ensures
        !starts_with_tilde(s@) ==> r@ == s@,
        starts_with_tilde(s@) ==> exists|h: Option<String>|
            #[trigger] asked_home(h) && r@ == expand_tilde_spec(s@, opt_view(h)),
{
    if s.unicode_len() >= 2 && s.get_char(0) == '~' && s.get_char(1) == '/' {
        let h = home_dir();
        proof {
            assert(asked_home(h));
        }
        let ghost hv = h;
        let r = expand_tilde_with(s, h);
        proof {
            assert(r@ == expand_tilde_spec(s@, opt_view(hv)));
        }
        r
    } else {
        owned(s)
    }
}

/// The message when nothing was typed.
pub open spec fn msg_no_path(lang: Language) -> Seq<char> {
    text(lang, Msg::NoPath)
}

/// The message when the path was added.
pub open spec fn msg_added(lang: Language, p: Seq<char>) -> Seq<char> {
    text(lang, Msg::Added) + p
}

/// The message when there is no file at the path.
pub open spec fn msg_not_found(lang: Language, p: Seq<char>) -> Seq<char> {
    text(lang, Msg::NotFound) + p
}

/// Records a typed path once it is known whether a file is there: a file is
/// added to the list and the input is cleared; otherwise both stay.
pub fn record_manual_path(
    lang: Language,
    list: &mut Vec<String>,
    input: &mut String,
    p: String,
    is_file: bool,
) -> (msg: String)
    ensures
        is_file ==> final(list)@ == old(list)@.push(p) && final(input)@ == Seq::<char>::empty()
            && msg@ == msg_added(lang, p@),
        !is_file ==> final(list)@ == old(list)@ && final(input)@ == old(input)@ && msg@
            == msg_not_found(lang, p@),
{
    if is_file {
        let mut msg = owned(say(lang, Msg::Added));
        msg.append(p.as_str());
        list.push(p);
        *input = String::new();
        msg
    } else {
        let mut msg = owned(say(lang, Msg::NotFound));
        msg.append(p.as_str());
        msg
    }
}

/// The path a trimmed input `t` stands for: `t` itself, or with a leading
/// "~/" replaced by the home folder `dirs::home_dir` answered, when there is
/// one.
pub open spec fn expands_to(t: Seq<char>, p: Seq<char>) -> bool {
    if starts_with_tilde(t) {
        exists|h: Option<String>| #[trigger] asked_home(h) && p == expand_tilde_spec(t, opt_view(h))
    } else {
        p == t
    }
}

/// What handling the typed path `oi` does to the list `ol` and the input:
/// nothing typed leaves both and asks for a path; otherwise `Path::is_file`
/// is asked about the expanded path, which is added and the input cleared
/// when the answer is yes, and both stay when it is no.
pub open spec fn manual_outcome(
    lang: Language,
    ol: Seq<String>,
    oi: Seq<char>,
    nl: Seq<String>,
    ni: Seq<char>,
    msg: Seq<char>,
) -> bool {
    if trim_spec(oi).len() == 0 {
        nl == ol && ni == oi && msg == msg_no_path(lang)
    } else {
        exists|p: Seq<char>, b: bool|
            {
                &&& expands_to(trim_spec(oi), p)
                &&& #[trigger] asked_file(p, b)
                &&& b ==> views(nl) == views(ol).push(p) && ni == Seq::<char>::empty() && msg
                    == msg_added(lang, p)
                &&& !b ==> nl == ol && ni == oi && msg == msg_not_found(lang, p)
            }
    }
}

/// A typed path that starts with "~/" is looked up, and added, with "~"
/// replaced by the home folder `dirs::home_dir` answered: the rest of the
/// input joined to that folder. Only when there is no home folder is the
/// typed text used as it is.
pub proof fn tilde_is_expanded(
    lang: Language,
    ol: Seq<String>,
    oi: Seq<char>,
    nl: Seq<String>,
    ni: Seq<char>,
    msg: Seq<char>,
)
    requires
        manual_outcome(lang, ol, oi, nl, ni, msg),
        starts_with_tilde(trim_spec(oi)),
    ensures
        exists|h: Option<String>, p: Seq<char>, b: bool|
            {
                &&& #[trigger] asked_home(h)
                &&& #[trigger] asked_file(p, b)
                &&& p == match h {
                    Some(home) => join_spec(home@, trim_spec(oi).skip(2)),
                    None => trim_spec(oi),
                }
                &&& b ==> views(nl) == views(ol).push(p) && msg == msg_added(lang, p)
                &&& !b ==> nl == ol && msg == msg_not_found(lang, p)
            },
{
    let t = trim_spec(oi);
    let (p, b) = choose|p: Seq<char>, b: bool|
        {
            &&& expands_to(t, p)
            &&& #[trigger] asked_file(p, b)
            &&& b ==> views(nl) == views(ol).push(p) && ni == Seq::<char>::empty() && msg
                == msg_added(lang, p)
            &&& !b ==> nl == ol && ni == oi && msg == msg_not_found(lang, p)
        };
    let h = choose|h: Option<String>| #[trigger] asked_home(h) && p == expand_tilde_spec(t, opt_view(h));
    assert(asked_home(h) && asked_file(p, b));
}

/// Checks a path typed by hand and adds it to the list when a file is there;
/// returns the message to show, in the language `lang`. Nothing typed
/// (after trimming) leaves list and input as they are.
pub fn add_manual_path_in(lang: Language, list: &mut Vec<String>, input: &mut String) -> (msg: String)
    ensures
        manual_outcome(lang, old(list)@, old(input)@, final(list)@, final(input)@, msg@),
{
    let p = {
        let trimmed = trim(input.as_str());
        if trimmed.unicode_len() == 0 {
            return owned(say(lang, Msg::NoPath));
        }
        expand_tilde(trimmed)
    };
    let q = p.as_str();
    let found = path_is_file(q);
    let ghost pv = p@;
    proof {
        assert(call_ensures(path_is_file, (q,), found));
        assert(asked_file(pv, found));
    }
    let msg = record_manual_path(lang, list, input, p, found);
    proof {
        let t = trim_spec(old(input)@);
        assert(expands_to(t, pv));
        if found {
            assert(views(final(list)@) =~= views(old(list)@).push(pv));
        }
    }
    msg
}

/// Checks a path typed by hand and adds it to the list when a file is there;
/// returns the message to show, in the default language.
pub fn add_manual_path(list: &mut Vec<String>, input: &mut String) -> (msg: String)
    ensures
        manual_outcome(default_language(), old(list)@, old(input)@, final(list)@, final(input)@, msg@),
{
    add_manual_path_in(Language::English, list, input)
}

// ---------------------------------------------------------------------------
// Attachment names
// ---------------------------------------------------------------------------

/// The index of the last `.` among the first `j` characters, or -1.
pub open spec fn last_dot(s: Seq<char>, j: int) -> int
    decreases j,
{
    if j <= 0 {
        -1
    } else if s[j - 1] == '.' {
        j - 1
    } else {
        last_dot(s, j - 1)
    }
}

/// The stem of a file name (`Path::file_stem`): the part before the last
/// `.`, or the whole name when it has no `.` but a leading one; "ek" for an
/// empty name.
pub open spec fn stem_spec(name: Seq<char>) -> Seq<char> {
    let k = last_dot(name, name.len() as int);
    if name.len() == 0 {
        "ek"@
    } else if k <= 0 || name == ".."@ {
        name
    } else {
        name.take(k)
    }
}

/// The extension of a file name (`Path::extension`): the part after the
/// last `.`, when that `.` is not the first character.
pub open spec fn ext_spec(name: Seq<char>) -> Option<Seq<char>> {
    let k = last_dot(name, name.len() as int);
    if name.len() == 0 || k <= 0 || name == ".."@ {
        None
    } else {
        Some(name.skip(k + 1))
    }
}

/// The `n`-th name tried for a copy: the name itself first, then
/// "stem_n.ext" (or "stem_n" without an extension).
pub open spec fn candidate_spec(name: Seq<char>, n: nat) -> Seq<char> {
    if n == 0 {
        name
    } else {
        match ext_spec(name) {
            Some(e) => stem_spec(name) + "_"@ + decimal(n) + "."@ + e,
            None => stem_spec(name) + "_"@ + decimal(n),
        }
    }
}

fn find_last_dot(s: &str) -> (k: Option<usize>)
    ensures
        match k {
            Some(i) => last_dot(s@, s@.len() as int) == i as int && i < s@.len(),
            None => last_dot(s@, s@.len() as int) == -1,
        },
{
    let n = s.unicode_len();
    let mut j: usize = n;
    while j > 0 && s.get_char(j - 1) != '.'
        invariant
            n == s@.len(),
            0 <= j <= n,
            last_dot(s@, j as int) == last_dot(s@, n as int),
        decreases j,
    {
        j = j - 1;
    }
    if j == 0 {
        None
    } else {
        Some(j - 1)
    }
}

/// The name tried for a copy on attempt `n` (0 for the first attempt).
pub fn candidate_name(name: &str, n: u64) -> (r: String)
    ensures
        r@ == candidate_spec(name@, n as nat),
{
    if n == 0 {
        return owned(name);
    }
    let len = name.unicode_len();
    let is_dotdot = len == 2 && name.get_char(0) == '.' && name.get_char(1) == '.';
    proof {
        reveal_strlit("..");
        if name@ == ".."@ {
            assert(len == 2);
        }
        if is_dotdot {
            assert(name@ =~= ".."@);
        }
    }
    let mut r = String::new();
    if len == 0 {
        r.append("ek");
        r.append("_");
        push_decimal(&mut r, n);
        proof {
            assert(r@ =~= candidate_spec(name@, n as nat));
        }
        return r;
    }
    match find_last_dot(name) {
        Some(k) if k > 0 && !is_dotdot => {
            r.append(name.substring_char(0, k));
            r.append("_");
            push_decimal(&mut r, n);
            r.append(".");
            r.append(name.substring_char(k + 1, len));
            proof {
                assert(r@ =~= candidate_spec(name@, n as nat));
            }
        },
        _ => {
            r.append(name);
            r.append("_");
            push_decimal(&mut r, n);
            proof {
                assert(r@ =~= candidate_spec(name@, n as nat));
            }
        },
    }
    r
}

/// The folder of the copies of one session, `<attach_dir>/<id>`.
pub fn attachment_dir(attach_dir: &str, id: u64) -> (r: String)
    ensures
        r@ == join_spec(attach_dir@, decimal(id as nat)),
{
    let mut idtext = String::new();
    push_decimal(&mut idtext, id);
    proof {
        assert(idtext@ =~= decimal(id as nat));
    }
    join_path(attach_dir, idtext.as_str())
}

/// The name a copy of `src` is kept under: its file name, or "ek" when it
/// has none.
pub open spec fn source_name_spec(src: Seq<char>) -> Seq<char> {
    match path_file_name(src) {
        Some(n) => n,
        None => "ek"@,
    }
}

/// What one probe of a candidate name leads to.
pub enum TargetStep {
    /// Nothing exists under the candidate: the copy goes there.
    Use(Attachment),
    /// The candidate is taken: try the one with this number next.
    Try(u64),
    /// The candidate is taken and no numbers are left to try.
    GiveUp,
}

/// Decides on the candidate number `n`, named `cand` with the path `dest`,
/// given whether something already exists at `dest`.
pub fn target_step(cand: String, dest: String, n: u64, taken: bool) -> (r: TargetStep)
    requires
        n <= i32::MAX,
    ensures
        !taken ==> r == TargetStep::Use(Attachment { file_name: cand, path: dest }),
        taken && n < i32::MAX ==> r == TargetStep::Try((n + 1) as u64),
        taken && n == i32::MAX ==> r is GiveUp,
{
    if !taken {
        TargetStep::Use(Attachment { file_name: cand, path: dest })
    } else if n < 2147483647 {
        TargetStep::Try(n + 1)
    } else {
        TargetStep::GiveUp
    }
}

/// Whether the probe `taken` can have answered `b` for the path `path`.
pub open spec fn probed<F: Fn(&str) -> bool>(taken: F, path: Seq<char>, b: bool) -> bool {
    exists|p: &str| p@ == path && #[trigger] call_ensures(taken, (p,), b)
}

/// The shape of what a search for a free name for copies of `name` in `dir`
/// found, given the answers `probes` for the candidates tried, in order:
/// the first candidate reported free is used; `None` only when every
/// candidate up to the largest `i32` was reported taken.
pub open spec fn search_outcome(
    dir: Seq<char>,
    name: Seq<char>,
    r: Option<Attachment>,
    probes: Seq<bool>,
) -> bool {
    &&& 1 <= probes.len() <= i32::MAX + 1
    &&& forall|k: int| 0 <= k < probes.len() - 1 ==> #[trigger] probes[k]
    &&& match r {
        Some(a) => {
            &&& !probes.last()
            &&& a.file_name@ == candidate_spec(name, (probes.len() - 1) as nat)
            &&& a.path@ == join_spec(dir, a.file_name@)
        },
        None => probes.len() == i32::MAX + 1 && probes.last(),
    }
}

/// Whether `Path::exists` (through `path_exists`) was asked about `path` and
/// answered `b`.
pub closed spec fn asked_disk(path: Seq<char>, b: bool) -> bool {
    exists|p: &str| p@ == path && #[trigger] call_ensures(path_exists, (p,), b)
}

/// Looks for a free name for a copy of the file named `name` in `dir`:
/// asks `taken` about the candidates (the name itself, then "stem_1.ext",
/// "stem_2.ext", ...) in order and takes the first one it reports free.
/// The answers come back as `probes`, `probes[k]` being the answer for the
/// candidate `k`.
pub fn first_free_target<F: Fn(&str) -> bool>(dir: &str, name: &str, taken: F) -> (r: (
    Option<Attachment>,
    Ghost<Seq<bool>>,
))
    requires
        forall|p: &str| #[trigger] call_requires(taken, (p,)),
    ensures
        search_outcome(dir@, name@, r.0, r.1@),
        forall|k: int|
            0 <= k < r.1@.len() ==> probed(
                taken,
                join_spec(dir@, candidate_spec(name@, k as nat)),
                #[trigger] r.1@[k],
            ),
{
    let ghost mut probes: Seq<bool> = Seq::empty();
    let mut n: u64 = 0;
    loop
        invariant
            forall|p: &str| #[trigger] call_requires(taken, (p,)),
            n <= i32::MAX,
            probes.len() == n,
            forall|k: int| 0 <= k < probes.len() ==> #[trigger] probes[k],
            forall|k: int|
                0 <= k < probes.len() ==> probed(
                    taken,
                    join_spec(dir@, candidate_spec(name@, k as nat)),
                    #[trigger] probes[k],
                ),
        decreases i32::MAX - n,
    {
        let cand = candidate_name(name, n);
        let dest = join_path(dir, cand.as_str());
        let b = taken(dest.as_str());
        proof {
            let ghost old_probes = probes;
            probes = probes.push(b);
            assert(probed(taken, join_spec(dir@, candidate_spec(name@, n as nat)), b));
            assert forall|k: int|
                0 <= k < probes.len() implies probed(
                taken,
                join_spec(dir@, candidate_spec(name@, k as nat)),
                #[trigger] probes[k],
            ) by {
                if k < old_probes.len() {
                    assert(probes[k] == old_probes[k]);
                }
            }
        }
        match target_step(cand, dest, n, b) {
            TargetStep::Use(a) => {
                return (Some(a), Ghost(probes));
            },
            TargetStep::Try(m) => {
                n = m;
            },
            TargetStep::GiveUp => {
                return (None, Ghost(probes));
            },
        }
    }
}

/// Where a copy of the file `src` goes in the folder `dir`: the candidate
/// names (the file's own name, then "stem_1.ext", "stem_2.ext", ...) are
/// asked about in order with `Path::exists`; `probes[k]` is its answer for
/// the candidate `k`, and the first candidate reported free is used. Which
/// candidates are taken is read from the disk.
pub fn attachment_target(dir: &str, src: &str) -> (r: (Option<Attachment>, Ghost<Seq<bool>>))
    ensures
        search_outcome(dir@, source_name_spec(src@), r.0, r.1@),
        forall|k: int|
            0 <= k < r.1@.len() ==> asked_disk(
                join_spec(dir@, candidate_spec(source_name_spec(src@), k as nat)),
                #[trigger] r.1@[k],
            ),
{
    let name = match file_name_of(src) {
        Some(n) => n,
        None => owned("ek"),
    };
    let r = first_free_target(dir, name.as_str(), path_exists);
    proof {
        assert forall|k: int| 0 <= k < r.1@.len() implies asked_disk(
            join_spec(dir@, candidate_spec(source_name_spec(src@), k as nat)),
            #[trigger] r.1@[k],
        ) by {
            assert(probed(
                path_exists,
                join_spec(dir@, candidate_spec(name@, k as nat)),
                r.1@[k],
            ));
        }
    }
    r
}

} // verus!

verus! {

proof fn lemma_digit_char_injective(a: int, b: int)
    requires
        0 <= a < 10,
        0 <= b < 10,
        digit_char(a) == digit_char(b),
    ensures
        a == b,
{
}

proof fn lemma_decimal_len(n: nat)
    ensures
        decimal(n).len() >= 1,
        n >= 10 ==> decimal(n).len() >= 2,
    decreases n,
{
    if n >= 10 {
        lemma_decimal_len(n / 10);
    }
}

proof fn lemma_decimal_injective(a: nat, b: nat)
    requires
        decimal(a) == decimal(b),
    ensures
        a == b,
    decreases a,
{
    lemma_decimal_len(a);
    lemma_decimal_len(b);
    if a < 10 && b < 10 {
        assert(decimal(a)[0] == digit_char(a as int));
        assert(decimal(b)[0] == digit_char(b as int));
        lemma_digit_char_injective(a as int, b as int);
    } else if a >= 10 && b >= 10 {
        assert(decimal(a).last() == digit_char((a % 10) as int));
        assert(decimal(b).last() == digit_char((b % 10) as int));
        lemma_digit_char_injective((a % 10) as int, (b % 10) as int);
        assert(decimal(a).drop_last() =~= decimal(a / 10));
        assert(decimal(b).drop_last() =~= decimal(b / 10));
        lemma_decimal_injective(a / 10, b / 10);
    }
}

/// The names tried for copies of one file are all different, and each one
/// after the first is longer than the file's own name.
pub proof fn candidate_names_differ(name: Seq<char>, a: nat, b: nat)
    requires
        a != b,
    ensures
        candidate_spec(name, a) != candidate_spec(name, b),
        a > 0 ==> candidate_spec(name, a).len() > name.len(),
{
    lemma_decimal_len(a);
    lemma_decimal_len(b);
    let k = last_dot(name, name.len() as int);
    lemma_last_dot(name, name.len() as int);
    reveal_strlit("_");
    reveal_strlit(".");
    reveal_strlit("ek");
    if a > 0 && b > 0 {
        let p = stem_spec(name) + "_"@;
        let ca = candidate_spec(name, a);
        let cb = candidate_spec(name, b);
        if ca == cb {
            match ext_spec(name) {
                Some(e) => {
                    let sa = decimal(a) + "."@ + e;
                    let sb = decimal(b) + "."@ + e;
                    assert(ca =~= p + sa);
                    assert(cb =~= p + sb);
                    assert(sa =~= ca.subrange(p.len() as int, ca.len() as int));
                    assert(sb =~= cb.subrange(p.len() as int, cb.len() as int));
                    assert(decimal(a) =~= sa.subrange(0, sa.len() - e.len() - 1));
                    assert(decimal(b) =~= sb.subrange(0, sb.len() - e.len() - 1));
                },
                None => {
                    assert(ca =~= p + decimal(a));
                    assert(cb =~= p + decimal(b));
                    assert(decimal(a) =~= ca.subrange(p.len() as int, ca.len() as int));
                    assert(decimal(b) =~= cb.subrange(p.len() as int, cb.len() as int));
                },
            }
            lemma_decimal_injective(a, b);
        }
    }
    if a > 0 {
        if name.len() > 0 && k > 0 && name != ".."@ {
            assert(stem_spec(name).len() == k);
            assert(ext_spec(name) == Some(name.skip(k + 1)));
        }
    }
    if b > 0 {
        if name.len() > 0 && k > 0 && name != ".."@ {
            assert(stem_spec(name).len() == k);
            assert(ext_spec(name) == Some(name.skip(k + 1)));
        }
    }
}

proof fn lemma_last_dot(s: Seq<char>, j: int)
    requires
        0 <= j <= s.len(),
    ensures
        -1 <= last_dot(s, j) < j,
    decreases j,
{
    if j > 0 && s[j - 1] != '.' {
        lemma_last_dot(s, j - 1);
    }
}

} // verus!
