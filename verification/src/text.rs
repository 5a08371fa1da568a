//! Text helpers: whitespace trimming, splitting a tag list, CSV quoting,
//! joining, and decimal rendering of integers.

use vstd::prelude::*;
use vstd::string::*;

verus! {

// ---------------------------------------------------------------------------
// Building strings
// ---------------------------------------------------------------------------

/// Appends one character to a string (`String::push`).
/// Trusted: the string afterwards is the old one followed by `c`.
#[verifier::external_body]
pub(crate) fn push_char(s: &mut String, c: char)
    ensures
        final(s)@ == old(s)@.push(c),
{
    s.push(c);
}

/// A string holding the characters of `s` (an owned copy).
pub fn owned(s: &str) -> (r: String)
    ensures
        r@ == s@,
{
    String::from_str(s)
}

// ---------------------------------------------------------------------------
// Whitespace and trimming
// ---------------------------------------------------------------------------

/// The Unicode `White_Space` property, which `char::is_whitespace` and
/// `str::trim` use.
pub open spec fn is_ws(c: char) -> bool {
    let u = c as u32;
    ||| 0x09 <= u <= 0x0D
    ||| u == 0x20
    ||| u == 0x85
    ||| u == 0xA0
    ||| u == 0x1680
    ||| 0x2000 <= u <= 0x200A
    ||| u == 0x2028
    ||| u == 0x2029
    ||| u == 0x202F
    ||| u == 0x205F
    ||| u == 0x3000
}

/// Whether `c` is a whitespace character.
pub fn is_whitespace(c: char) -> (b: bool)
    ensures
        b == is_ws(c),
{
    let u = c as u32;
    (0x09 <= u && u <= 0x0D) || u == 0x20 || u == 0x85 || u == 0xA0 || u == 0x1680 || (0x2000
        <= u && u <= 0x200A) || u == 0x2028 || u == 0x2029 || u == 0x202F || u == 0x205F || u
        == 0x3000
}

/// The first index at or after `i` that does not hold whitespace (or the length).
pub open spec fn ws_skip(s: Seq<char>, i: int) -> int
    decreases s.len() - i,
{
    if i >= s.len() {
        s.len() as int
    } else if is_ws(s[i]) {
        ws_skip(s, i + 1)
    } else {
        i
    }
}

/// The end of `s.take(j)` once its trailing whitespace is dropped.
pub open spec fn ws_back(s: Seq<char>, j: int) -> int
    decreases j,
{
    if j <= 0 {
        0
    } else if is_ws(s[j - 1]) {
        ws_back(s, j - 1)
    } else {
        j
    }
}

/// `s` without its leading and trailing whitespace.
pub open spec fn trim_spec(s: Seq<char>) -> Seq<char> {
    let a = ws_skip(s, 0);
    let b = ws_back(s, s.len() as int);
    if a < b {
        s.subrange(a, b)
    } else {
        Seq::empty()
    }
}

/// `s` without leading and trailing whitespace (`str::trim`).
pub fn trim(s: &str) -> (r: &str)
    ensures
        r@ == trim_spec(s@),
{
    let n = s.unicode_len();
    let mut i: usize = 0;
    while i < n && is_whitespace(s.get_char(i))
        invariant
            n == s@.len(),
            0 <= i <= n,
            ws_skip(s@, i as int) == ws_skip(s@, 0),
        decreases n - i,
    {
        i = i + 1;
    }
    let mut j: usize = n;
    while j > 0 && is_whitespace(s.get_char(j - 1))
        invariant
            n == s@.len(),
            0 <= j <= n,
            ws_back(s@, j as int) == ws_back(s@, n as int),
        decreases j,
    {
        j = j - 1;
    }
    if i < j {
        s.substring_char(i, j)
    } else {
        s.substring_char(0, 0)
    }
}

// ---------------------------------------------------------------------------
// Splitting and tags
// ---------------------------------------------------------------------------

/// The pieces of `s` between occurrences of `sep`, scanning from index `i`
/// while the current piece started at `start` (as `str::split`).
pub open spec fn split_from(s: Seq<char>, sep: char, start: int, i: int) -> Seq<Seq<char>>
    decreases s.len() - i,
{
    if i >= s.len() {
        seq![s.subrange(start, s.len() as int)]
    } else if s[i] == sep {
        seq![s.subrange(start, i)] + split_from(s, sep, i + 1, i + 1)
    } else {
        split_from(s, sep, start, i + 1)
    }
}

/// The pieces of `s` between occurrences of `sep`; always at least one piece.
pub open spec fn split_on(s: Seq<char>, sep: char) -> Seq<Seq<char>> {
    split_from(s, sep, 0, 0)
}

/// The trimmed pieces that are not empty, in order.
pub open spec fn nonempty_trimmed(pieces: Seq<Seq<char>>) -> Seq<Seq<char>>
    decreases pieces.len(),
{
    if pieces.len() == 0 {
        Seq::empty()
    } else {
        let rest = nonempty_trimmed(pieces.drop_last());
        let t = trim_spec(pieces.last());
        if t.len() > 0 {
            rest.push(t)
        } else {
            rest
        }
    }
}

/// The tags written in a comma-separated list: each piece trimmed, empty
/// pieces left out.
pub open spec fn tags_spec(s: Seq<char>) -> Seq<Seq<char>> {
    nonempty_trimmed(split_on(s, ','))
}

/// The views of a list of strings.
pub open spec fn views(v: Seq<String>) -> Seq<Seq<char>> {
    v.map_values(|t: String| t@)
}

/// Splits a comma-separated tag list: "c, shell, , pointer" gives
/// ["c", "shell", "pointer"].
pub fn parse_tags(s: &str) -> (tags: Vec<String>)
    ensures
        views(tags@) == tags_spec(s@),
{
    let n = s.unicode_len();
    let mut tags: Vec<String> = Vec::new();
    let ghost mut pieces: Seq<Seq<char>> = Seq::empty();
    let mut start: usize = 0;
    let mut i: usize = 0;
    while i < n
        invariant
            n == s@.len(),
            0 <= start <= i <= n,
            pieces + split_from(s@, ',', start as int, i as int) == split_on(s@, ','),
            views(tags@) == nonempty_trimmed(pieces),
        decreases n - i,
    {
        if s.get_char(i) == ',' {
            let piece = s.substring_char(start, i);
            let t = trim(piece);
            let ghost old_pieces = pieces;
            proof {
                let rest = split_from(s@, ',', (i + 1) as int, (i + 1) as int);
                assert(old_pieces + (seq![piece@] + rest) =~= old_pieces.push(piece@) + rest);
                pieces = old_pieces.push(piece@);
                assert(pieces.drop_last() =~= old_pieces);
            }
            if t.unicode_len() > 0 {
                let ghost before = tags@;
                tags.push(owned(t));
                proof {
                    assert(views(tags@) =~= views(before).push(t@));
                }
            }
            start = i + 1;
        }
        i = i + 1;
    }
    let piece = s.substring_char(start, n);
    let t = trim(piece);
    let ghost old_pieces = pieces;
    proof {
        pieces = old_pieces.push(piece@);
        assert(pieces.drop_last() =~= old_pieces);
        assert(pieces =~= split_on(s@, ','));
    }
    if t.unicode_len() > 0 {
        let ghost before = tags@;
        tags.push(owned(t));
        proof {
            assert(views(tags@) =~= views(before).push(t@));
        }
    }
    tags
}

/// The list joined with `sep` between neighbours (`slice::join`).
pub open spec fn join_spec(list: Seq<Seq<char>>, sep: Seq<char>) -> Seq<char>
    decreases list.len(),
{
    if list.len() == 0 {
        Seq::empty()
    } else if list.len() == 1 {
        list[0]
    } else {
        join_spec(list.drop_last(), sep) + sep + list.last()
    }
}

/// Joins the strings with `sep` between neighbours.
pub fn join(list: &Vec<String>, sep: &str) -> (r: String)
    ensures
        r@ == join_spec(views(list@), sep@),
{
    let mut r = String::new();
    let ghost all = views(list@);
    let mut i: usize = 0;
    while i < list.len()
        invariant
            0 <= i <= list.len(),
            all == views(list@),
            r@ == join_spec(all.take(i as int), sep@),
        decreases list.len() - i,
    {
        if i > 0 {
            r.append(sep);
        }
        r.append(list[i].as_str());
        proof {
            assert(all.take((i + 1) as int).drop_last() =~= all.take(i as int));
            if i == 0 {
                assert(r@ =~= all.take(1)[0]);
            } else {
                assert(r@ =~= join_spec(all.take(i as int), sep@) + sep@ + all.take(
                    (i + 1) as int,
                ).last());
            }
        }
        i = i + 1;
    }
    proof {
        assert(all.take(list.len() as int) =~= all);
    }
    r
}

// ---------------------------------------------------------------------------
// CSV quoting
// ---------------------------------------------------------------------------

/// Characters that force a CSV field into quotes.
pub open spec fn is_csv_special(c: char) -> bool {
    c == ',' || c == ';' || c == '"' || c == '\n' || c == '\r'
}

/// `s` with every `"` doubled.
pub open spec fn double_quotes(s: Seq<char>) -> Seq<char>
    decreases s.len(),
{
    if s.len() == 0 {
        Seq::empty()
    } else if s.last() == '"' {
        double_quotes(s.drop_last()) + seq!['"', '"']
    } else {
        double_quotes(s.drop_last()).push(s.last())
    }
}

/// A CSV field: kept as it is unless it holds `,` `;` `"` or a line break,
/// in which case it is put in quotes with inner quotes doubled.
pub open spec fn csv_field_spec(s: Seq<char>) -> Seq<char> {
    if exists|i: int| 0 <= i < s.len() && is_csv_special(#[trigger] s[i]) {
        seq!['"'] + double_quotes(s) + seq!['"']
    } else {
        s
    }
}

/// Quotes `s` for a CSV file when it needs it.
pub fn csv_field(s: &str) -> (r: String)
    ensures
        r@ == csv_field_spec(s@),
{
    let n = s.unicode_len();
    let mut special = false;
    let mut i: usize = 0;
    while i < n
        invariant
            n == s@.len(),
            0 <= i <= n,
            special <==> exists|k: int| 0 <= k < i && is_csv_special(#[trigger] s@[k]),
        decreases n - i,
    {
        let c = s.get_char(i);
        if c == ',' || c == ';' || c == '"' || c == '\n' || c == '\r' {
            special = true;
        }
        i = i + 1;
    }
    if !special {
        return owned(s);
    }
    let mut r = String::new();
    push_char(&mut r, '"');
    let mut j: usize = 0;
    while j < n
        invariant
            n == s@.len(),
            0 <= j <= n,
            r@ == seq!['"'] + double_quotes(s@.take(j as int)),
        decreases n - j,
    {
        let c = s.get_char(j);
        proof {
            assert(s@.take((j + 1) as int).drop_last() =~= s@.take(j as int));
            assert(s@.take((j + 1) as int).last() == c);
        }
        if c == '"' {
            push_char(&mut r, '"');
            push_char(&mut r, '"');
            proof {
                assert(r@ =~= seq!['"'] + double_quotes(s@.take((j + 1) as int)));
            }
        } else {
            push_char(&mut r, c);
            proof {
                assert(r@ =~= seq!['"'] + double_quotes(s@.take((j + 1) as int)));
            }
        }
        j = j + 1;
    }
    push_char(&mut r, '"');
    proof {
        assert(s@.take(n as int) =~= s@);
    }
    r
}

// ---------------------------------------------------------------------------
// Decimal numbers
// ---------------------------------------------------------------------------

/// The character of a decimal digit.
pub open spec fn digit_char(d: int) -> char {
    if d == 0 {
        '0'
    } else if d == 1 {
        '1'
    } else if d == 2 {
        '2'
    } else if d == 3 {
        '3'
    } else if d == 4 {
        '4'
    } else if d == 5 {
        '5'
    } else if d == 6 {
        '6'
    } else if d == 7 {
        '7'
    } else if d == 8 {
        '8'
    } else {
        '9'
    }
}

/// The decimal digits of `n`, without leading zeros.
pub open spec fn decimal(n: nat) -> Seq<char>
    decreases n,
{
    if n < 10 {
        seq![digit_char(n as int)]
    } else {
        decimal(n / 10).push(digit_char((n % 10) as int))
    }
}

/// `n` written with at least two digits (`{:02}`).
pub open spec fn pad2(n: nat) -> Seq<char> {
    if n < 10 {
        seq!['0'] + decimal(n)
    } else {
        decimal(n)
    }
}

/// A signed integer in decimal, with `-` before a negative one.
pub open spec fn signed_decimal(i: int) -> Seq<char> {
    if i < 0 {
        seq!['-'] + decimal((-i) as nat)
    } else {
        decimal(i as nat)
    }
}

fn digit(d: u64) -> (c: char)
    requires
        d < 10,
    ensures
        c == digit_char(d as int),
{
    if d == 0 {
        '0'
    } else if d == 1 {
        '1'
    } else if d == 2 {
        '2'
    } else if d == 3 {
        '3'
    } else if d == 4 {
        '4'
    } else if d == 5 {
        '5'
    } else if d == 6 {
        '6'
    } else if d == 7 {
        '7'
    } else if d == 8 {
        '8'
    } else {
        '9'
    }
}

/// Appends the decimal digits of `n`.
pub fn push_decimal(out: &mut String, n: u64)
    ensures
        final(out)@ == old(out)@ + decimal(n as nat),
    decreases n,
{
    if n >= 10 {
        push_decimal(out, n / 10);
    }
    push_char(out, digit(n % 10));
    proof {
        if n >= 10 {
            assert(decimal(n as nat) == decimal((n / 10) as nat).push(digit_char((n % 10) as int)));
        }
        assert(final(out)@ =~= old(out)@ + decimal(n as nat));
    }
}

/// Appends `n` with at least two digits.
pub fn push_pad2(out: &mut String, n: u64)
    ensures
        final(out)@ == old(out)@ + pad2(n as nat),
{
    let ghost start = out@;
    if n < 10 {
        push_char(out, '0');
    }
    push_decimal(out, n);
    proof {
        assert(out@ =~= start + pad2(n as nat));
    }
}

/// Appends a signed integer in decimal.
pub fn push_signed(out: &mut String, i: i64)
    ensures
        final(out)@ == old(out)@ + signed_decimal(i as int),
{
    let ghost start = out@;
    if i < 0 {
        push_char(out, '-');
        let m: u64 = if i == i64::MIN {
            9223372036854775808u64
        } else {
            (-i) as u64
        };
        push_decimal(out, m);
        proof {
            assert(out@ =~= start + signed_decimal(i as int));
        }
    } else {
        push_decimal(out, i as u64);
    }
}

/// `n` in decimal.
pub fn decimal_string(n: u64) -> (r: String)
    ensures
        r@ == decimal(n as nat),
{
    let mut r = String::new();
    push_decimal(&mut r, n);
    proof {
        assert(r@ =~= decimal(n as nat));
    }
    r
}

} // verus!

verus! {

/// `t` stands in `s` from index `a` on.
pub open spec fn piece_at(s: Seq<char>, t: Seq<char>, a: int) -> bool {
    0 <= a && a + t.len() <= s.len() && t == s.subrange(a, a + t.len())
}

proof fn lemma_ws_skip(s: Seq<char>, i: int)
    requires
        0 <= i <= s.len(),
    ensures
        i <= ws_skip(s, i) <= s.len(),
        ws_skip(s, i) < s.len() ==> !is_ws(s[ws_skip(s, i)]),
        forall|k: int| i <= k < ws_skip(s, i) ==> is_ws(#[trigger] s[k]),
    decreases s.len() - i,
{
    if i < s.len() && is_ws(s[i]) {
        lemma_ws_skip(s, i + 1);
    }
}

proof fn lemma_ws_back(s: Seq<char>, j: int)
    requires
        0 <= j <= s.len(),
    ensures
        0 <= ws_back(s, j) <= j,
        ws_back(s, j) > 0 ==> !is_ws(s[ws_back(s, j) - 1]),
        forall|k: int| ws_back(s, j) <= k < j ==> is_ws(#[trigger] s[k]),
    decreases j,
{
    if j > 0 && is_ws(s[j - 1]) {
        lemma_ws_back(s, j - 1);
    }
}

/// A trimmed text is empty or starts and ends with a character that is not
/// whitespace, and it is a piece of the text it came from.
pub proof fn trimmed_is_clean(s: Seq<char>)
    ensures
        trim_spec(s).len() > 0 ==> !is_ws(trim_spec(s)[0]) && !is_ws(trim_spec(s).last()),
        exists|a: int| #[trigger] piece_at(s, trim_spec(s), a),
{
    lemma_ws_skip(s, 0);
    lemma_ws_back(s, s.len() as int);
    let a = ws_skip(s, 0);
    let b = ws_back(s, s.len() as int);
    if a < b {
        assert(trim_spec(s) =~= s.subrange(a, a + trim_spec(s).len()));
        assert(piece_at(s, trim_spec(s), a));
    } else {
        assert(trim_spec(s) =~= s.subrange(0, 0));
        assert(piece_at(s, trim_spec(s), 0));
    }
}

/// Trimming twice is trimming once.
pub proof fn trim_is_idempotent(s: Seq<char>)
    ensures
        trim_spec(trim_spec(s)) == trim_spec(s),
{
    let t = trim_spec(s);
    trimmed_is_clean(s);
    lemma_ws_skip(t, 0);
    lemma_ws_back(t, t.len() as int);
    if t.len() > 0 {
        assert(ws_skip(t, 0) == 0);
        assert(ws_back(t, t.len() as int) == t.len());
        assert(t.subrange(0, t.len() as int) =~= t);
    } else {
        assert(trim_spec(t) =~= t);
    }
}

proof fn lemma_split_pieces(s: Seq<char>, sep: char, start: int, i: int)
    requires
        0 <= start <= i <= s.len(),
        forall|k: int| start <= k < i ==> s[k] != sep,
    ensures
        forall|j: int, k: int|
            0 <= j < split_from(s, sep, start, i).len() && 0 <= k < split_from(
                s,
                sep,
                start,
                i,
            )[j].len() ==> #[trigger] split_from(s, sep, start, i)[j][k] != sep,
    decreases s.len() - i,
{
    let all = split_from(s, sep, start, i);
    if i >= s.len() {
        let piece = s.subrange(start, s.len() as int);
        assert forall|j: int, k: int| 0 <= j < all.len() && 0 <= k < all[j].len() implies #[trigger] all[j][k]
            != sep by {
            assert(all[j] == piece);
            assert(piece[k] == s[start + k]);
        }
    } else if s[i] == sep {
        lemma_split_pieces(s, sep, i + 1, i + 1);
        let rest = split_from(s, sep, i + 1, i + 1);
        let piece = s.subrange(start, i);
        assert forall|j: int, k: int| 0 <= j < all.len() && 0 <= k < all[j].len() implies #[trigger] all[j][k]
            != sep by {
            if j > 0 {
                assert(all[j] == rest[j - 1]);
            } else {
                assert(all[j] == piece);
                assert(piece[k] == s[start + k]);
            }
        }
    } else {
        lemma_split_pieces(s, sep, start, i + 1);
        assert(all == split_from(s, sep, start, i + 1));
    }
}

proof fn lemma_nonempty_trimmed_clean(p: Seq<Seq<char>>)
    requires
        forall|j: int, k: int| 0 <= j < p.len() && 0 <= k < p[j].len() ==> #[trigger] p[j][k] != ',',
    ensures
        forall|j: int|
            0 <= j < nonempty_trimmed(p).len() ==> {
                let t = #[trigger] nonempty_trimmed(p)[j];
                &&& t.len() > 0
                &&& !is_ws(t[0])
                &&& !is_ws(t.last())
                &&& forall|k: int| 0 <= k < t.len() ==> t[k] != ','
            },
    decreases p.len(),
{
    if p.len() > 0 {
        let q = p.drop_last();
        assert forall|j: int, k: int| 0 <= j < q.len() && 0 <= k < q[j].len() implies #[trigger] q[j][k]
            != ',' by {
            assert(q[j] == p[j]);
        }
        lemma_nonempty_trimmed_clean(q);
        let last = p.last();
        trimmed_is_clean(last);
        let t = trim_spec(last);
        let a = choose|a: int| #[trigger] piece_at(last, t, a);
        assert forall|k: int| 0 <= k < t.len() implies t[k] != ',' by {
            assert(t[k] == last[a + k]);
            assert(p[p.len() - 1][a + k] != ',');
        }
        let rest = nonempty_trimmed(q);
        let all = nonempty_trimmed(p);
        assert forall|j: int| 0 <= j < all.len() implies {
            let u = #[trigger] all[j];
            &&& u.len() > 0
            &&& !is_ws(u[0])
            &&& !is_ws(u.last())
            &&& forall|k: int| 0 <= k < u.len() ==> u[k] != ','
        } by {
            if j < rest.len() {
                assert(all[j] == rest[j]);
            } else {
                assert(all[j] == t);
            }
        }
    }
}

/// Every tag is non-empty, has no whitespace at either end and holds no
/// comma.
pub proof fn tags_are_clean(s: Seq<char>)
    ensures
        forall|j: int|
            0 <= j < tags_spec(s).len() ==> {
                let t = #[trigger] tags_spec(s)[j];
                &&& t.len() > 0
                &&& !is_ws(t[0])
                &&& !is_ws(t.last())
                &&& forall|k: int| 0 <= k < t.len() ==> t[k] != ','
            },
{
    lemma_split_pieces(s, ',', 0, 0);
    lemma_nonempty_trimmed_clean(split_on(s, ','));
}

/// A tag as the parser gives it: non-empty, no whitespace at either end,
/// no comma.
pub open spec fn clean_tag(t: Seq<char>) -> bool {
    &&& t.len() > 0
    &&& !is_ws(t[0])
    &&& !is_ws(t.last())
    &&& forall|k: int| 0 <= k < t.len() ==> t[k] != ','
}

proof fn lemma_trim_clean(t: Seq<char>)
    requires
        clean_tag(t),
    ensures
        trim_spec(t) == t,
        trim_spec(seq![' '] + t) == t,
{
    assert(ws_skip(t, 0) == 0);
    assert(ws_back(t, t.len() as int) == t.len());
    assert(t.subrange(0, t.len() as int) =~= t);
    let s = seq![' '] + t;
    assert(s[1] == t[0]);
    assert(ws_skip(s, 1) == 1);
    assert(is_ws(s[0]));
    assert(ws_skip(s, 0) == 1);
    assert(s[s.len() - 1] == t.last());
    assert(ws_back(s, s.len() as int) == s.len());
    assert(s.subrange(1, s.len() as int) =~= t);
}

proof fn lemma_split_none(s: Seq<char>, sep: char, start: int, k: int)
    requires
        0 <= start <= k <= s.len(),
        forall|j: int| k <= j < s.len() ==> s[j] != sep,
    ensures
        split_from(s, sep, start, k) == seq![s.subrange(start, s.len() as int)],
    decreases s.len() - k,
{
    if k < s.len() {
        lemma_split_none(s, sep, start, k + 1);
    }
}

proof fn lemma_split_last(a: Seq<char>, b: Seq<char>, sep: char, start: int, i: int)
    requires
        0 <= start <= i <= a.len(),
        forall|j: int| 0 <= j < b.len() ==> b[j] != sep,
    ensures
        split_from(a + seq![sep] + b, sep, start, i) == split_from(a, sep, start, i).push(b),
    decreases a.len() - i,
{
    let s = a + seq![sep] + b;
    if i == a.len() {
        assert(s[i] == sep);
        assert forall|j: int| i + 1 <= j < s.len() implies s[j] != sep by {
            assert(s[j] == b[j - i - 1]);
        }
        lemma_split_none(s, sep, i + 1, i + 1);
        assert(s.subrange(i + 1, s.len() as int) =~= b);
        assert(s.subrange(start, i) =~= a.subrange(start, a.len() as int));
        assert(split_from(s, sep, start, i) =~= split_from(a, sep, start, i).push(b));
    } else {
        assert(s[i] == a[i]);
        if a[i] == sep {
            lemma_split_last(a, b, sep, i + 1, i + 1);
            assert(s.subrange(start, i) =~= a.subrange(start, i));
            assert(split_from(s, sep, start, i) =~= split_from(a, sep, start, i).push(b));
        } else {
            lemma_split_last(a, b, sep, start, i + 1);
        }
    }
}

/// Parsing the tags of a list written with ", " between them gives the
/// list back, when each tag is one the parser could have given.
pub proof fn tags_round_trip(tags: Seq<Seq<char>>)
    requires
        forall|i: int| 0 <= i < tags.len() ==> clean_tag(#[trigger] tags[i]),
    ensures
        tags_spec(join_spec(tags, ", "@)) == tags,
    decreases tags.len(),
{
    reveal_strlit(", ");
    if tags.len() == 0 {
        lemma_split_none(Seq::<char>::empty(), ',', 0, 0);
        assert(Seq::<char>::empty().subrange(0, 0) =~= Seq::<char>::empty());
        assert(trim_spec(Seq::<char>::empty()) =~= Seq::<char>::empty());
        let e = seq![Seq::<char>::empty()];
        assert(e.drop_last() =~= Seq::<Seq<char>>::empty());
        assert(e.last() == Seq::<char>::empty());
        assert(nonempty_trimmed(Seq::<Seq<char>>::empty()) =~= Seq::<Seq<char>>::empty());
        assert(nonempty_trimmed(seq![Seq::<char>::empty()]) =~= Seq::<Seq<char>>::empty());
    } else if tags.len() == 1 {
        let t = tags[0];
        lemma_trim_clean(t);
        assert forall|j: int| 0 <= j < t.len() implies t[j] != ',' by {}
        lemma_split_none(t, ',', 0, 0);
        assert(t.subrange(0, t.len() as int) =~= t);
        let p = seq![t];
        assert(p.drop_last() =~= Seq::<Seq<char>>::empty());
        assert(p.last() == t);
        assert(nonempty_trimmed(Seq::<Seq<char>>::empty()) =~= Seq::<Seq<char>>::empty());
        assert(nonempty_trimmed(p) =~= Seq::<Seq<char>>::empty().push(t));
        assert(seq![t] =~= tags);
    } else {
        let front = tags.drop_last();
        let last = tags.last();
        assert forall|i: int| 0 <= i < front.len() implies clean_tag(#[trigger] front[i]) by {
            assert(front[i] == tags[i]);
        }
        tags_round_trip(front);
        lemma_trim_clean(last);
        let a = join_spec(front, ", "@);
        let b = seq![' '] + last;
        assert forall|j: int| 0 <= j < b.len() implies b[j] != ',' by {
            if j > 0 {
                assert(b[j] == last[j - 1]);
            }
        }
        assert(join_spec(tags, ", "@) =~= a + seq![','] + b);
        lemma_split_last(a, b, ',', 0, 0);
        let p = split_on(a, ',').push(b);
        assert(p.drop_last() =~= split_on(a, ','));
        assert(nonempty_trimmed(p) =~= front.push(last));
        assert(front.push(last) =~= tags);
    }
}

} // verus!
