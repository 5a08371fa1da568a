//! Attachments carried inside a JSON backup: which files are small enough
//! to go in, and the base64 text they are written as.

use vstd::prelude::*;
use crate::text::push_char;

verus! {

/// The character that stands for the six bits `v` in base64.
pub open spec fn b64_char(v: int) -> char {
    if v < 26 {
        ((v + 65) as u8) as char
    } else if v < 52 {
        ((v + 71) as u8) as char
    } else if v < 62 {
        ((v - 4) as u8) as char
    } else if v == 62 {
        '+'
    } else {
        '/'
    }
}

/// The six bits a base64 character stands for, if it is one.
pub open spec fn b64_value(c: char) -> Option<int> {
    let u = c as u32;
    if 65 <= u <= 90 {
        Some(u - 65)
    } else if 97 <= u <= 122 {
        Some(u - 71)
    } else if 48 <= u <= 57 {
        Some(u + 4)
    } else if u == 43 {
        Some(62)
    } else if u == 47 {
        Some(63)
    } else {
        None
    }
}

proof fn lemma_b64_char(v: int)
    requires
        0 <= v < 64,
    ensures
        b64_value(b64_char(v)) == Some(v),
        b64_char(v) != '=',
{
}

/// The four characters that stand for up to three bytes: `n` of them (1 to
/// 3) are given, the missing ones count as zero and are marked with '='.
pub open spec fn b64_group(b0: int, b1: int, b2: int, n: int) -> Seq<char> {
    let c0 = b64_char(b0 / 4);
    let c1 = b64_char((b0 % 4) * 16 + b1 / 16);
    let c2 = b64_char((b1 % 16) * 4 + b2 / 64);
    let c3 = b64_char(b2 % 64);
    if n == 1 {
        seq![c0, b64_char((b0 % 4) * 16), '=', '=']
    } else if n == 2 {
        seq![c0, c1, b64_char((b1 % 16) * 4), '=']
    } else {
        seq![c0, c1, c2, c3]
    }
}

/// Bytes written in base64 (RFC 4648, with '=' padding).
pub open spec fn b64_spec(b: Seq<u8>) -> Seq<char>
    decreases b.len(),
{
    if b.len() == 0 {
        Seq::empty()
    } else if b.len() == 1 {
        b64_group(b[0] as int, 0, 0, 1)
    } else if b.len() == 2 {
        b64_group(b[0] as int, b[1] as int, 0, 2)
    } else {
        b64_group(b[0] as int, b[1] as int, b[2] as int, 3) + b64_spec(b.skip(3))
    }
}

/// The bytes of one group of four base64 characters, if it is one; padding
/// is accepted only in the last group.
pub open spec fn unb64_group(s: Seq<char>, last: bool) -> Option<Seq<u8>> {
    match (b64_value(s[0]), b64_value(s[1])) {
        (Some(v0), Some(v1)) => {
            let x0 = (v0 * 4 + v1 / 16) as u8;
            if last && s[2] == '=' && s[3] == '=' {
                Some(seq![x0])
            } else {
                match b64_value(s[2]) {
                    Some(v2) => {
                        let x1 = ((v1 % 16) * 16 + v2 / 4) as u8;
                        if last && s[3] == '=' {
                            Some(seq![x0, x1])
                        } else {
                            match b64_value(s[3]) {
                                Some(v3) => Some(seq![x0, x1, ((v2 % 4) * 64 + v3) as u8]),
                                None => None,
                            }
                        }
                    },
                    None => None,
                }
            }
        },
        _ => None,
    }
}

/// The bytes a base64 text stands for, if it is one.
pub open spec fn unb64_spec(s: Seq<char>) -> Option<Seq<u8>>
    decreases s.len(),
{
    if s.len() == 0 {
        Some(Seq::empty())
    } else if s.len() < 4 {
        None
    } else {
        match (unb64_group(s.take(4), s.len() == 4), unb64_spec(s.skip(4))) {
            (Some(g), Some(rest)) => Some(g + rest),
            _ => None,
        }
    }
}

proof fn lemma_group_round_trip(b: Seq<u8>, n: int, last: bool)
    requires
        1 <= n <= 3,
        b.len() == n,
        n < 3 ==> last,
    ensures
        unb64_group(
            b64_group(
                b[0] as int,
                if n >= 2 { b[1] as int } else { 0 },
                if n >= 3 { b[2] as int } else { 0 },
                n,
            ),
            last,
        ) == Some(b),
{
    let b0 = b[0] as int;
    let b1 = if n >= 2 { b[1] as int } else { 0 };
    let b2 = if n >= 3 { b[2] as int } else { 0 };
    lemma_b64_char(b0 / 4);
    lemma_b64_char((b0 % 4) * 16 + b1 / 16);
    lemma_b64_char((b1 % 16) * 4 + b2 / 64);
    lemma_b64_char(b2 % 64);
    lemma_b64_char((b0 % 4) * 16);
    lemma_b64_char((b1 % 16) * 4);
    assert(((b0 / 4) * 4 + ((b0 % 4) * 16 + b1 / 16) / 16) == b0);
    assert(((b0 / 4) * 4 + ((b0 % 4) * 16) / 16) == b0);
    assert((((b0 % 4) * 16 + b1 / 16) % 16) * 16 + ((b1 % 16) * 4 + b2 / 64) / 4 == b1);
    assert((((b0 % 4) * 16 + b1 / 16) % 16) * 16 + ((b1 % 16) * 4) / 4 == b1);
    assert((((b1 % 16) * 4 + b2 / 64) % 4) * 64 + b2 % 64 == b2);
    if n == 1 {
        assert(seq![b0 as u8] =~= b);
    } else if n == 2 {
        assert(seq![b0 as u8, b1 as u8] =~= b);
    } else {
        assert(seq![b0 as u8, b1 as u8, b2 as u8] =~= b);
    }
}

/// Reading back the base64 text of some bytes gives the bytes.
#[verifier::spinoff_prover]
pub proof fn base64_round_trip(b: Seq<u8>)
    ensures
        unb64_spec(b64_spec(b)) == Some(b),
    decreases b.len(),
{
    let s = b64_spec(b);
    if b.len() == 0 {
    } else if b.len() < 3 {
        lemma_group_round_trip(b, b.len() as int, true);
        let n = b.len() as int;
        let g = b64_group(b[0] as int, if n >= 2 { b[1] as int } else { 0 }, 0, n);
        assert(s == g);
        assert(s.len() == 4);
        assert(s.take(4) =~= s);
        assert(s.skip(4) =~= Seq::<char>::empty());
        assert(unb64_spec(Seq::<char>::empty()) == Some(Seq::<u8>::empty()));
        assert(unb64_group(s.take(4), true) == Some(b));
        assert(b + Seq::<u8>::empty() =~= b);
        assert(unb64_spec(s) == Some(b + Seq::<u8>::empty()));
    } else {
        base64_round_trip(b.skip(3));
        let g = b64_group(b[0] as int, b[1] as int, b[2] as int, 3);
        let rest = b64_spec(b.skip(3));
        assert(s == g + rest);
        assert(s.take(4) =~= g);
        assert(s.skip(4) =~= rest);
        let t = b.take(3);
        assert(t[0] == b[0] && t[1] == b[1] && t[2] == b[2]);
        lemma_group_round_trip(t, 3, s.len() == 4);
        assert(unb64_group(s.take(4), s.len() == 4) == Some(t));
        assert(t + b.skip(3) =~= b);
        assert(unb64_spec(s) == Some(t + b.skip(3)));
    }
}

fn b64_char_of(v: u8) -> (c: char)
    requires
        v < 64,
    ensures
        c == b64_char(v as int),
{
    if v < 26 {
        (v + 65) as char
    } else if v < 52 {
        (v + 71) as char
    } else if v < 62 {
        (v - 4) as char
    } else if v == 62 {
        '+'
    } else {
        '/'
    }
}

fn b64_value_of(c: char) -> (r: Option<u8>)
    ensures
        match b64_value(c) {
            Some(v) => r == Some(v as u8) && v < 64,
            None => r is None,
        },
{
    let u = c as u32;
    if 65 <= u && u <= 90 {
        Some((u - 65) as u8)
    } else if 97 <= u && u <= 122 {
        Some((u - 71) as u8)
    } else if 48 <= u && u <= 57 {
        Some((u + 4) as u8)
    } else if u == 43 {
        Some(62)
    } else if u == 47 {
        Some(63)
    } else {
        None
    }
}

/// Writes bytes in base64.
pub fn base64_encode(b: &Vec<u8>) -> (r: String)
    ensures
        r@ == b64_spec(b@),
{
    let n = b.len();
    let mut r = String::new();
    let mut i: usize = 0;
    proof {
        assert(b@.skip(0) =~= b@);
        assert(r@ + b64_spec(b@) =~= b64_spec(b@));
    }
    while i < n
        invariant
            n == b@.len(),
            0 <= i <= n,
            r@ + b64_spec(b@.skip(i as int)) == b64_spec(b@),
        decreases n - i,
    {
        let rest = n - i;
        let b0 = b[i];
        let b1: u8 = if rest >= 2 { b[i + 1] } else { 0 };
        let b2: u8 = if rest >= 3 { b[i + 2] } else { 0 };
        let ghost before = r@;
        let ghost tail = b@.skip(i as int);
        push_char(&mut r, b64_char_of(b0 / 4));
        if rest == 1 {
            push_char(&mut r, b64_char_of((b0 % 4) * 16));
            push_char(&mut r, '=');
            push_char(&mut r, '=');
        } else if rest == 2 {
            push_char(&mut r, b64_char_of((b0 % 4) * 16 + b1 / 16));
            push_char(&mut r, b64_char_of((b1 % 16) * 4));
            push_char(&mut r, '=');
        } else {
            push_char(&mut r, b64_char_of((b0 % 4) * 16 + b1 / 16));
            push_char(&mut r, b64_char_of((b1 % 16) * 4 + b2 / 64));
            push_char(&mut r, b64_char_of(b2 % 64));
        }
        let step = if rest >= 3 { 3 } else { rest };
        proof {
            assert(tail[0] == b0);
            if rest >= 2 {
                assert(tail[1] == b1);
            }
            if rest >= 3 {
                assert(tail[2] == b2);
                assert(tail.skip(3) =~= b@.skip((i + 3) as int));
                assert(r@ =~= before + b64_group(b0 as int, b1 as int, b2 as int, 3));
            } else {
                assert(b@.skip((i + step) as int) =~= Seq::<u8>::empty());
                assert(r@ =~= before + b64_spec(tail));
            }
            assert(r@ + b64_spec(b@.skip((i + step) as int)) =~= b64_spec(b@));
        }
        i = i + step;
    }
    proof {
        assert(b@.skip(n as int) =~= Seq::<u8>::empty());
        assert(r@ + Seq::<char>::empty() =~= r@);
    }
    r
}

/// The bytes that a base64 text stands for; `None` when it is not base64.
pub fn base64_decode(s: &str) -> (r: Option<Vec<u8>>)
    ensures
        match unb64_spec(s@) {
            Some(b) => r matches Some(v) && v@ == b,
            None => r is None,
        },
{
    let n = s.unicode_len();
    let mut out: Vec<u8> = Vec::new();
    let mut i: usize = 0;
    proof {
        assert(s@.skip(0) =~= s@);
        match unb64_spec(s@) {
            Some(all) => {
                assert(out@ + all =~= all);
            },
            None => {},
        }
    }
    while i < n
        invariant
            n == s@.len(),
            0 <= i <= n,
            unb64_spec(s@) == match unb64_spec(s@.skip(i as int)) {
                Some(rest) => Some(out@ + rest),
                None => None,
            },
        decreases n - i,
    {
        let ghost tail = s@.skip(i as int);
        if n - i < 4 {
            return None;
        }
        let last = n - i == 4;
        let c0 = s.get_char(i);
        let c1 = s.get_char(i + 1);
        let c2 = s.get_char(i + 2);
        let c3 = s.get_char(i + 3);
        let ghost g = tail.take(4);
        proof {
            assert(g[0] == c0 && g[1] == c1 && g[2] == c2 && g[3] == c3);
            assert(tail.skip(4) =~= s@.skip((i + 4) as int));
        }
        let ghost before = out@;
        let v0 = match b64_value_of(c0) {
            Some(v) => v,
            None => {
                return None;
            },
        };
        let v1 = match b64_value_of(c1) {
            Some(v) => v,
            None => {
                return None;
            },
        };
        out.push(v0 * 4 + v1 / 16);
        if last && c2 == '=' && c3 == '=' {
            proof {
                assert(unb64_group(g, last) == Some(seq![(v0 * 4 + v1 / 16) as u8]));
                assert(out@ =~= before + seq![(v0 * 4 + v1 / 16) as u8]);
            }
        } else {
            let v2 = match b64_value_of(c2) {
                Some(v) => v,
                None => {
                    return None;
                },
            };
            out.push((v1 % 16) * 16 + v2 / 4);
            if last && c3 == '=' {
                proof {
                    assert(out@ =~= before + seq![
                        (v0 * 4 + v1 / 16) as u8,
                        ((v1 % 16) * 16 + v2 / 4) as u8,
                    ]);
                }
            } else {
                let v3 = match b64_value_of(c3) {
                    Some(v) => v,
                    None => {
                        return None;
                    },
                };
                out.push((v2 % 4) * 64 + v3);
                proof {
                    assert(out@ =~= before + seq![
                        (v0 * 4 + v1 / 16) as u8,
                        ((v1 % 16) * 16 + v2 / 4) as u8,
                        ((v2 % 4) * 64 + v3) as u8,
                    ]);
                }
            }
        }
        proof {
            let gb = unb64_group(g, last)->0;
            assert(unb64_group(g, last) is Some);
            assert(out@ =~= before + gb);
            match unb64_spec(s@.skip((i + 4) as int)) {
                Some(rest) => {
                    assert(before + (gb + rest) =~= out@ + rest);
                },
                None => {},
            }
        }
        i = i + 4;
    }
    proof {
        assert(s@.skip(n as int) =~= Seq::<char>::empty());
        assert(out@ + Seq::<u8>::empty() =~= out@);
    }
    Some(out)
}

/// The largest attachment carried inside a JSON backup: 5 MB.
pub const EMBED_LIMIT: u64 = 5242880;

/// Whether an attachment of the given size (none when it cannot be read)
/// goes into the backup.
pub open spec fn embeds(size: Option<u64>) -> bool {
    size matches Some(n) && n <= EMBED_LIMIT
}

/// How many of the attachments stay out of the backup.
pub open spec fn skipped_count(sizes: Seq<Option<u64>>) -> nat
    decreases sizes.len(),
{
    if sizes.len() == 0 {
        0
    } else {
        skipped_count(sizes.drop_last()) + if embeds(sizes.last()) {
            0nat
        } else {
            1nat
        }
    }
}

/// Decides which attachments go into a JSON backup, given each one's size:
/// those that can be read and are at most 5 MB; the others are kept by path
/// only and counted.
pub fn embed_plan(sizes: &Vec<Option<u64>>) -> (r: (Vec<bool>, u64))
    ensures
        r.0@.len() == sizes@.len(),
        forall|i: int| 0 <= i < sizes@.len() ==> #[trigger] r.0@[i] == embeds(sizes@[i]),
        r.1 == skipped_count(sizes@),
{
    let mut plan: Vec<bool> = Vec::new();
    let mut skipped: u64 = 0;
    let mut i: usize = 0;
    while i < sizes.len()
        invariant
            0 <= i <= sizes.len(),
            plan@.len() == i,
            forall|k: int| 0 <= k < i ==> #[trigger] plan@[k] == embeds(sizes@[k]),
            skipped == skipped_count(sizes@.take(i as int)),
            skipped <= i,
        decreases sizes.len() - i,
    {
        let e = match sizes[i] {
            Some(n) => n <= EMBED_LIMIT,
            None => false,
        };
        plan.push(e);
        proof {
            assert(sizes@.take((i + 1) as int).drop_last() =~= sizes@.take(i as int));
            assert(sizes@.take((i + 1) as int).last() == sizes@[i as int]);
        }
        if !e {
            skipped = skipped + 1;
        }
        i = i + 1;
    }
    proof {
        assert(sizes@.take(i as int) =~= sizes@);
    }
    (plan, skipped)
}

/// The base64 alphabet of RFC 4648: the six bits `v` are written as the
/// `v`-th character of "A-Z a-z 0-9 + /", and no character of it is the
/// padding '='.
pub proof fn base64_alphabet(v: int)
    requires
        0 <= v < 64,
    ensures
        b64_char(v) == "ABCDEFGHIJKLMNOPQRSTUVWXYZabcdefghijklmnopqrstuvwxyz0123456789+/"@[v],
        b64_char(v) != '=',
{
    reveal_strlit("ABCDEFGHIJKLMNOPQRSTUVWXYZabcdefghijklmnopqrstuvwxyz0123456789+/");
}

/// Every three bytes, and a last group of one or two, become four
/// characters, so the text is four characters per started group of three.
pub proof fn base64_length(b: Seq<u8>)
    ensures
        b64_spec(b).len() == 4 * ((b.len() + 2) / 3),
    decreases b.len(),
{
    if b.len() >= 3 {
        base64_length(b.skip(3));
    }
}

} // verus!
