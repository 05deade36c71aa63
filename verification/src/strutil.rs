//! Character and string helpers shared by the rest of the crate.
//!
//! Logic here works on `Vec<char>` so that every step is visible to the
//! verifier; `chars_to_string` is the one trusted bridge back to `String`.

use vstd::prelude::*;
use vstd::string::StrSliceExecFns;

verus! {

/// Character class: ASCII decimal digit.
pub open spec fn is_digit_char(c: char) -> bool {
    '0' <= c <= '9'
}

/// Character class: ASCII lowercase letter.
pub open spec fn is_lower_char(c: char) -> bool {
    'a' <= c <= 'z'
}

/// Character class: ASCII uppercase letter.
pub open spec fn is_upper_char(c: char) -> bool {
    'A' <= c <= 'Z'
}

/// Character class: ASCII letter.
pub open spec fn is_alpha_char(c: char) -> bool {
    is_lower_char(c) || is_upper_char(c)
}

/// Character class: ASCII letter or digit.
pub open spec fn is_alnum_char(c: char) -> bool {
    is_alpha_char(c) || is_digit_char(c)
}

/// ASCII lowercasing of a single character; other characters are unchanged.
pub open spec fn lower_char(c: char) -> char {
    if is_upper_char(c) {
        (c as u32 + 32) as char
    } else {
        c
    }
}

pub fn exec_is_digit(c: char) -> (r: bool)
    ensures
        r == is_digit_char(c),
{
    '0' <= c && c <= '9'
}

pub fn exec_is_lower(c: char) -> (r: bool)
    ensures
        r == is_lower_char(c),
{
    'a' <= c && c <= 'z'
}

pub fn exec_is_upper(c: char) -> (r: bool)
    ensures
        r == is_upper_char(c),
{
    'A' <= c && c <= 'Z'
}

pub fn exec_is_alpha(c: char) -> (r: bool)
    ensures
        r == is_alpha_char(c),
{
    exec_is_lower(c) || exec_is_upper(c)
}

pub fn exec_is_alnum(c: char) -> (r: bool)
    ensures
        r == is_alnum_char(c),
{
    exec_is_alpha(c) || exec_is_digit(c)
}

pub fn exec_lower_char(c: char) -> (r: char)
    ensures
        r == lower_char(c),
{
    if exec_is_upper(c) {
        (((c as u32) + 32) as u8) as char
    } else {
        c
    }
}

/// The characters of `s`, in order.
pub fn chars_vec(s: &str) -> (r: Vec<char>)
    ensures
        r@ == s@,
{
    let n: usize = s.unicode_len();
    let mut out: Vec<char> = Vec::new();
    let mut i: usize = 0;
    while i < n
        invariant
            n == s@.len(),
            i <= n,
            out@ == s@.subrange(0, i as int),
        decreases n - i,
    {
        out.push(s.get_char(i));
        i = i + 1;
        proof {
            assert(out@ =~= s@.subrange(0, i as int));
        }
    }
    proof {
        assert(out@ =~= s@);
    }
    out
}

/// Builds the string holding exactly the given characters.
///
/// Relies on `String`'s `FromIterator<char>` impl of std: collecting an
/// iterator of characters yields the string of those characters in order.
#[verifier::external_body]
pub fn chars_to_string(v: &Vec<char>) -> (r: String)
    ensures
        r@ == v@,
{
    v.iter().collect()
}

/// Whether the characters of `v` end with the characters of `suffix`.
pub open spec fn seq_ends_with(v: Seq<char>, suffix: Seq<char>) -> bool {
    v.len() >= suffix.len() && v.subrange(v.len() - suffix.len(), v.len() as int) == suffix
}

/// Whether the characters of `v` start with the characters of `prefix`.
pub open spec fn seq_starts_with(v: Seq<char>, prefix: Seq<char>) -> bool {
    v.len() >= prefix.len() && v.subrange(0, prefix.len() as int) == prefix
}

pub fn vec_eq_chars(a: &Vec<char>, b: &Vec<char>) -> (r: bool)
    ensures
        r == (a@ == b@),
{
    if a.len() != b.len() {
        proof {
            assert(a@ != b@);
        }
        return false;
    }
    let n: usize = a.len();
    let mut i: usize = 0;
    while i < n
        invariant
            n == a@.len() == b@.len(),
            i <= n,
            forall|j: int| 0 <= j < i ==> a@[j] == b@[j],
        decreases n - i,
    {
        if a[i] != b[i] {
            return false;
        }
        i = i + 1;
    }
    proof {
        assert(a@ =~= b@);
    }
    true
}

pub fn vec_ends_with(v: &Vec<char>, suffix: &Vec<char>) -> (r: bool)
    ensures
        r == seq_ends_with(v@, suffix@),
{
    let vn: usize = v.len();
    let sn: usize = suffix.len();
    if vn < sn {
        return false;
    }
    let start: usize = vn - sn;
    let mut i: usize = 0;
    while i < sn
        invariant
            sn <= vn,
            start == vn - sn,
            vn == v@.len(),
            sn == suffix@.len(),
            i <= sn,
            forall|j: int| 0 <= j < i ==> v@[start + j] == suffix@[j],
        decreases sn - i,
    {
        if v[start + i] != suffix[i] {
            proof {
                assert(v@.subrange(vn - sn, vn as int)[i as int] != suffix@[i as int]);
            }
            return false;
        }
        i = i + 1;
    }
    proof {
        assert(v@.subrange(vn - sn, vn as int) =~= suffix@);
    }
    true
}

pub fn vec_starts_with(v: &Vec<char>, prefix: &Vec<char>) -> (r: bool)
    ensures
        r == seq_starts_with(v@, prefix@),
{
    let vn: usize = v.len();
    let pn: usize = prefix.len();
    if vn < pn {
        return false;
    }
    let mut i: usize = 0;
    while i < pn
        invariant
            pn <= vn,
            vn == v@.len(),
            pn == prefix@.len(),
            i <= pn,
            forall|j: int| 0 <= j < i ==> v@[j] == prefix@[j],
        decreases pn - i,
    {
        if v[i] != prefix[i] {
            proof {
                assert(v@.subrange(0, pn as int)[i as int] != prefix@[i as int]);
            }
            return false;
        }
        i = i + 1;
    }
    proof {
        assert(v@.subrange(0, pn as int) =~= prefix@);
    }
    true
}

/// Whether `pat` occurs in `v` starting at position `at`.
pub open spec fn seq_matches_at(v: Seq<char>, pat: Seq<char>, at: int) -> bool {
    0 <= at && at + pat.len() <= v.len() && v.subrange(at, at + pat.len()) == pat
}

/// Whether `pat` occurs somewhere in `v`.
pub open spec fn seq_contains_seq(v: Seq<char>, pat: Seq<char>) -> bool {
    exists|at: int| seq_matches_at(v, pat, at)
}

pub fn vec_matches_at(v: &Vec<char>, pat: &Vec<char>, at: usize) -> (r: bool)
    requires
        at + pat@.len() <= v@.len(),
    ensures
        r == seq_matches_at(v@, pat@, at as int),
{
    let vn: usize = v.len();
    let pn: usize = pat.len();
    let mut i: usize = 0;
    while i < pn
        invariant
            at + pn <= vn,
            vn == v@.len(),
            pn == pat@.len(),
            i <= pn,
            forall|j: int| 0 <= j < i ==> v@[at + j] == pat@[j],
        decreases pn - i,
    {
        if v[at + i] != pat[i] {
            proof {
                assert(v@.subrange(at as int, at + pn) != pat@) by {
                    assert(v@.subrange(at as int, at + pn)[i as int] != pat@[i as int]);
                }
            }
            return false;
        }
        i = i + 1;
    }
    proof {
        assert(v@.subrange(at as int, at + pn) =~= pat@);
    }
    true
}

/// First position at which `pat` occurs in `v`, if any.
pub fn vec_find(v: &Vec<char>, pat: &Vec<char>) -> (r: Option<usize>)
    ensures
        match r {
            Some(at) => seq_matches_at(v@, pat@, at as int) && forall|j: int|
                0 <= j < at ==> !seq_matches_at(v@, pat@, j),
            None => !seq_contains_seq(v@, pat@),
        },
{
    let vn: usize = v.len();
    let pn: usize = pat.len();
    if pn > vn {
        return None;
    }
    let last: usize = vn - pn;
    if pn == 0 {
        proof {
            assert(v@.subrange(0, 0) =~= pat@);
        }
        return Some(0);
    }
    let mut at: usize = 0;
    while at <= last
        invariant
            pn <= vn,
            vn == v@.len(),
            pn == pat@.len(),
            last == vn - pn,
            1 <= pn,
            at <= last + 1,
            forall|j: int| 0 <= j < at ==> !seq_matches_at(v@, pat@, j),
        decreases last + 1 - at,
    {
        if vec_matches_at(v, pat, at) {
            return Some(at);
        }
        at = at + 1;
    }
    proof {
        assert forall|j: int| !seq_matches_at(v@, pat@, j) by {
            if seq_matches_at(v@, pat@, j) {
                assert(0 <= j <= last);
            }
        }
    }
    None
}

pub fn vec_contains(v: &Vec<char>, pat: &Vec<char>) -> (r: bool)
    ensures
        r == seq_contains_seq(v@, pat@),
{
    vec_find(v, pat).is_some()
}

/// ASCII lowercasing of a whole character sequence.
pub open spec fn lower_seq(s: Seq<char>) -> Seq<char> {
    s.map_values(|c: char| lower_char(c))
}

pub fn vec_to_lower(v: &Vec<char>) -> (r: Vec<char>)
    ensures
        r@ == lower_seq(v@),
{
    let n: usize = v.len();
    let mut out: Vec<char> = Vec::new();
    let mut i: usize = 0;
    while i < n
        invariant
            n == v@.len(),
            i <= n,
            out@ == lower_seq(v@.subrange(0, i as int)),
        decreases n - i,
    {
        out.push(exec_lower_char(v[i]));
        i = i + 1;
        proof {
            assert(out@ =~= lower_seq(v@.subrange(0, i as int)));
        }
    }
    proof {
        assert(v@.subrange(0, n as int) =~= v@);
    }
    out
}

/// The decimal digit character for a value below ten.
pub open spec fn digit_char(d: int) -> char {
    ('0' as u32 + d) as char
}

/// Decimal representation of `n`, most significant digit first, no leading
/// zeros (the single digit `0` for zero).
pub open spec fn dec_str(n: nat) -> Seq<char>
    decreases n,
{
    if n < 10 {
        seq![digit_char(n as int)]
    } else {
        dec_str(n / 10) + seq![digit_char((n % 10) as int)]
    }
}

fn dec_digit(d: u64) -> (r: char)
    requires
        d < 10,
    ensures
        r == digit_char(d as int),
{
    (('0' as u32 as u8) + (d as u8)) as char
}

/// Writes `n` in decimal.
pub fn u64_to_dec_chars(n: u64) -> (r: Vec<char>)
    ensures
        r@ == dec_str(n as nat),
    decreases n,
{
    if n < 10 {
        let mut out: Vec<char> = Vec::new();
        out.push(dec_digit(n));
        proof {
            assert(out@ =~= dec_str(n as nat));
        }
        out
    } else {
        let mut out = u64_to_dec_chars(n / 10);
        out.push(dec_digit(n % 10));
        proof {
            assert(out@ =~= dec_str(n as nat));
        }
        out
    }
}

/// The lowercase hexadecimal digit character for a value below sixteen.
pub open spec fn hex_digit_char(d: int) -> char {
    if d < 10 {
        ('0' as u32 + d) as char
    } else {
        ('a' as u32 + (d - 10)) as char
    }
}

/// Hexadecimal representation of `n`, lowercase, no leading zeros
/// (the single digit `0` for zero).
pub open spec fn hex_str(n: nat) -> Seq<char>
    decreases n,
{
    if n < 16 {
        seq![hex_digit_char(n as int)]
    } else {
        hex_str(n / 16) + seq![hex_digit_char((n % 16) as int)]
    }
}

fn hex_digit(d: u64) -> (r: char)
    requires
        d < 16,
    ensures
        r == hex_digit_char(d as int),
{
    if d < 10 {
        (('0' as u32 as u8) + (d as u8)) as char
    } else {
        (('a' as u32 as u8) + ((d - 10) as u8)) as char
    }
}

/// Writes `n` in lowercase hexadecimal.
pub fn u64_to_hex_chars(n: u64) -> (r: Vec<char>)
    ensures
        r@ == hex_str(n as nat),
    decreases n,
{
    if n < 16 {
        let mut out: Vec<char> = Vec::new();
        out.push(hex_digit(n));
        proof {
            assert(out@ =~= hex_str(n as nat));
        }
        out
    } else {
        let mut out = u64_to_hex_chars(n / 16);
        out.push(hex_digit(n % 16));
        proof {
            assert(out@ =~= hex_str(n as nat));
        }
        out
    }
}

/// Appends every character of `src` to `dst`.
pub fn push_all(dst: &mut Vec<char>, src: &Vec<char>)
    ensures
        final(dst)@ == old(dst)@ + src@,
{
    let n: usize = src.len();
    let mut i: usize = 0;
    while i < n
        invariant
            n == src@.len(),
            i <= n,
            dst@ == old(dst)@ + src@.subrange(0, i as int),
        decreases n - i,
    {
        dst.push(src[i]);
        i = i + 1;
        proof {
            assert(old(dst)@ + src@.subrange(0, i as int) =~= dst@);
        }
    }
    proof {
        assert(old(dst)@ + src@.subrange(0, n as int) =~= old(dst)@ + src@);
    }
}

/// Appends every character of the string slice `src` to `dst`.
pub fn push_str_chars(dst: &mut Vec<char>, src: &str)
    ensures
        final(dst)@ == old(dst)@ + src@,
{
    let v = chars_vec(src);
    push_all(dst, &v);
}

/// Character class: ASCII whitespace recognised by the trimmers.
pub open spec fn is_ws_char(c: char) -> bool {
    c == ' ' || c == '\t' || c == '\n' || c == '\r'
}

pub fn exec_is_ws(c: char) -> (r: bool)
    ensures
        r == is_ws_char(c),
{
    c == ' ' || c == '\t' || c == '\n' || c == '\r'
}

/// Leading and trailing ASCII whitespace removed.
pub open spec fn trim_ws(s: Seq<char>) -> Seq<char>
    decreases s.len(),
{
    if s.len() > 0 && is_ws_char(s[0]) {
        trim_ws(s.drop_first())
    } else if s.len() > 0 && is_ws_char(s[s.len() - 1]) {
        trim_ws(s.drop_last())
    } else {
        s
    }
}

/// Removes leading and trailing ASCII whitespace.
#[verifier::rlimit(50)]
pub fn vec_trim_ws(v: &Vec<char>) -> (r: Vec<char>)
    ensures
        r@ == trim_ws(v@),
{
    let n: usize = v.len();
    proof {
        assert(v@.subrange(0, n as int) =~= v@);
    }
    let mut start: usize = 0;
    while start < n && exec_is_ws(v[start])
        invariant
            n == v@.len(),
            start <= n,
            trim_ws(v@) == trim_ws(v@.subrange(start as int, n as int)),
        decreases n - start,
    {
        proof {
            let cur = v@.subrange(start as int, n as int);
            assert(is_ws_char(cur[0]));
            assert(cur.drop_first() =~= v@.subrange(start as int + 1, n as int));
        }
        start = start + 1;
    }
    let mut end: usize = n;
    while end > start && exec_is_ws(v[end - 1])
        invariant
            n == v@.len(),
            start <= end <= n,
            start < n ==> !is_ws_char(v@[start as int]),
            trim_ws(v@) == trim_ws(v@.subrange(start as int, end as int)),
        decreases end,
    {
        proof {
            let cur = v@.subrange(start as int, end as int);
            assert(is_ws_char(cur[cur.len() - 1]));
            assert(cur.drop_last() =~= v@.subrange(start as int, end as int - 1));
        }
        end = end - 1;
    }
    let mut out: Vec<char> = Vec::new();
    let mut i: usize = start;
    while i < end
        invariant
            start <= i <= end <= n,
            n == v@.len(),
            out@ == v@.subrange(start as int, i as int),
        decreases end - i,
    {
        out.push(v[i]);
        i = i + 1;
        proof {
            assert(out@ =~= v@.subrange(start as int, i as int));
        }
    }
    proof {
        let cur = v@.subrange(start as int, end as int);
        assert(trim_ws(cur) == cur);
        assert(out@ =~= cur);
    }
    out
}

/// Leading and trailing occurrences of one character removed.
pub open spec fn trim_char(s: Seq<char>, t: char) -> Seq<char>
    decreases s.len(),
{
    if s.len() > 0 && s[0] == t {
        trim_char(s.drop_first(), t)
    } else if s.len() > 0 && s[s.len() - 1] == t {
        trim_char(s.drop_last(), t)
    } else {
        s
    }
}

/// Removes leading and trailing occurrences of `t`.
#[verifier::rlimit(50)]
pub fn vec_trim_char(v: &Vec<char>, t: char) -> (r: Vec<char>)
    ensures
        r@ == trim_char(v@, t),
{
    let n: usize = v.len();
    proof {
        assert(v@.subrange(0, n as int) =~= v@);
    }
    let mut start: usize = 0;
    while start < n && v[start] == t
        invariant
            n == v@.len(),
            start <= n,
            trim_char(v@, t) == trim_char(v@.subrange(start as int, n as int), t),
        decreases n - start,
    {
        proof {
            let cur = v@.subrange(start as int, n as int);
            assert(cur[0] == t);
            assert(cur.drop_first() =~= v@.subrange(start as int + 1, n as int));
        }
        start = start + 1;
    }
    let mut end: usize = n;
    while end > start && v[end - 1] == t
        invariant
            n == v@.len(),
            start <= end <= n,
            start < n ==> v@[start as int] != t,
            trim_char(v@, t) == trim_char(v@.subrange(start as int, end as int), t),
        decreases end,
    {
        proof {
            let cur = v@.subrange(start as int, end as int);
            assert(cur[cur.len() - 1] == t);
            assert(cur.drop_last() =~= v@.subrange(start as int, end as int - 1));
        }
        end = end - 1;
    }
    let mut out: Vec<char> = Vec::new();
    let mut i: usize = start;
    while i < end
        invariant
            start <= i <= end <= n,
            n == v@.len(),
            out@ == v@.subrange(start as int, i as int),
        decreases end - i,
    {
        out.push(v[i]);
        i = i + 1;
        proof {
            assert(out@ =~= v@.subrange(start as int, i as int));
        }
    }
    proof {
        let cur = v@.subrange(start as int, end as int);
        assert(trim_char(cur, t) == cur);
        assert(out@ =~= cur);
    }
    out
}

/// Collapsing pass over underscore runs: `prev` says whether the character
/// before `s` was an underscore; of each underscore run only the first
/// character is kept.
pub open spec fn collapse_rec(s: Seq<char>, prev: bool) -> Seq<char>
    decreases s.len(),
{
    if s.len() == 0 {
        Seq::empty()
    } else {
        let rest = collapse_rec(s.drop_first(), s[0] == '_');
        if s[0] == '_' && prev {
            rest
        } else {
            seq![s[0]] + rest
        }
    }
}

/// Runs of underscores collapsed to a single underscore.
pub open spec fn collapse_underscores(s: Seq<char>) -> Seq<char> {
    collapse_rec(s, false)
}

/// Collapses every run of underscores to a single underscore.
pub fn vec_collapse_underscores(v: &Vec<char>) -> (r: Vec<char>)
    ensures
        r@ == collapse_underscores(v@),
{
    let n: usize = v.len();
    let mut out: Vec<char> = Vec::new();
    let mut prev: bool = false;
    let mut i: usize = 0;
    proof {
        assert(v@.skip(0) =~= v@);
    }
    while i < n
        invariant
            n == v@.len(),
            i <= n,
            prev == (i > 0 && v@[i as int - 1] == '_'),
            collapse_underscores(v@) == out@ + collapse_rec(v@.skip(i as int), prev),
        decreases n - i,
    {
        let c = v[i];
        proof {
            let tail = v@.skip(i as int);
            assert(tail[0] == c);
            assert(tail.drop_first() =~= v@.skip(i as int + 1));
        }
        if !(c == '_' && prev) {
            out.push(c);
            proof {
                let tail = v@.skip(i as int);
                assert(seq![c] + collapse_rec(tail.drop_first(), c == '_') == collapse_rec(
                    tail,
                    prev,
                ));
                assert(out@ + collapse_rec(v@.skip(i as int + 1), c == '_')
                    =~= out@.drop_last() + collapse_rec(tail, prev));
            }
        }
        prev = c == '_';
        i = i + 1;
    }
    proof {
        assert(v@.skip(n as int) =~= Seq::<char>::empty());
        assert(out@ + collapse_rec(v@.skip(n as int), prev) =~= out@);
    }
    out
}

/// Whether two string slices hold the same characters.
pub fn str_eq(a: &str, b: &str) -> (r: bool)
    ensures
        r == (a@ == b@),
{
    let va = chars_vec(a);
    let vb = chars_vec(b);
    vec_eq_chars(&va, &vb)
}

/// Whether a string slice equals a string.
pub fn str_eq_string(a: &str, b: &String) -> (r: bool)
    ensures
        r == (a@ == b@),
{
    str_eq(a, b.as_str())
}

/// The suffix after the last occurrence of `c`, or the whole sequence when
/// `c` does not occur.
pub open spec fn after_last(s: Seq<char>, c: char) -> Seq<char>
    decreases s.len(),
{
    if s.len() == 0 {
        s
    } else if s[s.len() - 1] == c {
        Seq::empty()
    } else {
        after_last(s.drop_last(), c) + seq![s[s.len() - 1]]
    }
}

/// Returns the characters after the last occurrence of `c`.
pub fn vec_after_last(v: &Vec<char>, c: char) -> (r: Vec<char>)
    ensures
        r@ == after_last(v@, c),
{
    let n: usize = v.len();
    let mut start: usize = 0;
    let mut i: usize = 0;
    while i < n
        invariant
            n == v@.len(),
            i <= n,
            start <= i,
            after_last(v@.subrange(0, i as int), c) == v@.subrange(start as int, i as int),
        decreases n - i,
    {
        proof {
            let cur = v@.subrange(0, i as int + 1);
            assert(cur.drop_last() =~= v@.subrange(0, i as int));
            assert(cur[cur.len() - 1] == v@[i as int]);
        }
        if v[i] == c {
            start = i + 1;
            proof {
                assert(after_last(v@.subrange(0, i as int + 1), c) =~= v@.subrange(
                    i as int + 1,
                    i as int + 1,
                ));
            }
        } else {
            proof {
                assert(after_last(v@.subrange(0, i as int + 1), c) =~= v@.subrange(
                    start as int,
                    i as int + 1,
                ));
            }
        }
        i = i + 1;
    }
    proof {
        assert(v@.subrange(0, n as int) =~= v@);
    }
    let mut out: Vec<char> = Vec::new();
    let mut j: usize = start;
    while j < n
        invariant
            start <= j <= n,
            n == v@.len(),
            out@ == v@.subrange(start as int, j as int),
        decreases n - j,
    {
        out.push(v[j]);
        j = j + 1;
        proof {
            assert(out@ =~= v@.subrange(start as int, j as int));
        }
    }
    out
}

} // verus!
