//! Configuration values and small formatting rules: the upload size cap,
//! byte-count labels, CORS origin lists, the cookie flag, and fresh file
//! ids.

use vstd::prelude::*;
use crate::strutil::{
    chars_to_string, chars_vec, dec_str, is_digit_char, push_all, push_str_chars, trim_ws,
    u64_to_dec_chars, vec_trim_ws,
};

verus! {

/// Bytes per megabyte.
pub const BYTES_PER_MB: u64 = 0x100000;

/// Default upload size cap in megabytes.
pub const DEFAULT_MAX_SIZE_MB: u64 = 200;

/// The label for a byte count: whole gigabytes, else whole megabytes, else
/// whole kilobytes, else bytes.
pub open spec fn spec_format_bytes(bytes: u64) -> Seq<char> {
    if bytes >= 0x40000000 && bytes as int % 0x40000000 == 0 {
        dec_str((bytes as int / 0x40000000) as nat) + "GB"@
    } else if bytes >= 0x100000 && bytes as int % 0x100000 == 0 {
        dec_str((bytes as int / 0x100000) as nat) + "MB"@
    } else if bytes >= 0x400 && bytes as int % 0x400 == 0 {
        dec_str((bytes as int / 0x400) as nat) + "KB"@
    } else {
        dec_str(bytes as nat) + "B"@
    }
}

/// Writes a byte count as a human-readable label.
pub fn format_bytes(bytes: u64) -> (r: String)
    ensures
        r@ == spec_format_bytes(bytes),
{
    let gb: u64 = 0x40000000;
    let mb: u64 = 0x100000;
    let kb: u64 = 0x400;
    let mut out: Vec<char> = Vec::new();
    if bytes >= gb && bytes % gb == 0 {
        let digits = u64_to_dec_chars(bytes / gb);
        push_all(&mut out, &digits);
        push_str_chars(&mut out, "GB");
    } else if bytes >= mb && bytes % mb == 0 {
        let digits = u64_to_dec_chars(bytes / mb);
        push_all(&mut out, &digits);
        push_str_chars(&mut out, "MB");
    } else if bytes >= kb && bytes % kb == 0 {
        let digits = u64_to_dec_chars(bytes / kb);
        push_all(&mut out, &digits);
        push_str_chars(&mut out, "KB");
    } else {
        let digits = u64_to_dec_chars(bytes);
        push_all(&mut out, &digits);
        push_str_chars(&mut out, "B");
    }
    chars_to_string(&out)
}

/// The effective cap in megabytes: the configured value when positive,
/// else the default.
pub open spec fn effective_max_size_mb(configured: Option<u64>) -> u64 {
    match configured {
        Some(v) => if v > 0 {
            v
        } else {
            DEFAULT_MAX_SIZE_MB
        },
        None => DEFAULT_MAX_SIZE_MB,
    }
}

/// The upload size cap from the configured megabyte count: the cap in
/// bytes (saturating) and its label.
pub fn max_size_from_mb(configured: Option<u64>) -> (r: (u64, String))
    ensures
        ({
            let mbv = effective_max_size_mb(configured);
            &&& r.0 == if mbv * BYTES_PER_MB > u64::MAX {
                u64::MAX
            } else {
                (mbv * BYTES_PER_MB) as u64
            }
            &&& r.1@ == spec_format_bytes(r.0)
        }),
{
    let mbv: u64 = match configured {
        Some(v) => if v > 0 {
            v
        } else {
            DEFAULT_MAX_SIZE_MB
        },
        None => DEFAULT_MAX_SIZE_MB,
    };
    let bytes = match mbv.checked_mul(BYTES_PER_MB) {
        Some(b) => b,
        None => u64::MAX,
    };
    let label = format_bytes(bytes);
    (bytes, label)
}

/// The cookie-secure setting from its raw configured text: only the exact
/// words `true` and `false` parse; anything else falls back to not secure.
pub open spec fn spec_cookie_secure(raw: Option<Seq<char>>) -> bool {
    match raw {
        Some(s) => s == "true"@,
        None => false,
    }
}

pub fn cookie_secure_from(raw: Option<&String>) -> (r: bool)
    ensures
        r == spec_cookie_secure(match raw {
            Some(s) => Some(s@),
            None => None,
        }),
{
    match raw {
        Some(s) => crate::strutil::str_eq(s.as_str(), "true"),
        None => false,
    }
}

/// Splitting a text at commas, keeping empty pieces.
pub open spec fn split_commas(s: Seq<char>) -> Seq<Seq<char>>
    decreases s.len(),
{
    if s.len() == 0 {
        seq![Seq::empty()]
    } else if s[s.len() - 1] == ',' {
        split_commas(s.drop_last()).push(Seq::empty())
    } else {
        let r = split_commas(s.drop_last());
        r.update(r.len() - 1, r.last().push(s[s.len() - 1]))
    }
}

/// A split always yields at least one piece.
pub proof fn lemma_split_commas_nonempty(s: Seq<char>)
    ensures
        split_commas(s).len() > 0,
    decreases s.len(),
{
    if s.len() > 0 {
        lemma_split_commas_nonempty(s.drop_last());
    }
}

/// The configured origins: each comma-separated piece trimmed, empty
/// pieces dropped.
pub open spec fn spec_origins(pieces: Seq<Seq<char>>) -> Seq<Seq<char>>
    decreases pieces.len(),
{
    if pieces.len() == 0 {
        Seq::empty()
    } else {
        let rest = spec_origins(pieces.drop_last());
        let t = trim_ws(pieces[pieces.len() - 1]);
        if t.len() == 0 {
            rest
        } else {
            rest.push(t)
        }
    }
}

/// Splits a configured origin list at commas, trims each piece, and drops
/// empty pieces; with nothing configured, the development origins.
#[verifier::rlimit(60)]
pub fn split_cors_origins(configured: Option<&String>) -> (r: Vec<String>)
    ensures
        match configured {
            Some(s) => r@.map_values(|x: String| x@) == spec_origins(split_commas(s@)),
            None => r@.len() == 2 && r@[0]@ == "http://localhost:5173"@ && r@[1]@
                == "http://localhost:3000"@,
        },
{
    let value = match configured {
        Some(s) => s,
        None => {
            let mut out: Vec<String> = Vec::new();
            out.push("http://localhost:5173".to_owned());
            out.push("http://localhost:3000".to_owned());
            return out;
        },
    };
    let chars = chars_vec(value.as_str());
    let n: usize = chars.len();
    let mut pieces: Vec<Vec<char>> = Vec::new();
    let mut cur: Vec<char> = Vec::new();
    let mut i: usize = 0;
    while i < n
        invariant
            n == chars@.len(),
            chars@ == value@,
            i <= n,
            pieces@.map_values(|v: Vec<char>| v@).push(cur@) =~~= split_commas(
                value@.subrange(0, i as int),
            ),
        decreases n - i,
    {
        let c = chars[i];
        proof {
            let pre = value@.subrange(0, i as int);
            let curfull = value@.subrange(0, i as int + 1);
            assert(curfull.drop_last() =~= pre);
            assert(curfull[curfull.len() - 1] == c);
            lemma_split_commas_nonempty(pre);
        }
        if c == ',' {
            pieces.push(cur);
            cur = Vec::new();
            proof {
                assert(pieces@.map_values(|v: Vec<char>| v@).push(cur@) =~~= split_commas(
                    value@.subrange(0, i as int + 1),
                ));
            }
        } else {
            cur.push(c);
            proof {
                let pre = value@.subrange(0, i as int);
                let m = pieces@.map_values(|v: Vec<char>| v@);
                assert(m.push(cur@) =~~= split_commas(pre).update(
                    split_commas(pre).len() - 1,
                    split_commas(pre).last().push(c),
                ));
                assert(m.push(cur@) =~~= split_commas(value@.subrange(0, i as int + 1)));
            }
        }
        i = i + 1;
    }
    proof {
        assert(value@.subrange(0, n as int) =~= value@);
    }
    let mut all_pieces = pieces;
    all_pieces.push(cur);
    let pn: usize = all_pieces.len();
    let mut out: Vec<String> = Vec::new();
    let mut j: usize = 0;
    proof {
        assert(all_pieces@.map_values(|v: Vec<char>| v@) =~~= split_commas(value@));
    }
    while j < pn
        invariant
            pn == all_pieces@.len(),
            all_pieces@.map_values(|v: Vec<char>| v@) == split_commas(value@),
            j <= pn,
            out@.map_values(|x: String| x@) == spec_origins(
                all_pieces@.map_values(|v: Vec<char>| v@).subrange(0, j as int),
            ),
        decreases pn - j,
    {
        let t = vec_trim_ws(&all_pieces[j]);
        proof {
            let m = all_pieces@.map_values(|v: Vec<char>| v@);
            let cur = m.subrange(0, j as int + 1);
            assert(cur.drop_last() =~= m.subrange(0, j as int));
            assert(cur[cur.len() - 1] == m[j as int]);
            assert(m[j as int] == all_pieces@[j as int]@);
        }
        if t.len() > 0 {
            out.push(chars_to_string(&t));
            proof {
                assert(out@.map_values(|x: String| x@) =~~= spec_origins(
                    all_pieces@.map_values(|v: Vec<char>| v@).subrange(0, j as int + 1),
                ));
            }
        } else {
            proof {
                assert(out@.map_values(|x: String| x@) =~~= spec_origins(
                    all_pieces@.map_values(|v: Vec<char>| v@).subrange(0, j as int + 1),
                ));
            }
        }
        j = j + 1;
    }
    proof {
        let m = all_pieces@.map_values(|v: Vec<char>| v@);
        assert(m.subrange(0, pn as int) =~= m);
    }
    out
}

/// Lowercase hex encoding of a byte string, two digits per byte.
pub open spec fn hex_of(bytes: Seq<u8>) -> Seq<char>
    decreases bytes.len(),
{
    if bytes.len() == 0 {
        Seq::empty()
    } else {
        hex_of(bytes.drop_last()) + seq![
            crate::strutil::hex_digit_char(bytes[bytes.len() - 1] as int / 16),
            crate::strutil::hex_digit_char(bytes[bytes.len() - 1] as int % 16),
        ]
    }
}

/// Relies on hex::encode: lowercase hex, two digits for each byte, in
/// order.
#[verifier::external_body]
fn hex_encode(bytes: &Vec<u8>) -> (r: String)
    ensures
        r@ == hex_of(bytes@),
{
    hex::encode(bytes)
}

pub assume_specification<T>[ rand::random::<T> ]() -> (r: T)
    where
        rand::distributions::Standard: rand::distributions::Distribution<T>,
;

/// A lowercase hexadecimal digit: a decimal digit or a letter `a` to `f`.
pub open spec fn is_hex_char(c: char) -> bool {
    is_digit_char(c) || ('a' <= c <= 'f')
}

/// Every character of a hex encoding is a lowercase hex digit.
proof fn lemma_hex_of_chars(bytes: Seq<u8>)
    ensures
        hex_of(bytes).len() == 2 * bytes.len(),
        forall|i: int| 0 <= i < hex_of(bytes).len() ==> is_hex_char(#[trigger] hex_of(bytes)[i]),
    decreases bytes.len(),
{
    if bytes.len() > 0 {
        lemma_hex_of_chars(bytes.drop_last());
        let hs = hex_of(bytes);
        let rest = hex_of(bytes.drop_last());
        assert forall|i: int| 0 <= i < hs.len() implies is_hex_char(#[trigger] hs[i]) by {
            if i < rest.len() {
                assert(hs[i] == rest[i]);
            }
        }
    }
}

/// Draws a fresh file id: the lowercase hex encoding of three random
/// bytes — exactly six characters, each a hex digit. Uniqueness is only
/// probabilistic; the importer's idempotent table drop tolerates a
/// collision.
pub fn create_id() -> (r: String)
    ensures
        r@.len() == 6,
        forall|i: int| 0 <= i < r@.len() ==> is_hex_char(#[trigger] r@[i]),
{
    let bytes: [u8; 3] = rand::random();
    let mut v: Vec<u8> = Vec::new();
    v.push(bytes[0]);
    v.push(bytes[1]);
    v.push(bytes[2]);
    let r = hex_encode(&v);
    proof {
        lemma_hex_of_chars(v@);
    }
    r
}

} // verus!
