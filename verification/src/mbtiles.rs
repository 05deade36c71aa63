//! MBTiles support: metadata rows, tile format normalization, the TMS row
//! flip, and stored-path trimming. The SQLite reads live outside; the
//! rules on what they return live here.

use vstd::prelude::*;
use crate::models::MbtilesMetadata;
use crate::strutil::{is_digit_char, seq_starts_with, str_eq};
use crate::tiles::{tile_coords_valid, two_pow};

verus! {

/// The numeric value of a digit string, most significant digit first.
pub open spec fn digits_value(s: Seq<char>) -> int
    decreases s.len(),
{
    if s.len() == 0 {
        0
    } else {
        digits_value(s.drop_last()) * 10 + (s[s.len() - 1] as int - '0' as int)
    }
}

/// The digit part of a signed decimal: everything after an optional sign.
pub open spec fn int_digits(s: Seq<char>) -> Seq<char> {
    if s.len() > 0 && (s[0] == '-' || s[0] == '+') {
        s.drop_first()
    } else {
        s
    }
}

/// A well-shaped signed decimal: an optional sign followed by at least one
/// digit.
pub open spec fn int_shape(s: Seq<char>) -> bool {
    int_digits(s).len() > 0 && forall|i: int|
        0 <= i < int_digits(s).len() ==> is_digit_char(#[trigger] int_digits(s)[i])
}

/// The signed value of a well-shaped decimal.
pub open spec fn int_value(s: Seq<char>) -> int {
    if s.len() > 0 && s[0] == '-' {
        -digits_value(int_digits(s))
    } else {
        digits_value(int_digits(s))
    }
}

/// What parsing a 32-bit signed decimal yields: the value when the text is
/// well shaped and in range, nothing otherwise.
pub open spec fn spec_parse_i32(s: Seq<char>) -> Option<i32> {
    if int_shape(s) && i32::MIN <= int_value(s) <= i32::MAX {
        Some(int_value(s) as i32)
    } else {
        None
    }
}

proof fn lemma_digits_value_nonneg(s: Seq<char>)
    requires
        forall|i: int| 0 <= i < s.len() ==> is_digit_char(#[trigger] s[i]),
    ensures
        digits_value(s) >= 0,
    decreases s.len(),
{
    if s.len() > 0 {
        assert forall|i: int| 0 <= i < s.drop_last().len() implies is_digit_char(
            #[trigger] s.drop_last()[i],
        ) by {
            assert(s.drop_last()[i] == s[i]);
        }
        lemma_digits_value_nonneg(s.drop_last());
    }
}

/// Each extra digit can only grow the value.
proof fn lemma_digits_value_monotone(s: Seq<char>, i: int)
    requires
        0 <= i <= s.len(),
        forall|k: int| 0 <= k < s.len() ==> is_digit_char(#[trigger] s[k]),
    ensures
        digits_value(s.take(i)) <= digits_value(s),
    decreases s.len() - i,
{
    if i < s.len() {
        assert forall|k: int| 0 <= k < s.take(i + 1).len() implies is_digit_char(
            #[trigger] s.take(i + 1)[k],
        ) by {
            assert(s.take(i + 1)[k] == s[k]);
        }
        assert(s.take(i + 1).drop_last() =~= s.take(i));
        assert(digits_value(s.take(i + 1)) == digits_value(s.take(i)) * 10 + (s[i] as int
            - '0' as int));
        lemma_digits_value_nonneg(s.take(i));
        lemma_digits_value_monotone(s, i + 1);
        assert(s.take(s.len() as int) =~= s);
    } else {
        assert(s.take(i) =~= s);
    }
}

/// Parses a 32-bit signed decimal exactly as the standard parser does: an
/// optional sign, then digits, refused on any other shape or on overflow.
#[verifier::rlimit(100)]
pub fn parse_i32(text: &str) -> (r: Option<i32>)
    ensures
        r == spec_parse_i32(text@),
{
    let chars = crate::strutil::chars_vec(text);
    let n: usize = chars.len();
    if n == 0 {
        return None;
    }
    let first = chars[0];
    let negative = first == '-';
    let start: usize = if first == '-' || first == '+' {
        1
    } else {
        0
    };
    let ghost digits = int_digits(text@);
    proof {
        assert(digits =~= text@.subrange(start as int, n as int));
    }
    if start >= n {
        return None;
    }
    let mut acc: u64 = 0;
    let mut i: usize = start;
    while i < n
        invariant
            chars@ == text@,
            n == text@.len(),
            start <= i <= n,
            start <= 1,
            digits == int_digits(text@),
            digits =~= text@.subrange(start as int, n as int),
            forall|k: int|
                0 <= k < i - start ==> is_digit_char(#[trigger] digits[k]),
            acc as int == digits_value(digits.take(i - start)),
            acc <= 0x80000000u64,
        decreases n - i,
    {
        let c = chars[i];
        if !crate::strutil::exec_is_digit(c) {
            proof {
                assert(!is_digit_char(int_digits(text@)[i - start]));
                assert(!int_shape(text@));
            }
            return None;
        }
        let d: u64 = (c as u32 as u64) - ('0' as u32 as u64);
        proof {
            let j = i - start;
            assert(digits.take(j + 1).drop_last() =~= digits.take(j));
            assert(digits.take(j + 1)[j] == digits[j]);
            assert(digits_value(digits.take(j + 1)) == digits_value(digits.take(j)) * 10 + (
            digits[j] as int - '0' as int));
        }
        if acc > 0x80000000u64 / 10 || acc * 10 + d > 0x80000000u64 {
            // the magnitude already exceeds every representable value
            proof {
                let j = i - start;
                assert(digits_value(digits.take(j + 1)) > 0x80000000);
                if int_shape(text@) {
                    assert forall|k: int| 0 <= k < digits.len() implies is_digit_char(
                        #[trigger] digits[k],
                    ) by {
                        assert(is_digit_char(int_digits(text@)[k]));
                    }
                    lemma_digits_value_monotone(digits, j + 1);
                    assert(digits_value(digits) > 0x80000000);
                    assert(digits_value(int_digits(text@)) > 0x80000000);
                    assert(int_value(text@) > i32::MAX || int_value(text@) < i32::MIN);
                }
            }
            return None;
        }
        acc = acc * 10 + d;
        i = i + 1;
    }
    proof {
        assert(digits.take(n - start) =~= digits);
        assert forall|k: int| 0 <= k < int_digits(text@).len() implies is_digit_char(
            #[trigger] int_digits(text@)[k],
        ) by {
            assert(is_digit_char(digits[k]));
        }
        assert(int_shape(text@));
        assert(digits_value(int_digits(text@)) == acc as int);
    }
    if negative {
        if acc > 0x80000000u64 {
            return None;
        }
        if acc == 0x80000000u64 {
            return Some(i32::MIN);
        }
        let v = acc as i32;
        return Some(-v);
    }
    if acc > 0x7fffffffu64 {
        proof {
            assert(int_value(text@) > i32::MAX);
        }
        return None;
    }
    Some(acc as i32)
}

/// One metadata row of an MBTiles archive.
pub struct MetadataRow {
    pub key: String,
    pub value: String,
}

/// The value of the last row carrying this key.
pub open spec fn last_value(rows: Seq<MetadataRow>, key: Seq<char>) -> Option<Seq<char>>
    decreases rows.len(),
{
    if rows.len() == 0 {
        None
    } else if rows[rows.len() - 1].key@ == key {
        Some(rows[rows.len() - 1].value@)
    } else {
        last_value(rows.drop_last(), key)
    }
}

/// Folds the metadata rows into the metadata record: the last `format`
/// wins (defaulting to `pbf`), the last of each optional key wins, zoom
/// bounds parse as decimals, and unknown keys are ignored.
pub fn metadata_from_rows(rows: &Vec<MetadataRow>) -> (r: MbtilesMetadata)
    ensures
        r.format@ == (match last_value(rows@, "format"@) {
            Some(v) => v,
            None => "pbf"@,
        }),
        (match last_value(rows@, "bounds"@) {
            Some(v) => r.bounds matches Some(b) && b@ == v,
            None => r.bounds is None,
        }),
        (match last_value(rows@, "center"@) {
            Some(v) => r.center matches Some(b) && b@ == v,
            None => r.center is None,
        }),
        (match last_value(rows@, "name"@) {
            Some(v) => r.name matches Some(b) && b@ == v,
            None => r.name is None,
        }),
        (match last_value(rows@, "minzoom"@) {
            Some(v) => r.minzoom == spec_parse_i32(v),
            None => r.minzoom is None,
        }),
        (match last_value(rows@, "maxzoom"@) {
            Some(v) => r.maxzoom == spec_parse_i32(v),
            None => r.maxzoom is None,
        }),
{
    let mut format: String = "pbf".to_owned();
    let mut bounds: Option<String> = None;
    let mut center: Option<String> = None;
    let mut minzoom: Option<i32> = None;
    let mut maxzoom: Option<i32> = None;
    let mut name: Option<String> = None;
    let n: usize = rows.len();
    let mut i: usize = 0;
    while i < n
        invariant
            n == rows@.len(),
            i <= n,
            format@ == (match last_value(rows@.take(i as int), "format"@) {
                Some(v) => v,
                None => "pbf"@,
            }),
            (match last_value(rows@.take(i as int), "bounds"@) {
                Some(v) => bounds matches Some(b) && b@ == v,
                None => bounds is None,
            }),
            (match last_value(rows@.take(i as int), "center"@) {
                Some(v) => center matches Some(b) && b@ == v,
                None => center is None,
            }),
            (match last_value(rows@.take(i as int), "name"@) {
                Some(v) => name matches Some(b) && b@ == v,
                None => name is None,
            }),
            (match last_value(rows@.take(i as int), "minzoom"@) {
                Some(v) => minzoom == spec_parse_i32(v),
                None => minzoom is None,
            }),
            (match last_value(rows@.take(i as int), "maxzoom"@) {
                Some(v) => maxzoom == spec_parse_i32(v),
                None => maxzoom is None,
            }),
        decreases n - i,
    {
        proof {
            reveal_strlit("format");
            reveal_strlit("bounds");
            reveal_strlit("center");
            reveal_strlit("name");
            reveal_strlit("minzoom");
            reveal_strlit("maxzoom");
            assert({
                &&& "format"@ != "bounds"@
                &&& "format"@ != "center"@
                &&& "format"@ != "name"@
                &&& "format"@ != "minzoom"@
                &&& "format"@ != "maxzoom"@
                &&& "bounds"@ != "center"@
                &&& "bounds"@ != "name"@
                &&& "bounds"@ != "minzoom"@
                &&& "bounds"@ != "maxzoom"@
                &&& "center"@ != "name"@
                &&& "center"@ != "minzoom"@
                &&& "center"@ != "maxzoom"@
                &&& "name"@ != "minzoom"@
                &&& "name"@ != "maxzoom"@
                &&& "minzoom"@ != "maxzoom"@
            }) by {
                assert("format"@[0] == 'f' && "bounds"@[0] == 'b' && "center"@[0] == 'c'
                    && "name"@[0] == 'n' && "minzoom"@[0] == 'm' && "maxzoom"@[0] == 'm');
                assert("minzoom"@[1] == 'i' && "maxzoom"@[1] == 'a');
                assert("name"@.len() == 4 && "format"@.len() == 6 && "minzoom"@.len() == 7);
            }
            let cur = rows@.take(i as int + 1);
            assert(cur.drop_last() =~= rows@.take(i as int));
            assert(cur[cur.len() - 1] == rows@[i as int]);
        }
        let key = rows[i].key.as_str();
        if str_eq(key, "format") {
            format = rows[i].value.clone();
        } else if str_eq(key, "bounds") {
            bounds = Some(rows[i].value.clone());
        } else if str_eq(key, "center") {
            center = Some(rows[i].value.clone());
        } else if str_eq(key, "minzoom") {
            minzoom = parse_i32(rows[i].value.as_str());
        } else if str_eq(key, "maxzoom") {
            maxzoom = parse_i32(rows[i].value.as_str());
        } else if str_eq(key, "name") {
            name = Some(rows[i].value.clone());
        }
        i = i + 1;
    }
    proof {
        assert(rows@.take(n as int) =~= rows@);
    }
    MbtilesMetadata { format, bounds, center, minzoom, maxzoom, name }
}

/// The stored tile format normalized for serving: `pbf` becomes `mvt`,
/// raster formats become `png`, anything else is unsupported.
pub fn normalize_tile_format(format: &str) -> (r: Option<String>)
    ensures
        match r {
            Some(f) => (format@ == "pbf"@ && f@ == "mvt"@) || ((format@ == "png"@ || format@
                == "jpg"@ || format@ == "jpeg"@) && f@ == "png"@),
            None => format@ != "pbf"@ && format@ != "png"@ && format@ != "jpg"@ && format@
                != "jpeg"@,
        },
{
    if str_eq(format, "pbf") {
        Some("mvt".to_owned())
    } else if str_eq(format, "png") || str_eq(format, "jpg") || str_eq(format, "jpeg") {
        Some("png".to_owned())
    } else {
        None
    }
}

/// The TMS row of an XYZ tile: rows count from the bottom, so the row
/// index flips within the zoom level.
pub fn tms_y(z: i32, y: i32) -> (r: i32)
    requires
        tile_coords_valid(z as int, 0, y as int),
    ensures
        r as int == two_pow(z as int) - 1 - y,
{
    let mut max_xy: i32 = 1;
    let mut i: i32 = 0;
    while i < z
        invariant
            0 <= i <= z <= 22,
            1 <= max_xy,
            max_xy == two_pow(i as int),
        decreases z - i,
    {
        proof {
            crate::tiles::lemma_two_pow_cap(i as int + 1);
            assert(two_pow(i as int + 1) == 2 * two_pow(i as int));
        }
        max_xy = max_xy * 2;
        i = i + 1;
    }
    max_xy - 1 - y
}

/// A stored path with a leading `./` removed; other paths are unchanged.
pub fn strip_dot_slash(path: &str) -> (r: String)
    ensures
        if seq_starts_with(path@, "./"@) {
            r@ == path@.skip(2)
        } else {
            r@ == path@
        },
{
    let chars = crate::strutil::chars_vec(path);
    let prefix = crate::strutil::chars_vec("./");
    proof {
        reveal_strlit("./");
    }
    if crate::strutil::vec_starts_with(&chars, &prefix) {
        let n: usize = chars.len();
        let mut out: Vec<char> = Vec::new();
        let mut i: usize = 2;
        while i < n
            invariant
                2 <= i <= n,
                n == chars@.len(),
                chars@ == path@,
                out@ == path@.subrange(2, i as int),
            decreases n - i,
        {
            out.push(chars[i]);
            i = i + 1;
            proof {
                assert(out@ =~= path@.subrange(2, i as int));
            }
        }
        proof {
            assert(out@ =~= path@.skip(2));
        }
        crate::strutil::chars_to_string(&out)
    } else {
        path.to_owned()
    }
}

} // verus!
