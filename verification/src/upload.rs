//! Shapefile upload processing: locating the shapefile parts in an
//! extracted archive, reading the SRID out of a `.prj` projection text,
//! and naming the materialized table.

use vstd::prelude::*;
use crate::strutil::{
    vec_eq_chars,
    chars_to_string, chars_vec, is_alnum_char, is_digit_char, is_ws_char, lower_seq,
    seq_contains_seq, seq_matches_at, trim_ws, vec_contains, vec_matches_at, vec_to_lower,
    vec_trim_ws,
};

verus! {

/// Leading whitespace run length from position `k`.
pub open spec fn count_ws(s: Seq<char>, k: int) -> int
    decreases s.len() - k,
{
    if 0 <= k < s.len() && is_ws_char(s[k]) {
        1 + count_ws(s, k + 1)
    } else {
        0
    }
}

/// Leading digit run length from position `k`.
pub open spec fn count_digits(s: Seq<char>, k: int) -> int
    decreases s.len() - k,
{
    if 0 <= k < s.len() && is_digit_char(s[k]) {
        1 + count_digits(s, k + 1)
    } else {
        0
    }
}

/// Whether the authority pattern heads position `at` of the lowercased
/// text: `authority["` followed by `epsg` or `esri` and `",`.
pub open spec fn auth_prefix_at(low: Seq<char>, at: int) -> bool {
    &&& seq_matches_at(low, "authority[\""@, at)
    &&& (seq_matches_at(low, "epsg"@, at + 11) || seq_matches_at(low, "esri"@, at + 11))
    &&& seq_matches_at(low, "\","@, at + 15)
}

/// Whether a whole authority reference stands at `at`: the prefix, then
/// optional whitespace, at least one digit, and a closing bracket.
pub open spec fn auth_full_at(low: Seq<char>, at: int) -> bool {
    let sp = count_ws(low, at + 17);
    let dl = count_digits(low, at + 17 + sp);
    &&& auth_prefix_at(low, at)
    &&& dl >= 1
    &&& at + 17 + sp + dl < low.len()
    &&& low[at + 17 + sp + dl] == ']'
}

/// The digits of the authority reference at `at`.
pub open spec fn auth_code_at(low: Seq<char>, at: int) -> Seq<char> {
    let sp = count_ws(low, at + 17);
    let dl = count_digits(low, at + 17 + sp);
    low.subrange(at + 17 + sp, at + 17 + sp + dl)
}

/// The first position holding a whole authority reference, scanning from
/// `i`.
pub open spec fn first_auth_at(low: Seq<char>, i: int) -> Option<int>
    decreases low.len() - i,
{
    if i > low.len() {
        None
    } else if auth_full_at(low, i) {
        Some(i)
    } else if i < low.len() {
        first_auth_at(low, i + 1)
    } else {
        None
    }
}

/// What the projection text yields: the code of the first authority
/// reference; else a code recognized from well-known projection names;
/// else the WGS84 default when the text mentions it; else nothing.
pub open spec fn spec_parse_srid(low: Seq<char>) -> Option<Seq<char>> {
    match first_auth_at(low, 0) {
        Some(at) => Some(auth_code_at(low, at)),
        None => if seq_contains_seq(low, "projcs[\"wgs 84 / pseudo-mercator\""@) {
            Some("3857"@)
        } else if seq_contains_seq(low, "projcs[\"wgs 84 / utm zone 50n\""@) {
            Some("32650"@)
        } else if seq_contains_seq(low, "projcs[\"nad83 / utm zone 10n\""@) {
            Some("26910"@)
        } else if seq_contains_seq(low, "wgs 84"@) || seq_contains_seq(low, "epsg:4326"@) {
            Some("4326"@)
        } else {
            None
        },
    }
}

fn scan_ws(low: &Vec<char>, k: usize) -> (r: usize)
    requires
        k <= low@.len(),
    ensures
        r as int == count_ws(low@, k as int),
        k + r <= low@.len(),
{
    let n: usize = low.len();
    let mut i: usize = k;
    while i < n && crate::strutil::exec_is_ws(low[i])
        invariant
            k <= i <= n,
            n == low@.len(),
            count_ws(low@, k as int) == (i - k) + count_ws(low@, i as int),
        decreases n - i,
    {
        i = i + 1;
    }
    i - k
}

fn scan_digits(low: &Vec<char>, k: usize) -> (r: usize)
    requires
        k <= low@.len(),
    ensures
        r as int == count_digits(low@, k as int),
        k + r <= low@.len(),
{
    let n: usize = low.len();
    let mut i: usize = k;
    while i < n && crate::strutil::exec_is_digit(low[i])
        invariant
            k <= i <= n,
            n == low@.len(),
            count_digits(low@, k as int) == (i - k) + count_digits(low@, i as int),
        decreases n - i,
    {
        i = i + 1;
    }
    i - k
}

/// Checks a whole authority reference at `at` and hands back the digit
/// range when it matches.
fn check_auth_at(low: &Vec<char>, at: usize) -> (r: Option<(usize, usize)>)
    requires
        at <= low@.len(),
    ensures
        match r {
            Some((ds, dl)) => auth_full_at(low@, at as int) && ds as int == at + 17 + count_ws(
                low@,
                at + 17,
            ) && dl as int == count_digits(low@, ds as int),
            None => !auth_full_at(low@, at as int),
        },
{
    let n: usize = low.len();
    if n < 17 || at > n - 17 {
        proof {
            if auth_full_at(low@, at as int) {
                reveal_strlit("\",");
                assert(seq_matches_at(low@, "authority[\""@, at as int));
                assert(seq_matches_at(low@, "\","@, at as int + 15));
                assert(false);
            }
        }
        return None;
    }
    let pat_auth = chars_vec("authority[\"");
    let pat_epsg = chars_vec("epsg");
    let pat_esri = chars_vec("esri");
    let pat_close = chars_vec("\",");
    proof {
        reveal_strlit("authority[\"");
        reveal_strlit("epsg");
        reveal_strlit("esri");
        reveal_strlit("\",");
    }
    if !vec_matches_at(low, &pat_auth, at) {
        return None;
    }
    if !(vec_matches_at(low, &pat_epsg, at + 11) || vec_matches_at(low, &pat_esri, at + 11)) {
        return None;
    }
    if !vec_matches_at(low, &pat_close, at + 15) {
        return None;
    }
    let sp = scan_ws(low, at + 17);
    let ds = at + 17 + sp;
    let dl = scan_digits(low, ds);
    if dl == 0 {
        return None;
    }
    let end = ds + dl;
    if end >= n {
        return None;
    }
    if low[end] != ']' {
        return None;
    }
    Some((ds, dl))
}

proof fn lemma_no_auth(low: Seq<char>, i: int)
    requires
        forall|a: int| !auth_full_at(low, a),
    ensures
        first_auth_at(low, i) is None,
    decreases low.len() - i,
{
    if i <= low.len() && i < low.len() {
        lemma_no_auth(low, i + 1);
    }
}

proof fn lemma_first_auth_finds(low: Seq<char>, i: int, at: int)
    requires
        0 <= i <= at,
        forall|a: int| i <= a < at ==> !auth_full_at(low, a),
        auth_full_at(low, at),
    ensures
        first_auth_at(low, i) == Some(at),
    decreases at - i,
{
    reveal_strlit("\",");
    assert(seq_matches_at(low, "\","@, at + 15));
    if i < at {
        lemma_first_auth_finds(low, i + 1, at);
    }
}

/// Reads the SRID out of a `.prj` projection text: the code of the first
/// `AUTHORITY` reference, case-insensitively; else a code recognized from
/// well-known projection names; else 4326 when the text mentions WGS84;
/// else an error asking for an override.
pub fn parse_srid_from_wkt(wkt: &str) -> (r: Result<String, String>)
    ensures
        match r {
            Ok(code) => spec_parse_srid(lower_seq(wkt@)) == Some(code@),
            Err(e) => spec_parse_srid(lower_seq(wkt@)) is None && e@
                == "Could not auto-detect SRID from .prj; please provide SRID override"@,
        },
{
    let chars = chars_vec(wkt);
    let low = vec_to_lower(&chars);
    let n: usize = low.len();
    if n >= 17 {
        let last: usize = n - 17;
        let mut at: usize = 0;
        while at <= last
            invariant
                n == low@.len(),
                low@ == lower_seq(wkt@),
                n >= 17,
                last == n - 17,
                at <= last + 1,
                forall|a: int| 0 <= a < at ==> !auth_full_at(low@, a),
            decreases last + 1 - at,
        {
            match check_auth_at(&low, at) {
                Some((ds, dl)) => {
                    proof {
                        assert(auth_full_at(low@, at as int));
                        assert(ds + dl < n);
                    }
                    let mut code: Vec<char> = Vec::new();
                    let mut i: usize = ds;
                    while i < ds + dl
                        invariant
                            ds + dl <= n,
                            n == low@.len(),
                            ds <= i <= ds + dl,
                            code@ == low@.subrange(ds as int, i as int),
                        decreases ds + dl - i,
                    {
                        code.push(low[i]);
                        i = i + 1;
                        proof {
                            assert(code@ =~= low@.subrange(ds as int, i as int));
                        }
                    }
                    proof {
                        lemma_first_auth_finds(low@, 0, at as int);
                        assert(code@ =~= auth_code_at(low@, at as int));
                    }
                    return Ok(chars_to_string(&code));
                },
                None => {},
            }
            at = at + 1;
        }
    }
    proof {
        assert forall|a: int| !auth_full_at(low@, a) by {
            if auth_full_at(low@, a) {
                reveal_strlit("\",");
                assert(seq_matches_at(low@, "\","@, a + 15));
                assert(0 <= a && a + 17 <= n);
                if n >= 17 {
                    assert(a <= n - 17);
                    assert(false);
                } else {
                    assert(false);
                }
            }
        }
        lemma_no_auth(low@, 0);
    }
    let p1 = chars_vec("projcs[\"wgs 84 / pseudo-mercator\"");
    let p2 = chars_vec("projcs[\"wgs 84 / utm zone 50n\"");
    let p3 = chars_vec("projcs[\"nad83 / utm zone 10n\"");
    let p4 = chars_vec("wgs 84");
    let p5 = chars_vec("epsg:4326");
    if vec_contains(&low, &p1) {
        return Ok("3857".to_owned());
    }
    if vec_contains(&low, &p2) {
        return Ok("32650".to_owned());
    }
    if vec_contains(&low, &p3) {
        return Ok("26910".to_owned());
    }
    if vec_contains(&low, &p4) || vec_contains(&low, &p5) {
        return Ok("4326".to_owned());
    }
    Err("Could not auto-detect SRID from .prj; please provide SRID override".to_owned())
}

/// The override after trimming and stripping a leading `EPSG:`
/// (case-insensitively).
pub open spec fn srid_override_value(s: Seq<char>) -> Seq<char> {
    let t = trim_ws(s);
    if seq_matches_at(lower_seq(t), "epsg:"@, 0) {
        t.skip(5)
    } else {
        t
    }
}

/// Normalizes a requested SRID override: trim, strip a leading `EPSG:`
/// (case-insensitively), and require decimal digits.
pub open spec fn spec_srid_override(s: Seq<char>) -> Option<Seq<char>> {
    let value = srid_override_value(s);
    if value.len() > 0 && (forall|i: int| 0 <= i < value.len() ==> is_digit_char(#[trigger] value[i])) {
        Some(value)
    } else {
        None
    }
}

/// Applies the SRID override rules; a non-numeric override is refused.
pub fn normalize_srid_override(raw: &str) -> (r: Result<String, String>)
    ensures
        match r {
            Ok(code) => spec_srid_override(raw@) == Some(code@),
            Err(e) => spec_srid_override(raw@) is None && e@
                == "Invalid SRID override; expected numeric EPSG code"@,
        },
{
    let chars = chars_vec(raw);
    let t = vec_trim_ws(&chars);
    let tl = vec_to_lower(&t);
    let prefix = chars_vec("epsg:");
    proof {
        reveal_strlit("epsg:");
    }
    let stripped: Vec<char> = if tl.len() >= 5 && vec_matches_at(&tl, &prefix, 0) {
        let mut out: Vec<char> = Vec::new();
        let n: usize = t.len();
        let mut i: usize = 5;
        while i < n
            invariant
                5 <= i <= n,
                n == t@.len(),
                out@ == t@.subrange(5, i as int),
            decreases n - i,
        {
            out.push(t[i]);
            i = i + 1;
            proof {
                assert(out@ =~= t@.subrange(5, i as int));
            }
        }
        proof {
            assert(out@ =~= t@.skip(5));
        }
        out
    } else {
        proof {
            if seq_matches_at(lower_seq(t@), "epsg:"@, 0) {
                assert(lower_seq(t@).len() == t@.len());
                assert(false);
            }
        }
        t
    };
    proof {
        assert(stripped@ == srid_override_value(raw@));
    }
    let n: usize = stripped.len();
    if n == 0 {
        return Err("Invalid SRID override; expected numeric EPSG code".to_owned());
    }
    let mut i: usize = 0;
    while i < n
        invariant
            stripped@ == srid_override_value(raw@),
            n == stripped@.len(),
            i <= n,
            forall|j: int| 0 <= j < i ==> is_digit_char(#[trigger] stripped@[j]),
        decreases n - i,
    {
        if !crate::strutil::exec_is_digit(stripped[i]) {
            proof {
                assert(!is_digit_char(stripped@[i as int]));
            }
            return Err("Invalid SRID override; expected numeric EPSG code".to_owned());
        }
        i = i + 1;
    }
    Ok(chars_to_string(&stripped))
}

/// Replaces every character of a shapefile stem outside letters, digits
/// and underscores with an underscore, as the table-name base.
pub open spec fn spec_sanitize_base(s: Seq<char>) -> Seq<char> {
    s.map_values(
        |c: char|
            if is_alnum_char(c) || c == '_' {
                c
            } else {
                '_'
            },
    )
}

pub fn sanitize_base_name(name: &str) -> (r: String)
    ensures
        r@ == spec_sanitize_base(name@),
{
    let chars = chars_vec(name);
    let n: usize = chars.len();
    let mut out: Vec<char> = Vec::new();
    let mut i: usize = 0;
    while i < n
        invariant
            n == chars@.len(),
            chars@ == name@,
            i <= n,
            out@ == spec_sanitize_base(name@.subrange(0, i as int)),
        decreases n - i,
    {
        let c = chars[i];
        if crate::strutil::exec_is_alnum(c) || c == '_' {
            out.push(c);
        } else {
            out.push('_');
        }
        i = i + 1;
        proof {
            assert(out@ =~= spec_sanitize_base(name@.subrange(0, i as int)));
        }
    }
    proof {
        assert(name@.subrange(0, n as int) =~= name@);
    }
    chars_to_string(&out)
}

/// The parts of one shapefile found in an extracted archive: the required
/// `.shp`, `.shx` and `.dbf` files, with the optional projection and
/// code-page files.
pub struct ShapefileParts {
    pub base_name: String,
    pub shp: String,
    pub shx: String,
    pub dbf: String,
    pub prj: Option<String>,
    pub cpg: Option<String>,
}

impl ShapefileParts {
    /// All paths that belong to the shapefile, required ones first.
    pub fn all_paths(&self) -> (r: Vec<String>)
        ensures
            r@.len() >= 3,
            r@[0]@ == self.shp@ && r@[1]@ == self.shx@ && r@[2]@ == self.dbf@,
            r@.len() == 3 + (if self.prj is Some {
                1int
            } else {
                0int
            }) + (if self.cpg is Some {
                1int
            } else {
                0int
            }),
    {
        let mut paths: Vec<String> = Vec::new();
        paths.push(self.shp.clone());
        paths.push(self.shx.clone());
        paths.push(self.dbf.clone());
        match &self.prj {
            Some(p) => {
                paths.push(p.clone());
            },
            None => {},
        }
        match &self.cpg {
            Some(p) => {
                paths.push(p.clone());
            },
            None => {},
        }
        paths
    }
}

/// The file-name extension, lowercased, with its leading dot: the part of
/// the last path component after its final dot, absent for names without
/// one or hidden names whose only dot leads.
pub open spec fn spec_ext_lower(name: Seq<char>) -> Option<Seq<char>> {
    let comp = crate::strutil::after_last(name, '/');
    let suffix = crate::strutil::after_last(comp, '.');
    if suffix.len() == comp.len() || comp.len() - suffix.len() == 1 {
        None
    } else {
        Some(seq!['.'] + lower_seq(suffix))
    }
}

/// The input format derived from a file name's extension.
pub open spec fn spec_file_type(name: Seq<char>) -> Option<Seq<char>> {
    match spec_ext_lower(name) {
        None => None,
        Some(ext) => if ext == ".zip"@ {
            Some("shapefile"@)
        } else if ext == ".geojson"@ || ext == ".json"@ {
            Some("geojson"@)
        } else if ext == ".geojsonl"@ || ext == ".geojsons"@ {
            Some("geojsonl"@)
        } else if ext == ".kml"@ {
            Some("kml"@)
        } else if ext == ".gpx"@ {
            Some("gpx"@)
        } else if ext == ".topojson"@ {
            Some("topojson"@)
        } else {
            None
        },
    }
}

/// Derives the input format from an uploaded file's name: zip archives are
/// shapefiles, the GeoJSON family by its extensions, and KML, GPX and
/// TopoJSON by theirs; anything else is unsupported.
pub fn file_type_from_name(name: &str) -> (r: Option<String>)
    ensures
        match r {
            Some(t) => spec_file_type(name@) == Some(t@),
            None => spec_file_type(name@) is None,
        },
{
    let chars = chars_vec(name);
    let comp = crate::strutil::vec_after_last(&chars, '/');
    let suffix = crate::strutil::vec_after_last(&comp, '.');
    proof {
        lemma_after_last_len(comp@, '.');
    }
    if suffix.len() == comp.len() {
        return None;
    }
    if comp.len() - suffix.len() == 1 {
        return None;
    }
    let lowered = vec_to_lower(&suffix);
    let mut ext: Vec<char> = Vec::new();
    ext.push('.');
    crate::strutil::push_all(&mut ext, &lowered);
    proof {
        assert(ext@ =~= seq!['.'] + lower_seq(suffix@));
    }
    let e = ext;
    if veq(&e, ".zip") {
        Some("shapefile".to_owned())
    } else if veq(&e, ".geojson") || veq(&e, ".json") {
        Some("geojson".to_owned())
    } else if veq(&e, ".geojsonl") || veq(&e, ".geojsons") {
        Some("geojsonl".to_owned())
    } else if veq(&e, ".kml") {
        Some("kml".to_owned())
    } else if veq(&e, ".gpx") {
        Some("gpx".to_owned())
    } else if veq(&e, ".topojson") {
        Some("topojson".to_owned())
    } else {
        None
    }
}

proof fn lemma_after_last_len(s: Seq<char>, c: char)
    ensures
        crate::strutil::after_last(s, c).len() <= s.len(),
    decreases s.len(),
{
    if s.len() > 0 && s[s.len() - 1] != c {
        lemma_after_last_len(s.drop_last(), c);
    }
}

fn veq(v: &Vec<char>, s: &str) -> (r: bool)
    ensures
        r == (v@ == s@),
{
    let w = chars_vec(s);
    crate::strutil::vec_eq_chars(v, &w)
}

/// The message rejecting an unsupported upload extension.
pub fn unsupported_extension_message() -> (r: String)
    ensures
        r@ == "Unsupported file type. Use .zip, .geojson, .json, .geojsonl, .kml, .gpx, or .topojson"@,
{
    "Unsupported file type. Use .zip, .geojson, .json, .geojsonl, .kml, .gpx, or .topojson".to_owned()
}

} // verus!
