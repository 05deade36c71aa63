//! The import worker's decisions: reading paths for the spatial driver,
//! the per-dataset table name, geometry-column renames, property-column
//! normalization with collision resolution, and storage-type coercion.

use vstd::prelude::*;
use crate::catalog::{col_list_has, ColumnMeta};
use crate::ident::{normalize_column_name, spec_normalize};
use crate::strutil::{
    chars_to_string, chars_vec, dec_str, lower_seq, push_all, push_str_chars, str_eq,
    u64_to_dec_chars, vec_eq_chars, vec_to_lower,
};

verus! {

/// The path handed to the spatial driver: zip archives are read through
/// the driver's virtual-zip scheme.
pub open spec fn spec_spatial_read_path(abs_path: Seq<char>, is_zip: bool) -> Seq<char> {
    if is_zip {
        "/vsizip/"@ + abs_path
    } else {
        abs_path
    }
}

/// Prefixes a resolved path with the virtual-zip scheme when the upload
/// was a zip archive.
pub fn spatial_read_path(abs_path: &str, is_zip: bool) -> (r: String)
    ensures
        r@ == spec_spatial_read_path(abs_path@, is_zip),
{
    if is_zip {
        let mut out: Vec<char> = Vec::new();
        push_str_chars(&mut out, "/vsizip/");
        push_str_chars(&mut out, abs_path);
        chars_to_string(&out)
    } else {
        abs_path.to_owned()
    }
}

/// The name of the per-dataset table for a file id: `layer_<id>`, passed
/// through the identifier normalizer, falling back to the raw form when
/// the normalizer returns nothing.
pub open spec fn spec_layer_table_name(id: Seq<char>) -> Seq<char> {
    match spec_normalize("layer_"@ + id) {
        Some(t) => t,
        None => "layer_"@ + id,
    }
}

pub fn layer_table_name(id: &str) -> (r: String)
    ensures
        r@ == spec_layer_table_name(id@),
{
    let mut raw: Vec<char> = Vec::new();
    push_str_chars(&mut raw, "layer_");
    push_str_chars(&mut raw, id);
    let raw_s = chars_to_string(&raw);
    match normalize_column_name(raw_s.as_str()) {
        Some(t) => t,
        None => raw_s,
    }
}

/// One column of the materialized table as the information schema reports
/// it, in ordinal order.
pub struct TableColumn {
    pub name: String,
    pub data_type: String,
    pub ordinal: i64,
}

/// The logical type a storage type maps to: the six supported types are
/// kept; small integers widen to INTEGER; unsigned integers widen to
/// BIGINT; everything else is cast to VARCHAR.
pub open spec fn logical_type_of(dt: Seq<char>) -> Seq<char> {
    if dt == "VARCHAR"@ || dt == "BOOLEAN"@ || dt == "DOUBLE"@ || dt == "FLOAT"@ || dt
        == "BIGINT"@ || dt == "INTEGER"@ {
        dt
    } else if dt == "SMALLINT"@ || dt == "TINYINT"@ {
        "INTEGER"@
    } else if dt == "UBIGINT"@ || dt == "UINTEGER"@ || dt == "USMALLINT"@ || dt == "UTINYINT"@ {
        "BIGINT"@
    } else {
        "VARCHAR"@
    }
}

/// Whether a storage type needs an ALTER to reach its logical type.
pub open spec fn needs_coercion(dt: Seq<char>) -> bool {
    !(dt == "VARCHAR"@ || dt == "BOOLEAN"@ || dt == "DOUBLE"@ || dt == "FLOAT"@ || dt == "BIGINT"@
        || dt == "INTEGER"@)
}

/// Maps a storage type to its logical type, and says whether the column
/// must be altered to reach it.
pub fn coerce_storage_type(dt: &str) -> (r: (String, bool))
    ensures
        r.0@ == logical_type_of(dt@),
        r.1 == needs_coercion(dt@),
{
    if str_eq(dt, "VARCHAR") || str_eq(dt, "BOOLEAN") || str_eq(dt, "DOUBLE") || str_eq(
        dt,
        "FLOAT",
    ) || str_eq(dt, "BIGINT") || str_eq(dt, "INTEGER") {
        (dt.to_owned(), false)
    } else if str_eq(dt, "SMALLINT") || str_eq(dt, "TINYINT") {
        ("INTEGER".to_owned(), true)
    } else if str_eq(dt, "UBIGINT") || str_eq(dt, "UINTEGER") || str_eq(dt, "USMALLINT") || str_eq(
        dt,
        "UTINYINT",
    ) {
        ("BIGINT".to_owned(), true)
    } else {
        ("VARCHAR".to_owned(), true)
    }
}

/// Whether a column is one of the reserved ones, by its ASCII-lowercased
/// name.
pub open spec fn is_reserved_column(name: Seq<char>) -> bool {
    lower_seq(name) == "fid"@ || lower_seq(name) == "geom"@
}

/// Whether `name` names a geometry column of the table that is not
/// already called `geom`.
pub open spec fn is_geometry_rename(columns: Seq<TableColumn>, name: Seq<char>) -> bool {
    exists|j: int|
        0 <= j < columns.len() && #[trigger] columns[j].name@ == name && lower_seq(
            columns[j].data_type@,
        ) == "geometry"@ && columns[j].name@ != "geom"@
}

/// The first pass over the freshly created table: any column whose storage
/// type is GEOMETRY but whose name is not exactly `geom` is renamed to
/// `geom`. Returns the names to rename: exactly the geometry columns not
/// already called `geom`.
pub fn geometry_renames(columns: &Vec<TableColumn>) -> (r: Vec<String>)
    ensures
        forall|i: int| 0 <= i < r@.len() ==> is_geometry_rename(columns@, #[trigger] r@[i]@),
        forall|j: int|
            0 <= j < columns@.len() && lower_seq(#[trigger] columns@[j].data_type@)
                == "geometry"@ && columns@[j].name@ != "geom"@ ==> col_list_has(
                r@,
                columns@[j].name@,
            ),
{
    let n: usize = columns.len();
    let mut out: Vec<String> = Vec::new();
    let mut i: usize = 0;
    while i < n
        invariant
            n == columns@.len(),
            i <= n,
            forall|x: int|
                0 <= x < out@.len() ==> is_geometry_rename(columns@, #[trigger] out@[x]@),
            forall|j: int|
                0 <= j < i && lower_seq(#[trigger] columns@[j].data_type@) == "geometry"@
                    && columns@[j].name@ != "geom"@ ==> col_list_has(out@, columns@[j].name@),
        decreases n - i,
    {
        let ghost prevout = out@;
        let dt = chars_vec(columns[i].data_type.as_str());
        let dt_lower = vec_to_lower(&dt);
        let geometry = chars_vec("geometry");
        let name_is_geom = str_eq(columns[i].name.as_str(), "geom");
        if vec_eq_chars(&dt_lower, &geometry) && !name_is_geom {
            let ghost j = i as int;
            out.push(columns[i].name.clone());
            proof {
                assert(out@[out@.len() - 1]@ == columns@[j].name@);
                assert(is_geometry_rename(columns@, out@[out@.len() - 1]@));
                assert forall|x: int| 0 <= x < out@.len() implies is_geometry_rename(
                    columns@,
                    #[trigger] out@[x]@,
                ) by {
                    if x < prevout.len() {
                        assert(out@[x] == prevout[x]);
                    }
                }
            }
        }
        i = i + 1;
        proof {
            assert forall|j: int|
                0 <= j < i && lower_seq(#[trigger] columns@[j].data_type@) == "geometry"@
                    && columns@[j].name@ != "geom"@ implies col_list_has(
                out@,
                columns@[j].name@,
            ) by {
                if j < i - 1 {
                    assert(col_list_has(prevout, columns@[j].name@));
                    let x = choose|x: int|
                        0 <= x < prevout.len() && #[trigger] prevout[x]@ == columns@[j].name@;
                    assert(out@[x]@ == columns@[j].name@);
                } else {
                    assert(out@[out@.len() - 1]@ == columns@[j].name@);
                }
            }
        }
    }
    out
}

/// Decimal representations are injective: distinct numbers write
/// distinctly.
proof fn lemma_dec_str_injective(a: nat, b: nat)
    requires
        dec_str(a) == dec_str(b),
    ensures
        a == b,
    decreases a + b,
{
    lemma_dec_str_digits(a);
    lemma_dec_str_digits(b);
    if a < 10 && b < 10 {
        assert(dec_str(a)[0] == crate::strutil::digit_char(a as int));
        assert(dec_str(b)[0] == crate::strutil::digit_char(b as int));
        assert(dec_str(a)[0] == dec_str(b)[0]);
        lemma_digit_char_injective(a as int, b as int);
    } else if a < 10 {
        assert(dec_str(a).len() == 1);
        assert(dec_str(b).len() >= 2);
    } else if b < 10 {
        assert(dec_str(a).len() >= 2);
        assert(dec_str(b).len() == 1);
    } else {
        let la = dec_str(a);
        let lb = dec_str(b);
        assert(la == dec_str(a / 10) + seq![crate::strutil::digit_char((a % 10) as int)]);
        assert(la[la.len() - 1] == crate::strutil::digit_char((a % 10) as int));
        assert(lb == dec_str(b / 10) + seq![crate::strutil::digit_char((b % 10) as int)]);
        assert(lb[lb.len() - 1] == crate::strutil::digit_char((b % 10) as int));
        assert(la[la.len() - 1] == lb[lb.len() - 1]);
        lemma_digit_char_injective((a % 10) as int, (b % 10) as int);
        assert(la.drop_last() =~= dec_str(a / 10));
        assert(lb.drop_last() =~= dec_str(b / 10));
        lemma_dec_str_injective(a / 10, b / 10);
        assert(a == 10 * (a / 10) + a % 10);
        assert(b == 10 * (b / 10) + b % 10);
    }
}

/// A decimal string is one digit for numbers below ten, and longer
/// otherwise.
proof fn lemma_dec_str_digits(n: nat)
    ensures
        n < 10 ==> dec_str(n).len() == 1,
        n >= 10 ==> dec_str(n).len() >= 2,
    decreases n,
{
    if n >= 10 {
        lemma_dec_str_digits(n / 10);
    }
}

/// Digit characters are distinct.
proof fn lemma_digit_char_injective(a: int, b: int)
    requires
        0 <= a < 10,
        0 <= b < 10,
        crate::strutil::digit_char(a) == crate::strutil::digit_char(b),
    ensures
        a == b,
{
    assert(crate::strutil::digit_char(a) as u32 == '0' as u32 + a);
    assert(crate::strutil::digit_char(b) as u32 == '0' as u32 + b);
}

/// All characters of a decimal representation are digits.
proof fn lemma_dec_str_all_digits(n: nat)
    ensures
        forall|i: int|
            0 <= i < dec_str(n).len() ==> crate::strutil::is_digit_char(#[trigger] dec_str(n)[i]),
    decreases n,
{
    if n >= 10 {
        lemma_dec_str_all_digits(n / 10);
        assert(dec_str(n) == dec_str(n / 10) + seq![crate::strutil::digit_char((n % 10) as int)]);
        assert forall|i: int| 0 <= i < dec_str(n).len() implies crate::strutil::is_digit_char(
            #[trigger] dec_str(n)[i],
        ) by {
            if i < dec_str(n / 10).len() {
                assert(dec_str(n)[i] == dec_str(n / 10)[i]);
            } else {
                assert(dec_str(n)[i] == crate::strutil::digit_char((n % 10) as int));
            }
        }
    }
}

/// No reserved word ends in a digit.
proof fn lemma_reserved_never_ends_in_digit(s: Seq<char>)
    requires
        s.len() > 0,
        crate::strutil::is_digit_char(s[s.len() - 1]),
    ensures
        !crate::ident::is_reserved_word(s),
{
    reveal_strlit("select");
    reveal_strlit("from");
    reveal_strlit("where");
    reveal_strlit("group");
    reveal_strlit("order");
    reveal_strlit("by");
    reveal_strlit("limit");
    reveal_strlit("offset");
    reveal_strlit("join");
    reveal_strlit("table");
}

/// A safe identifier stays safe and unreserved when an underscore and a
/// decimal suffix are appended.
proof fn lemma_suffixed_name_good(base: Seq<char>, n: nat)
    requires
        crate::ident::is_safe_identifier(base),
    ensures
        crate::ident::is_safe_identifier(base + seq!['_'] + dec_str(n)),
        !crate::ident::is_reserved_word(base + seq!['_'] + dec_str(n)),
{
    let full = base + seq!['_'] + dec_str(n);
    lemma_dec_str_all_digits(n);
    lemma_dec_str_digits(n);
    assert(full[0] == base[0]);
    assert forall|i: int| 0 <= i < full.len() implies crate::strutil::is_lower_char(
        #[trigger] full[i],
    ) || crate::strutil::is_digit_char(full[i]) || full[i] == '_' by {
        if i < base.len() {
            assert(full[i] == base[i]);
        } else if i == base.len() {
            assert(full[i] == '_');
        } else {
            assert(full[i] == dec_str(n)[i - base.len() - 1]);
        }
    }
    assert(full[full.len() - 1] == dec_str(n)[dec_str(n).len() - 1]);
    lemma_reserved_never_ends_in_digit(full);
}

/// The `col_` fallback name for an ordinal is safe and unreserved.
proof fn lemma_col_ordinal_good(n: nat)
    ensures
        crate::ident::is_safe_identifier(crate::ident::col_prefix() + dec_str(n)),
        !crate::ident::is_reserved_word(crate::ident::col_prefix() + dec_str(n)),
        crate::ident::col_prefix() + dec_str(n) != "fid"@,
        crate::ident::col_prefix() + dec_str(n) != "geom"@,
{
    let full = crate::ident::col_prefix() + dec_str(n);
    lemma_dec_str_all_digits(n);
    lemma_dec_str_digits(n);
    assert(full[0] == 'c');
    assert forall|i: int| 0 <= i < full.len() implies crate::strutil::is_lower_char(
        #[trigger] full[i],
    ) || crate::strutil::is_digit_char(full[i]) || full[i] == '_' by {
        if i < 4 {
            assert(full[i] == crate::ident::col_prefix()[i]);
        } else {
            assert(full[i] == dec_str(n)[i - 4]);
        }
    }
    assert(full[full.len() - 1] == dec_str(n)[dec_str(n).len() - 1]);
    lemma_reserved_never_ends_in_digit(full);
    reveal_strlit("fid");
    reveal_strlit("geom");
    assert(full.len() >= 5);
}

/// A nonempty name of letters, digits and underscores that starts with a
/// letter or underscore lowercases to a safe identifier.
proof fn lemma_lowered_shape_safe(s: Seq<char>)
    requires
        s.len() > 0,
        forall|i: int|
            0 <= i < s.len() ==> crate::strutil::is_alnum_char(#[trigger] s[i]) || s[i] == '_',
        crate::strutil::is_alpha_char(s[0]) || s[0] == '_',
    ensures
        crate::ident::is_safe_identifier(lower_seq(s)),
{
    let lw = lower_seq(s);
    assert forall|i: int| 0 <= i < lw.len() implies crate::strutil::is_lower_char(
        #[trigger] lw[i],
    ) || crate::strutil::is_digit_char(lw[i]) || lw[i] == '_' by {
        assert(lw[i] == crate::strutil::lower_char(s[i]));
        if crate::strutil::is_upper_char(s[i]) {
            assert(crate::strutil::lower_char(s[i]) as u32 == s[i] as u32 + 32);
        }
    }
    assert(lw[0] == crate::strutil::lower_char(s[0]));
    if crate::strutil::is_upper_char(s[0]) {
        assert(crate::strutil::lower_char(s[0]) as u32 == s[0] as u32 + 32);
    }
}

/// The candidate name for a collision suffix.
pub open spec fn suffixed_candidate(base: Seq<char>, s: int) -> Seq<char> {
    base + seq!['_'] + dec_str(s as nat)
}

/// The shape that keeps a name: letters, digits and underscores only,
/// with a letter or underscore first.
pub open spec fn is_shape_safe_name(s: Seq<char>) -> bool {
    &&& s.len() > 0
    &&& forall|i: int|
        0 <= i < s.len() ==> crate::strutil::is_alnum_char(#[trigger] s[i]) || s[i] == '_'
    &&& (crate::strutil::is_alpha_char(s[0]) || s[0] == '_')
}

/// The base identifier of a property column, before collision
/// resolution: a shape-safe name is lowercased (rescued with `col_` when
/// the lowercase form is a reserved word); any other name goes through
/// the normalizer, with `col_<ordinal>` when nothing remains.
pub open spec fn spec_base(c: TableColumn) -> Seq<char> {
    if is_shape_safe_name(c.name@) {
        if crate::ident::is_reserved_word(lower_seq(c.name@)) {
            crate::ident::col_prefix() + lower_seq(c.name@)
        } else {
            lower_seq(c.name@)
        }
    } else {
        match crate::ident::spec_normalize(c.name@) {
            Some(t) => t,
            None => crate::ident::col_prefix() + dec_str(c.ordinal as nat),
        }
    }
}

/// The first free suffixed candidate at or after suffix `s`; by
/// pigeonhole the scan never reaches the cap, which only makes the
/// definition total.
pub open spec fn first_free_from(used: Seq<Seq<char>>, base: Seq<char>, s: int) -> Seq<char>
    decreases used.len() + 3 - s,
{
    if s > used.len() + 2 {
        base
    } else if !used.contains(suffixed_candidate(base, s)) {
        suffixed_candidate(base, s)
    } else {
        first_free_from(used, base, s + 1)
    }
}

/// The name the collision resolver picks: the base itself when unused,
/// else the first free `_2`, `_3`, ... candidate.
pub open spec fn spec_pick(used: Seq<Seq<char>>, base: Seq<char>) -> Seq<char> {
    if !used.contains(base) {
        base
    } else {
        first_free_from(used, base, 2)
    }
}

/// The taken names after planning a column prefix: the reserved seeds
/// `fid` and `geom`, then the identifier assigned to each property
/// column in order (a reserved column's lowercase name is one of the
/// seeds already).
pub open spec fn spec_used(columns: Seq<TableColumn>) -> Seq<Seq<char>>
    decreases columns.len(),
{
    if columns.len() == 0 {
        seq!["fid"@, "geom"@]
    } else {
        let prev = spec_used(columns.drop_last());
        let c = columns[columns.len() - 1];
        if is_reserved_column(c.name@) {
            prev
        } else {
            prev.push(spec_pick(prev, spec_base(c)))
        }
    }
}

/// What a metadata row must be: the `ri`-th property column's original
/// name, ordinal and mapped logical type, under the identifier the choice
/// rule assigns it.
pub open spec fn row_pinned(columns: Seq<TableColumn>, row: ColumnMeta, ri: int) -> bool {
    let ci = prop_index(columns, ri);
    &&& 0 <= ci < columns.len()
    &&& !is_reserved_column(columns[ci].name@)
    &&& row.original_name@ == columns[ci].name@
    &&& row.ordinal == columns[ci].ordinal
    &&& row.logical_type@ == logical_type_of(columns[ci].data_type@)
    &&& row.normalized_name@ == spec_assigned(columns.take(ci), columns[ci])
}

/// The identifier a column receives, given the columns planned before it.
pub open spec fn spec_assigned(prefix: Seq<TableColumn>, c: TableColumn) -> Seq<char> {
    if is_reserved_column(c.name@) {
        lower_seq(c.name@)
    } else {
        spec_pick(spec_used(prefix), spec_base(c))
    }
}

/// How many property (non-reserved) columns a prefix holds.
pub open spec fn count_props(columns: Seq<TableColumn>) -> int
    decreases columns.len(),
{
    if columns.len() == 0 {
        0
    } else {
        count_props(columns.drop_last()) + (if is_reserved_column(
            columns[columns.len() - 1].name@,
        ) {
            0int
        } else {
            1int
        })
    }
}

/// The column index of the `ri`-th property column.
pub open spec fn prop_index(columns: Seq<TableColumn>, ri: int) -> int
    decreases columns.len(),
{
    if columns.len() == 0 {
        0
    } else if ri < count_props(columns.drop_last()) {
        prop_index(columns.drop_last(), ri)
    } else {
        columns.len() - 1
    }
}

/// Membership in a string list is membership among its views.
proof fn lemma_col_list_map(used: Seq<String>, x: Seq<char>)
    ensures
        col_list_has(used, x) <==> used.map_values(|s: String| s@).contains(x),
{
    let uv = used.map_values(|s: String| s@);
    if col_list_has(used, x) {
        let j = choose|j: int| 0 <= j < used.len() && #[trigger] used[j]@ == x;
        assert(uv[j] == x);
    }
    if uv.contains(x) {
        let j = choose|j: int| 0 <= j < uv.len() && uv[j] == x;
        assert(used[j]@ == x);
        assert(col_list_has(used, x));
    }
}

/// The scan from suffix two lands on `s` when every earlier candidate is
/// taken and `s` is free.
proof fn lemma_first_free(used: Seq<Seq<char>>, base: Seq<char>, k: int, s: int)
    requires
        2 <= k <= s,
        s <= used.len() + 2,
        forall|s2: int| k <= s2 < s ==> used.contains(#[trigger] suffixed_candidate(base, s2)),
        !used.contains(suffixed_candidate(base, s)),
    ensures
        first_free_from(used, base, k) == suffixed_candidate(base, s),
    decreases s - k,
{
    if k < s {
        lemma_first_free(used, base, k + 1, s);
    }
}

fn used_contains(used: &Vec<String>, cand: &Vec<char>) -> (r: bool)
    ensures
        r == col_list_has(used@, cand@),
{
    let n: usize = used.len();
    let mut i: usize = 0;
    while i < n
        invariant
            n == used@.len(),
            i <= n,
            forall|j: int| 0 <= j < i ==> #[trigger] used@[j]@ != cand@,
        decreases n - i,
    {
        let u = chars_vec(used[i].as_str());
        if vec_eq_chars(&u, cand) {
            return true;
        }
        i = i + 1;
    }
    false
}

fn make_candidate(base: &Vec<char>, suffix: usize) -> (r: Vec<char>)
    ensures
        r@ == suffixed_candidate(base@, suffix as int),
{
    let mut out: Vec<char> = Vec::new();
    push_all(&mut out, base);
    out.push('_');
    let digits = u64_to_dec_chars(suffix as u64);
    push_all(&mut out, &digits);
    proof {
        assert(out@ =~= base@ + seq!['_'] + dec_str(suffix as nat));
    }
    out
}

/// Distinct suffixes give distinct candidates.
proof fn lemma_candidates_injective(base: Seq<char>, a: int, b: int)
    requires
        0 <= a,
        0 <= b,
        suffixed_candidate(base, a) == suffixed_candidate(base, b),
    ensures
        a == b,
{
    let ca = suffixed_candidate(base, a);
    let cb = suffixed_candidate(base, b);
    assert(ca.len() == base.len() + 1 + dec_str(a as nat).len());
    assert(cb.len() == base.len() + 1 + dec_str(b as nat).len());
    assert(dec_str(a as nat) =~= ca.subrange(base.len() as int + 1, ca.len() as int)) by {
        assert forall|i: int| 0 <= i < dec_str(a as nat).len() implies #[trigger] dec_str(
            a as nat,
        )[i] == ca.subrange(base.len() as int + 1, ca.len() as int)[i] by {
            assert(ca[base.len() as int + 1 + i] == dec_str(a as nat)[i]);
        }
    }
    assert(dec_str(b as nat) =~= cb.subrange(base.len() as int + 1, cb.len() as int)) by {
        assert forall|i: int| 0 <= i < dec_str(b as nat).len() implies #[trigger] dec_str(
            b as nat,
        )[i] == cb.subrange(base.len() as int + 1, cb.len() as int)[i] by {
            assert(cb[base.len() as int + 1 + i] == dec_str(b as nat)[i]);
        }
    }
    assert(dec_str(a as nat) == dec_str(b as nat));
    lemma_dec_str_injective(a as nat, b as nat);
}

/// Picks the first free name: the base itself when unused, else the base
/// suffixed `_2`, `_3`, ... The result is safe, unreserved and unused,
/// and is exactly what the choice rule `spec_pick` names.
fn pick_unique_name(used: &Vec<String>, base: &Vec<char>) -> (r: Vec<char>)
    requires
        crate::ident::is_safe_identifier(base@),
        !crate::ident::is_reserved_word(base@),
        used@.len() < usize::MAX - 4,
    ensures
        crate::ident::is_safe_identifier(r@),
        !crate::ident::is_reserved_word(r@),
        !col_list_has(used@, r@),
        r@ == spec_pick(used@.map_values(|s: String| s@), base@),
{
    proof {
        lemma_col_list_map(used@, base@);
    }
    if !used_contains(used, base) {
        let mut out: Vec<char> = Vec::new();
        push_all(&mut out, base);
        proof {
            assert(out@ =~= base@);
        }
        return out;
    }
    let ghost uviews = used@.map_values(|s: String| s@);
    let ghost uset = uviews.to_set();
    proof {
        vstd::seq_lib::seq_to_set_is_finite::<Seq<char>>(uviews);
        uviews.lemma_cardinality_of_set();
    }
    let mut suffix: usize = 2;
    let mut cand = make_candidate(base, suffix);
    let ghost mut tried: Set<Seq<char>> = Set::empty();
    while used_contains(used, &cand)
        invariant
            crate::ident::is_safe_identifier(base@),
            used@.len() < usize::MAX - 4,
            uviews == used@.map_values(|s: String| s@),
            uset == uviews.to_set(),
            uset.finite(),
            uset.len() <= used@.len(),
            2 <= suffix,
            cand@ == suffixed_candidate(base@, suffix as int),
            tried.finite(),
            tried.len() == suffix - 2,
            tried.subset_of(uset),
            uviews.contains(base@),
            forall|x: Seq<char>|
                tried.contains(x) ==> exists|s2: int| 2 <= s2 < suffix && x == suffixed_candidate(
                    base@,
                    s2,
                ),
            forall|s2: int|
                2 <= s2 < suffix ==> uviews.contains(#[trigger] suffixed_candidate(base@, s2)),
        decreases uset.len() + 2 - suffix,
    {
        proof {
            // the candidate that is in use joins the tried set
            assert(col_list_has(used@, cand@));
            let j = choose|j: int| 0 <= j < used@.len() && #[trigger] used@[j]@ == cand@;
            assert(uviews[j] == cand@);
            assert(uviews.contains(suffixed_candidate(base@, suffix as int)));
            assert(uset.contains(cand@));
            assert(!tried.contains(cand@)) by {
                if tried.contains(cand@) {
                    let s2 = choose|s2: int|
                        2 <= s2 < suffix && cand@ == suffixed_candidate(base@, s2);
                    lemma_candidates_injective(base@, s2, suffix as int);
                }
            }
            let newtried = tried.insert(cand@);
            assert(newtried.len() == tried.len() + 1);
            assert(newtried.subset_of(uset));
            vstd::set_lib::lemma_len_subset(newtried, uset);
            tried = newtried;
        }
        suffix = suffix + 1;
        cand = make_candidate(base, suffix);
    }
    proof {
        lemma_suffixed_name_good(base@, suffix as nat);
        lemma_col_list_map(used@, cand@);
        assert(uviews.len() == used@.len());
        assert(suffix <= uviews.len() + 2) by {
            vstd::set_lib::lemma_len_subset(tried, uset);
        }
        lemma_first_free(uviews, base@, 2, suffix as int);
    }
    cand
}

/// One in-place rename of a property column.
pub struct Rename {
    pub from: String,
    pub to: String,
}

/// One in-place type change of a property column.
pub struct Coercion {
    pub column: String,
    pub target: String,
}

/// The import worker's plan for the second pass: renames, coercions, the
/// final column names of the table, and the metadata rows to record.
pub struct ImportPlan {
    pub renames: Vec<Rename>,
    pub coercions: Vec<Coercion>,
    pub table_columns: Vec<String>,
    pub rows: Vec<ColumnMeta>,
}

/// Plans the second pass over a freshly materialized table: for each
/// property column a safe, unique normalized identifier with its rename
/// and type coercion, and one metadata row; reserved columns keep their
/// canonical lowercase names and get no row. The rows and final column
/// names satisfy the shape that completing the import requires.
#[verifier::rlimit(100)]
pub fn plan_property_columns(source_id: &str, columns: &Vec<TableColumn>) -> (p: ImportPlan)
    requires
        columns@.len() < usize::MAX - 8,
        forall|ci: int| 0 <= ci < columns@.len() ==> #[trigger] columns@[ci].ordinal >= 0,
    ensures
        crate::catalog::import_rows_valid(p.rows@, source_id@, p.table_columns@),
        p.table_columns@.len() == columns@.len(),
        forall|ci: int|
            0 <= ci < columns@.len() ==> #[trigger] p.table_columns@[ci]@ == spec_assigned(
                columns@.take(ci),
                columns@[ci],
            ),
        p.rows@.len() == count_props(columns@),
        forall|ri: int| 0 <= ri < p.rows@.len() ==> row_pinned(columns@, #[trigger] p.rows@[ri], ri),
{
    let n: usize = columns.len();
    let mut used: Vec<String> = Vec::new();
    let fid = chars_vec("fid");
    let geom = chars_vec("geom");
    used.push(chars_to_string(&fid));
    used.push(chars_to_string(&geom));
    let mut renames: Vec<Rename> = Vec::new();
    let mut coercions: Vec<Coercion> = Vec::new();
    let mut table_columns: Vec<String> = Vec::new();
    let mut rows: Vec<ColumnMeta> = Vec::new();
    let mut ci: usize = 0;
    proof {
        assert(used@[0]@ == "fid"@);
        assert(used@[1]@ == "geom"@);
        assert(used@.map_values(|s: String| s@) =~= spec_used(columns@.take(0)));
    }
    while ci < n
        invariant
            fid@ == "fid"@,
            geom@ == "geom"@,
            n == columns@.len(),
            n < usize::MAX - 8,
            forall|x: int| 0 <= x < columns@.len() ==> #[trigger] columns@[x].ordinal >= 0,
            ci <= n,
            used@.len() <= ci + 2,
            col_list_has(used@, "fid"@),
            col_list_has(used@, "geom"@),
            table_columns@.len() == ci,
            rows@.len() <= ci,
            used@.map_values(|s: String| s@) == spec_used(columns@.take(ci as int)),
            rows@.len() == count_props(columns@.take(ci as int)),
            forall|x: int|
                0 <= x < ci ==> #[trigger] table_columns@[x]@ == spec_assigned(
                    columns@.take(x),
                    columns@[x],
                ),
            forall|ri: int|
                0 <= ri < rows@.len() ==> row_pinned(
                    columns@.take(ci as int),
                    #[trigger] rows@[ri],
                    ri,
                ),
            forall|x: int|
                0 <= x < ci && is_reserved_column(#[trigger] columns@[x].name@)
                    ==> table_columns@[x]@ == lower_seq(columns@[x].name@),
            forall|x: int|
                0 <= x < ci && !is_reserved_column(#[trigger] columns@[x].name@) ==> exists|
                    ri: int,
                |
                    0 <= ri < rows@.len() && #[trigger] rows@[ri].normalized_name@
                        == table_columns@[x]@,
            forall|ri: int|
                0 <= ri < rows@.len() ==> col_list_has(
                    table_columns@,
                    #[trigger] rows@[ri].normalized_name@,
                ),
            forall|ri: int| 0 <= ri < rows@.len() ==> #[trigger] rows@[ri].source_id@ == source_id@,
            forall|ri: int|
                0 <= ri < rows@.len() ==> crate::ident::is_safe_identifier(
                    #[trigger] rows@[ri].normalized_name@,
                ) && !crate::ident::is_reserved_word(rows@[ri].normalized_name@)
                    && rows@[ri].normalized_name@ != "fid"@ && rows@[ri].normalized_name@
                    != "geom"@,
            forall|a: int, b: int|
                0 <= a < b < rows@.len() ==> #[trigger] rows@[a].normalized_name@
                    != #[trigger] rows@[b].normalized_name@,
            forall|ri: int|
                0 <= ri < rows@.len() ==> col_list_has(
                    used@,
                    #[trigger] rows@[ri].normalized_name@,
                ),
        decreases n - ci,
    {
        let ghost prev_used = used@;
        let ghost prev_cols = table_columns@;
        let ghost prev_rows = rows@;
        let name_chars = chars_vec(columns[ci].name.as_str());
        let lower = vec_to_lower(&name_chars);
        if vec_eq_chars(&lower, &fid) || vec_eq_chars(&lower, &geom) {
            let lower_s = chars_to_string(&lower);
            let ghost lv = lower_s@;
            table_columns.push(lower_s);
            proof {
                assert(is_reserved_column(columns@[ci as int].name@));
                assert(table_columns@[ci as int]@ == lower_seq(columns@[ci as int].name@));
                lemma_push_col_list(prev_cols, table_columns@, lv);
                let cur = columns@.take(ci as int + 1);
                assert(cur.drop_last() =~= columns@.take(ci as int));
                assert(cur[cur.len() - 1] == columns@[ci as int]);
                assert(spec_used(cur) == spec_used(columns@.take(ci as int)));
                assert(count_props(cur) == count_props(columns@.take(ci as int)));
                assert(table_columns@[ci as int]@ == spec_assigned(
                    columns@.take(ci as int),
                    columns@[ci as int],
                ));
            }
        } else {
            // choose the base identifier
            let shape_ok = name_shape_safe(&name_chars);
            let base: Vec<char> = if shape_ok {
                if vec_is_reserved(&lower) {
                    let mut b: Vec<char> = Vec::new();
                    b.push('c');
                    b.push('o');
                    b.push('l');
                    b.push('_');
                    push_all(&mut b, &lower);
                    proof {
                        assert(b@ =~= crate::ident::col_prefix() + lower_seq(
                            columns@[ci as int].name@,
                        ));
                        lemma_lowered_shape_safe(columns@[ci as int].name@);
                        lemma_col_prefixed_good(lower_seq(columns@[ci as int].name@));
                        assert(b@ == spec_base(columns@[ci as int]));
                    }
                    b
                } else {
                    proof {
                        lemma_lowered_shape_safe(columns@[ci as int].name@);
                    }
                    let mut b: Vec<char> = Vec::new();
                    push_all(&mut b, &lower);
                    proof {
                        assert(b@ =~= lower_seq(columns@[ci as int].name@));
                        assert(b@ == spec_base(columns@[ci as int]));
                    }
                    b
                }
            } else {
                match crate::ident::normalize_column_name(columns[ci].name.as_str()) {
                    Some(t) => {
                        let b = chars_vec(t.as_str());
                        proof {
                            assert(b@ == spec_base(columns@[ci as int]));
                        }
                        b
                    },
                    None => {
                        let ghost o = columns@[ci as int].ordinal;
                        let mut b: Vec<char> = Vec::new();
                        b.push('c');
                        b.push('o');
                        b.push('l');
                        b.push('_');
                        let digits = u64_to_dec_chars(columns[ci].ordinal as u64);
                        push_all(&mut b, &digits);
                        proof {
                            assert(columns@[ci as int].ordinal as u64 as nat == o as nat);
                            assert(b@ =~= crate::ident::col_prefix() + dec_str(o as nat));
                            lemma_col_ordinal_good(o as nat);
                            assert(b@ == spec_base(columns@[ci as int]));
                        }
                        b
                    },
                }
            };
            let assigned = pick_unique_name(&used, &base);
            let assigned_s = chars_to_string(&assigned);
            let ghost av = assigned@;
            if !vec_eq_chars(&assigned, &lower) {
                renames.push(
                    Rename { from: columns[ci].name.clone(), to: chars_to_string(&assigned) },
                );
            }
            let (logical, needs_alter) = coerce_storage_type(columns[ci].data_type.as_str());
            if needs_alter {
                coercions.push(
                    Coercion { column: chars_to_string(&assigned), target: logical.clone() },
                );
            }
            table_columns.push(assigned_s);
            used.push(chars_to_string(&assigned));
            rows.push(
                ColumnMeta {
                    source_id: source_id.to_owned(),
                    normalized_name: chars_to_string(&assigned),
                    original_name: columns[ci].name.clone(),
                    ordinal: columns[ci].ordinal,
                    logical_type: logical,
                },
            );
            proof {
                assert(av != "fid"@) by {
                    assert(col_list_has(prev_used, "fid"@));
                    if av == "fid"@ {
                        let j = choose|j: int|
                            0 <= j < prev_used.len() && #[trigger] prev_used[j]@ == "fid"@;
                        assert(col_list_has(prev_used, av));
                    }
                }
                assert(av != "geom"@) by {
                    assert(col_list_has(prev_used, "geom"@));
                    if av == "geom"@ {
                        let j = choose|j: int|
                            0 <= j < prev_used.len() && #[trigger] prev_used[j]@ == "geom"@;
                        assert(col_list_has(prev_used, av));
                    }
                }
                lemma_push_col_list(prev_used, used@, av);
                lemma_push_col_list(prev_cols, table_columns@, av);
                assert(rows@[rows@.len() - 1].normalized_name@ == av);
                assert(rows@[rows@.len() - 1].source_id@ == source_id@);
                // the assigned name is the one the choice rule names
                let cur = columns@.take(ci as int + 1);
                let pre = columns@.take(ci as int);
                assert(cur.drop_last() =~= pre);
                assert(cur[cur.len() - 1] == columns@[ci as int]);
                assert(!is_reserved_column(columns@[ci as int].name@));
                assert(av == spec_pick(prev_used.map_values(|s: String| s@), base@));
                assert(av == spec_assigned(pre, columns@[ci as int]));
                assert(used@.map_values(|s: String| s@) =~= prev_used.map_values(
                    |s: String| s@,
                ).push(av));
                assert(used@.map_values(|s: String| s@) == spec_used(cur));
                assert(count_props(cur) == count_props(pre) + 1);
                assert(table_columns@[ci as int]@ == spec_assigned(pre, columns@[ci as int]));
                // the new row is pinned to its column
                assert(prop_index(cur, prev_rows.len() as int) == ci as int);
                assert(cur.take(ci as int) =~= pre);
                assert(row_pinned(cur, rows@[rows@.len() - 1], prev_rows.len() as int));
                // the new name is distinct from every earlier row's name
                assert forall|a: int, b: int| 0 <= a < b < rows@.len() implies
                    #[trigger] rows@[a].normalized_name@ != #[trigger] rows@[b].normalized_name@
                    by {
                    if b < rows@.len() - 1 {
                        assert(rows@[a] == prev_rows[a] && rows@[b] == prev_rows[b]);
                    } else {
                        assert(rows@[a] == prev_rows[a]);
                        assert(col_list_has(prev_used, prev_rows[a].normalized_name@));
                        if prev_rows[a].normalized_name@ == av {
                            assert(col_list_has(prev_used, av));
                        }
                    }
                }
            }
        }
        ci = ci + 1;
        proof {
            assert forall|x: int|
                0 <= x < ci && is_reserved_column(#[trigger] columns@[x].name@) implies
                table_columns@[x]@ == lower_seq(columns@[x].name@) by {
                if x < ci - 1 {
                    assert(table_columns@[x] == prev_cols[x]);
                }
            }
            assert forall|x: int| 0 <= x < ci implies #[trigger] table_columns@[x]@
                == spec_assigned(columns@.take(x), columns@[x]) by {
                if x < ci - 1 {
                    assert(table_columns@[x] == prev_cols[x]);
                }
            }
            assert forall|ri: int| 0 <= ri < rows@.len() implies row_pinned(
                columns@.take(ci as int),
                #[trigger] rows@[ri],
                ri,
            ) by {
                let pre = columns@.take(ci as int - 1);
                let cur = columns@.take(ci as int);
                assert(cur.drop_last() =~= pre);
                assert(cur[cur.len() - 1] == columns@[ci as int - 1]);
                if ri < prev_rows.len() {
                    assert(rows@[ri] == prev_rows[ri]);
                    assert(row_pinned(pre, prev_rows[ri], ri));
                    let pi = prop_index(pre, ri);
                    assert(ri < count_props(pre));
                    assert(prop_index(cur, ri) == pi);
                    assert(cur[pi] == pre[pi]);
                    assert(cur.take(pi) =~= pre.take(pi));
                    assert(row_pinned(cur, rows@[ri], ri));
                } else {
                    assert(row_pinned(cur, rows@[ri], ri));
                }
            }
            assert forall|x: int| 0 <= x < ci && !is_reserved_column(
                #[trigger] columns@[x].name@,
            ) implies exists|ri: int|
                0 <= ri < rows@.len() && #[trigger] rows@[ri].normalized_name@
                    == table_columns@[x]@ by {
                if x < ci - 1 {
                    let ri = choose|ri: int|
                        0 <= ri < prev_rows.len() && #[trigger] prev_rows[ri].normalized_name@
                            == prev_cols[x]@;
                    assert(rows@[ri] == prev_rows[ri]);
                    assert(table_columns@[x] == prev_cols[x]);
                } else {
                    assert(rows@[rows@.len() - 1].normalized_name@ == table_columns@[x]@);
                }
            }
            assert forall|ri: int| 0 <= ri < rows@.len() implies col_list_has(
                table_columns@,
                #[trigger] rows@[ri].normalized_name@,
            ) by {
                if ri < prev_rows.len() {
                    assert(rows@[ri] == prev_rows[ri]);
                    assert(col_list_has(prev_cols, prev_rows[ri].normalized_name@));
                    let x = choose|x: int|
                        0 <= x < prev_cols.len() && #[trigger] prev_cols[x]@
                            == prev_rows[ri].normalized_name@;
                    assert(table_columns@[x] == prev_cols[x]);
                } else {
                    assert(table_columns@[table_columns@.len() - 1]@
                        == rows@[ri].normalized_name@);
                }
            }
            assert forall|ri: int| 0 <= ri < rows@.len() implies col_list_has(
                used@,
                #[trigger] rows@[ri].normalized_name@,
            ) by {
                if ri < prev_rows.len() {
                    assert(rows@[ri] == prev_rows[ri]);
                    assert(col_list_has(prev_used, prev_rows[ri].normalized_name@));
                    let x = choose|x: int|
                        0 <= x < prev_used.len() && #[trigger] prev_used[x]@
                            == prev_rows[ri].normalized_name@;
                    assert(used@[x] == prev_used[x]);
                } else {
                    assert(used@[used@.len() - 1]@ == rows@[ri].normalized_name@);
                }
            }
        }
    }
    proof {
        assert forall|j: int|
            0 <= j < table_columns@.len() && #[trigger] table_columns@[j]@ != "fid"@
                && table_columns@[j]@ != "geom"@ implies exists|ri: int|
            0 <= ri < rows@.len() && #[trigger] rows@[ri].normalized_name@ == table_columns@[j]@
            by {
            if is_reserved_column(columns@[j].name@) {
                assert(table_columns@[j]@ == lower_seq(columns@[j].name@));
                assert(false);
            }
        }
        assert(columns@.take(n as int) =~= columns@);
        assert(count_props(columns@.take(n as int)) == count_props(columns@));
        assert forall|ri: int| 0 <= ri < rows@.len() implies row_pinned(
            columns@,
            #[trigger] rows@[ri],
            ri,
        ) by {
            assert(row_pinned(columns@.take(n as int), rows@[ri], ri));
        }
    }
    ImportPlan { renames, coercions, table_columns, rows }
}

/// Whether every character of the name is a letter, digit or underscore,
/// with a letter or underscore first — the shape that keeps its lowercase
/// form as the identifier.
fn name_shape_safe(name: &Vec<char>) -> (r: bool)
    ensures
        r == is_shape_safe_name(name@),
{
    let n: usize = name.len();
    if n == 0 {
        return false;
    }
    let first = name[0];
    if !(crate::strutil::exec_is_alpha(first) || first == '_') {
        return false;
    }
    let mut i: usize = 0;
    while i < n
        invariant
            n == name@.len(),
            i <= n,
            name@.len() > 0,
            crate::strutil::is_alpha_char(name@[0]) || name@[0] == '_',
            forall|j: int|
                0 <= j < i ==> crate::strutil::is_alnum_char(#[trigger] name@[j]) || name@[j]
                    == '_',
        decreases n - i,
    {
        let c = name[i];
        if !(crate::strutil::exec_is_alnum(c) || c == '_') {
            return false;
        }
        i = i + 1;
    }
    true
}

fn vec_is_reserved(v: &Vec<char>) -> (r: bool)
    ensures
        r == crate::ident::is_reserved_word(v@),
{
    crate::ident::vec_is_reserved_word(v)
}

/// Pushing onto a column list keeps every earlier membership and adds the
/// new name.
proof fn lemma_push_col_list(prev: Seq<String>, cur: Seq<String>, added: Seq<char>)
    requires
        cur.len() == prev.len() + 1,
        forall|i: int| 0 <= i < prev.len() ==> #[trigger] cur[i] == prev[i],
        cur[cur.len() - 1]@ == added,
    ensures
        col_list_has(cur, added),
        forall|x: Seq<char>| col_list_has(prev, x) ==> col_list_has(cur, x),
{
    assert(cur[cur.len() - 1]@ == added);
    assert forall|x: Seq<char>| col_list_has(prev, x) implies col_list_has(cur, x) by {
        let j = choose|j: int| 0 <= j < prev.len() && #[trigger] prev[j]@ == x;
        assert(cur[j]@ == x);
    }
}

/// A lowercased safe-shaped name rescued with `col_` is safe and
/// unreserved.
proof fn lemma_col_prefixed_good(lw: Seq<char>)
    requires
        crate::ident::is_safe_identifier(lw),
    ensures
        crate::ident::is_safe_identifier(crate::ident::col_prefix() + lw),
        !crate::ident::is_reserved_word(crate::ident::col_prefix() + lw),
{
    let full = crate::ident::col_prefix() + lw;
    assert(full[0] == 'c');
    assert forall|i: int| 0 <= i < full.len() implies crate::strutil::is_lower_char(
        #[trigger] full[i],
    ) || crate::strutil::is_digit_char(full[i]) || full[i] == '_' by {
        if i < 4 {
            assert(full[i] == crate::ident::col_prefix()[i]);
        } else {
            assert(full[i] == lw[i - 4]);
        }
    }
    assert(full[3] == '_');
    crate::ident::lemma_reserved_words_lack_col_prefix(full);
}

fn copy_strings(v: &Vec<String>) -> (r: Vec<String>)
    ensures
        r@.len() == v@.len(),
        forall|i: int| 0 <= i < v@.len() ==> #[trigger] r@[i]@ == v@[i]@,
{
    let n: usize = v.len();
    let mut out: Vec<String> = Vec::new();
    let mut i: usize = 0;
    while i < n
        invariant
            n == v@.len(),
            i <= n,
            out@.len() == i,
            forall|j: int| 0 <= j < i ==> #[trigger] out@[j]@ == v@[j]@,
        decreases n - i,
    {
        out.push(v[i].clone());
        i = i + 1;
    }
    out
}

fn copy_rows(v: &Vec<ColumnMeta>) -> (r: Vec<ColumnMeta>)
    ensures
        r@ == v@,
{
    let n: usize = v.len();
    let mut out: Vec<ColumnMeta> = Vec::new();
    let mut i: usize = 0;
    while i < n
        invariant
            n == v@.len(),
            i <= n,
            out@ == v@.subrange(0, i as int),
        decreases n - i,
    {
        let row = ColumnMeta {
            source_id: v[i].source_id.clone(),
            normalized_name: v[i].normalized_name.clone(),
            original_name: v[i].original_name.clone(),
            ordinal: v[i].ordinal,
            logical_type: v[i].logical_type.clone(),
        };
        proof {
            assert(row == v@[i as int]);
        }
        out.push(row);
        i = i + 1;
        proof {
            assert(out@ =~= v@.subrange(0, i as int));
        }
    }
    proof {
        assert(v@.subrange(0, n as int) =~= v@);
    }
    out
}

/// Commits an import against the schema that the information-schema pass
/// reported, after the geometry pass has run: plans the property columns,
/// refuses a table that lacks the reserved `fid` and `geom` columns, and
/// on success records the table, the metadata rows and the ready status,
/// handing back the plan for the surrounding process to mirror in SQL.
pub fn complete_import_from_schema(
    catalog: &mut crate::catalog::Catalog,
    k: usize,
    table_name: String,
    schema: &Vec<TableColumn>,
) -> (r: Result<ImportPlan, ()>)
    requires
        old(catalog).wf(),
        k < old(catalog).files@.len(),
        old(catalog).files@[k as int].status is Processing,
        schema@.len() < usize::MAX - 8,
        forall|ci: int| 0 <= ci < schema@.len() ==> #[trigger] schema@[ci].ordinal >= 0,
    ensures
        final(catalog).wf(),
        match r {
            Ok(plan) => {
                &&& final(catalog).files@[k as int].status is Ready
                &&& final(catalog).files@[k as int].table_name matches Some(n) && n@ == table_name@
                &&& crate::catalog::status_step_allowed(
                    old(catalog).files@[k as int].status,
                    final(catalog).files@[k as int].status,
                )
                &&& crate::catalog::record_fields_equal(
                    old(catalog).files@[k as int],
                    final(catalog).files@[k as int],
                )
                &&& forall|j: int|
                    0 <= j < old(catalog).files@.len() && j != k ==> final(catalog).files@[j]
                        == old(catalog).files@[j]
                &&& final(catalog).published == old(catalog).published
                &&& crate::catalog::import_rows_valid(
                    plan.rows@,
                    old(catalog).files@[k as int].id@,
                    plan.table_columns@,
                )
                &&& plan.table_columns@.len() == schema@.len()
                &&& forall|ci: int|
                    0 <= ci < schema@.len() ==> #[trigger] plan.table_columns@[ci]@
                        == spec_assigned(schema@.take(ci), schema@[ci])
                &&& plan.rows@.len() == count_props(schema@)
                &&& forall|ri: int|
                    0 <= ri < plan.rows@.len() ==> row_pinned(schema@, #[trigger] plan.rows@[ri], ri)
            },
            Err(()) => {
                &&& *final(catalog) == *old(catalog)
                &&& !(schema_has_reserved(schema@, "fid"@) && schema_has_reserved(
                    schema@,
                    "geom"@,
                ))
            },
        },
{
    let id = catalog.files[k].id.clone();
    let plan = plan_property_columns(id.as_str(), schema);
    let fid = chars_vec("fid");
    let geom = chars_vec("geom");
    let has_fid = used_contains(&plan.table_columns, &fid);
    let has_geom = used_contains(&plan.table_columns, &geom);
    if !(has_fid && has_geom) {
        proof {
            if !has_fid {
                assert(!schema_has_reserved(schema@, "fid"@)) by {
                    if schema_has_reserved(schema@, "fid"@) {
                        let ci = choose|ci: int|
                            0 <= ci < schema@.len() && lower_seq(#[trigger] schema@[ci].name@)
                                == "fid"@;
                        assert(is_reserved_column(schema@[ci].name@));
                        assert(plan.table_columns@[ci]@ == "fid"@);
                        assert(col_list_has(plan.table_columns@, "fid"@));
                    }
                }
            } else {
                assert(!schema_has_reserved(schema@, "geom"@)) by {
                    if schema_has_reserved(schema@, "geom"@) {
                        let ci = choose|ci: int|
                            0 <= ci < schema@.len() && lower_seq(#[trigger] schema@[ci].name@)
                                == "geom"@;
                        assert(is_reserved_column(schema@[ci].name@));
                        assert(plan.table_columns@[ci]@ == "geom"@);
                        assert(col_list_has(plan.table_columns@, "geom"@));
                    }
                }
            }
        }
        return Err(());
    }
    let cols_copy = copy_strings(&plan.table_columns);
    let table = crate::catalog::DatasetTable { name: table_name.clone(), columns: cols_copy };
    let rows_copy = copy_rows(&plan.rows);
    proof {
        assert(crate::catalog::table_has_column(table, "fid"@)) by {
            let j = choose|j: int|
                0 <= j < plan.table_columns@.len() && #[trigger] plan.table_columns@[j]@
                    == "fid"@;
            assert(table.columns@[j]@ == "fid"@);
        }
        assert(crate::catalog::table_has_column(table, "geom"@)) by {
            let j = choose|j: int|
                0 <= j < plan.table_columns@.len() && #[trigger] plan.table_columns@[j]@
                    == "geom"@;
            assert(table.columns@[j]@ == "geom"@);
        }
        lemma_rows_valid_same_views(
            plan.rows@,
            catalog.files@[k as int].id@,
            plan.table_columns@,
            table.columns@,
        );
    }
    catalog.complete_import(k, table_name, table, rows_copy);
    Ok(plan)
}

/// Whether some schema column's lowercased name is the given reserved
/// name.
pub open spec fn schema_has_reserved(schema: Seq<TableColumn>, which: Seq<char>) -> bool {
    exists|ci: int| 0 <= ci < schema.len() && lower_seq(#[trigger] schema[ci].name@) == which
}

/// Row validity depends only on the views of the column names.
proof fn lemma_rows_valid_same_views(
    rows: Seq<ColumnMeta>,
    id: Seq<char>,
    a: Seq<String>,
    b: Seq<String>,
)
    requires
        crate::catalog::import_rows_valid(rows, id, a),
        a.len() == b.len(),
        forall|i: int| 0 <= i < a.len() ==> #[trigger] b[i]@ == a[i]@,
    ensures
        crate::catalog::import_rows_valid(rows, id, b),
{
    assert forall|ri: int| 0 <= ri < rows.len() implies col_list_has(
        b,
        #[trigger] rows[ri].normalized_name@,
    ) by {
        assert(col_list_has(a, rows[ri].normalized_name@));
        let j = choose|j: int|
            0 <= j < a.len() && #[trigger] a[j]@ == rows[ri].normalized_name@;
        assert(b[j]@ == rows[ri].normalized_name@);
    }
    assert forall|j: int|
        0 <= j < b.len() && #[trigger] b[j]@ != "fid"@ && b[j]@ != "geom"@ implies exists|ri: int|
        0 <= ri < rows.len() && #[trigger] rows[ri].normalized_name@ == b[j]@ by {
        assert(a[j]@ == b[j]@);
        let ri = choose|ri: int|
            0 <= ri < rows.len() && #[trigger] rows[ri].normalized_name@ == a[j]@;
    }
}

} // verus!
