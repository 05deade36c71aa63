//! Tile coordinate checks and MVT SQL synthesis.

use vstd::prelude::*;
use crate::catalog::ColumnMeta;
use crate::strutil::{chars_to_string, chars_vec, push_all, push_str_chars};

verus! {

/// Greatest zoom level the server accepts.
pub const MAX_TILE_ZOOM: i32 = 22;

/// 2^z as a mathematical integer.
pub open spec fn two_pow(z: int) -> int
    decreases z,
{
    if z <= 0 {
        1
    } else {
        2 * two_pow(z - 1)
    }
}

/// A tile address is valid when 0 <= z <= 22 and 0 <= x, y < 2^z.
pub open spec fn tile_coords_valid(z: int, x: int, y: int) -> bool {
    &&& 0 <= z <= MAX_TILE_ZOOM
    &&& 0 <= x < two_pow(z)
    &&& 0 <= y < two_pow(z)
}

proof fn lemma_two_pow_pos(z: int)
    ensures
        two_pow(z) >= 1,
    decreases z,
{
    if z > 0 {
        lemma_two_pow_pos(z - 1);
    }
}

proof fn lemma_two_pow_monotone(a: int, b: int)
    requires
        a <= b,
    ensures
        two_pow(a) <= two_pow(b),
    decreases b - a,
{
    if a < b {
        lemma_two_pow_monotone(a, b - 1);
        lemma_two_pow_pos(b - 1);
    }
}

pub proof fn lemma_two_pow_cap(z: int)
    requires
        z <= 22,
    ensures
        two_pow(z) <= 0x400000,
{
    lemma_two_pow_monotone(z, 22);
    reveal_with_fuel(two_pow, 24);
    assert(two_pow(22) == 0x400000);
}

/// Decides whether a requested tile address is in range.
pub fn validate_tile_coords(z: i32, x: i32, y: i32) -> (r: bool)
    ensures
        r <==> tile_coords_valid(z as int, x as int, y as int),
{
    if z < 0 || z > MAX_TILE_ZOOM || x < 0 || y < 0 {
        return false;
    }
    let mut max_xy: i32 = 1;
    let mut i: i32 = 0;
    while i < z
        invariant
            0 <= i <= z <= MAX_TILE_ZOOM,
            1 <= max_xy,
            max_xy == two_pow(i as int),
        decreases z - i,
    {
        proof {
            lemma_two_pow_cap(i as int + 1);
            assert(two_pow(i as int + 1) == 2 * two_pow(i as int));
        }
        max_xy = max_xy * 2;
        i = i + 1;
    }
    x < max_xy && y < max_xy
}

/// SQL identifier escaping: every embedded double quote doubled.
pub open spec fn escape_quotes(s: Seq<char>) -> Seq<char>
    decreases s.len(),
{
    if s.len() == 0 {
        Seq::empty()
    } else {
        escape_quotes(s.drop_last()) + (if s[s.len() - 1] == '"' {
            seq!['"', '"']
        } else {
            seq![s[s.len() - 1]]
        })
    }
}

/// Doubles every double quote in the input.
pub fn escape_quotes_vec(v: &Vec<char>) -> (r: Vec<char>)
    ensures
        r@ == escape_quotes(v@),
{
    let n: usize = v.len();
    let mut out: Vec<char> = Vec::new();
    let mut i: usize = 0;
    while i < n
        invariant
            n == v@.len(),
            i <= n,
            out@ == escape_quotes(v@.subrange(0, i as int)),
        decreases n - i,
    {
        let c = v[i];
        out.push(c);
        if c == '"' {
            out.push('"');
        }
        i = i + 1;
        proof {
            let pre = v@.subrange(0, i as int - 1);
            let cur = v@.subrange(0, i as int);
            assert(cur.drop_last() =~= pre);
            assert(cur[cur.len() - 1] == c);
            if c == '"' {
                assert(out@ =~= escape_quotes(pre) + seq!['"', '"']);
            } else {
                assert(out@ =~= escape_quotes(pre) + seq![c]);
            }
        }
    }
    proof {
        assert(v@.subrange(0, n as int) =~= v@);
    }
    out
}

/// The MVT geometry member of the projection struct.
pub open spec fn mvt_geom_field(crs: Seq<char>) -> Seq<char> {
    "geom := ST_AsMVTGeom(\n                    ST_Transform(geom, '"@ + crs
        + "', 'EPSG:3857', always_xy := true),\n                    ST_Extent(ST_TileEnvelope(?, ?, ?)),\n                    4096, 256, true\n                )"@
}

/// The separator between struct members.
pub open spec fn mvt_field_sep() -> Seq<char> {
    ",\n                "@
}

/// One property member: the quoted original name bound to the safe
/// normalized identifier.
pub open spec fn mvt_prop_field(c: ColumnMeta) -> Seq<char> {
    "\""@ + escape_quotes(c.original_name@) + "\" := \""@ + c.normalized_name@ + "\""@
}

/// All property members, each preceded by the separator, in order.
pub open spec fn mvt_prop_fields(columns: Seq<ColumnMeta>) -> Seq<char>
    decreases columns.len(),
{
    if columns.len() == 0 {
        Seq::empty()
    } else {
        mvt_prop_fields(columns.drop_last()) + mvt_field_sep() + mvt_prop_field(
            columns[columns.len() - 1],
        )
    }
}

/// The whole tile query: an `AsMVT` aggregation over a struct projection of
/// the transformed geometry, the feature id, and the property columns, with
/// the tile parameters bound twice — once in the MVT geometry projection
/// and once in the intersection predicate.
pub open spec fn spec_mvt_select_sql(
    columns: Seq<ColumnMeta>,
    table: Seq<char>,
    crs: Seq<char>,
) -> Seq<char> {
    "SELECT ST_AsMVT(feature, 'layer', 4096, 'geom', 'fid') FROM (\n            SELECT struct_pack(\n                "@
        + mvt_geom_field(crs) + mvt_field_sep() + "fid := fid"@ + mvt_prop_fields(columns)
        + "\n            ) as feature\n            FROM \""@ + table
        + "\"\n            WHERE ST_Intersects(\n                ST_Transform(geom, '"@ + crs
        + "', 'EPSG:3857', always_xy := true),\n                ST_TileEnvelope(?, ?, ?)\n            )\n        )"@
}

fn push_prop_field(out: &mut Vec<char>, c: &ColumnMeta)
    ensures
        final(out)@ == old(out)@ + mvt_prop_field(*c),
{
    push_str_chars(out, "\"");
    let orig = chars_vec(c.original_name.as_str());
    let esc = escape_quotes_vec(&orig);
    push_all(out, &esc);
    push_str_chars(out, "\" := \"");
    push_str_chars(out, c.normalized_name.as_str());
    push_str_chars(out, "\"");
}

/// Builds the MVT tile query for a table, its declared source CRS, and the
/// recorded property columns in ordinal order. The query's six positional
/// parameters are (z, x, y, z, x, y), both triples naming the same tile.
pub fn build_mvt_select_sql(columns: &Vec<ColumnMeta>, table_name: &str, source_crs: &str) -> (r:
    String)
    ensures
        r@ == spec_mvt_select_sql(columns@, table_name@, source_crs@),
{
    let mut out: Vec<char> = Vec::new();
    push_str_chars(
        &mut out,
        "SELECT ST_AsMVT(feature, 'layer', 4096, 'geom', 'fid') FROM (\n            SELECT struct_pack(\n                ",
    );
    push_str_chars(&mut out, "geom := ST_AsMVTGeom(\n                    ST_Transform(geom, '");
    push_str_chars(&mut out, source_crs);
    push_str_chars(
        &mut out,
        "', 'EPSG:3857', always_xy := true),\n                    ST_Extent(ST_TileEnvelope(?, ?, ?)),\n                    4096, 256, true\n                )",
    );
    push_str_chars(&mut out, ",\n                ");
    push_str_chars(&mut out, "fid := fid");
    let n: usize = columns.len();
    let mut i: usize = 0;
    while i < n
        invariant
            n == columns@.len(),
            i <= n,
            out@ == spec_mvt_prefix(columns@, table_name@, source_crs@) + mvt_prop_fields(
                columns@.subrange(0, i as int),
            ),
        decreases n - i,
    {
        push_str_chars(&mut out, ",\n                ");
        push_prop_field(&mut out, &columns[i]);
        i = i + 1;
        proof {
            let cur = columns@.subrange(0, i as int);
            assert(cur.drop_last() =~= columns@.subrange(0, i as int - 1));
            assert(cur[cur.len() - 1] == columns@[i as int - 1]);
        }
    }
    proof {
        assert(columns@.subrange(0, n as int) =~= columns@);
    }
    push_str_chars(&mut out, "\n            ) as feature\n            FROM \"");
    push_str_chars(&mut out, table_name);
    push_str_chars(
        &mut out,
        "\"\n            WHERE ST_Intersects(\n                ST_Transform(geom, '",
    );
    push_str_chars(&mut out, source_crs);
    push_str_chars(
        &mut out,
        "', 'EPSG:3857', always_xy := true),\n                ST_TileEnvelope(?, ?, ?)\n            )\n        )",
    );
    chars_to_string(&out)
}

/// The fixed head of the tile query before the property members.
pub open spec fn spec_mvt_prefix(
    columns: Seq<ColumnMeta>,
    table: Seq<char>,
    crs: Seq<char>,
) -> Seq<char> {
    "SELECT ST_AsMVT(feature, 'layer', 4096, 'geom', 'fid') FROM (\n            SELECT struct_pack(\n                "@
        + mvt_geom_field(crs) + mvt_field_sep() + "fid := fid"@
}

/// The property projection for one feature: the safe identifiers of the
/// recorded columns, in ordinal order, keyed by feature id.
pub open spec fn spec_feature_props_sql(columns: Seq<ColumnMeta>, table: Seq<char>) -> Seq<char> {
    "SELECT "@ + feature_prop_list(columns) + " FROM \""@ + table + "\" WHERE fid = ?"@
}

/// The comma-separated quoted normalized identifiers.
pub open spec fn feature_prop_list(columns: Seq<ColumnMeta>) -> Seq<char>
    decreases columns.len(),
{
    if columns.len() == 0 {
        Seq::empty()
    } else if columns.len() == 1 {
        "\""@ + columns[0].normalized_name@ + "\""@
    } else {
        feature_prop_list(columns.drop_last()) + ", \""@ + columns[columns.len()
            - 1].normalized_name@ + "\""@
    }
}

/// Builds the property lookup query for one feature of a dataset.
pub fn build_feature_properties_sql(columns: &Vec<ColumnMeta>, table_name: &str) -> (r: String)
    ensures
        r@ == spec_feature_props_sql(columns@, table_name@),
{
    let mut out: Vec<char> = Vec::new();
    push_str_chars(&mut out, "SELECT ");
    let n: usize = columns.len();
    let mut i: usize = 0;
    while i < n
        invariant
            n == columns@.len(),
            i <= n,
            out@ == "SELECT "@ + feature_prop_list(columns@.subrange(0, i as int)),
        decreases n - i,
    {
        if i > 0 {
            push_str_chars(&mut out, ", \"");
        } else {
            push_str_chars(&mut out, "\"");
        }
        push_str_chars(&mut out, columns[i].normalized_name.as_str());
        push_str_chars(&mut out, "\"");
        i = i + 1;
        proof {
            let cur = columns@.subrange(0, i as int);
            assert(cur.drop_last() =~= columns@.subrange(0, i as int - 1));
            assert(cur[cur.len() - 1] == columns@[i as int - 1]);
            if i == 1 {
                assert(out@ =~= "SELECT "@ + feature_prop_list(cur));
            } else {
                assert(out@ =~= "SELECT "@ + feature_prop_list(cur));
            }
        }
    }
    proof {
        assert(columns@.subrange(0, n as int) =~= columns@);
    }
    push_str_chars(&mut out, " FROM \"");
    push_str_chars(&mut out, table_name);
    push_str_chars(&mut out, "\" WHERE fid = ?");
    chars_to_string(&out)
}

/// The bytes served for a tile: the engine's blob when it returned one,
/// else the empty tile.
pub fn tile_response(blob: Option<Vec<u8>>) -> (r: Vec<u8>)
    ensures
        match blob {
            Some(b) => r@ == b@,
            None => r@.len() == 0,
        },
{
    match blob {
        Some(b) => b,
        None => Vec::new(),
    }
}

} // verus!
