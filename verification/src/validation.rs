//! Pre-ingest validators: shapefile archive completeness and GeoJSON
//! structure.

use vstd::prelude::*;
use crate::strutil::{
    after_last, chars_vec, lower_seq, push_all, seq_ends_with, vec_after_last, vec_ends_with,
    vec_eq_chars, vec_to_lower,
};

verus! {

/// Whether the entry list holds exactly this name.
pub open spec fn entries_contain(entries: Seq<Seq<char>>, name: Seq<char>) -> bool {
    exists|i: int| 0 <= i < entries.len() && #[trigger] entries[i] == name
}

/// Whether some entry ends in `.shp`.
pub open spec fn entries_have_shp(entries: Seq<Seq<char>>) -> bool {
    exists|i: int| 0 <= i < entries.len() && seq_ends_with(#[trigger] entries[i], ".shp"@)
}

/// The stem of a `.shp` entry.
pub open spec fn shp_base(e: Seq<char>) -> Seq<char> {
    e.take(e.len() - 4)
}

/// Whether some `.shp` entry has both its `.shx` and `.dbf` companions
/// under the same stem.
pub open spec fn entries_have_complete_set(entries: Seq<Seq<char>>) -> bool {
    exists|i: int|
        0 <= i < entries.len() && seq_ends_with(#[trigger] entries[i], ".shp"@)
            && entries_contain(entries, shp_base(entries[i]) + ".shx"@) && entries_contain(
            entries,
            shp_base(entries[i]) + ".dbf"@,
        )
}

fn entries_contain_exec(entries: &Vec<Vec<char>>, name: &Vec<char>) -> (r: bool)
    ensures
        r == entries_contain(entries@.map_values(|v: Vec<char>| v@), name@),
{
    let ghost views = entries@.map_values(|v: Vec<char>| v@);
    let n: usize = entries.len();
    let mut i: usize = 0;
    while i < n
        invariant
            n == entries@.len(),
            views == entries@.map_values(|v: Vec<char>| v@),
            i <= n,
            forall|j: int| 0 <= j < i ==> #[trigger] views[j] != name@,
        decreases n - i,
    {
        if vec_eq_chars(&entries[i], name) {
            proof {
                assert(views[i as int] == name@);
            }
            return true;
        }
        i = i + 1;
    }
    false
}

/// Checks a shapefile archive's entry list (lowercased file-name leaves):
/// at least one `.shp` entry must exist, and at least one `.shp` entry
/// must have `.shx` and `.dbf` companions with the same stem.
#[verifier::rlimit(60)]
pub fn validate_shapefile_entries(entries: &Vec<Vec<char>>) -> (r: Result<(), String>)
    ensures
        ({
            let views = entries@.map_values(|v: Vec<char>| v@);
            match r {
                Ok(()) => entries_have_shp(views) && entries_have_complete_set(views),
                Err(e) => if !entries_have_shp(views) {
                    e@ == "Missing .shp file in zip"@
                } else {
                    e@ == "Shapefile zip must include .shp/.shx/.dbf with the same name"@
                        && !entries_have_complete_set(views)
                },
            }
        }),
{
    let ghost views = entries@.map_values(|v: Vec<char>| v@);
    proof {
        reveal_strlit(".shp");
        reveal_strlit(".shx");
        reveal_strlit(".dbf");
    }
    let shp_suffix = chars_vec(".shp");
    let shx_suffix = chars_vec(".shx");
    let dbf_suffix = chars_vec(".dbf");
    let n: usize = entries.len();
    let mut found_shp = false;
    let mut i: usize = 0;
    while i < n
        invariant
            n == entries@.len(),
            views == entries@.map_values(|v: Vec<char>| v@),
            shp_suffix@ == ".shp"@,
            i <= n,
            found_shp == exists|j: int|
                0 <= j < i && seq_ends_with(#[trigger] views[j], ".shp"@),
        decreases n - i,
    {
        if vec_ends_with(&entries[i], &shp_suffix) {
            proof {
                assert(seq_ends_with(views[i as int], ".shp"@));
            }
            found_shp = true;
        }
        i = i + 1;
    }
    if !found_shp {
        return Err("Missing .shp file in zip".to_owned());
    }
    let mut i: usize = 0;
    while i < n
        invariant
            n == entries@.len(),
            views == entries@.map_values(|v: Vec<char>| v@),
            shp_suffix@ == ".shp"@,
            shx_suffix@ == ".shx"@,
            dbf_suffix@ == ".dbf"@,
            ".shp"@.len() == 4,
            i <= n,
            forall|j: int|
                0 <= j < i && seq_ends_with(#[trigger] views[j], ".shp"@) ==> !(entries_contain(
                    views,
                    shp_base(views[j]) + ".shx"@,
                ) && entries_contain(views, shp_base(views[j]) + ".dbf"@)),
        decreases n - i,
    {
        if vec_ends_with(&entries[i], &shp_suffix) {
            proof {
                assert(seq_ends_with(entries@[i as int]@, ".shp"@));
            }
            let en: usize = entries[i].len();
            let ghost ii = i as int;
            let mut base: Vec<char> = Vec::new();
            let mut b: usize = 0;
            while b < en - 4
                invariant
                    i < n,
                    n == entries@.len(),
                    ii == i as int,
                    en == entries@[ii]@.len(),
                    en >= 4,
                    b <= en - 4,
                    base@ == entries@[ii]@.subrange(0, b as int),
                decreases en - 4 - b,
            {
                base.push(entries[i][b]);
                b = b + 1;
                proof {
                    assert(base@ =~= entries@[ii]@.subrange(0, b as int));
                }
            }
            proof {
                assert(views[i as int] == entries@[i as int]@);
                assert(base@ =~= shp_base(views[i as int]));
            }
            let mut shx_name: Vec<char> = Vec::new();
            push_all(&mut shx_name, &base);
            push_all(&mut shx_name, &shx_suffix);
            let mut dbf_name: Vec<char> = Vec::new();
            push_all(&mut dbf_name, &base);
            push_all(&mut dbf_name, &dbf_suffix);
            let has_shx = entries_contain_exec(entries, &shx_name);
            let has_dbf = entries_contain_exec(entries, &dbf_name);
            if has_shx && has_dbf {
                proof {
                    assert(seq_ends_with(views[i as int], ".shp"@));
                    assert(shx_name@ == shp_base(views[i as int]) + ".shx"@);
                    assert(dbf_name@ == shp_base(views[i as int]) + ".dbf"@);
                }
                return Ok(());
            }
        }
        i = i + 1;
        proof {
            assert forall|j: int|
                0 <= j < i && seq_ends_with(#[trigger] views[j], ".shp"@) implies !(
            entries_contain(views, shp_base(views[j]) + ".shx"@) && entries_contain(
                views,
                shp_base(views[j]) + ".dbf"@,
            )) by {}
        }
    }
    proof {
        assert(!entries_have_complete_set(views));
    }
    Err("Shapefile zip must include .shp/.shx/.dbf with the same name".to_owned())
}

/// What the zip reader finds in an archive's bytes: the entry names in
/// central-directory order, or nothing when the bytes are not a readable
/// archive. A function of the bytes alone.
pub uninterp spec fn zip_entries(bytes: Seq<u8>) -> Option<Seq<Seq<char>>>;

/// Relies on zip's ZipArchive: reading an archive over the given bytes
/// either fails or yields its entry names in central-directory order.
#[verifier::external_body]
fn zip_entry_names(bytes: &Vec<u8>) -> (r: Result<Vec<String>, ()>)
    ensures
        match r {
            Ok(v) => zip_entries(bytes@) matches Some(names) && v@.len() == names.len() && forall|
                i: int,
            | 0 <= i < names.len() ==> #[trigger] v@[i]@ == names[i],
            Err(()) => zip_entries(bytes@) is None,
        },
{
    match zip::read::ZipArchive::new(std::io::Cursor::new(bytes.as_slice())) {
        Ok(archive) => Ok(archive.file_names().map(|s| s.to_string()).collect()),
        Err(_) => Err(()),
    }
}

/// The lowercased file-name leaves of an entry list: directory entries
/// (ending in a slash) and entries with an empty leaf are dropped; of the
/// rest, the part after the last slash is kept, lowercased.
pub open spec fn leaf_names(names: Seq<Seq<char>>) -> Seq<Seq<char>>
    decreases names.len(),
{
    if names.len() == 0 {
        Seq::empty()
    } else {
        let rest = leaf_names(names.drop_last());
        let e = names[names.len() - 1];
        if seq_ends_with(e, "/"@) || after_last(e, '/').len() == 0 {
            rest
        } else {
            rest + seq![lower_seq(after_last(e, '/'))]
        }
    }
}

fn leaf_names_exec(names: &Vec<String>) -> (r: Vec<Vec<char>>)
    ensures
        r@.map_values(|v: Vec<char>| v@) == leaf_names(names@.map_values(|s: String| s@)),
{
    let ghost views = names@.map_values(|s: String| s@);
    let slash = chars_vec("/");
    let n: usize = names.len();
    let mut out: Vec<Vec<char>> = Vec::new();
    let mut i: usize = 0;
    while i < n
        invariant
            n == names@.len(),
            views == names@.map_values(|s: String| s@),
            slash@ == "/"@,
            i <= n,
            out@.map_values(|v: Vec<char>| v@) == leaf_names(views.subrange(0, i as int)),
        decreases n - i,
    {
        let e = chars_vec(names[i].as_str());
        proof {
            let cur = views.subrange(0, i as int + 1);
            assert(cur.drop_last() =~= views.subrange(0, i as int));
            assert(cur[cur.len() - 1] == views[i as int]);
            assert(e@ == views[i as int]);
        }
        if !vec_ends_with(&e, &slash) {
            let leaf = vec_after_last(&e, '/');
            if leaf.len() > 0 {
                let lowered = vec_to_lower(&leaf);
                out.push(lowered);
                proof {
                    assert(out@.map_values(|v: Vec<char>| v@) =~= leaf_names(
                        views.subrange(0, i as int + 1),
                    ));
                }
            } else {
                proof {
                    assert(out@.map_values(|v: Vec<char>| v@) =~= leaf_names(
                        views.subrange(0, i as int + 1),
                    ));
                }
            }
        } else {
            proof {
                assert(out@.map_values(|v: Vec<char>| v@) =~= leaf_names(
                    views.subrange(0, i as int + 1),
                ));
            }
        }
        i = i + 1;
    }
    proof {
        assert(views.subrange(0, n as int) =~= views);
    }
    out
}

/// Validates a shapefile archive from its bytes: the archive must be
/// readable, hold a `.shp` entry, and hold `.shx` and `.dbf` companions
/// under some `.shp` stem (file-name leaves compared lowercased).
pub fn validate_shapefile_zip(bytes: &Vec<u8>) -> (r: Result<(), String>)
    ensures
        ({
            match zip_entries(bytes@) {
                None => r matches Err(e) && e@ == "Unable to read zip file"@,
                Some(names) => {
                    let views = leaf_names(names);
                    match r {
                        Ok(()) => entries_have_shp(views) && entries_have_complete_set(views),
                        Err(e) => if !entries_have_shp(views) {
                            e@ == "Missing .shp file in zip"@
                        } else {
                            e@ == "Shapefile zip must include .shp/.shx/.dbf with the same name"@
                                && !entries_have_complete_set(views)
                        },
                    }
                },
            }
        }),
{
    let names = match zip_entry_names(bytes) {
        Ok(v) => v,
        Err(()) => {
            return Err("Unable to read zip file".to_owned());
        },
    };
    let entries = leaf_names_exec(&names);
    proof {
        let raw = names@.map_values(|s: String| s@);
        match zip_entries(bytes@) {
            Some(got) => {
                assert(raw =~= got);
            },
            None => {},
        }
    }
    validate_shapefile_entries(&entries)
}

/// What the JSON parser decides about a text: nothing when the text is not
/// valid JSON, else whether the root value is an object. A function of the
/// text alone.
pub uninterp spec fn json_root_object(s: Seq<char>) -> Option<bool>;

/// Relies on serde_json::from_str::<Value> and Value::is_object: parsing
/// either fails, or yields a root value that is or is not a JSON object.
#[verifier::external_body]
fn json_root_is_object(text: &str) -> (r: Option<bool>)
    ensures
        r == json_root_object(text@),
{
    match serde_json::from_str::<serde_json::Value>(text) {
        Ok(v) => Some(v.is_object()),
        Err(_) => None,
    }
}

/// Validates a GeoJSON document's text: it must parse as JSON and its
/// root must be an object; deeper structure is left to the spatial driver.
pub fn validate_geojson(text: &str) -> (r: Result<(), String>)
    ensures
        match r {
            Ok(()) => json_root_object(text@) == Some(true),
            Err(e) => json_root_object(text@) != Some(true) && e@ == "Invalid GeoJSON"@,
        },
{
    match json_root_is_object(text) {
        Some(true) => Ok(()),
        _ => Err("Invalid GeoJSON".to_owned()),
    }
}

} // verus!
