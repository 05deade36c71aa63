//! Slug rules and publication conflict classification.

use vstd::prelude::*;
use vstd::string::StringExecFns;
use crate::strutil::{
    chars_to_string, chars_vec, exec_is_alnum, is_alnum_char, seq_contains_seq, trim_ws,
    vec_contains, vec_trim_ws,
};

verus! {

/// Longest slug the registry accepts, in characters.
pub const SLUG_MAX_LENGTH: usize = 100;

/// Characters allowed in a slug: ASCII letters, digits, hyphen, underscore.
pub open spec fn is_slug_char(c: char) -> bool {
    is_alnum_char(c) || c == '-' || c == '_'
}

pub open spec fn all_slug_chars(s: Seq<char>) -> bool {
    forall|i: int| 0 <= i < s.len() ==> is_slug_char(#[trigger] s[i])
}

/// The verdict of the slug rules on the trimmed candidate.
pub open spec fn spec_validate_slug(s: Seq<char>) -> Result<Seq<char>, Seq<char>> {
    let t = trim_ws(s);
    if t.len() == 0 {
        Err("Slug cannot be empty"@)
    } else if t.len() > SLUG_MAX_LENGTH {
        Err("Slug must be 100 characters or less"@)
    } else if !all_slug_chars(t) {
        Err("Slug can only contain letters, numbers, hyphens, and underscores"@)
    } else {
        Ok(t)
    }
}

/// Checks the slug rules: trim; reject empty, over-long, or any character
/// outside letters, digits, hyphens and underscores; return the trimmed
/// slug.
pub fn validate_slug(slug: &str) -> (r: Result<String, String>)
    ensures
        match r {
            Ok(o) => spec_validate_slug(slug@) == Ok::<Seq<char>, Seq<char>>(o@),
            Err(e) => spec_validate_slug(slug@) == Err::<Seq<char>, Seq<char>>(e@),
        },
{
    let raw = chars_vec(slug);
    let t = vec_trim_ws(&raw);
    let n: usize = t.len();
    if n == 0 {
        return Err("Slug cannot be empty".to_owned());
    }
    if n > SLUG_MAX_LENGTH {
        return Err("Slug must be 100 characters or less".to_owned());
    }
    let mut i: usize = 0;
    while i < n
        invariant
            t@ == trim_ws(slug@),
            n == t@.len(),
            0 < n <= SLUG_MAX_LENGTH,
            i <= n,
            forall|j: int| 0 <= j < i ==> is_slug_char(#[trigger] t@[j]),
        decreases n - i,
    {
        let c = t[i];
        if !(exec_is_alnum(c) || c == '-' || c == '_') {
            proof {
                assert(!is_slug_char(trim_ws(slug@)[i as int]));
                assert(!all_slug_chars(trim_ws(slug@)));
            }
            return Err(
                "Slug can only contain letters, numbers, hyphens, and underscores".to_owned(),
            );
        }
        i = i + 1;
    }
    Ok(chars_to_string(&t))
}

/// How a failed registry insert is classified from the engine's error text.
pub enum PublishConflict {
    /// The file already holds a registration: a primary-key collision.
    AlreadyPublished,
    /// The requested slug is registered to another file: a unique collision.
    SlugTaken,
    /// Anything else; the text is surfaced unchanged.
    Other,
}

/// The classification rule over the error text: a primary-key collision on
/// the file means "already published"; a uniqueness collision on the slug
/// means "slug taken".
pub open spec fn spec_classify_conflict(s: Seq<char>) -> PublishConflict {
    if seq_contains_seq(s, "PRIMARY KEY"@) || (seq_contains_seq(s, "Constraint Error"@)
        && seq_contains_seq(s, "file_id"@)) {
        PublishConflict::AlreadyPublished
    } else if seq_contains_seq(s, "UNIQUE"@) || (seq_contains_seq(s, "slug"@)
        && seq_contains_seq(s, "unique"@)) {
        PublishConflict::SlugTaken
    } else {
        PublishConflict::Other
    }
}

/// Classifies a constraint violation reported by the SQL engine during a
/// publish insert. The engine's error string is parsed in this one place.
pub fn classify_publish_conflict(err_msg: &str) -> (r: PublishConflict)
    ensures
        r == spec_classify_conflict(err_msg@),
{
    let msg = chars_vec(err_msg);
    let pk = chars_vec("PRIMARY KEY");
    let ce = chars_vec("Constraint Error");
    let fid = chars_vec("file_id");
    let uq = chars_vec("UNIQUE");
    let sl = chars_vec("slug");
    let lu = chars_vec("unique");
    if vec_contains(&msg, &pk) || (vec_contains(&msg, &ce) && vec_contains(&msg, &fid)) {
        PublishConflict::AlreadyPublished
    } else if vec_contains(&msg, &uq) || (vec_contains(&msg, &sl) && vec_contains(&msg, &lu)) {
        PublishConflict::SlugTaken
    } else {
        PublishConflict::Other
    }
}

/// The public tile URL template for a slug.
pub fn publish_url(slug: &str) -> (r: String)
    ensures
        r@ == "/tiles/"@ + slug@ + "/{z}/{x}/{y}"@,
{
    "/tiles/".to_owned().concat(slug).concat("/{z}/{x}/{y}")
}

} // verus!
