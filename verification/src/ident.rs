//! The identifier normalizer: turns arbitrary column names into safe SQL
//! identifiers, or nothing when no identifier remains.

use vstd::prelude::*;
use crate::strutil::{
    chars_to_string, chars_vec, collapse_underscores, exec_is_alnum, exec_is_alpha,
    exec_lower_char, is_alnum_char, is_alpha_char, is_digit_char, is_lower_char, lower_char,
    push_all, trim_char, trim_ws, vec_collapse_underscores, vec_eq_chars, vec_trim_char,
    vec_trim_ws,
};

verus! {

/// A safe identifier: nonempty, starts with a lowercase letter or
/// underscore, and continues with lowercase letters, digits or underscores.
pub open spec fn is_safe_identifier(s: Seq<char>) -> bool {
    &&& s.len() > 0
    &&& (is_lower_char(s[0]) || s[0] == '_')
    &&& forall|i: int|
        0 <= i < s.len() ==> is_lower_char(#[trigger] s[i]) || is_digit_char(s[i]) || s[i] == '_'
}

/// The reserved words that a normalized identifier must avoid.
pub open spec fn is_reserved_word(s: Seq<char>) -> bool {
    ||| s == "select"@
    ||| s == "from"@
    ||| s == "where"@
    ||| s == "group"@
    ||| s == "order"@
    ||| s == "by"@
    ||| s == "limit"@
    ||| s == "offset"@
    ||| s == "join"@
    ||| s == "table"@
}

/// The `col_` prefix that rescues identifiers with a bad first character
/// or a reserved name.
pub open spec fn col_prefix() -> Seq<char> {
    seq!['c', 'o', 'l', '_']
}

/// One character of the normalizer's mapping pass: keep letters, digits and
/// underscores (lowercased), replace everything else with an underscore.
pub open spec fn safe_char(c: char) -> char {
    if is_alnum_char(c) || c == '_' {
        lower_char(c)
    } else {
        '_'
    }
}

/// The mapping pass over a whole name.
pub open spec fn map_safe(s: Seq<char>) -> Seq<char> {
    s.map_values(|c: char| safe_char(c))
}

/// Trim, lowercase and replace, collapse underscore runs, and trim
/// underscores: the core of the normalizer before the `col_` rules.
pub open spec fn normalize_core(s: Seq<char>) -> Seq<char> {
    trim_char(collapse_underscores(map_safe(trim_ws(s))), '_')
}

/// What the normalizer returns: the core result, rescued with `col_` when
/// it starts with a non-letter or equals a reserved word, or nothing when
/// the core is empty.
pub open spec fn spec_normalize(s: Seq<char>) -> Option<Seq<char>> {
    let core = normalize_core(s);
    if core.len() == 0 {
        None
    } else {
        let named = if is_alpha_char(core[0]) || core[0] == '_' {
            core
        } else {
            col_prefix() + core
        };
        if is_reserved_word(named) {
            Some(col_prefix() + named)
        } else {
            Some(named)
        }
    }
}

fn vec_map_safe(v: &Vec<char>) -> (r: Vec<char>)
    ensures
        r@ == map_safe(v@),
{
    let n: usize = v.len();
    let mut out: Vec<char> = Vec::new();
    let mut i: usize = 0;
    while i < n
        invariant
            n == v@.len(),
            i <= n,
            out@ == map_safe(v@.subrange(0, i as int)),
        decreases n - i,
    {
        let c = v[i];
        if exec_is_alnum(c) || c == '_' {
            out.push(exec_lower_char(c));
        } else {
            out.push('_');
        }
        i = i + 1;
        proof {
            assert(out@ =~= map_safe(v@.subrange(0, i as int)));
        }
    }
    proof {
        assert(v@.subrange(0, n as int) =~= v@);
    }
    out
}

fn exec_col_prefix() -> (r: Vec<char>)
    ensures
        r@ == col_prefix(),
{
    let mut out: Vec<char> = Vec::new();
    out.push('c');
    out.push('o');
    out.push('l');
    out.push('_');
    proof {
        assert(out@ =~= col_prefix());
    }
    out
}

pub fn vec_is_reserved_word(v: &Vec<char>) -> (r: bool)
    ensures
        r == is_reserved_word(v@),
{
    let w0 = chars_vec("select");
    let w1 = chars_vec("from");
    let w2 = chars_vec("where");
    let w3 = chars_vec("group");
    let w4 = chars_vec("order");
    let w5 = chars_vec("by");
    let w6 = chars_vec("limit");
    let w7 = chars_vec("offset");
    let w8 = chars_vec("join");
    let w9 = chars_vec("table");
    vec_eq_chars(v, &w0) || vec_eq_chars(v, &w1) || vec_eq_chars(v, &w2) || vec_eq_chars(v, &w3)
        || vec_eq_chars(v, &w4) || vec_eq_chars(v, &w5) || vec_eq_chars(v, &w6) || vec_eq_chars(
        v,
        &w7,
    ) || vec_eq_chars(v, &w8) || vec_eq_chars(v, &w9)
}

/// Normalizes a raw column name into a safe identifier.
///
/// Trims whitespace; lowercases letters and replaces every character
/// outside `[a-z0-9_]` with an underscore; collapses runs of underscores;
/// trims underscores; returns nothing when nothing remains; prefixes
/// `col_` when the first character is not a letter or underscore, or when
/// the result is a reserved word. A returned identifier is always safe and
/// never reserved.
pub fn normalize_column_name(name: &str) -> (r: Option<String>)
    ensures
        match r {
            Some(t) => spec_normalize(name@) == Some(t@) && is_safe_identifier(t@)
                && !is_reserved_word(t@),
            None => spec_normalize(name@) is None,
        },
{
    let raw = chars_vec(name);
    let trimmed = vec_trim_ws(&raw);
    let mapped = vec_map_safe(&trimmed);
    let collapsed = vec_collapse_underscores(&mapped);
    let core = vec_trim_char(&collapsed, '_');
    if core.len() == 0 {
        return None;
    }
    let first = core[0];
    let named = if exec_is_alpha(first) || first == '_' {
        core
    } else {
        let mut p = exec_col_prefix();
        push_all(&mut p, &core);
        p
    };
    let full = if vec_is_reserved_word(&named) {
        let mut p = exec_col_prefix();
        push_all(&mut p, &named);
        p
    } else {
        named
    };
    proof {
        lemma_normalize_result_safe(name@);
    }
    Some(chars_to_string(&full))
}

/// All characters are lowercase letters, digits or underscores.
pub open spec fn all_safe_chars(s: Seq<char>) -> bool {
    forall|i: int|
        0 <= i < s.len() ==> is_lower_char(#[trigger] s[i]) || is_digit_char(s[i]) || s[i] == '_'
}

/// No two adjacent underscores.
pub open spec fn no_double_underscore(s: Seq<char>) -> bool {
    forall|i: int| 0 < i < s.len() ==> !(#[trigger] s[i] == '_' && s[i - 1] == '_')
}

proof fn lemma_map_safe_all_safe(s: Seq<char>)
    ensures
        all_safe_chars(map_safe(s)),
{
    assert forall|i: int| 0 <= i < map_safe(s).len() implies is_lower_char(
        #[trigger] map_safe(s)[i],
    ) || is_digit_char(map_safe(s)[i]) || map_safe(s)[i] == '_' by {
        assert(map_safe(s)[i] == safe_char(s[i]));
    }
}

proof fn lemma_all_safe_drop_first(s: Seq<char>)
    requires
        all_safe_chars(s),
        s.len() > 0,
    ensures
        all_safe_chars(s.drop_first()),
{
    assert forall|i: int| 0 <= i < s.drop_first().len() implies is_lower_char(
        #[trigger] s.drop_first()[i],
    ) || is_digit_char(s.drop_first()[i]) || s.drop_first()[i] == '_' by {
        assert(s.drop_first()[i] == s[i + 1]);
    }
}

proof fn lemma_all_safe_drop_last(s: Seq<char>)
    requires
        all_safe_chars(s),
        s.len() > 0,
    ensures
        all_safe_chars(s.drop_last()),
{
    assert forall|i: int| 0 <= i < s.drop_last().len() implies is_lower_char(
        #[trigger] s.drop_last()[i],
    ) || is_digit_char(s.drop_last()[i]) || s.drop_last()[i] == '_' by {
        assert(s.drop_last()[i] == s[i]);
    }
}

proof fn lemma_collapse_all_safe(s: Seq<char>, prev: bool)
    requires
        all_safe_chars(s),
    ensures
        all_safe_chars(crate::strutil::collapse_rec(s, prev)),
    decreases s.len(),
{
    if s.len() > 0 {
        lemma_all_safe_drop_first(s);
        lemma_collapse_all_safe(s.drop_first(), s[0] == '_');
        let out = crate::strutil::collapse_rec(s, prev);
        let rest = crate::strutil::collapse_rec(s.drop_first(), s[0] == '_');
        assert forall|i: int| 0 <= i < out.len() implies is_lower_char(#[trigger] out[i])
            || is_digit_char(out[i]) || out[i] == '_' by {
            if s[0] == '_' && prev {
                assert(out[i] == rest[i]);
            } else if i == 0 {
                assert(out[0] == s[0]);
            } else {
                assert(out[i] == rest[i - 1]);
            }
        }
    }
}

proof fn lemma_trim_char_all_safe(s: Seq<char>, t: char)
    requires
        all_safe_chars(s),
    ensures
        all_safe_chars(trim_char(s, t)),
    decreases s.len(),
{
    if s.len() > 0 && s[0] == t {
        lemma_all_safe_drop_first(s);
        lemma_trim_char_all_safe(s.drop_first(), t);
    } else if s.len() > 0 && s[s.len() - 1] == t {
        lemma_all_safe_drop_last(s);
        lemma_trim_char_all_safe(s.drop_last(), t);
    }
}

/// The ends of a trimmed sequence never hold the trimmed character.
proof fn lemma_trim_char_ends(s: Seq<char>, t: char)
    ensures
        trim_char(s, t).len() > 0 ==> trim_char(s, t)[0] != t && trim_char(s, t)[trim_char(
            s,
            t,
        ).len() - 1] != t,
    decreases s.len(),
{
    if s.len() > 0 && s[0] == t {
        lemma_trim_char_ends(s.drop_first(), t);
    } else if s.len() > 0 && s[s.len() - 1] == t {
        lemma_trim_char_ends(s.drop_last(), t);
    }
}

proof fn lemma_collapse_no_doubles(s: Seq<char>, prev: bool)
    ensures
        no_double_underscore(crate::strutil::collapse_rec(s, prev)),
        prev && crate::strutil::collapse_rec(s, prev).len() > 0 ==> crate::strutil::collapse_rec(
            s,
            prev,
        )[0] != '_',
    decreases s.len(),
{
    if s.len() > 0 {
        lemma_collapse_no_doubles(s.drop_first(), s[0] == '_');
        let out = crate::strutil::collapse_rec(s, prev);
        let rest = crate::strutil::collapse_rec(s.drop_first(), s[0] == '_');
        if s[0] == '_' && prev {
        } else {
            assert(out == seq![s[0]] + rest);
            assert forall|i: int| 0 < i < out.len() implies !(#[trigger] out[i] == '_' && out[i
                - 1] == '_') by {
                if i == 1 {
                    if s[0] == '_' {
                        assert(out[1] == rest[0]);
                    }
                } else {
                    assert(out[i] == rest[i - 1]);
                    assert(out[i - 1] == rest[i - 2]);
                    assert(!(rest[i - 1] == '_' && rest[i - 2] == '_'));
                }
            }
        }
    }
}

proof fn lemma_no_doubles_drop_first(s: Seq<char>)
    requires
        no_double_underscore(s),
        s.len() > 0,
    ensures
        no_double_underscore(s.drop_first()),
{
    assert forall|i: int| 0 < i < s.drop_first().len() implies !(#[trigger] s.drop_first()[i]
        == '_' && s.drop_first()[i - 1] == '_') by {
        assert(s.drop_first()[i] == s[i + 1]);
        assert(s.drop_first()[i - 1] == s[i]);
        assert(!(s[i + 1] == '_' && s[i] == '_'));
    }
}

proof fn lemma_no_doubles_drop_last(s: Seq<char>)
    requires
        no_double_underscore(s),
        s.len() > 0,
    ensures
        no_double_underscore(s.drop_last()),
{
    assert forall|i: int| 0 < i < s.drop_last().len() implies !(#[trigger] s.drop_last()[i] == '_'
        && s.drop_last()[i - 1] == '_') by {
        assert(s.drop_last()[i] == s[i]);
        assert(s.drop_last()[i - 1] == s[i - 1]);
    }
}

proof fn lemma_trim_char_no_doubles(s: Seq<char>, t: char)
    requires
        no_double_underscore(s),
    ensures
        no_double_underscore(trim_char(s, t)),
    decreases s.len(),
{
    if s.len() > 0 && s[0] == t {
        lemma_no_doubles_drop_first(s);
        lemma_trim_char_no_doubles(s.drop_first(), t);
    } else if s.len() > 0 && s[s.len() - 1] == t {
        lemma_no_doubles_drop_last(s);
        lemma_trim_char_no_doubles(s.drop_last(), t);
    }
}

/// What the normalizer hands back is a safe identifier outside the
/// reserved words.
proof fn lemma_normalize_result_safe(s: Seq<char>)
    ensures
        spec_normalize(s) matches Some(t) ==> is_safe_identifier(t) && !is_reserved_word(t),
{
    let core = normalize_core(s);
    if core.len() > 0 {
        let mapped = map_safe(trim_ws(s));
        let collapsed = collapse_underscores(mapped);
        lemma_map_safe_all_safe(trim_ws(s));
        lemma_collapse_all_safe(mapped, false);
        lemma_trim_char_all_safe(collapsed, '_');
        assert(all_safe_chars(core));
        let named = if is_alpha_char(core[0]) || core[0] == '_' {
            core
        } else {
            col_prefix() + core
        };
        assert(is_safe_identifier(named)) by {
            if is_alpha_char(core[0]) || core[0] == '_' {
                assert(named[0] == core[0]);
                if is_alpha_char(core[0]) {
                    assert(is_lower_char(core[0]) || is_digit_char(core[0]) || core[0] == '_');
                    assert(is_lower_char(core[0]));
                }
            } else {
                assert(named[0] == 'c');
                assert forall|i: int| 0 <= i < named.len() implies is_lower_char(
                    #[trigger] named[i],
                ) || is_digit_char(named[i]) || named[i] == '_' by {
                    if i >= 4 {
                        assert(named[i] == core[i - 4]);
                    } else {
                        assert(named[i] == col_prefix()[i]);
                    }
                }
            }
        }
        if is_reserved_word(named) {
            let full = col_prefix() + named;
            assert(is_safe_identifier(full)) by {
                assert(full[0] == 'c');
                assert forall|i: int| 0 <= i < full.len() implies is_lower_char(#[trigger] full[i])
                    || is_digit_char(full[i]) || full[i] == '_' by {
                    if i >= 4 {
                        assert(full[i] == named[i - 4]);
                    } else {
                        assert(full[i] == col_prefix()[i]);
                    }
                }
            }
            assert(!is_reserved_word(full)) by {
                assert(full[3] == '_');
                lemma_reserved_words_lack_col_prefix(full);
            }
        }
    }
}

/// No reserved word has an underscore as its fourth character.
pub proof fn lemma_reserved_words_lack_col_prefix(s: Seq<char>)
    requires
        s.len() >= 4,
        s[3] == '_',
    ensures
        !is_reserved_word(s),
{
    reveal_strlit("select");
    reveal_strlit("from");
    reveal_strlit("where");
    reveal_strlit("group");
    reveal_strlit("order");
    reveal_strlit("by");
    reveal_strlit("limit");
    reveal_strlit("offset");
    reveal_strlit("join");
    reveal_strlit("table");
}

/// Normalizing is idempotent: what the normalizer returns, it returns
/// unchanged when normalized again.
pub proof fn lemma_normalize_idempotent(s: Seq<char>)
    ensures
        spec_normalize(s) matches Some(t) ==> spec_normalize(t) == Some(t),
{
    match spec_normalize(s) {
        Some(t) => {
            lemma_normalize_result_safe(s);
            lemma_normalize_fixpoint_on_safe(s, t);
        },
        None => {},
    }
}

/// On a sequence with no whitespace, trimming does nothing.
proof fn lemma_trim_ws_noop(s: Seq<char>)
    requires
        forall|i: int| 0 <= i < s.len() ==> !crate::strutil::is_ws_char(#[trigger] s[i]),
    ensures
        trim_ws(s) == s,
{
}

/// On a sequence of safe characters, the mapping pass does nothing.
proof fn lemma_map_safe_noop(s: Seq<char>)
    requires
        all_safe_chars(s),
    ensures
        map_safe(s) == s,
{
    assert forall|i: int| 0 <= i < s.len() implies map_safe(s)[i] == s[i] by {
        assert(map_safe(s)[i] == safe_char(s[i]));
        assert(is_lower_char(s[i]) || is_digit_char(s[i]) || s[i] == '_');
    }
    assert(map_safe(s) =~= s);
}

/// On a sequence with no doubled underscores, collapsing does nothing.
proof fn lemma_collapse_noop(s: Seq<char>, prev: bool)
    requires
        no_double_underscore(s),
        prev && s.len() > 0 ==> s[0] != '_',
    ensures
        crate::strutil::collapse_rec(s, prev) == s,
    decreases s.len(),
{
    if s.len() > 0 {
        lemma_no_doubles_drop_first(s);
        if s.len() > 1 && s[0] == '_' {
            assert(s.drop_first()[0] == s[1]);
            assert(!(s[1] == '_' && s[0] == '_'));
        }
        lemma_collapse_noop(s.drop_first(), s[0] == '_');
        assert(crate::strutil::collapse_rec(s, prev) =~= s);
    }
}

/// On a sequence whose ends are not `t`, trimming `t` does nothing.
proof fn lemma_trim_char_noop(s: Seq<char>, t: char)
    requires
        s.len() > 0 ==> s[0] != t && s[s.len() - 1] != t,
    ensures
        trim_char(s, t) == s,
{
}

/// The fixpoint argument behind idempotence.
#[verifier::rlimit(80)]
proof fn lemma_normalize_fixpoint_on_safe(s: Seq<char>, t: Seq<char>)
    requires
        spec_normalize(s) == Some(t),
        is_safe_identifier(t),
        !is_reserved_word(t),
    ensures
        spec_normalize(t) == Some(t),
{
    let core = normalize_core(s);
    assert(core.len() > 0);
    let mapped = map_safe(trim_ws(s));
    let collapsed = collapse_underscores(mapped);
    lemma_collapse_no_doubles(mapped, false);
    lemma_trim_char_no_doubles(collapsed, '_');
    lemma_trim_char_ends(collapsed, '_');
    assert(no_double_underscore(core));
    assert(core[0] != '_' && core[core.len() - 1] != '_');
    let named = if is_alpha_char(core[0]) || core[0] == '_' {
        core
    } else {
        col_prefix() + core
    };
    assert(t == named || t == col_prefix() + named);
    // No whitespace anywhere in t: safe characters are not whitespace.
    assert(forall|i: int| 0 <= i < t.len() ==> !crate::strutil::is_ws_char(#[trigger] t[i])) by {
        assert forall|i: int| 0 <= i < t.len() implies !crate::strutil::is_ws_char(
            #[trigger] t[i],
        ) by {
            assert(is_lower_char(t[i]) || is_digit_char(t[i]) || t[i] == '_');
        }
    }
    lemma_trim_ws_noop(t);
    lemma_map_safe_noop(t);
    // t has no doubled underscores: core has none, its ends are clean, and a
    // col_ prefix joins onto a character that is not an underscore.
    assert(no_double_underscore(named)) by {
        if named == core {
        } else {
            assert(named == col_prefix() + core);
            assert forall|i: int| 0 < i < named.len() implies !(#[trigger] named[i] == '_'
                && named[i - 1] == '_') by {
                if i < 4 {
                    assert(named[i] == col_prefix()[i]);
                    assert(named[i - 1] == col_prefix()[i - 1]);
                } else if i == 4 {
                    assert(named[4] == core[0]);
                } else {
                    assert(named[i] == core[i - 4]);
                    assert(named[i - 1] == core[i - 5]);
                    assert(!(core[i - 4] == '_' && core[i - 5] == '_'));
                }
            }
        }
    }
    assert(named.len() > 0 && named[0] != '_' && named[named.len() - 1] != '_') by {
        if named == core {
        } else {
            assert(named[0] == 'c');
            assert(named[named.len() - 1] == core[core.len() - 1]);
        }
    }
    assert(no_double_underscore(t)) by {
        if t == named {
        } else {
            assert(t == col_prefix() + named);
            assert forall|i: int| 0 < i < t.len() implies !(#[trigger] t[i] == '_' && t[i - 1]
                == '_') by {
                if i < 4 {
                    assert(t[i] == col_prefix()[i]);
                    assert(t[i - 1] == col_prefix()[i - 1]);
                } else if i == 4 {
                    assert(t[4] == named[0]);
                } else {
                    assert(t[i] == named[i - 4]);
                    assert(t[i - 1] == named[i - 5]);
                    assert(!(named[i - 4] == '_' && named[i - 5] == '_'));
                }
            }
        }
    }
    assert(t.len() > 0 && t[0] != '_' && t[t.len() - 1] != '_') by {
        if t == named {
        } else {
            assert(t[0] == col_prefix()[0]);
            assert(t[t.len() - 1] == named[named.len() - 1]);
        }
    }
    lemma_collapse_noop(t, false);
    lemma_trim_char_noop(t, '_');
    assert(normalize_core(t) == t);
    assert(is_lower_char(t[0]));
}

} // verus!
