//! The spatial extension loader: candidate paths for a bundled extension
//! file, the LOAD statement, and the install retry machine.

use vstd::prelude::*;
use crate::strutil::{
    chars_to_string, chars_vec, push_all, push_str_chars, trim_ws, vec_trim_ws,
};
use crate::catalog::col_list_has;

verus! {

/// How many install attempts the loader makes before giving up.
pub const SPATIAL_INSTALL_MAX_ATTEMPTS: u8 = 5;

/// Base of the backoff between install attempts, in milliseconds.
pub const SPATIAL_INSTALL_RETRY_BASE_MS: u64 = 250;

/// The bundled extension's file name.
pub const SPATIAL_EXTENSION_FILENAME: &'static str = "spatial.duckdb_extension";

/// Appends a path unless an equal one is already listed.
pub fn append_unique_path(candidates: &mut Vec<String>, path: String)
    ensures
        if col_list_has(old(candidates)@, path@) {
            final(candidates)@ == old(candidates)@
        } else {
            final(candidates)@ == old(candidates)@.push(path)
        },
{
    let n: usize = candidates.len();
    let mut i: usize = 0;
    while i < n
        invariant
            n == candidates@.len(),
            i <= n,
            forall|j: int| 0 <= j < i ==> #[trigger] candidates@[j]@ != path@,
        decreases n - i,
    {
        if crate::strutil::str_eq(candidates[i].as_str(), path.as_str()) {
            return ;
        }
        i = i + 1;
    }
    candidates.push(path);
}

/// A directory joined with a relative path.
pub open spec fn spec_join_path(dir: Seq<char>, rel: Seq<char>) -> Seq<char> {
    dir + "/"@ + rel
}

/// Joins a directory with a relative path using a slash.
pub fn join_path(dir: &str, rel: &str) -> (r: String)
    ensures
        r@ == spec_join_path(dir@, rel@),
{
    let mut out: Vec<char> = Vec::new();
    push_str_chars(&mut out, dir);
    push_str_chars(&mut out, "/");
    push_str_chars(&mut out, rel);
    chars_to_string(&out)
}

/// The candidate locations of a bundled spatial extension, most specific
/// first: the configured file, the configured directory, the executable's
/// directory (packaged layout, then the bare file name), and the working
/// directory (packaged layout, then the development layout). Duplicates
/// are kept once.
pub open spec fn spec_candidates(
    env_path: Option<Seq<char>>,
    env_dir: Option<Seq<char>>,
    cwd: Option<Seq<char>>,
    exe_dir: Option<Seq<char>>,
) -> Seq<Seq<char>> {
    let s0 = Seq::<Seq<char>>::empty();
    let s1 = match env_path {
        Some(p) => if trim_ws(p).len() > 0 {
            add_unique(s0, trim_ws(p))
        } else {
            s0
        },
        None => s0,
    };
    let s2 = match env_dir {
        Some(d) => if trim_ws(d).len() > 0 {
            add_unique(s1, spec_join_path(trim_ws(d), "spatial.duckdb_extension"@))
        } else {
            s1
        },
        None => s1,
    };
    let s3 = match exe_dir {
        Some(d) => add_unique(
            add_unique(s2, spec_join_path(d, "extensions/spatial.duckdb_extension"@)),
            spec_join_path(d, "spatial.duckdb_extension"@),
        ),
        None => s2,
    };
    match cwd {
        Some(d) => add_unique(
            add_unique(s3, spec_join_path(d, "extensions/spatial.duckdb_extension"@)),
            spec_join_path(d, "backend/extensions/spatial.duckdb_extension"@),
        ),
        None => s3,
    }
}

/// Adding a path to a list unless already present.
pub open spec fn add_unique(cs: Seq<Seq<char>>, p: Seq<char>) -> Seq<Seq<char>> {
    if exists|i: int| 0 <= i < cs.len() && #[trigger] cs[i] == p {
        cs
    } else {
        cs.push(p)
    }
}

proof fn lemma_add_unique_views(prev: Seq<String>, cur: Seq<String>, p: Seq<char>)
    requires
        if col_list_has(prev, p) {
            cur == prev
        } else {
            cur.len() == prev.len() + 1 && (forall|i: int|
                0 <= i < prev.len() ==> #[trigger] cur[i] == prev[i]) && cur[cur.len() - 1]@ == p
        },
    ensures
        cur.map_values(|s: String| s@) == add_unique(prev.map_values(|s: String| s@), p),
{
    let pv = prev.map_values(|s: String| s@);
    let cv = cur.map_values(|s: String| s@);
    if col_list_has(prev, p) {
        assert(exists|i: int| 0 <= i < pv.len() && #[trigger] pv[i] == p) by {
            let j = choose|j: int| 0 <= j < prev.len() && #[trigger] prev[j]@ == p;
            assert(pv[j] == p);
        }
        assert(cv =~= add_unique(pv, p));
    } else {
        assert(!exists|i: int| 0 <= i < pv.len() && #[trigger] pv[i] == p) by {
            if exists|i: int| 0 <= i < pv.len() && #[trigger] pv[i] == p {
                let j = choose|j: int| 0 <= j < pv.len() && #[trigger] pv[j] == p;
                assert(prev[j]@ == p);
                assert(col_list_has(prev, p));
            }
        }
        assert(cv =~= pv.push(p));
        assert(cv =~= add_unique(pv, p));
    }
}

/// Resolves the candidate locations of a locally bundled spatial
/// extension, in priority order, without duplicates.
pub fn resolve_local_spatial_extension_candidates(
    env_path: Option<&String>,
    env_dir: Option<&String>,
    cwd: Option<&String>,
    exe_dir: Option<&String>,
) -> (r: Vec<String>)
    ensures
        r@.map_values(|s: String| s@) == spec_candidates(
            match env_path {
                Some(p) => Some(p@),
                None => None,
            },
            match env_dir {
                Some(d) => Some(d@),
                None => None,
            },
            match cwd {
                Some(d) => Some(d@),
                None => None,
            },
            match exe_dir {
                Some(d) => Some(d@),
                None => None,
            },
        ),
{
    let mut candidates: Vec<String> = Vec::new();
    proof {
        assert(candidates@.map_values(|s: String| s@) =~= Seq::<Seq<char>>::empty());
    }
    match env_path {
        Some(p) => {
            let chars = chars_vec(p.as_str());
            let t = vec_trim_ws(&chars);
            if t.len() > 0 {
                let ghost prev = candidates@;
                let tp = chars_to_string(&t);
                let ghost tv = tp@;
                append_unique_path(&mut candidates, tp);
                proof {
                    lemma_add_unique_views(prev, candidates@, tv);
                }
            }
        },
        None => {},
    }
    match env_dir {
        Some(d) => {
            let chars = chars_vec(d.as_str());
            let t = vec_trim_ws(&chars);
            if t.len() > 0 {
                let ghost prev = candidates@;
                let ts = chars_to_string(&t);
                let joined = join_path(ts.as_str(), "spatial.duckdb_extension");
                let ghost jv = joined@;
                append_unique_path(&mut candidates, joined);
                proof {
                    lemma_add_unique_views(prev, candidates@, jv);
                }
            }
        },
        None => {},
    }
    match exe_dir {
        Some(d) => {
            let ghost prev1 = candidates@;
            let j1 = join_path(d.as_str(), "extensions/spatial.duckdb_extension");
            let ghost v1 = j1@;
            append_unique_path(&mut candidates, j1);
            proof {
                lemma_add_unique_views(prev1, candidates@, v1);
            }
            let ghost prev2 = candidates@;
            let j2 = join_path(d.as_str(), "spatial.duckdb_extension");
            let ghost v2 = j2@;
            append_unique_path(&mut candidates, j2);
            proof {
                lemma_add_unique_views(prev2, candidates@, v2);
            }
        },
        None => {},
    }
    match cwd {
        Some(d) => {
            let ghost prev1 = candidates@;
            let j1 = join_path(d.as_str(), "extensions/spatial.duckdb_extension");
            let ghost v1 = j1@;
            append_unique_path(&mut candidates, j1);
            proof {
                lemma_add_unique_views(prev1, candidates@, v1);
            }
            let ghost prev2 = candidates@;
            let j2 = join_path(d.as_str(), "backend/extensions/spatial.duckdb_extension");
            let ghost v2 = j2@;
            append_unique_path(&mut candidates, j2);
            proof {
                lemma_add_unique_views(prev2, candidates@, v2);
            }
        },
        None => {},
    }
    candidates
}

/// Picks the first candidate that the process found to exist on disk;
/// `exists_on_disk[i]` answers for `candidates[i]`.
pub fn find_existing_local_spatial_extension_path(
    candidates: &Vec<String>,
    exists_on_disk: &Vec<bool>,
) -> (r: Option<String>)
    requires
        candidates@.len() == exists_on_disk@.len(),
    ensures
        match r {
            Some(p) => exists|i: int|
                0 <= i < candidates@.len() && #[trigger] candidates@[i]@ == p@
                    && exists_on_disk@[i] && forall|j: int| 0 <= j < i ==> !exists_on_disk@[j],
            None => forall|j: int| 0 <= j < candidates@.len() ==> !exists_on_disk@[j],
        },
{
    let n: usize = candidates.len();
    let mut i: usize = 0;
    while i < n
        invariant
            n == candidates@.len() == exists_on_disk@.len(),
            i <= n,
            forall|j: int| 0 <= j < i ==> !exists_on_disk@[j],
        decreases n - i,
    {
        if exists_on_disk[i] {
            let found = candidates[i].clone();
            proof {
                assert(candidates@[i as int]@ == found@ && exists_on_disk@[i as int]);
            }
            return Some(found);
        }
        i = i + 1;
    }
    None
}

/// SQL string escaping: every embedded single quote doubled.
pub open spec fn escape_single_quotes(s: Seq<char>) -> Seq<char>
    decreases s.len(),
{
    if s.len() == 0 {
        Seq::empty()
    } else {
        escape_single_quotes(s.drop_last()) + (if s[s.len() - 1] == '\'' {
            seq!['\'', '\'']
        } else {
            seq![s[s.len() - 1]]
        })
    }
}

/// The LOAD statement for a bundled extension file, with the path
/// single-quote escaped.
pub fn build_load_extension_sql(path: &str) -> (r: String)
    ensures
        r@ == "LOAD '"@ + escape_single_quotes(path@) + "';"@,
{
    let chars = chars_vec(path);
    let n: usize = chars.len();
    let mut esc: Vec<char> = Vec::new();
    let mut i: usize = 0;
    while i < n
        invariant
            n == chars@.len(),
            chars@ == path@,
            i <= n,
            esc@ == escape_single_quotes(path@.subrange(0, i as int)),
        decreases n - i,
    {
        let c = chars[i];
        esc.push(c);
        if c == '\'' {
            esc.push('\'');
        }
        i = i + 1;
        proof {
            let pre = path@.subrange(0, i as int - 1);
            let cur = path@.subrange(0, i as int);
            assert(cur.drop_last() =~= pre);
            assert(cur[cur.len() - 1] == c);
            if c == '\'' {
                assert(esc@ =~= escape_single_quotes(pre) + seq!['\'', '\'']);
            } else {
                assert(esc@ =~= escape_single_quotes(pre) + seq![c]);
            }
        }
    }
    proof {
        assert(path@.subrange(0, n as int) =~= path@);
    }
    let mut out: Vec<char> = Vec::new();
    push_str_chars(&mut out, "LOAD '");
    push_all(&mut out, &esc);
    push_str_chars(&mut out, "';");
    chars_to_string(&out)
}

/// Where the loader stands.
#[derive(Clone, Copy, Debug, PartialEq, Eq, Structural)]
pub enum LoaderPhase {
    /// Try a plain LOAD against the engine's local cache.
    Probe,
    /// Try loading a bundled extension file.
    LocalProbe,
    /// In the install-and-load retry loop.
    Installing,
    /// The extension is loaded; nothing more to do.
    Loaded,
    /// All attempts exhausted.
    Failed,
}

/// What the loader asks the process to do next.
#[derive(Clone, Copy, Debug, PartialEq, Eq, Structural)]
pub enum LoaderAction {
    /// Nothing: the extension is loaded.
    Done,
    /// Run a plain `LOAD spatial`.
    TryLoad,
    /// Try loading from a bundled file, if one exists.
    TryLocalLoad,
    /// Run `INSTALL spatial` and then `LOAD spatial`.
    InstallThenLoad,
    /// Sleep for the given backoff and then install again.
    SleepThenInstall(u64),
    /// Give up: the spatial extension is unavailable.
    GiveUp,
}

/// The loader's state: its phase and how many install attempts have run.
pub struct SpatialLoader {
    pub phase: LoaderPhase,
    pub attempts: u8,
}

/// What one observation does to the loader.
pub open spec fn spec_loader_step(st: SpatialLoader, succeeded: bool) -> SpatialLoader {
    if succeeded {
        SpatialLoader { phase: LoaderPhase::Loaded, attempts: st.attempts }
    } else {
        match st.phase {
            LoaderPhase::Probe => SpatialLoader { phase: LoaderPhase::LocalProbe, attempts: 0 },
            LoaderPhase::LocalProbe => SpatialLoader { phase: LoaderPhase::Installing, attempts: 1 },
            LoaderPhase::Installing => if st.attempts < SPATIAL_INSTALL_MAX_ATTEMPTS {
                SpatialLoader { phase: LoaderPhase::Installing, attempts: (st.attempts + 1) as u8 }
            } else {
                SpatialLoader { phase: LoaderPhase::Failed, attempts: st.attempts }
            },
            _ => st,
        }
    }
}

/// The action owed in each state.
pub open spec fn spec_loader_action(st: SpatialLoader) -> LoaderAction {
    match st.phase {
        LoaderPhase::Probe => LoaderAction::TryLoad,
        LoaderPhase::LocalProbe => LoaderAction::TryLocalLoad,
        LoaderPhase::Installing => if st.attempts == 1 {
            LoaderAction::InstallThenLoad
        } else {
            LoaderAction::SleepThenInstall(
                (SPATIAL_INSTALL_RETRY_BASE_MS * ((st.attempts - 1) as u64)) as u64,
            )
        },
        LoaderPhase::Loaded => LoaderAction::Done,
        LoaderPhase::Failed => LoaderAction::GiveUp,
    }
}

impl SpatialLoader {
    /// A fresh loader, about to probe.
    pub fn new() -> (r: SpatialLoader)
        ensures
            r.phase is Probe,
            r.attempts == 0,
    {
        SpatialLoader { phase: LoaderPhase::Probe, attempts: 0 }
    }

    /// The next action the process should perform for this loader.
    pub fn next_action(&self) -> (r: LoaderAction)
        requires
            self.wf(),
        ensures
            r == spec_loader_action(*self),
    {
        match self.phase {
            LoaderPhase::Probe => LoaderAction::TryLoad,
            LoaderPhase::LocalProbe => LoaderAction::TryLocalLoad,
            LoaderPhase::Installing => if self.attempts == 1 {
                LoaderAction::InstallThenLoad
            } else {
                LoaderAction::SleepThenInstall(
                    SPATIAL_INSTALL_RETRY_BASE_MS * ((self.attempts - 1) as u64),
                )
            },
            LoaderPhase::Loaded => LoaderAction::Done,
            LoaderPhase::Failed => LoaderAction::GiveUp,
        }
    }

    /// The loader's invariant: attempts stay within the cap, and only the
    /// install loop counts them.
    pub open spec fn wf(self) -> bool {
        &&& self.attempts <= SPATIAL_INSTALL_MAX_ATTEMPTS
        &&& (self.phase is Installing ==> 1 <= self.attempts)
    }

    /// Feeds the outcome of the last action's load back into the loader.
    pub fn observe(&mut self, succeeded: bool)
        requires
            old(self).wf(),
        ensures
            final(self).wf(),
            *final(self) == spec_loader_step(*old(self), succeeded),
            succeeded ==> final(self).phase is Loaded,
    {
        if succeeded {
            self.phase = LoaderPhase::Loaded;
        } else {
            match self.phase {
                LoaderPhase::Probe => {
                    self.phase = LoaderPhase::LocalProbe;
                    self.attempts = 0;
                },
                LoaderPhase::LocalProbe => {
                    self.phase = LoaderPhase::Installing;
                    self.attempts = 1;
                },
                LoaderPhase::Installing => {
                    if self.attempts < SPATIAL_INSTALL_MAX_ATTEMPTS {
                        self.attempts = self.attempts + 1;
                    } else {
                        self.phase = LoaderPhase::Failed;
                    }
                },
                LoaderPhase::Loaded => {},
                LoaderPhase::Failed => {},
            }
        }
    }
}

/// Once loaded, the loader stays loaded and never asks for another
/// install: a second and any later invocation is answered without
/// re-running INSTALL.
pub proof fn lemma_install_idempotent(st: SpatialLoader, succeeded: bool)
    requires
        st.phase is Loaded,
    ensures
        spec_loader_action(st) == LoaderAction::Done,
        spec_loader_step(st, succeeded).phase is Loaded,
        spec_loader_action(spec_loader_step(st, succeeded)) == LoaderAction::Done,
{
}

} // verus!
