//! The resolver: import-path configuration, path resolution against the file
//! store, pragma validation, and the recursive, deduplicated traversal.

use vstd::prelude::*;

use crate::ast::{Item, ItemKind, PragmaTokens, PragmaTokensV};
use crate::diag::{DiagCtxt, DiagKind, Diagnostic, Span};
use crate::source_map::{spec_load, FileName, FileStore, SourceMap, StoreView};
use crate::text::{chars_append, chars_clone, chars_eq, chars_eq_str, chars_prefix, chars_range, is_prefix_of};

verus! {

/// Why a path failed to resolve.
#[derive(Clone, Copy, PartialEq, Eq, Structural, Debug)]
pub enum ResolveError {
    /// No search rule produced an existing file.
    NotFound,
    /// More than one configured import path produced an existing file.
    Ambiguous,
    /// Standard input was requested but is not available.
    StdinUnavailable,
}

/// The diagnostic recorded for a resolution failure.
pub open spec fn resolve_err_kind(e: ResolveError) -> DiagKind {
    match e {
        ResolveError::NotFound => DiagKind::FileNotFound,
        ResolveError::Ambiguous => DiagKind::AmbiguousImport,
        ResolveError::StdinUnavailable => DiagKind::StdinUnavailable,
    }
}

fn resolve_err_kind_x(e: ResolveError) -> (k: DiagKind)
    ensures
        k == resolve_err_kind(e),
{
    match e {
        ResolveError::NotFound => DiagKind::FileNotFound,
        ResolveError::Ambiguous => DiagKind::AmbiguousImport,
        ResolveError::StdinUnavailable => DiagKind::StdinUnavailable,
    }
}

/// A custom pragma drawn from the recognized vocabulary, accepted silently.
pub open spec fn custom_accepted(name: Seq<char>, value: Option<Seq<char>>) -> bool {
    ||| (name == "abicoder"@ && (value == Some("v1"@) || value == Some("v2"@)))
    ||| (name == "experimental"@ && (value == Some("ABIEncoderV2"@) || value == Some(
        "SMTChecker"@,
    )))
}

/// The diagnostics pragma validation records for one directive: nothing for
/// a version pragma naming the host language or a recognized custom pragma;
/// one error otherwise, anchored at the offending token for a misnamed
/// version pragma, unanchored for `experimental solidity`, and anchored at
/// the whole directive for an unknown or verbatim pragma.
pub open spec fn spec_pragma_diags(span: Span, t: PragmaTokensV) -> Seq<Diagnostic> {
    match t {
        PragmaTokensV::Version { name, name_span, req } => if name == "solidity"@ {
            Seq::<Diagnostic>::empty()
        } else {
            seq![Diagnostic { kind: DiagKind::NonSolidityVersionPragma, span: Some(name_span) }]
        },
        PragmaTokensV::Custom { name, value } => if custom_accepted(name, value) {
            Seq::<Diagnostic>::empty()
        } else if name == "experimental"@ && value == Some("solidity"@) {
            seq![Diagnostic { kind: DiagKind::ExperimentalSolidity, span: None }]
        } else {
            seq![Diagnostic { kind: DiagKind::UnknownPragma, span: Some(span) }]
        },
        PragmaTokensV::Verbatim => seq![
            Diagnostic { kind: DiagKind::UnknownPragma, span: Some(span) },
        ],
    }
}

/// The import-map and import-path configuration consulted when a path is
/// resolved.
pub struct FileResolver {
    import_maps: Vec<(Vec<char>, Vec<char>)>,
    import_paths: Vec<Vec<char>>,
}

/// Spec view of the configuration: the `(prefix, target)` rewrite rules and
/// the additional search roots, each in the order configured.
pub struct CfgView {
    pub maps: Seq<(Seq<char>, Seq<char>)>,
    pub incs: Seq<Seq<char>>,
}

impl View for FileResolver {
    type V = CfgView;

    closed spec fn view(&self) -> CfgView {
        CfgView {
            maps: self.import_maps@.map_values(|t: (Vec<char>, Vec<char>)| (t.0@, t.1@)),
            incs: self.import_paths@.map_values(|p: Vec<char>| p@),
        }
    }
}

/// Whether one of the configured roots equals `p`.
pub open spec fn has_import_path(incs: Seq<Seq<char>>, p: Seq<char>) -> bool {
    exists|k: int| 0 <= k < incs.len() && incs[k] == p
}

/// The path after import-map rewriting: the first rule whose prefix matches
/// replaces it; with no match the path is unchanged.
pub open spec fn apply_map_from(maps: Seq<(Seq<char>, Seq<char>)>, p: Seq<char>, k: int) -> Seq<
    char,
>
    decreases maps.len() - k,
        when 0 <= k
{
    if k >= maps.len() {
        p
    } else if is_prefix_of(maps[k].0, p) {
        maps[k].1 + p.skip(maps[k].0.len() as int)
    } else {
        apply_map_from(maps, p, k + 1)
    }
}

/// Index of the last `/` at or before `i`, or `-1`.
pub open spec fn last_slash(p: Seq<char>, i: int) -> int
    decreases i + 1,
        when i < p.len()
{
    if i < 0 {
        -1
    } else if p[i] == '/' {
        i
    } else {
        last_slash(p, i - 1)
    }
}

proof fn lemma_last_slash_skip(p: Seq<char>, i: int)
    requires
        -1 <= i < p.len(),
        forall|k: int| i < k < p.len() ==> p[k] != '/',
    ensures
        last_slash(p, p.len() - 1) == last_slash(p, i),
    decreases p.len() - i,
{
    if i < p.len() - 1 {
        lemma_last_slash_skip(p, i + 1);
    }
}

/// The directory of a path: everything before its last `/`, or nothing for a
/// bare file name.
pub open spec fn parent_dir(p: Seq<char>) -> Option<Seq<char>> {
    let k = last_slash(p, p.len() - 1);
    if k < 0 {
        None
    } else {
        Some(p.take(k))
    }
}

/// A directory joined with a relative path.
pub open spec fn join_path(d: Seq<char>, f: Seq<char>) -> Seq<char> {
    d + seq!['/'] + f
}

/// The first candidate for a remapped path: the path itself when absolute or
/// without parent context, else the path relative to the importing file's
/// directory.
pub open spec fn primary_candidate(rp: Seq<char>, parent: Option<Seq<char>>) -> Seq<char> {
    if rp.len() > 0 && rp[0] == '/' {
        rp
    } else {
        match parent {
            None => rp,
            Some(par) => match parent_dir(par) {
                None => rp,
                Some(d) => join_path(d, rp),
            },
        }
    }
}

/// First store entry at or after `k` whose path is `p`, or `-1`.
pub open spec fn store_find_from(
    entries: Seq<(Seq<char>, Seq<char>)>,
    p: Seq<char>,
    k: int,
) -> int
    decreases entries.len() - k,
        when 0 <= k
{
    if k >= entries.len() {
        -1
    } else if entries[k].0 == p {
        k
    } else {
        store_find_from(entries, p, k + 1)
    }
}

proof fn lemma_store_find_hit(entries: Seq<(Seq<char>, Seq<char>)>, p: Seq<char>, j: int, i: int)
    requires
        0 <= j <= i < entries.len(),
        forall|k: int| j <= k < i ==> (#[trigger] entries[k]).0 != p,
        entries[i].0 == p,
    ensures
        store_find_from(entries, p, j) == i,
    decreases i - j,
{
    if j < i {
        lemma_store_find_hit(entries, p, j + 1, i);
    }
}

proof fn lemma_store_find_miss(entries: Seq<(Seq<char>, Seq<char>)>, p: Seq<char>, j: int)
    requires
        0 <= j,
        forall|k: int| j <= k < entries.len() ==> (#[trigger] entries[k]).0 != p,
    ensures
        store_find_from(entries, p, j) == -1,
    decreases entries.len() - j,
{
    if j < entries.len() {
        lemma_store_find_miss(entries, p, j + 1);
    }
}

/// The store entries found by trying each configured import path in order.
pub open spec fn ip_hits_from(
    incs: Seq<Seq<char>>,
    entries: Seq<(Seq<char>, Seq<char>)>,
    rp: Seq<char>,
    k: int,
) -> Seq<int>
    decreases incs.len() - k,
        when 0 <= k
{
    if k >= incs.len() {
        Seq::<int>::empty()
    } else {
        let e = store_find_from(entries, join_path(incs[k], rp), 0);
        let rest = ip_hits_from(incs, entries, rp, k + 1);
        if e >= 0 {
            seq![e] + rest
        } else {
            rest
        }
    }
}

/// How a path resolves against the store: after import-map rewriting, the
/// primary candidate (absolute, parent-relative, or bare) wins if it exists;
/// otherwise the configured import paths are tried, a single hit wins, more
/// than one is ambiguous, none is not found.
pub open spec fn spec_resolve_path(
    cfg: CfgView,
    entries: Seq<(Seq<char>, Seq<char>)>,
    p: Seq<char>,
    parent: Option<Seq<char>>,
) -> Result<int, ResolveError> {
    let rp = apply_map_from(cfg.maps, p, 0);
    let prim = primary_candidate(rp, parent);
    let e = store_find_from(entries, prim, 0);
    if e >= 0 {
        Ok(e)
    } else {
        let hits = ip_hits_from(cfg.incs, entries, rp, 0);
        if hits.len() == 0 {
            Err(ResolveError::NotFound)
        } else if hits.len() == 1 {
            Ok(hits[0])
        } else {
            Err(ResolveError::Ambiguous)
        }
    }
}

/// Every hit is a valid store index.
proof fn lemma_ip_hits_valid(
    incs: Seq<Seq<char>>,
    entries: Seq<(Seq<char>, Seq<char>)>,
    rp: Seq<char>,
    k: int,
)
    requires
        0 <= k,
    ensures
        forall|t: int|
            0 <= t < ip_hits_from(incs, entries, rp, k).len() ==> 0 <= #[trigger] ip_hits_from(
                incs,
                entries,
                rp,
                k,
            )[t] < entries.len(),
    decreases incs.len() - k,
{
    if k < incs.len() {
        lemma_ip_hits_valid(incs, entries, rp, k + 1);
        lemma_store_find_valid(entries, join_path(incs[k], rp), 0);
        let e = store_find_from(entries, join_path(incs[k], rp), 0);
        let rest = ip_hits_from(incs, entries, rp, k + 1);
        if e >= 0 {
            assert forall|t: int|
                0 <= t < ip_hits_from(incs, entries, rp, k).len() implies 0 <= #[trigger] ip_hits_from(
                incs,
                entries,
                rp,
                k,
            )[t] < entries.len() by {
                if t > 0 {
                    assert(ip_hits_from(incs, entries, rp, k)[t] == rest[t - 1]);
                }
            }
        }
    }
}

proof fn lemma_store_find_valid(entries: Seq<(Seq<char>, Seq<char>)>, p: Seq<char>, k: int)
    requires
        0 <= k,
    ensures
        store_find_from(entries, p, k) == -1 || (k <= store_find_from(entries, p, k)
            < entries.len() && entries[store_find_from(entries, p, k)].0 == p),
    decreases entries.len() - k,
{
    if k < entries.len() && !(entries[k].0 == p) {
        lemma_store_find_valid(entries, p, k + 1);
    }
}

/// A resolved path denotes a valid store entry.
pub proof fn lemma_resolve_path_valid(
    cfg: CfgView,
    entries: Seq<(Seq<char>, Seq<char>)>,
    p: Seq<char>,
    parent: Option<Seq<char>>,
)
    ensures
        (match spec_resolve_path(cfg, entries, p, parent) {
            Ok(e) => 0 <= e < entries.len(),
            Err(_) => true,
        }),
{
    let rp = apply_map_from(cfg.maps, p, 0);
    let prim = primary_candidate(rp, parent);
    lemma_store_find_valid(entries, prim, 0);
    lemma_ip_hits_valid(cfg.incs, entries, rp, 0);
}

impl FileResolver {
    /// A configuration with no rewrite rules and no extra search roots.
    pub fn new() -> (r: FileResolver)
        ensures
            r@.maps == Seq::<(Seq<char>, Seq<char>)>::empty(),
            r@.incs == Seq::<Seq<char>>::empty(),
    {
        let r = FileResolver { import_maps: Vec::new(), import_paths: Vec::new() };
        proof {
            assert(r@.maps =~= Seq::<(Seq<char>, Seq<char>)>::empty());
            assert(r@.incs =~= Seq::<Seq<char>>::empty());
        }
        r
    }

    /// Adds one import-map rewrite rule.
    pub fn add_import_map(&mut self, map: &str, target: &str)
        ensures
            final(self)@.maps == old(self)@.maps.push((map@, target@)),
            final(self)@.incs == old(self)@.incs,
    {
        let ghost oldv = self@.maps;
        self.import_maps.push((crate::text::text_chars(map), crate::text::text_chars(target)));
        proof {
            assert(self@.maps =~= oldv.push((map@, target@)));
            assert(self@.incs =~= old(self)@.incs);
        }
    }

    /// Adds one import path; reports whether it was new. A duplicate is
    /// refused and leaves the configuration unchanged.
    pub fn add_import_path(&mut self, path: &str) -> (fresh: bool)
        ensures
            fresh == !has_import_path(old(self)@.incs, path@),
            fresh ==> final(self)@.incs == old(self)@.incs.push(path@),
            !fresh ==> final(self)@.incs == old(self)@.incs,
            final(self)@.maps == old(self)@.maps,
    {
        let p = crate::text::text_chars(path);
        let n = self.import_paths.len();
        let mut k: usize = 0;
        while k < n
            invariant
                n == self@.incs.len(),
                k <= n,
                p@ == path@,
                forall|t: int| 0 <= t < k ==> self@.incs[t] != path@,
            decreases n - k,
        {
            if chars_eq(&self.import_paths[k], &p) {
                proof {
                    assert(self@.incs[k as int] == path@);
                }
                return false;
            }
            k = k + 1;
        }
        let ghost oldv = self@.incs;
        self.import_paths.push(p);
        proof {
            assert(self@.incs =~= oldv.push(path@));
            assert(self@.maps =~= old(self)@.maps);
        }
        true
    }

    fn apply_map_k(&self, p: &Vec<char>, k: usize) -> (r: Vec<char>)
        requires
            k <= self@.maps.len(),
        ensures
            r@ == apply_map_from(self@.maps, p@, k as int),
        decreases self@.maps.len() - k,
    {
        if k >= self.import_maps.len() {
            chars_clone(p)
        } else if chars_prefix(p, &self.import_maps[k].0) {
            let mut r = chars_clone(&self.import_maps[k].1);
            let rest = chars_range(p, self.import_maps[k].0.len(), p.len());
            chars_append(&mut r, &rest);
            proof {
                assert(p@.subrange(self@.maps[k as int].0.len() as int, p@.len() as int) =~= p@.skip(
                    self@.maps[k as int].0.len() as int,
                ));
            }
            r
        } else {
            self.apply_map_k(p, k + 1)
        }
    }

    fn ip_hits_k(&self, store: &FileStore, rp: &Vec<char>, k: usize) -> (r: Vec<usize>)
        requires
            k <= self@.incs.len(),
        ensures
            r@.map_values(|u: usize| u as int) == ip_hits_from(
                self@.incs,
                store@.entries,
                rp@,
                k as int,
            ),
            forall|t: int| 0 <= t < r@.len() ==> r@[t] < store@.entries.len(),
        decreases self@.incs.len() - k,
    {
        if k >= self.import_paths.len() {
            let r: Vec<usize> = Vec::new();
            proof {
                assert(r@.map_values(|u: usize| u as int) =~= Seq::<int>::empty());
            }
            r
        } else {
            let mut cand = chars_clone(&self.import_paths[k]);
            cand.push('/');
            chars_append(&mut cand, rp);
            proof {
                assert(cand@ =~= join_path(self@.incs[k as int], rp@));
            }
            let e = store_find_x(store, &cand);
            let mut rest = self.ip_hits_k(store, rp, k + 1);
            match e {
                Some(i) => {
                    let ghost restv = rest@;
                    rest.insert(0, i);
                    proof {
                        assert(rest@.map_values(|u: usize| u as int) =~= seq![i as int]
                            + restv.map_values(|u: usize| u as int));
                    }
                    rest
                },
                None => rest,
            }
        }
    }

    /// Resolves a path against the store under this configuration, without
    /// loading anything.
    fn resolve_path(&self, store: &FileStore, path: &Vec<char>, parent: &Option<Vec<char>>) -> (r:
        Result<usize, ResolveError>)
        ensures
            (match spec_resolve_path(
                self@,
                store@.entries,
                path@,
                match parent {
                    Some(p) => Some(p@),
                    None => None,
                },
            ) {
                Ok(e) => r matches Ok(i) && i as int == e && e < store@.entries.len(),
                Err(e) => r matches Err(f) && f == e,
            }),
    {
        let ghost parentv: Option<Seq<char>> = match parent {
            Some(p) => Some(p@),
            None => None,
        };
        let rp = self.apply_map_k(path, 0);
        // primary candidate
        let prim: Vec<char> = if rp.len() > 0 && rp[0] == '/' {
            chars_clone(&rp)
        } else {
            match parent {
                None => chars_clone(&rp),
                Some(par) => {
                    match last_slash_x(par) {
                        None => chars_clone(&rp),
                        Some(ls) => {
                            let mut d = chars_range(par, 0, ls);
                            d.push('/');
                            chars_append(&mut d, &rp);
                            proof {
                                assert(par@.subrange(0, ls as int) =~= par@.take(ls as int));
                                assert(d@ =~= join_path(par@.take(ls as int), rp@));
                            }
                            d
                        },
                    }
                },
            }
        };
        proof {
            assert(prim@ == primary_candidate(apply_map_from(self@.maps, path@, 0), parentv));
        }
        match store_find_x(store, &prim) {
            Some(e) => {
                proof {
                    lemma_store_find_valid(store@.entries, prim@, 0);
                }
                Ok(e)
            },
            None => {
                let hits = self.ip_hits_k(store, &rp, 0);
                if hits.len() == 0 {
                    Err(ResolveError::NotFound)
                } else if hits.len() == 1 {
                    proof {
                        assert(hits@.map_values(|u: usize| u as int)[0] == hits@[0] as int);
                    }
                    Ok(hits[0])
                } else {
                    Err(ResolveError::Ambiguous)
                }
            },
        }
    }

    /// Resolves a path and loads the found entry into the source map,
    /// returning the file's id. On failure the source map is untouched and
    /// the error is returned for the caller to record.
    pub fn resolve_file(
        &self,
        store: &FileStore,
        path: &Vec<char>,
        parent: &Option<Vec<char>>,
        sm: &mut SourceMap,
    ) -> (r: Result<usize, ResolveError>)
        ensures
            (match spec_resolve_path(
                self@,
                store@.entries,
                path@,
                match parent {
                    Some(p) => Some(p@),
                    None => None,
                },
            ) {
                Ok(e) => {
                    &&& r matches Ok(id)
                    &&& (final(sm)@, id as int) == spec_load(
                        old(sm)@,
                        Some(store@.entries[e].0),
                        store@.entries[e].1,
                    )
                    &&& id < final(sm)@.len()
                },
                Err(e) => r matches Err(f) && f == e && final(sm)@ == old(sm)@,
            }),
    {
        match self.resolve_path(store, path, parent) {
            Err(e) => Err(e),
            Ok(sidx) => {
                let name = FileName::Real(chars_clone(store.entry_path(sidx)));
                let src = chars_clone(store.entry_src(sidx));
                let id = sm.load(name, src);
                Ok(id)
            },
        }
    }

    /// Loads standard input into the source map, if the store carries it.
    pub fn load_stdin(&self, store: &FileStore, sm: &mut SourceMap) -> (r: Result<
        usize,
        ResolveError,
    >)
        ensures
            (match store@.stdin {
                Some(txt) => {
                    &&& r matches Ok(id)
                    &&& (final(sm)@, id as int) == spec_load(old(sm)@, None, txt)
                    &&& id < final(sm)@.len()
                },
                None => r == Err::<usize, ResolveError>(ResolveError::StdinUnavailable)
                    && final(sm)@ == old(sm)@,
            }),
    {
        match store.stdin_src() {
            None => Err(ResolveError::StdinUnavailable),
            Some(txt) => {
                let src = chars_clone(txt);
                let id = sm.load(FileName::Stdin, src);
                Ok(id)
            },
        }
    }
}

/// Finds the last `/` of a path.
fn last_slash_x(p: &Vec<char>) -> (r: Option<usize>)
    ensures
        (match r {
            Some(k) => k as int == last_slash(p@, p@.len() - 1) && k < p@.len(),
            None => last_slash(p@, p@.len() - 1) == -1,
        }),
{
    let mut i: usize = p.len();
    while i > 0
        invariant
            i <= p@.len(),
            forall|k: int| i <= k < p@.len() ==> p@[k] != '/',
        decreases i,
    {
        i = i - 1;
        if p[i] == '/' {
            proof {
                lemma_last_slash_skip(p@, i as int);
            }
            return Some(i);
        }
    }
    proof {
        if p@.len() > 0 {
            lemma_last_slash_skip(p@, -1);
        }
    }
    None
}

/// Finds the first store entry with the given path.
fn store_find_x(store: &FileStore, p: &Vec<char>) -> (r: Option<usize>)
    ensures
        (match r {
            Some(e) => e as int == store_find_from(store@.entries, p@, 0) && e
                < store@.entries.len(),
            None => store_find_from(store@.entries, p@, 0) == -1,
        }),
{
    let n = store.len();
    let mut k: usize = 0;
    while k < n
        invariant
            n == store@.entries.len(),
            k <= n,
            forall|t: int| 0 <= t < k ==> (#[trigger] store@.entries[t]).0 != p@,
        decreases n - k,
    {
        if chars_eq(store.entry_path(k), p) {
            proof {
                lemma_store_find_hit(store@.entries, p@, 0, k as int);
            }
            return Some(k);
        }
        k = k + 1;
    }
    proof {
        lemma_store_find_miss(store@.entries, p@, 0);
    }
    None
}


/// The mutable state of one traversal, at the spec level: the source-map
/// arena, the ids already visited in discovery order, and the diagnostics
/// recorded so far.
pub struct RState {
    pub sm: Seq<(Option<Seq<char>>, Seq<char>)>,
    pub visited: Seq<int>,
    pub diags: Seq<Diagnostic>,
}

/// Well-formedness of the arena against the store: names are distinct, and
/// every real name is the path of some store entry.
pub open spec fn sm_wf(store: StoreView, sm: Seq<(Option<Seq<char>>, Seq<char>)>) -> bool {
    &&& forall|a: int, b: int|
        0 <= a < b < sm.len() ==> !((#[trigger] sm[a]).0 == (#[trigger] sm[b]).0)
    &&& forall|a: int|
        0 <= a < sm.len() ==> match (#[trigger] sm[a]).0 {
            Some(p) => exists|e: int|
                0 <= e < store.entries.len() && (#[trigger] store.entries[e]).0 == p,
            None => true,
        }
}

/// Well-formedness of the whole traversal state: the arena is well formed,
/// and the visited ids are distinct valid arena indices. A file is appended
/// exactly once, so membership in `visited` is what breaks cycles.
pub open spec fn rstate_wf(store: StoreView, st: RState) -> bool {
    &&& sm_wf(store, st.sm)
    &&& st.visited.no_duplicates()
    &&& forall|k: int| 0 <= k < st.visited.len() ==> 0 <= #[trigger] st.visited[k] < st.sm.len()
}

/// Distinct integers drawn from `[0, n)` number at most `n`.
proof fn lemma_distinct_bounded(v: Seq<int>, n: int)
    requires
        v.no_duplicates(),
        n >= 0,
        forall|k: int| 0 <= k < v.len() ==> 0 <= #[trigger] v[k] < n,
    ensures
        v.len() <= n,
{
    broadcast use vstd::set::group_set_axioms, vstd::seq_lib::seq_to_set_is_finite;

    v.unique_seq_to_set();
    let rng = vstd::set_lib::set_int_range(0, n);
    vstd::set_lib::lemma_int_range(0, n);
    assert forall|x: int| v.to_set().contains(x) implies rng.contains(x) by {
        assert(v.contains(x));
    }
    vstd::set_lib::lemma_len_subset(v.to_set(), rng);
}

/// A well-formed arena holds at most one file per store entry, plus
/// standard input.
proof fn lemma_sm_len_bound(store: StoreView, sm: Seq<(Option<Seq<char>>, Seq<char>)>)
    requires
        sm_wf(store, sm),
    ensures
        sm.len() <= store.entries.len() + 1,
{
    broadcast use vstd::set::group_set_axioms, vstd::seq_lib::seq_to_set_is_finite;

    let names = sm.map_values(|f: (Option<Seq<char>>, Seq<char>)| f.0);
    assert(names.no_duplicates());
    names.unique_seq_to_set();
    let somes = store.entries.map_values(|e: (Seq<char>, Seq<char>)| Some(e.0));
    somes.lemma_cardinality_of_set();
    let big = somes.to_set().insert(None);
    assert forall|x: Option<Seq<char>>| names.to_set().contains(x) implies big.contains(x) by {
        assert(names.contains(x));
        let i = choose|i: int| 0 <= i < names.len() && names[i] == x;
        match sm[i].0 {
            Some(p) => {
                let e = choose|e: int|
                    0 <= e < store.entries.len() && (#[trigger] store.entries[e]).0 == p;
                assert(somes[e] == Some(p));
                assert(somes.contains(Some(p)));
            },
            None => {},
        }
    }
    vstd::set_lib::lemma_len_subset(names.to_set(), big);
    vstd::set::axiom_set_insert_len(somes.to_set(), None);
}

/// In a well-formed state, the visited list cannot outnumber the store.
pub proof fn lemma_visited_bound(store: StoreView, st: RState)
    requires
        rstate_wf(store, st),
    ensures
        st.visited.len() <= store.entries.len() + 1,
{
    lemma_distinct_bounded(st.visited, st.sm.len() as int);
    lemma_sm_len_bound(store, st.sm);
}

/// What resolving one file does to the traversal state: nothing if the file
/// was already visited; otherwise the file is recorded as visited first, its
/// text is parsed, a parse error is recorded and ends the file's
/// contribution, and otherwise its items are walked in document order. In
/// the restricted intermediate-language mode the parsed unit is discarded
/// and no imports are followed. The fuel bounds the recursion depth and is
/// never exhausted when it starts at least one greater than the number of
/// files that can still be discovered.
pub open spec fn spec_resolve_file(
    cfg: CfgView,
    yul: bool,
    store: StoreView,
    st: RState,
    id: int,
    fuel: nat,
) -> RState
    decreases fuel, 0int,
{
    if fuel == 0 {
        st
    } else if st.visited.contains(id) {
        st
    } else if !(0 <= id < st.sm.len()) {
        st
    } else {
        let st1 = RState { sm: st.sm, visited: st.visited.push(id), diags: st.diags };
        match crate::parser::parse_from(st.sm[id].1, id as usize, 0) {
            Err(sp) => RState {
                sm: st1.sm,
                visited: st1.visited,
                diags: st1.diags.push(Diagnostic { kind: DiagKind::ParseError, span: Some(sp) }),
            },
            Ok(items) => if yul {
                st1
            } else {
                spec_resolve_items(cfg, yul, store, st1, st.sm[id].0, items, 0, (fuel - 1) as nat)
            },
        }
    }
}

/// Walks the items of one parsed file from index `k` on: a pragma directive
/// records its validation diagnostics; an import directive resolves its path
/// relative to the importing file and recursively resolves the found file,
/// or records one resolution error anchored at the directive; other items
/// are inert. A failure never stops the remaining items.
pub open spec fn spec_resolve_items(
    cfg: CfgView,
    yul: bool,
    store: StoreView,
    st: RState,
    parent: Option<Seq<char>>,
    items: Seq<crate::ast::ItemV>,
    k: int,
    fuel: nat,
) -> RState
    decreases fuel, items.len() - k + 1,
{
    if k < 0 || k >= items.len() {
        st
    } else {
        let st1 = match items[k].kind {
            crate::ast::ItemKindV::Pragma(pt) => RState {
                sm: st.sm,
                visited: st.visited,
                diags: st.diags + spec_pragma_diags(items[k].span, pt),
            },
            crate::ast::ItemKindV::Import { path } => match spec_resolve_path(
                cfg,
                store.entries,
                path,
                parent,
            ) {
                Err(e) => RState {
                    sm: st.sm,
                    visited: st.visited,
                    diags: st.diags.push(
                        Diagnostic { kind: resolve_err_kind(e), span: Some(items[k].span) },
                    ),
                },
                Ok(sidx) => {
                    let lr = spec_load(st.sm, Some(store.entries[sidx].0), store.entries[sidx].1);
                    spec_resolve_file(
                        cfg,
                        yul,
                        store,
                        RState { sm: lr.0, visited: st.visited, diags: st.diags },
                        lr.1,
                        fuel,
                    )
                },
            },
            crate::ast::ItemKindV::Other => st,
        };
        spec_resolve_items(cfg, yul, store, st1, parent, items, k + 1, fuel)
    }
}

/// Resolving one entry path: the path is resolved with no parent context; a
/// failure is recorded unanchored; a success loads the file and resolves it
/// recursively.
pub open spec fn spec_resolve_entry(
    cfg: CfgView,
    yul: bool,
    store: StoreView,
    st: RState,
    path: Seq<char>,
    fuel: nat,
) -> RState {
    match spec_resolve_path(cfg, store.entries, path, None) {
        Err(e) => RState {
            sm: st.sm,
            visited: st.visited,
            diags: st.diags.push(Diagnostic { kind: resolve_err_kind(e), span: None }),
        },
        Ok(sidx) => {
            let lr = spec_load(st.sm, Some(store.entries[sidx].0), store.entries[sidx].1);
            spec_resolve_file(
                cfg,
                yul,
                store,
                RState { sm: lr.0, visited: st.visited, diags: st.diags },
                lr.1,
                fuel,
            )
        },
    }
}

/// Entry paths are processed in the order given; one entry's failure never
/// stops the entries after it.
pub open spec fn spec_entries(
    cfg: CfgView,
    yul: bool,
    store: StoreView,
    st: RState,
    paths: Seq<Seq<char>>,
    k: int,
    fuel: nat,
) -> RState
    decreases paths.len() - k,
{
    if k < 0 || k >= paths.len() {
        st
    } else {
        spec_entries(
            cfg,
            yul,
            store,
            spec_resolve_entry(cfg, yul, store, st, paths[k], fuel),
            paths,
            k + 1,
            fuel,
        )
    }
}

/// The whole traversal: standard input first when requested (its failure is
/// recorded unanchored), then each entry path in order.
pub open spec fn spec_parse_and_resolve(
    cfg: CfgView,
    yul: bool,
    store: StoreView,
    st: RState,
    use_stdin: bool,
    paths: Seq<Seq<char>>,
    fuel: nat,
) -> RState {
    let st0 = if use_stdin {
        match store.stdin {
            None => RState {
                sm: st.sm,
                visited: st.visited,
                diags: st.diags.push(
                    Diagnostic { kind: DiagKind::StdinUnavailable, span: None },
                ),
            },
            Some(txt) => {
                let lr = spec_load(st.sm, None, txt);
                spec_resolve_file(
                    cfg,
                    yul,
                    store,
                    RState { sm: lr.0, visited: st.visited, diags: st.diags },
                    lr.1,
                    fuel,
                )
            },
        }
    } else {
        st
    };
    spec_entries(cfg, yul, store, st0, paths, 0, fuel)
}

/// The traversal state carried by a session and a resolver.
pub open spec fn run_state(sess: crate::session::Session, r: Resolver) -> RState {
    RState { sm: sess.source_map@, visited: r@, diags: sess.dcx@ }
}

/// The resolver: the import configuration and the files already visited
/// during the current invocation, in discovery order.
pub struct Resolver {
    pub file_resolver: FileResolver,
    /// Ids of the files visited so far, in discovery order; only the
    /// resolver itself appends to it.
    pub files: Vec<usize>,
}

impl View for Resolver {
    type V = Seq<int>;

    /// The ids visited so far, in discovery order.
    open spec fn view(&self) -> Seq<int> {
        self.files@.map_values(|u: usize| u as int)
    }
}

impl Resolver {
    /// The configuration, as contracts see it.
    pub open spec fn cfg(&self) -> CfgView {
        self.file_resolver@
    }
}

impl Resolver {
    /// Creates a new resolver with an empty configuration and nothing
    /// visited.
    pub fn new() -> (r: Resolver)
        ensures
            r.cfg().maps == Seq::<(Seq<char>, Seq<char>)>::empty(),
            r.cfg().incs == Seq::<Seq<char>>::empty(),
            r@ == Seq::<int>::empty(),
    {
        let r = Resolver { file_resolver: FileResolver::new(), files: Vec::new() };
        proof {
            assert(r@ =~= Seq::<int>::empty());
        }
        r
    }

    /// The ids of the files visited so far, in discovery order.
    pub fn visited_files(&self) -> (r: &Vec<usize>)
        ensures
            r@.map_values(|u: usize| u as int) == self@,
    {
        &self.files
    }

    /// Validates one pragma directive, recording the diagnostics that
    /// [`spec_pragma_diags`] defines for it.
    pub fn check_pragma(
        &mut self,
        sess: &mut crate::session::Session,
        span: Span,
        pragma: &PragmaTokens,
    )
        ensures
            *final(self) == *old(self),
            final(sess).source_map == old(sess).source_map,
            final(sess).args == old(sess).args,
            final(sess).dcx@ == old(sess).dcx@ + spec_pragma_diags(span, pragma@),
    {
        let ghost oldd = sess.dcx@;
        match pragma {
            PragmaTokens::Version(id, _req) => {
                if !chars_eq_str(&id.name, "solidity") {
                    sess.dcx.err(DiagKind::NonSolidityVersionPragma, Some(id.span));
                    proof {
                        assert(sess.dcx@ =~= oldd + spec_pragma_diags(span, pragma@));
                    }
                } else {
                    proof {
                        assert(sess.dcx@ =~= oldd + spec_pragma_diags(span, pragma@));
                    }
                }
            },
            PragmaTokens::Custom(name, value) => {
                let accepted: bool = match value {
                    Some(v) => (chars_eq_str(name, "abicoder") && (chars_eq_str(v, "v1")
                        || chars_eq_str(v, "v2"))) || (chars_eq_str(name, "experimental") && (
                    chars_eq_str(v, "ABIEncoderV2") || chars_eq_str(v, "SMTChecker"))),
                    None => false,
                };
                if accepted {
                    proof {
                        assert(sess.dcx@ =~= oldd + spec_pragma_diags(span, pragma@));
                    }
                } else {
                    let exp_sol: bool = match value {
                        Some(v) => chars_eq_str(name, "experimental") && chars_eq_str(
                            v,
                            "solidity",
                        ),
                        None => false,
                    };
                    if exp_sol {
                        sess.dcx.err(DiagKind::ExperimentalSolidity, None);
                    } else {
                        sess.dcx.err(DiagKind::UnknownPragma, Some(span));
                    }
                    proof {
                        assert(sess.dcx@ =~= oldd + spec_pragma_diags(span, pragma@));
                    }
                }
            },
            PragmaTokens::Verbatim => {
                sess.dcx.err(DiagKind::UnknownPragma, Some(span));
                proof {
                    assert(sess.dcx@ =~= oldd + spec_pragma_diags(span, pragma@));
                }
            },
        }
    }
}


/// Every sequence is a prefix of itself.
pub proof fn lemma_prefix_refl<A>(s: Seq<A>)
    ensures
        s.is_prefix_of(s),
{
    assert(s.take(s.len() as int) =~= s);
}

/// The items of a parsed unit, as the spec traversal sees them.
pub open spec fn items_view(items: Vec<Item>) -> Seq<crate::ast::ItemV> {
    items@.map_values(|it: Item| it@)
}

/// Entry path strings, as the spec traversal sees them.
pub open spec fn paths_view(paths: Vec<String>) -> Seq<Seq<char>> {
    paths@.map_values(|s: String| s@)
}

/// The spec view of an optional parent path.
pub open spec fn opt_chars_view(p: Option<Vec<char>>) -> Option<Seq<char>> {
    match p {
        Some(v) => Some(v@),
        None => None,
    }
}

/// Loading a file whose name is backed by the store (or is standard input)
/// keeps the traversal state well formed, only extends the arena, and yields
/// a valid id.
pub proof fn lemma_load_preserves_wf(
    store: StoreView,
    st: RState,
    name: Option<Seq<char>>,
    src: Seq<char>,
)
    requires
        rstate_wf(store, st),
        match name {
            Some(p) => exists|e: int|
                0 <= e < store.entries.len() && (#[trigger] store.entries[e]).0 == p,
            None => true,
        },
    ensures
        rstate_wf(store, RState { sm: spec_load(st.sm, name, src).0, visited: st.visited, diags: st.diags }),
        st.sm.is_prefix_of(spec_load(st.sm, name, src).0),
        0 <= spec_load(st.sm, name, src).1 < spec_load(st.sm, name, src).0.len(),
{
    crate::source_map::lemma_name_index_valid(st.sm, name, 0);
    let i = crate::source_map::name_index(st.sm, name);
    if i >= 0 {
        lemma_prefix_refl(st.sm);
    } else {
        crate::source_map::lemma_name_index_none(st.sm, name, 0);
        assert(st.sm.push((name, src)).take(st.sm.len() as int) =~= st.sm);
    }
}

impl Resolver {
    /// Resolves one already-loaded file, recursively: nothing happens if it
    /// was visited before (the cycle-breaking dedup); otherwise it is
    /// recorded as visited before its imports are followed, so traversal
    /// terminates on cyclic graphs. The contract pins the whole outcome to
    /// [`spec_resolve_file`].
    fn resolve_file(
        &mut self,
        sess: &mut crate::session::Session,
        store: &FileStore,
        yul: bool,
        id: usize,
    )
        requires
            rstate_wf(store@, run_state(*old(sess), *old(self))),
            id < old(sess).source_map@.len(),
        ensures
            rstate_wf(store@, run_state(*final(sess), *final(self))),
            old(self)@.is_prefix_of(final(self)@),
            old(sess).source_map@.is_prefix_of(final(sess).source_map@),
            old(sess).dcx@.is_prefix_of(final(sess).dcx@),
            final(self).cfg() == old(self).cfg(),
            final(sess).args == old(sess).args,
            forall|f: nat|
                f + old(self)@.len() >= store@.entries.len() + 2 ==> run_state(
                    *final(sess),
                    *final(self),
                ) == #[trigger] spec_resolve_file(
                    old(self).cfg(),
                    yul,
                    store@,
                    run_state(*old(sess), *old(self)),
                    id as int,
                    f,
                ),
        decreases store@.entries.len() + 2 - self@.len(), 0int,
    {
        let ghost st0 = run_state(*old(sess), *old(self));
        let ghost cfg = self.cfg();
        // dedup: a file already visited is not processed again
        let n = self.files.len();
        let mut j: usize = 0;
        let mut seen = false;
        let ghost mut wit: int = 0;
        while j < n
            invariant
                n == self@.len(),
                j <= n,
                seen ==> 0 <= wit < j && self@[wit] == id as int,
                !seen ==> forall|t: int| 0 <= t < j ==> self@[t] != id as int,
            decreases n - j,
        {
            if self.files[j] == id {
                seen = true;
                proof {
                    wit = j as int;
                    assert(self@[j as int] == id as int);
                }
            }
            j = j + 1;
        }
        if seen {
            proof {
                assert(st0.visited[wit] == id as int);
                assert(st0.visited.contains(id as int));
                lemma_prefix_refl(self@);
                lemma_prefix_refl(sess.source_map@);
                lemma_prefix_refl(sess.dcx@);
                assert forall|f: nat|
                    f + old(self)@.len() >= store@.entries.len() + 2 implies run_state(
                    *sess,
                    *self,
                ) == #[trigger] spec_resolve_file(cfg, yul, store@, st0, id as int, f) by {
                    if f == 0 {
                    } else {
                    }
                }
            }
            return ;
        }
        // record as visited before descending: this is what makes a cycle end
        self.files.push(id);
        proof {
            assert(self@ =~= st0.visited.push(id as int));
            assert(!st0.visited.contains(id as int));
            assert(st0.visited.is_prefix_of(self@)) by {
                assert(self@.take(st0.visited.len() as int) =~= st0.visited);
            }
        }
        let ghost st1 = RState { sm: st0.sm, visited: st0.visited.push(id as int), diags: st0.diags };
        let src = chars_clone(&sess.source_map.file(id).src);
        let parent: Option<Vec<char>> = match &sess.source_map.file(id).name {
            FileName::Real(p) => Some(chars_clone(p)),
            FileName::Stdin => None,
        };
        proof {
            assert(src@ == st0.sm[id as int].1);
            assert(opt_chars_view(parent) == st0.sm[id as int].0);
            lemma_visited_bound(store@, st0);
        }
        match crate::parser::parse_file(&src, id) {
            Err(sp) => {
                sess.dcx.err(DiagKind::ParseError, Some(sp));
                proof {
                    lemma_prefix_refl(sess.source_map@);
                    assert(st0.diags.is_prefix_of(sess.dcx@)) by {
                        assert(sess.dcx@.take(st0.diags.len() as int) =~= st0.diags);
                    }
                    assert forall|f: nat|
                        f + old(self)@.len() >= store@.entries.len() + 2 implies run_state(
                        *sess,
                        *self,
                    ) == #[trigger] spec_resolve_file(cfg, yul, store@, st0, id as int, f) by {
                        assert(f >= 1);
                    }
                }
            },
            Ok(unit) => {
                if yul {
                    proof {
                        lemma_prefix_refl(sess.source_map@);
                        lemma_prefix_refl(sess.dcx@);
                        assert forall|f: nat|
                            f + old(self)@.len() >= store@.entries.len() + 2 implies run_state(
                            *sess,
                            *self,
                        ) == #[trigger] spec_resolve_file(cfg, yul, store@, st0, id as int, f) by {
                            assert(f >= 1);
                        }
                    }
                    return ;
                }
                let ghost itemsv = items_view(unit.items);
                let ghost stcall = run_state(*sess, *self);
                proof {
                    assert(stcall == st1);
                    lemma_visited_bound(store@, stcall);
                }
                self.resolve_items(sess, store, yul, &parent, &unit.items, 0);
                proof {
                    assert forall|f: nat|
                        f + old(self)@.len() >= store@.entries.len() + 2 implies run_state(
                        *sess,
                        *self,
                    ) == #[trigger] spec_resolve_file(cfg, yul, store@, st0, id as int, f) by {
                        assert(f >= 1);
                        let fm1 = (f - 1) as nat;
                        assert(fm1 + st1.visited.len() >= store@.entries.len() + 2);
                        assert(fm1 + stcall.visited.len() >= store@.entries.len() + 2);
                        assert(run_state(*sess, *self) == spec_resolve_items(
                            cfg,
                            yul,
                            store@,
                            stcall,
                            opt_chars_view(parent),
                            itemsv,
                            0,
                            fm1,
                        ));
                        assert(run_state(*sess, *self) == spec_resolve_items(
                            cfg,
                            yul,
                            store@,
                            st1,
                            st0.sm[id as int].0,
                            itemsv,
                            0,
                            fm1,
                        ));
                    }
                    assert(st0.visited.is_prefix_of(self@));
                }
            },
        }
    }

    /// Walks the items of one file from index `k` on, mirroring
    /// [`spec_resolve_items`]: pragmas are validated, imports are resolved
    /// relative to the importing file and followed recursively, failures
    /// are recorded and never stop the remaining items.
    fn resolve_items(
        &mut self,
        sess: &mut crate::session::Session,
        store: &FileStore,
        yul: bool,
        parent: &Option<Vec<char>>,
        items: &Vec<Item>,
        k: usize,
    )
        requires
            rstate_wf(store@, run_state(*old(sess), *old(self))),
            k <= items@.len(),
        ensures
            rstate_wf(store@, run_state(*final(sess), *final(self))),
            old(self)@.is_prefix_of(final(self)@),
            old(sess).source_map@.is_prefix_of(final(sess).source_map@),
            old(sess).dcx@.is_prefix_of(final(sess).dcx@),
            final(self).cfg() == old(self).cfg(),
            final(sess).args == old(sess).args,
            forall|f: nat|
                f + old(self)@.len() >= store@.entries.len() + 2 ==> run_state(
                    *final(sess),
                    *final(self),
                ) == #[trigger] spec_resolve_items(
                    old(self).cfg(),
                    yul,
                    store@,
                    run_state(*old(sess), *old(self)),
                    opt_chars_view(*parent),
                    items_view(*items),
                    k as int,
                    f,
                ),
        decreases store@.entries.len() + 2 - self@.len(), items@.len() - k + 1int,
    {
        let ghost st0 = run_state(*old(sess), *old(self));
        let ghost cfg = self.cfg();
        let ghost itemsv = items_view(*items);
        let ghost pv = opt_chars_view(*parent);
        let ghost mut stcall = st0;
        let ghost mut fidv: int = 0;
        if k >= items.len() {
            proof {
                lemma_prefix_refl(self@);
                lemma_prefix_refl(sess.source_map@);
                lemma_prefix_refl(sess.dcx@);
            }
            return ;
        }
        let it = &items[k];
        let sp = it.span;
        proof {
            assert(itemsv[k as int] == items@[k as int]@);
        }
        match &it.kind {
            ItemKind::Pragma(pd) => {
                let toks = &pd.tokens;
                self.check_pragma(sess, sp, toks);
            },
            ItemKind::Import(im) => {
                match self.file_resolver.resolve_file(store, &im.path, parent, &mut sess.source_map) {
                    Err(e) => {
                        let kd = resolve_err_kind_x(e);
                        sess.dcx.err(kd, Some(sp));
                    },
                    Ok(fid) => {
                        proof {
                            lemma_resolve_path_valid(cfg, store@.entries, im.path@, pv);
                            let sidx = spec_resolve_path(cfg, store@.entries, im.path@, pv)->Ok_0;
                            lemma_load_preserves_wf(
                                store@,
                                st0,
                                Some(store@.entries[sidx].0),
                                store@.entries[sidx].1,
                            );
                            stcall = run_state(*sess, *self);
                            fidv = fid as int;
                        }
                        self.resolve_file(sess, store, yul, fid);
                    },
                }
            },
            ItemKind::Other => {},
        }
        let ghost stmid = run_state(*sess, *self);
        proof {
            assert(st0.visited.is_prefix_of(stmid.visited));
            lemma_visited_bound(store@, stmid);
        }
        self.resolve_items(sess, store, yul, parent, items, k + 1);
        proof {
            let stn = run_state(*sess, *self);
            assert forall|f: nat|
                f + old(self)@.len() >= store@.entries.len() + 2 implies stn
                == #[trigger] spec_resolve_items(cfg, yul, store@, st0, pv, itemsv, k as int, f) by {
                assert(f + stmid.visited.len() >= store@.entries.len() + 2);
                assert(stn == spec_resolve_items(cfg, yul, store@, stmid, pv, itemsv, (k + 1) as int, f));
                match itemsv[k as int].kind {
                    crate::ast::ItemKindV::Pragma(pt) => {
                        assert(stmid.diags =~= st0.diags + spec_pragma_diags(itemsv[k as int].span, pt));
                        assert(stmid == RState {
                            sm: st0.sm,
                            visited: st0.visited,
                            diags: st0.diags + spec_pragma_diags(itemsv[k as int].span, pt),
                        });
                    },
                    crate::ast::ItemKindV::Import { path } => {
                        match spec_resolve_path(cfg, store@.entries, path, pv) {
                            Err(e) => {
                                assert(stmid == RState {
                                    sm: st0.sm,
                                    visited: st0.visited,
                                    diags: st0.diags.push(
                                        Diagnostic { kind: resolve_err_kind(e), span: Some(itemsv[k as int].span) },
                                    ),
                                });
                            },
                            Ok(sidx) => {
                                let lr = spec_load(st0.sm, Some(store@.entries[sidx].0), store@.entries[sidx].1);
                                assert(stcall == RState { sm: lr.0, visited: st0.visited, diags: st0.diags });
                                assert(fidv == lr.1);
                                assert(f + stcall.visited.len() >= store@.entries.len() + 2);
                                assert(stmid == spec_resolve_file(cfg, yul, store@, stcall, fidv, f));
                                assert(stmid == spec_resolve_file(
                                    cfg,
                                    yul,
                                    store@,
                                    RState { sm: lr.0, visited: st0.visited, diags: st0.diags },
                                    lr.1,
                                    f,
                                ));
                            },
                        }
                    },
                    crate::ast::ItemKindV::Other => {
                        assert(stmid == st0);
                    },
                }
            }
        }
    }

    /// Resolves standard input (when requested) and then each entry path in
    /// the order given; one entry's failure never prevents the entries after
    /// it from being attempted. The outcome is exactly
    /// [`spec_parse_and_resolve`] of the inputs.
    pub fn parse_and_resolve(
        &mut self,
        sess: &mut crate::session::Session,
        store: &FileStore,
        yul: bool,
        stdin: bool,
        paths: &Vec<String>,
    )
        requires
            rstate_wf(store@, run_state(*old(sess), *old(self))),
        ensures
            rstate_wf(store@, run_state(*final(sess), *final(self))),
            old(self)@.is_prefix_of(final(self)@),
            old(sess).source_map@.is_prefix_of(final(sess).source_map@),
            old(sess).dcx@.is_prefix_of(final(sess).dcx@),
            final(self).cfg() == old(self).cfg(),
            final(sess).args == old(sess).args,
            forall|f: nat|
                f + old(self)@.len() >= store@.entries.len() + 2 ==> run_state(
                    *final(sess),
                    *final(self),
                ) == #[trigger] spec_parse_and_resolve(
                    old(self).cfg(),
                    yul,
                    store@,
                    run_state(*old(sess), *old(self)),
                    stdin,
                    paths_view(*paths),
                    f,
                ),
    {
        let ghost st0 = run_state(*old(sess), *old(self));
        let ghost cfg = self.cfg();
        let ghost pathsv = paths_view(*paths);
        let ghost mut stcall = st0;
        let ghost mut fidv: int = 0;
        if stdin {
            match self.file_resolver.load_stdin(store, &mut sess.source_map) {
                Err(e) => {
                    let kd = resolve_err_kind_x(e);
                    sess.dcx.err(kd, None);
                },
                Ok(fid) => {
                    proof {
                        lemma_load_preserves_wf(
                            store@,
                            st0,
                            None,
                            match store@.stdin {
                                Some(t) => t,
                                None => Seq::<char>::empty(),
                            },
                        );
                        stcall = run_state(*sess, *self);
                        fidv = fid as int;
                    }
                    self.resolve_file(sess, store, yul, fid);
                },
            }
        } else {
            proof {
                lemma_prefix_refl(self@);
                lemma_prefix_refl(sess.source_map@);
                lemma_prefix_refl(sess.dcx@);
            }
        }
        let ghost stmid = run_state(*sess, *self);
        proof {
            assert(st0.visited.is_prefix_of(stmid.visited));
            if stdin {
                match store@.stdin {
                    None => {
                        assert(stmid == RState {
                            sm: st0.sm,
                            visited: st0.visited,
                            diags: st0.diags.push(
                                Diagnostic { kind: DiagKind::StdinUnavailable, span: None },
                            ),
                        });
                    },
                    Some(txt) => {},
                }
            }
        }
        self.resolve_entries(sess, store, yul, paths, 0);
        proof {
            let stn = run_state(*sess, *self);
            assert forall|f: nat|
                f + old(self)@.len() >= store@.entries.len() + 2 implies stn
                == #[trigger] spec_parse_and_resolve(cfg, yul, store@, st0, stdin, pathsv, f) by {
                assert(f + stmid.visited.len() >= store@.entries.len() + 2);
                assert(stn == spec_entries(cfg, yul, store@, stmid, pathsv, 0, f));
                if stdin {
                    match store@.stdin {
                        None => {},
                        Some(txt) => {
                            let lr = spec_load(st0.sm, None, txt);
                            assert(stcall == RState { sm: lr.0, visited: st0.visited, diags: st0.diags });
                            assert(fidv == lr.1);
                            assert(f + stcall.visited.len() >= store@.entries.len() + 2);
                            assert(stmid == spec_resolve_file(cfg, yul, store@, stcall, fidv, f));
                            assert(stmid == spec_resolve_file(
                                cfg,
                                yul,
                                store@,
                                RState { sm: lr.0, visited: st0.visited, diags: st0.diags },
                                lr.1,
                                f,
                            ));
                        },
                    }
                } else {
                    assert(stmid == st0);
                }
            }
        }
    }

    /// Resolves the entry paths from index `k` on, in order, mirroring
    /// [`spec_entries`].
    fn resolve_entries(
        &mut self,
        sess: &mut crate::session::Session,
        store: &FileStore,
        yul: bool,
        paths: &Vec<String>,
        k: usize,
    )
        requires
            rstate_wf(store@, run_state(*old(sess), *old(self))),
            k <= paths@.len(),
        ensures
            rstate_wf(store@, run_state(*final(sess), *final(self))),
            old(self)@.is_prefix_of(final(self)@),
            old(sess).source_map@.is_prefix_of(final(sess).source_map@),
            old(sess).dcx@.is_prefix_of(final(sess).dcx@),
            final(self).cfg() == old(self).cfg(),
            final(sess).args == old(sess).args,
            forall|f: nat|
                f + old(self)@.len() >= store@.entries.len() + 2 ==> run_state(
                    *final(sess),
                    *final(self),
                ) == #[trigger] spec_entries(
                    old(self).cfg(),
                    yul,
                    store@,
                    run_state(*old(sess), *old(self)),
                    paths_view(*paths),
                    k as int,
                    f,
                ),
        decreases paths@.len() - k,
    {
        let ghost st0 = run_state(*old(sess), *old(self));
        let ghost cfg = self.cfg();
        let ghost pathsv = paths_view(*paths);
        let ghost mut stcall = st0;
        let ghost mut fidv: int = 0;
        if k >= paths.len() {
            proof {
                lemma_prefix_refl(self@);
                lemma_prefix_refl(sess.source_map@);
                lemma_prefix_refl(sess.dcx@);
            }
            return ;
        }
        let entry = &paths[k];
        let path = crate::text::text_chars(entry.as_str());
        let no_parent: Option<Vec<char>> = None;
        proof {
            assert(path@ == pathsv[k as int]);
        }
        match self.file_resolver.resolve_file(store, &path, &no_parent, &mut sess.source_map) {
            Err(e) => {
                let kd = resolve_err_kind_x(e);
                sess.dcx.err(kd, None);
            },
            Ok(fid) => {
                proof {
                    lemma_resolve_path_valid(cfg, store@.entries, path@, None);
                    let sidx = spec_resolve_path(cfg, store@.entries, path@, None)->Ok_0;
                    lemma_load_preserves_wf(
                        store@,
                        st0,
                        Some(store@.entries[sidx].0),
                        store@.entries[sidx].1,
                    );
                    stcall = run_state(*sess, *self);
                    fidv = fid as int;
                }
                self.resolve_file(sess, store, yul, fid);
            },
        }
        let ghost stmid = run_state(*sess, *self);
        proof {
            assert(st0.visited.is_prefix_of(stmid.visited));
            lemma_visited_bound(store@, stmid);
        }
        self.resolve_entries(sess, store, yul, paths, k + 1);
        proof {
            let stn = run_state(*sess, *self);
            assert forall|f: nat|
                f + old(self)@.len() >= store@.entries.len() + 2 implies stn
                == #[trigger] spec_entries(cfg, yul, store@, st0, pathsv, k as int, f) by {
                assert(f + stmid.visited.len() >= store@.entries.len() + 2);
                assert(stn == spec_entries(cfg, yul, store@, stmid, pathsv, (k + 1) as int, f));
                match spec_resolve_path(cfg, store@.entries, pathsv[k as int], None) {
                    Err(e) => {
                        assert(stmid == RState {
                            sm: st0.sm,
                            visited: st0.visited,
                            diags: st0.diags.push(
                                Diagnostic { kind: resolve_err_kind(e), span: None },
                            ),
                        });
                    },
                    Ok(sidx) => {
                        let lr = spec_load(st0.sm, Some(store@.entries[sidx].0), store@.entries[sidx].1);
                        assert(stcall == RState { sm: lr.0, visited: st0.visited, diags: st0.diags });
                        assert(fidv == lr.1);
                        assert(f + stcall.visited.len() >= store@.entries.len() + 2);
                        assert(stmid == spec_resolve_file(cfg, yul, store@, stcall, fidv, f));
                        assert(stmid == spec_resolve_file(
                            cfg,
                            yul,
                            store@,
                            RState { sm: lr.0, visited: st0.visited, diags: st0.diags },
                            lr.1,
                            f,
                        ));
                    },
                }
            }
        }
    }
}

} // verus!
