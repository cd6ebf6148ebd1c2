//! The guarantees the traversal gives, stated and proved over the spec
//! functions that the executable code is verified against.

use vstd::prelude::*;

use crate::resolver::{
    lemma_load_preserves_wf, lemma_prefix_refl, rstate_wf, spec_resolve_file, spec_resolve_items,
    CfgView, RState,
};
use crate::source_map::spec_load;
use crate::session::{spec_run, Args};
use crate::source_map::{lemma_name_index_hit, lemma_name_index_none, name_index, StoreView};

verus! {

/// A prefix of a prefix is a prefix.
pub proof fn lemma_prefix_trans<A>(a: Seq<A>, b: Seq<A>, c: Seq<A>)
    requires
        a.is_prefix_of(b),
        b.is_prefix_of(c),
    ensures
        a.is_prefix_of(c),
{
    assert(c.take(b.len() as int).take(a.len() as int) =~= c.take(a.len() as int));
}

/// Extending a list keeps its members.
pub proof fn lemma_prefix_keeps_members<A>(a: Seq<A>, b: Seq<A>, x: A)
    requires
        a.is_prefix_of(b),
        a.contains(x),
    ensures
        b.contains(x),
{
    let i = choose|i: int| 0 <= i < a.len() && a[i] == x;
    assert(b[i] == a[i]);
}

/// *Dedup.* Resolving a file preserves the traversal invariant — above all
/// that the visited list has no duplicates, so no file is ever parsed twice,
/// however tangled the import graph — and only ever extends the visited
/// list, the arena, and the diagnostics.
pub proof fn lemma_resolve_file_preserves(
    cfg: CfgView,
    yul: bool,
    store: StoreView,
    st: RState,
    id: int,
    fuel: nat,
)
    requires
        rstate_wf(store, st),
    ensures
        rstate_wf(store, spec_resolve_file(cfg, yul, store, st, id, fuel)),
        st.visited.is_prefix_of(spec_resolve_file(cfg, yul, store, st, id, fuel).visited),
        st.sm.is_prefix_of(spec_resolve_file(cfg, yul, store, st, id, fuel).sm),
        st.diags.is_prefix_of(spec_resolve_file(cfg, yul, store, st, id, fuel).diags),
    decreases fuel, 0int,
{
    lemma_prefix_refl(st.visited);
    lemma_prefix_refl(st.sm);
    lemma_prefix_refl(st.diags);
    if fuel == 0 || st.visited.contains(id) || !(0 <= id < st.sm.len()) {
    } else {
        let st1 = RState { sm: st.sm, visited: st.visited.push(id), diags: st.diags };
        assert(st1.visited.no_duplicates()) by {
            assert forall|a: int, b: int|
                0 <= a < st1.visited.len() && 0 <= b < st1.visited.len() && a != b implies st1.visited[a]
                != st1.visited[b] by {
                if a < st.visited.len() && b < st.visited.len() {
                } else if b == st.visited.len() {
                    assert(st.visited[a] != id) by {
                        if st.visited[a] == id {
                            assert(st.visited.contains(id));
                        }
                    }
                } else {
                    assert(st.visited[b] != id) by {
                        if st.visited[b] == id {
                            assert(st.visited.contains(id));
                        }
                    }
                }
            }
        }
        assert(rstate_wf(store, st1));
        assert(st.visited.is_prefix_of(st1.visited)) by {
            assert(st1.visited.take(st.visited.len() as int) =~= st.visited);
        }
        match crate::parser::parse_from(st.sm[id].1, id as usize, 0) {
            Err(sp) => {
                let r = spec_resolve_file(cfg, yul, store, st, id, fuel);
                assert(st.diags.is_prefix_of(r.diags)) by {
                    assert(r.diags.take(st.diags.len() as int) =~= st.diags);
                }
            },
            Ok(items) => {
                if yul {
                } else {
                    lemma_resolve_items_preserves(
                        cfg,
                        yul,
                        store,
                        st1,
                        st.sm[id].0,
                        items,
                        0,
                        (fuel - 1) as nat,
                    );
                    let r = spec_resolve_items(
                        cfg,
                        yul,
                        store,
                        st1,
                        st.sm[id].0,
                        items,
                        0,
                        (fuel - 1) as nat,
                    );
                    lemma_prefix_trans(st.visited, st1.visited, r.visited);
                }
            },
        }
    }
}

/// *Dedup*, item-walk form: walking the items of a file preserves the
/// traversal invariant and only extends state.
pub proof fn lemma_resolve_items_preserves(
    cfg: CfgView,
    yul: bool,
    store: StoreView,
    st: RState,
    parent: Option<Seq<char>>,
    items: Seq<crate::ast::ItemV>,
    k: int,
    fuel: nat,
)
    requires
        rstate_wf(store, st),
    ensures
        rstate_wf(store, spec_resolve_items(cfg, yul, store, st, parent, items, k, fuel)),
        st.visited.is_prefix_of(
            spec_resolve_items(cfg, yul, store, st, parent, items, k, fuel).visited,
        ),
        st.sm.is_prefix_of(spec_resolve_items(cfg, yul, store, st, parent, items, k, fuel).sm),
        st.diags.is_prefix_of(
            spec_resolve_items(cfg, yul, store, st, parent, items, k, fuel).diags,
        ),
    decreases fuel, items.len() - k + 1int,
{
    lemma_prefix_refl(st.visited);
    lemma_prefix_refl(st.sm);
    lemma_prefix_refl(st.diags);
    if k < 0 || k >= items.len() {
    } else {
        let st1 = match items[k].kind {
            crate::ast::ItemKindV::Pragma(pt) => RState {
                sm: st.sm,
                visited: st.visited,
                diags: st.diags + crate::resolver::spec_pragma_diags(items[k].span, pt),
            },
            crate::ast::ItemKindV::Import { path } => match crate::resolver::spec_resolve_path(
                cfg,
                store.entries,
                path,
                parent,
            ) {
                Err(e) => RState {
                    sm: st.sm,
                    visited: st.visited,
                    diags: st.diags.push(
                        crate::diag::Diagnostic {
                            kind: crate::resolver::resolve_err_kind(e),
                            span: Some(items[k].span),
                        },
                    ),
                },
                Ok(sidx) => {
                    let lr = spec_load(st.sm, Some(store.entries[sidx].0), store.entries[sidx].1);
                    spec_resolve_file(
                        cfg,
                        yul,
                        store,
                        RState { sm: lr.0, visited: st.visited, diags: st.diags },
                        lr.1,
                        fuel,
                    )
                },
            },
            crate::ast::ItemKindV::Other => st,
        };
        assert(rstate_wf(store, st1) && st.visited.is_prefix_of(st1.visited) && st.sm.is_prefix_of(
            st1.sm,
        ) && st.diags.is_prefix_of(st1.diags)) by {
            match items[k].kind {
                crate::ast::ItemKindV::Pragma(pt) => {
                    assert(st1.diags.take(st.diags.len() as int) =~= st.diags);
                },
                crate::ast::ItemKindV::Import { path } => {
                    match crate::resolver::spec_resolve_path(cfg, store.entries, path, parent) {
                        Err(e) => {
                            assert(st1.diags.take(st.diags.len() as int) =~= st.diags);
                        },
                        Ok(sidx) => {
                            crate::resolver::lemma_resolve_path_valid(
                                cfg,
                                store.entries,
                                path,
                                parent,
                            );
                            lemma_load_preserves_wf(
                                store,
                                st,
                                Some(store.entries[sidx].0),
                                store.entries[sidx].1,
                            );
                            let lr = spec_load(
                                st.sm,
                                Some(store.entries[sidx].0),
                                store.entries[sidx].1,
                            );
                            let stl = RState { sm: lr.0, visited: st.visited, diags: st.diags };
                            lemma_resolve_file_preserves(cfg, yul, store, stl, lr.1, fuel);
                            lemma_prefix_trans(st.sm, lr.0, st1.sm);
                        },
                    }
                },
                crate::ast::ItemKindV::Other => {},
            }
        }
        lemma_resolve_items_preserves(cfg, yul, store, st1, parent, items, k + 1, fuel);
        let r = spec_resolve_items(cfg, yul, store, st1, parent, items, k + 1, fuel);
        lemma_prefix_trans(st.visited, st1.visited, r.visited);
        lemma_prefix_trans(st.sm, st1.sm, r.sm);
        lemma_prefix_trans(st.diags, st1.diags, r.diags);
    }
}

/// *Dedup*, second half: a file that was visited before contributes nothing
/// more — resolving it again changes no state at all, which is what ends a
/// cycle such as a file graph where two files import each other.
pub proof fn lemma_visited_once(
    cfg: CfgView,
    yul: bool,
    store: StoreView,
    st: RState,
    id: int,
    fuel: nat,
)
    requires
        st.visited.contains(id),
    ensures
        spec_resolve_file(cfg, yul, store, st, id, fuel) == st,
{
}

/// *Entry independence.* Resolving a loaded file always records it as
/// visited, whatever diagnostics earlier entries left behind: an earlier
/// entry's failure cannot make a later entry be skipped.
pub proof fn lemma_file_always_visited(
    cfg: CfgView,
    yul: bool,
    store: StoreView,
    st: RState,
    id: int,
    fuel: nat,
)
    requires
        rstate_wf(store, st),
        fuel > 0,
        0 <= id < st.sm.len(),
    ensures
        spec_resolve_file(cfg, yul, store, st, id, fuel).visited.contains(id),
{
    if st.visited.contains(id) {
    } else {
        let st1 = RState { sm: st.sm, visited: st.visited.push(id), diags: st.diags };
        assert(st1.visited.contains(id)) by {
            assert(st1.visited[st.visited.len() as int] == id);
        }
        lemma_resolve_file_preserves(cfg, yul, store, st, id, fuel);
        let r = spec_resolve_file(cfg, yul, store, st, id, fuel);
        match crate::parser::parse_from(st.sm[id].1, id as usize, 0) {
            Err(sp) => {},
            Ok(items) => {
                if yul {
                } else {
                    assert(st1.visited.no_duplicates()) by {
                        assert forall|a: int, b: int|
                            0 <= a < st1.visited.len() && 0 <= b < st1.visited.len() && a != b implies
                            st1.visited[a] != st1.visited[b] by {
                            if a < st.visited.len() && b < st.visited.len() {
                            } else if b == st.visited.len() {
                                assert(st.visited[a] != id) by {
                                    if st.visited[a] == id {
                                        assert(st.visited.contains(id));
                                    }
                                }
                            } else {
                                assert(st.visited[b] != id) by {
                                    if st.visited[b] == id {
                                        assert(st.visited.contains(id));
                                    }
                                }
                            }
                        }
                    }
                    lemma_resolve_items_preserves(
                        cfg,
                        yul,
                        store,
                        st1,
                        st.sm[id].0,
                        items,
                        0,
                        (fuel - 1) as nat,
                    );
                    lemma_prefix_keeps_members(st1.visited, r.visited, id);
                }
            },
        }
    }
}

/// *Identity over path-string equality.* A file's identity is its place in
/// the arena, never its path string: loading the same underlying store
/// entry a second time — however its path was written down — returns the
/// id of the first load and adds nothing to the arena. Together with the
/// dedup law this is why two path strings that reach one file cause one
/// parse.
pub proof fn lemma_identity_not_path_string(
    sm: Seq<(Option<Seq<char>>, Seq<char>)>,
    path: Seq<char>,
    src: Seq<char>,
)
    ensures
        spec_load(spec_load(sm, Some(path), src).0, Some(path), src) == spec_load(
            sm,
            Some(path),
            src,
        ),
{
    let i = name_index(sm, Some(path));
    crate::source_map::lemma_name_index_valid(sm, Some(path), 0);
    if i >= 0 {
    } else {
        lemma_name_index_none(sm, Some(path), 0);
        let pushed = sm.push((Some(path), src));
        lemma_name_index_hit(pushed, Some(path), 0, sm.len() as int);
    }
}

/// *Order determinism.* The diagnostics of a run are a pure function of the
/// validated arguments and the file-store snapshot: two runs on equal
/// inputs emit equal diagnostics in the same order.
pub proof fn lemma_order_determinism(a1: Args, a2: Args, s1: StoreView, s2: StoreView)
    requires
        a1 == a2,
        s1 == s2,
    ensures
        spec_run(a1, s1) == spec_run(a2, s2),
{
}


/// *Entry independence*, full form: the diagnostics recorded so far never
/// steer the traversal. Starting from the same arena and visited list but
/// any other diagnostic history, resolving a file visits the same files,
/// loads the same arena, and appends the same new diagnostics. An earlier
/// entry's errors therefore cannot change what a later entry does.
pub proof fn lemma_errors_never_steer(
    cfg: CfgView,
    yul: bool,
    store: StoreView,
    st: RState,
    d2: Seq<crate::diag::Diagnostic>,
    id: int,
    fuel: nat,
)
    requires
        rstate_wf(store, st),
    ensures
        ({
            let r1 = spec_resolve_file(cfg, yul, store, st, id, fuel);
            let r2 = spec_resolve_file(
                cfg,
                yul,
                store,
                RState { sm: st.sm, visited: st.visited, diags: d2 },
                id,
                fuel,
            );
            &&& r2.sm == r1.sm
            &&& r2.visited == r1.visited
            &&& r2.diags == d2 + r1.diags.skip(st.diags.len() as int)
        }),
    decreases fuel, 0int,
{
    let s2 = RState { sm: st.sm, visited: st.visited, diags: d2 };
    let r1 = spec_resolve_file(cfg, yul, store, st, id, fuel);
    let r2 = spec_resolve_file(cfg, yul, store, s2, id, fuel);
    if fuel == 0 || st.visited.contains(id) || !(0 <= id < st.sm.len()) {
        assert(r2.diags =~= d2 + r1.diags.skip(st.diags.len() as int));
    } else {
        let st1 = RState { sm: st.sm, visited: st.visited.push(id), diags: st.diags };
        let st2 = RState { sm: st.sm, visited: st.visited.push(id), diags: d2 };
        assert(st1.visited.no_duplicates()) by {
            assert forall|a: int, b: int|
                0 <= a < st1.visited.len() && 0 <= b < st1.visited.len() && a != b implies st1.visited[a]
                != st1.visited[b] by {
                if b == st.visited.len() {
                    assert(st.visited[a] != id) by {
                        if st.visited[a] == id {
                            assert(st.visited.contains(id));
                        }
                    }
                } else if a == st.visited.len() {
                    assert(st.visited[b] != id) by {
                        if st.visited[b] == id {
                            assert(st.visited.contains(id));
                        }
                    }
                }
            }
        }
        match crate::parser::parse_from(st.sm[id].1, id as usize, 0) {
            Err(sp) => {
                let d = crate::diag::Diagnostic {
                    kind: crate::diag::DiagKind::ParseError,
                    span: Some(sp),
                };
                assert(r1.diags == st.diags.push(d));
                assert(r2.diags == d2.push(d));
                assert(st.diags.push(d).skip(st.diags.len() as int) =~= seq![d]);
                assert(d2.push(d) =~= d2 + seq![d]);
            },
            Ok(items) => {
                if yul {
                    assert(r2.diags =~= d2 + r1.diags.skip(st.diags.len() as int));
                } else {
                    lemma_items_never_steer(
                        cfg,
                        yul,
                        store,
                        st1,
                        d2,
                        st.sm[id].0,
                        items,
                        0,
                        (fuel - 1) as nat,
                    );
                }
            },
        }
    }
}

/// *Entry independence*, item-walk form: see [`lemma_errors_never_steer`].
pub proof fn lemma_items_never_steer(
    cfg: CfgView,
    yul: bool,
    store: StoreView,
    st: RState,
    d2: Seq<crate::diag::Diagnostic>,
    parent: Option<Seq<char>>,
    items: Seq<crate::ast::ItemV>,
    k: int,
    fuel: nat,
)
    requires
        rstate_wf(store, st),
    ensures
        ({
            let r1 = spec_resolve_items(cfg, yul, store, st, parent, items, k, fuel);
            let r2 = spec_resolve_items(
                cfg,
                yul,
                store,
                RState { sm: st.sm, visited: st.visited, diags: d2 },
                parent,
                items,
                k,
                fuel,
            );
            &&& r2.sm == r1.sm
            &&& r2.visited == r1.visited
            &&& r2.diags == d2 + r1.diags.skip(st.diags.len() as int)
        }),
    decreases fuel, items.len() - k + 1int,
{
    let s2 = RState { sm: st.sm, visited: st.visited, diags: d2 };
    let r1 = spec_resolve_items(cfg, yul, store, st, parent, items, k, fuel);
    let r2 = spec_resolve_items(cfg, yul, store, s2, parent, items, k, fuel);
    if k < 0 || k >= items.len() {
        assert(r2.diags =~= d2 + r1.diags.skip(st.diags.len() as int));
    } else {
        // the states after item k, on each side; `delta` is what item k
        // appended, identical on both sides
        let m1 = match items[k].kind {
            crate::ast::ItemKindV::Pragma(pt) => RState {
                sm: st.sm,
                visited: st.visited,
                diags: st.diags + crate::resolver::spec_pragma_diags(items[k].span, pt),
            },
            crate::ast::ItemKindV::Import { path } => match crate::resolver::spec_resolve_path(
                cfg,
                store.entries,
                path,
                parent,
            ) {
                Err(e) => RState {
                    sm: st.sm,
                    visited: st.visited,
                    diags: st.diags.push(
                        crate::diag::Diagnostic {
                            kind: crate::resolver::resolve_err_kind(e),
                            span: Some(items[k].span),
                        },
                    ),
                },
                Ok(sidx) => {
                    let lr = spec_load(st.sm, Some(store.entries[sidx].0), store.entries[sidx].1);
                    spec_resolve_file(
                        cfg,
                        yul,
                        store,
                        RState { sm: lr.0, visited: st.visited, diags: st.diags },
                        lr.1,
                        fuel,
                    )
                },
            },
            crate::ast::ItemKindV::Other => st,
        };
        let delta = m1.diags.skip(st.diags.len() as int);
        assert(rstate_wf(store, m1) && st.diags.is_prefix_of(m1.diags) && m1.diags == st.diags
            + delta) by {
            match items[k].kind {
                crate::ast::ItemKindV::Pragma(pt) => {
                    assert(m1.diags.take(st.diags.len() as int) =~= st.diags);
                    assert(m1.diags =~= st.diags + delta);
                },
                crate::ast::ItemKindV::Import { path } => {
                    match crate::resolver::spec_resolve_path(cfg, store.entries, path, parent) {
                        Err(e) => {
                            assert(m1.diags.take(st.diags.len() as int) =~= st.diags);
                            assert(m1.diags =~= st.diags + delta);
                        },
                        Ok(sidx) => {
                            crate::resolver::lemma_resolve_path_valid(
                                cfg,
                                store.entries,
                                path,
                                parent,
                            );
                            lemma_load_preserves_wf(
                                store,
                                st,
                                Some(store.entries[sidx].0),
                                store.entries[sidx].1,
                            );
                            let lr = spec_load(
                                st.sm,
                                Some(store.entries[sidx].0),
                                store.entries[sidx].1,
                            );
                            let stl = RState { sm: lr.0, visited: st.visited, diags: st.diags };
                            lemma_resolve_file_preserves(cfg, yul, store, stl, lr.1, fuel);
                            assert(m1.diags =~= st.diags + delta);
                        },
                    }
                },
                crate::ast::ItemKindV::Other => {
                    assert(m1.diags.take(st.diags.len() as int) =~= st.diags);
                    assert(m1.diags =~= st.diags + delta);
                },
            }
        }
        // the same step from the other history appends the same delta
        let m2 = RState { sm: m1.sm, visited: m1.visited, diags: d2 + delta };
        assert(spec_resolve_items(cfg, yul, store, s2, parent, items, k, fuel)
            == spec_resolve_items(cfg, yul, store, m2, parent, items, k + 1, fuel)) by {
            match items[k].kind {
                crate::ast::ItemKindV::Pragma(pt) => {
                    assert(d2 + (st.diags + crate::resolver::spec_pragma_diags(
                        items[k].span,
                        pt,
                    )).skip(st.diags.len() as int) =~= d2 + crate::resolver::spec_pragma_diags(
                        items[k].span,
                        pt,
                    ));
                },
                crate::ast::ItemKindV::Import { path } => {
                    match crate::resolver::spec_resolve_path(cfg, store.entries, path, parent) {
                        Err(e) => {
                            let d = crate::diag::Diagnostic {
                                kind: crate::resolver::resolve_err_kind(e),
                                span: Some(items[k].span),
                            };
                            assert(st.diags.push(d).skip(st.diags.len() as int) =~= seq![d]);
                            assert(d2.push(d) =~= d2 + seq![d]);
                        },
                        Ok(sidx) => {
                            let lr = spec_load(
                                st.sm,
                                Some(store.entries[sidx].0),
                                store.entries[sidx].1,
                            );
                            let stl = RState { sm: lr.0, visited: st.visited, diags: st.diags };
                            crate::resolver::lemma_resolve_path_valid(
                                cfg,
                                store.entries,
                                path,
                                parent,
                            );
                            lemma_load_preserves_wf(
                                store,
                                st,
                                Some(store.entries[sidx].0),
                                store.entries[sidx].1,
                            );
                            lemma_errors_never_steer(cfg, yul, store, stl, d2, lr.1, fuel);
                        },
                    }
                },
                crate::ast::ItemKindV::Other => {
                    assert(d2 + st.diags.skip(st.diags.len() as int) =~= d2);
                },
            }
        }
        lemma_items_never_steer(cfg, yul, store, m1, d2 + delta, parent, items, k + 1, fuel);
        let rr1 = spec_resolve_items(cfg, yul, store, m1, parent, items, k + 1, fuel);
        lemma_resolve_items_preserves(cfg, yul, store, m1, parent, items, k + 1, fuel);
        let delta2 = rr1.diags.skip(m1.diags.len() as int);
        assert(rr1.diags =~= m1.diags + delta2);
        assert(r2.diags == (d2 + delta) + delta2);
        assert((d2 + delta) + delta2 =~= d2 + (delta + delta2));
        assert(r1.diags == rr1.diags);
        assert(r1.diags.skip(st.diags.len() as int) =~= delta + delta2);
    }
}

} // verus!
