//! The compile session: the per-invocation state bundle and the driver that
//! guarantees finalization on every exit path.

use vstd::prelude::*;

use crate::diag::{DiagCtxt, DiagKind, Diagnostic, ErrorsSeen};
use crate::resolver::{paths_view, rstate_wf, spec_parse_and_resolve, CfgView, RState, Resolver};
use crate::source_map::{FileStore, SourceMap, StoreView};
use crate::text::{chars_eq_str, text_chars};

verus! {

/// The language variant being compiled.
#[derive(Clone, Copy, PartialEq, Eq, Structural, Debug)]
pub enum Language {
    Solidity,
    Yul,
}

/// The requested color mode of the diagnostic renderer. The renderer itself
/// lives outside the library; the preference is carried through unread.
#[derive(Clone, Copy, PartialEq, Eq, Structural, Debug)]
pub enum ColorChoice {
    Always,
    Auto,
    Never,
}

/// One `name => path-prefix` import remapping given on the command line.
pub struct ImportMapping {
    pub map: String,
    pub path: String,
}

/// The validated run configuration of one invocation.
pub struct Args {
    pub language: Language,
    pub import_map: Vec<ImportMapping>,
    pub import_path: Vec<String>,
    /// Entry inputs; the sentinel `-` requests standard input.
    pub input: Vec<String>,
    pub color: ColorChoice,
    /// Relaxes the guard that refuses the restricted intermediate-language
    /// mode; stands for the integration-testing escape hatch.
    pub allow_yul: bool,
}

/// The per-invocation state bundle: the diagnostic context and the source
/// map live exactly as long as one compile run.
pub struct Session {
    pub dcx: DiagCtxt,
    pub source_map: SourceMap,
    pub args: Args,
}

impl Session {
    /// The diagnostic context.
    pub fn dcx(&self) -> (r: &DiagCtxt)
        ensures
            r@ == self.dcx@,
    {
        &self.dcx
    }

    /// The source map.
    pub fn source_map(&self) -> (r: &SourceMap)
        ensures
            r@ == self.source_map@,
    {
        &self.source_map
    }
}

/// The compile invocation: owns the session and produces the finalization
/// report.
pub struct Compiler {
    pub sess: Session,
}

impl Compiler {
    /// The finalization step: reports the final error count.
    pub fn finish_diagnostics(&self) -> (n: usize)
        ensures
            n == self.sess.dcx@.len(),
    {
        self.sess.dcx.error_count()
    }
}


/// The import maps of a run configuration, as contracts see them.
pub open spec fn maps_view(ms: Vec<ImportMapping>) -> Seq<(Seq<char>, Seq<char>)> {
    ms@.map_values(|m: ImportMapping| (m.map@, m.path@))
}

/// A list of strings, as character sequences.
pub open spec fn strs_view(ps: Vec<String>) -> Seq<Seq<char>> {
    ps@.map_values(|s: String| s@)
}

/// Whether entry `k` repeats an earlier entry.
pub open spec fn dup_at(ps: Seq<Seq<char>>, k: int) -> bool {
    exists|j: int| 0 <= j < k && ps[j] == ps[k]
}

/// Index of the first repeated entry at or after `k`, or `-1`.
pub open spec fn first_dup_from(ps: Seq<Seq<char>>, k: int) -> int
    decreases ps.len() - k,
        when 0 <= k
{
    if k >= ps.len() {
        -1
    } else if dup_at(ps, k) {
        k
    } else {
        first_dup_from(ps, k + 1)
    }
}

proof fn lemma_first_dup_exists(ps: Seq<Seq<char>>, j: int, k: int)
    requires
        0 <= j <= k < ps.len(),
        dup_at(ps, k),
    ensures
        first_dup_from(ps, j) != -1,
    decreases k - j,
{
    if !dup_at(ps, j) {
        lemma_first_dup_exists(ps, j + 1, k);
    }
}

proof fn lemma_first_dup_miss(ps: Seq<Seq<char>>, j: int)
    requires
        0 <= j,
        forall|k: int| j <= k < ps.len() ==> !dup_at(ps, k),
    ensures
        first_dup_from(ps, j) == -1,
    decreases ps.len() - j,
{
    if j < ps.len() {
        lemma_first_dup_miss(ps, j + 1);
    }
}

/// Whether some input at or after `k` is the standard-input sentinel `-`.
pub open spec fn has_stdin_from(inputs: Seq<Seq<char>>, k: int) -> bool
    decreases inputs.len() - k,
        when 0 <= k
{
    if k >= inputs.len() {
        false
    } else if inputs[k] == "-"@ {
        true
    } else {
        has_stdin_from(inputs, k + 1)
    }
}

/// The inputs at or after `k` that are real entry paths, in order.
pub open spec fn non_dash_from(inputs: Seq<Seq<char>>, k: int) -> Seq<Seq<char>>
    decreases inputs.len() - k,
        when 0 <= k
{
    if k >= inputs.len() {
        Seq::<Seq<char>>::empty()
    } else if inputs[k] == "-"@ {
        non_dash_from(inputs, k + 1)
    } else {
        seq![inputs[k]] + non_dash_from(inputs, k + 1)
    }
}

fn has_stdin_x(inputs: &Vec<String>, k: usize) -> (r: bool)
    requires
        k <= inputs@.len(),
    ensures
        r == has_stdin_from(strs_view(*inputs), k as int),
    decreases inputs@.len() - k,
{
    if k >= inputs.len() {
        false
    } else {
        let sv = text_chars(inputs[k].as_str());
        if chars_eq_str(&sv, "-") {
            true
        } else {
            has_stdin_x(inputs, k + 1)
        }
    }
}

fn non_dash_x(inputs: &Vec<String>, k: usize) -> (r: Vec<String>)
    requires
        k <= inputs@.len(),
    ensures
        paths_view(r) == non_dash_from(strs_view(*inputs), k as int),
    decreases inputs@.len() - k,
{
    if k >= inputs.len() {
        let r: Vec<String> = Vec::new();
        proof {
            assert(paths_view(r) =~= Seq::<Seq<char>>::empty());
        }
        r
    } else {
        let sv = text_chars(inputs[k].as_str());
        let rest = non_dash_x(inputs, k + 1);
        if chars_eq_str(&sv, "-") {
            rest
        } else {
            let mut rest = rest;
            let ghost restv = paths_view(rest);
            rest.insert(0, inputs[k].clone());
            proof {
                assert(paths_view(rest) =~= seq![strs_view(*inputs)[k as int]] + restv);
            }
            rest
        }
    }
}

/// The diagnostics one invocation records, as a function of the validated
/// arguments and the file-store snapshot: the restricted-mode guard, then
/// the duplicate-import-path check, then the whole traversal (standard
/// input first, then each entry in order).
pub open spec fn spec_run(args: Args, store: StoreView) -> Seq<Diagnostic> {
    let yul = args.language == Language::Yul;
    if yul && !args.allow_yul {
        seq![Diagnostic { kind: DiagKind::YulNotSupported, span: None }]
    } else {
        let ips = strs_view(args.import_path);
        if first_dup_from(ips, 0) != -1 {
            seq![Diagnostic { kind: DiagKind::DuplicateImportPath, span: None }]
        } else {
            let inputs = strs_view(args.input);
            let cfg = CfgView { maps: maps_view(args.import_map), incs: ips };
            let st0 = RState {
                sm: Seq::empty(),
                visited: Seq::empty(),
                diags: Seq::empty(),
            };
            spec_parse_and_resolve(
                cfg,
                yul,
                store,
                st0,
                has_stdin_from(inputs, 0),
                non_dash_from(inputs, 0),
                (store.entries.len() + 2) as nat,
            ).diags
        }
    }
}

/// The compile body: refuses the restricted mode (outside the escape
/// hatch), configures the resolver, runs the traversal, and decides success
/// by asking the diagnostic context whether anything was recorded.
fn _run_compiler(compiler: &mut Compiler, store: &FileStore) -> (r: Result<(), ErrorsSeen>)
    requires
        old(compiler).sess.dcx@ == Seq::<Diagnostic>::empty(),
        old(compiler).sess.source_map@ == Seq::<(Option<Seq<char>>, Seq<char>)>::empty(),
    ensures
        final(compiler).sess.dcx@ == spec_run(old(compiler).sess.args, store@),
        r is Err <==> final(compiler).sess.dcx@.len() > 0,
        final(compiler).sess.args == old(compiler).sess.args,
{
    let ghost args0 = compiler.sess.args;
    let yul = matches!(compiler.sess.args.language, Language::Yul);
    if yul && !compiler.sess.args.allow_yul {
        compiler.sess.dcx.err(DiagKind::YulNotSupported, None);
        proof {
            assert(compiler.sess.dcx@ =~= spec_run(args0, store@));
        }
        return Err(ErrorsSeen);
    }
    let mut resolver = Resolver::new();
    let nm = compiler.sess.args.import_map.len();
    let mut k: usize = 0;
    while k < nm
        invariant
            nm == compiler.sess.args.import_map@.len(),
            k <= nm,
            resolver.cfg().maps == maps_view(compiler.sess.args.import_map).take(k as int),
            resolver.cfg().incs == Seq::<Seq<char>>::empty(),
            resolver@ == Seq::<int>::empty(),
        decreases nm - k,
    {
        let m = &compiler.sess.args.import_map[k];
        resolver.file_resolver.add_import_map(m.map.as_str(), m.path.as_str());
        k = k + 1;
        proof {
            assert(maps_view(compiler.sess.args.import_map).take(k as int) =~= maps_view(
                compiler.sess.args.import_map,
            ).take(k as int - 1).push((m.map@, m.path@)));
        }
    }
    proof {
        assert(maps_view(compiler.sess.args.import_map).take(nm as int) =~= maps_view(
            compiler.sess.args.import_map,
        ));
    }
    let ghost ips = strs_view(compiler.sess.args.import_path);
    let np = compiler.sess.args.import_path.len();
    let mut k2: usize = 0;
    while k2 < np
        invariant
            np == compiler.sess.args.import_path@.len(),
            ips == strs_view(compiler.sess.args.import_path),
            k2 <= np,
            resolver.cfg().maps == maps_view(compiler.sess.args.import_map),
            resolver.cfg().incs == ips.take(k2 as int),
            resolver@ == Seq::<int>::empty(),
            forall|j: int| 0 <= j < k2 ==> !dup_at(ips, j),
            compiler.sess.dcx@ == Seq::<Diagnostic>::empty(),
            compiler.sess.source_map@ == Seq::<(Option<Seq<char>>, Seq<char>)>::empty(),
            compiler.sess.args == args0,
            args0 == old(compiler).sess.args,
            !(args0.language == Language::Yul && !args0.allow_yul),
        decreases np - k2,
    {
        let pstr = &compiler.sess.args.import_path[k2];
        proof {
            assert(pstr@ == ips[k2 as int]);
        }
        let fresh = resolver.file_resolver.add_import_path(pstr.as_str());
        if !fresh {
            compiler.sess.dcx.err(DiagKind::DuplicateImportPath, None);
            proof {
                assert(crate::resolver::has_import_path(ips.take(k2 as int), pstr@));
                let j = choose|j: int|
                    0 <= j < ips.take(k2 as int).len() && ips.take(k2 as int)[j] == pstr@;
                assert(ips.take(k2 as int)[j] == ips[j]);
                assert(ips[j] == ips[k2 as int]);
                assert(dup_at(ips, k2 as int));
                lemma_first_dup_exists(ips, 0, k2 as int);
                assert(!(args0.language == Language::Yul && !args0.allow_yul));
                assert(first_dup_from(strs_view(args0.import_path), 0) != -1);
                assert(spec_run(args0, store@) == seq![
                    Diagnostic { kind: DiagKind::DuplicateImportPath, span: None },
                ]);
                assert(compiler.sess.dcx@ =~= spec_run(args0, store@));
            }
            return Err(ErrorsSeen);
        }
        k2 = k2 + 1;
        proof {
            assert(ips.take(k2 as int) =~= ips.take(k2 as int - 1).push(ips[k2 as int - 1]));
            assert forall|j: int| 0 <= j < k2 as int - 1 implies #[trigger] ips[j] != ips[k2 as int - 1] by {
                assert(ips.take(k2 as int - 1)[j] == ips[j]);
            }
            assert(!dup_at(ips, k2 as int - 1));
        }
    }
    proof {
        lemma_first_dup_miss(ips, 0);
        assert(ips.take(np as int) =~= ips);
    }
    let stdin = has_stdin_x(&compiler.sess.args.input, 0);
    let paths = non_dash_x(&compiler.sess.args.input, 0);
    proof {
        assert(rstate_wf(store@, crate::resolver::run_state(compiler.sess, resolver)));
    }
    resolver.parse_and_resolve(&mut compiler.sess, store, yul, stdin, &paths);
    proof {
        let f = (store@.entries.len() + 2) as nat;
        assert(crate::resolver::run_state(compiler.sess, resolver) == spec_parse_and_resolve(
            CfgView { maps: maps_view(args0.import_map), incs: ips },
            yul,
            store@,
            RState { sm: Seq::empty(), visited: Seq::empty(), diags: Seq::empty() },
            stdin,
            non_dash_from(strs_view(args0.input), 0),
            f,
        ));
        assert(compiler.sess.dcx@ == spec_run(args0, store@));
    }
    compiler.sess.dcx.has_errors()
}

/// The outcome of one invocation: the diagnostics in emission order, the
/// finalization report (the error count, produced on every exit path), and
/// whether the process exits nonzero.
pub struct RunOutcome {
    pub diagnostics: Vec<Diagnostic>,
    pub reported_errors: usize,
    pub exit_error: bool,
}

fn copy_diags(v: &Vec<Diagnostic>) -> (r: Vec<Diagnostic>)
    ensures
        r@ == v@,
{
    let n = v.len();
    let mut r: Vec<Diagnostic> = Vec::new();
    let mut i: usize = 0;
    while i < n
        invariant
            n == v@.len(),
            i <= n,
            r@ == v@.take(i as int),
        decreases n - i,
    {
        r.push(v[i]);
        i = i + 1;
        proof {
            assert(r@ =~= v@.take(i as int));
        }
    }
    proof {
        assert(r@ =~= v@);
    }
    r
}

/// Runs one compile invocation: builds a fresh session, runs the compile
/// body, and produces the finalization report. Whether the body succeeds,
/// returns early with an error, or aborts, the report is produced exactly
/// once and equals the number of diagnostics recorded; the invocation
/// succeeds exactly when nothing was recorded.
pub fn run_compiler(args: Args, store: &FileStore) -> (r: RunOutcome)
    ensures
        r.diagnostics@ == spec_run(args, store@),
        r.reported_errors == r.diagnostics@.len(),
        r.exit_error <==> r.diagnostics@.len() > 0,
{
    let sess = Session { dcx: DiagCtxt::new(), source_map: SourceMap::new(), args };
    let mut compiler = Compiler { sess };
    let body = _run_compiler(&mut compiler, store);
    let reported = compiler.finish_diagnostics();
    let exit_error = matches!(body, Err(_));
    let diagnostics = copy_diags(compiler.sess.dcx.diagnostics());
    RunOutcome { diagnostics, reported_errors: reported, exit_error }
}

} // verus!
