//! What a run over a project has to report: how many files, symbols, imports,
//! references and functions of each sort there are, and which come first.
use crate::engine::cfg::FunctionCfgReport;
use crate::engine::parse::ParseBatch;
use crate::engine::parse::ParseOutcome;
use crate::engine::references::CallReference;
use crate::engine::references::ReferenceBatch;
use crate::engine::references::ReferenceTarget;
use crate::engine::resolve;
use crate::engine::resolve::ImportEdge;
use crate::engine::resolve::ImportEdgeView;
use crate::engine::resolve::ImportTarget;
use crate::engine::resolve::ImportTargetView;
use crate::engine::semantic;
use crate::engine::semantic::symbol_classify::Symbol;
use crate::engine::semantic::symbol_classify::SymbolKind;
use crate::engine::semantic::SemanticBatch;
use crate::engine::semantic::SemanticRun;
use crate::scan::file_classify::FileEntry;
use crate::scan::ScanResult;
use crate::text;
use vstd::prelude::*;
use vstd::string::*;

verus! {

/// How many of `items` are as `wanted`.
pub open spec fn count<T>(items: Seq<T>, wanted: spec_fn(T) -> bool) -> nat {
    items.filter(wanted).len()
}

proof fn lemma_count_none<T>(items: Seq<T>, wanted: spec_fn(T) -> bool)
    ensures
        count(items.take(0), wanted) == 0,
{
    reveal(Seq::filter);
}

proof fn lemma_count_step<T>(items: Seq<T>, wanted: spec_fn(T) -> bool, i: int)
    requires
        0 <= i < items.len(),
    ensures
        count(items.take(i + 1), wanted) == count(items.take(i), wanted) + if wanted(items[i]) {
            1nat
        } else {
            0nat
        },
{
    reveal(Seq::filter);
    assert(items.take(i + 1).drop_last() =~= items.take(i));
}

// ---- files ----

/// The paths of the files that can be parsed, in the order of the scan.
pub fn parseable_paths(scan: &ScanResult) -> (paths: Vec<&str>)
    ensures
        text::str_views(paths@) == scan.parseable_files@.map_values(|f: FileEntry| f.path@),
{
    let mut paths: Vec<&str> = Vec::new();
    for i in 0..scan.parseable_files.len()
        invariant
            paths@.len() == i,
            forall|k: int| 0 <= k < i ==> (#[trigger] paths@[k])@ == scan.parseable_files@[k].path@,
    {
        paths.push(scan.parseable_files[i].path.as_str());
    }
    assert(text::str_views(paths@) =~= scan.parseable_files@.map_values(|f: FileEntry| f.path@));
    paths
}

/// How parsing went.
pub struct ParseSummary {
    pub attempted: usize,
    /// Files without a complaint of the parser.
    pub clean: usize,
    /// Files that the parser complained about.
    pub with_diagnostics: usize,
    /// Files that could not be parsed at all.
    pub failed: usize,
}

/// Whether the parser complained about a file.
pub open spec fn complained(outcome: ParseOutcome) -> bool {
    outcome.panicked || outcome.diagnostic_count > 0
}

/// How parsing went.
pub fn summarize_parse(batch: &ParseBatch) -> (summary: ParseSummary)
    requires
        batch.outcomes@.len() + batch.failures@.len() <= usize::MAX,
    ensures
        summary.attempted == batch.outcomes@.len() + batch.failures@.len(),
        summary.clean == count(batch.outcomes@, |o: ParseOutcome| !complained(o)),
        summary.with_diagnostics == count(batch.outcomes@, |o: ParseOutcome| complained(o)),
        summary.failed == batch.failures@.len(),
        summary.clean + summary.with_diagnostics + summary.failed == summary.attempted,
{
    let ghost good = |o: ParseOutcome| !complained(o);
    let ghost bad = |o: ParseOutcome| complained(o);
    let mut clean: usize = 0;
    let mut with_diagnostics: usize = 0;
    proof {
        lemma_count_none(batch.outcomes@, good);
        lemma_count_none(batch.outcomes@, bad);
    }
    for i in 0..batch.outcomes.len()
        invariant
            good == (|o: ParseOutcome| !complained(o)),
            bad == (|o: ParseOutcome| complained(o)),
            clean + with_diagnostics == i,
            clean == count(batch.outcomes@.take(i as int), good),
            with_diagnostics == count(batch.outcomes@.take(i as int), bad),
    {
        proof {
            lemma_count_step(batch.outcomes@, good, i as int);
            lemma_count_step(batch.outcomes@, bad, i as int);
        }
        if batch.outcomes[i].has_parse_errors() {
            with_diagnostics = with_diagnostics + 1;
        } else {
            clean = clean + 1;
        }
    }
    assert(batch.outcomes@.take(batch.outcomes@.len() as int) =~= batch.outcomes@);
    ParseSummary {
        attempted: batch.outcomes.len() + batch.failures.len(),
        clean,
        with_diagnostics,
        failed: batch.failures.len(),
    }
}

// ---- symbols ----

/// How many symbols are exported.
pub fn exported_count(symbols: &[Symbol]) -> (n: usize)
    ensures
        n == count(symbols@, |s: Symbol| s.exported),
{
    let ghost wanted = |s: Symbol| s.exported;
    let mut n: usize = 0;
    proof {
        lemma_count_none(symbols@, wanted);
    }
    for i in 0..symbols.len()
        invariant
            wanted == (|s: Symbol| s.exported),
            n <= i,
            n == count(symbols@.take(i as int), wanted),
    {
        proof {
            lemma_count_step(symbols@, wanted, i as int);
        }
        if symbols[i].exported {
            n = n + 1;
        }
    }
    assert(symbols@.take(symbols@.len() as int) =~= symbols@);
    n
}

/// How many symbols are of a kind.
pub fn kind_count(symbols: &[Symbol], kind: SymbolKind) -> (n: usize)
    ensures
        n == count(symbols@, |s: Symbol| s.kind == kind),
{
    let ghost wanted = |s: Symbol| s.kind == kind;
    let mut n: usize = 0;
    proof {
        lemma_count_none(symbols@, wanted);
    }
    for i in 0..symbols.len()
        invariant
            wanted == (|s: Symbol| s.kind == kind),
            n <= i,
            n == count(symbols@.take(i as int), wanted),
    {
        proof {
            lemma_count_step(symbols@, wanted, i as int);
        }
        if symbols[i].kind == kind {
            n = n + 1;
        }
    }
    assert(symbols@.take(symbols@.len() as int) =~= symbols@);
    n
}

/// Of how many of the files that were attempted a control flow graph can be
/// built; nothing where the batch speaks of more files than were attempted.
pub fn files_with_graph(attempted: usize, batch: &SemanticBatch) -> (n: Option<usize>)
    ensures
        match n {
            Some(n) => n + batch.failures@.len() + batch.cfg_unavailable@.len() == attempted,
            None => batch.failures@.len() + batch.cfg_unavailable@.len() > attempted,
        },
{
    let failed: usize = batch.failures.len();
    let without: usize = batch.cfg_unavailable.len();
    if failed <= attempted && without <= attempted - failed {
        Some(attempted - failed - without)
    } else {
        None
    }
}

proof fn lemma_failed_or_without_graph(runs: Seq<SemanticRun>)
    ensures
        semantic::failed(runs).len() + semantic::without_graph(runs).len() <= runs.len(),
    decreases runs.len(),
{
    if runs.len() > 0 {
        lemma_failed_or_without_graph(runs.drop_last());
    }
}

/// A file that failed is not one without a graph: of the files that were
/// attempted, no more failed or have no graph than there are.
pub proof fn law_graphs_are_counted_among_the_attempts(
    batch: SemanticBatch,
    runs: Seq<SemanticRun>,
)
    requires
        batch.holds(runs),
    ensures
        batch.failures@.len() + batch.cfg_unavailable@.len() <= runs.len(),
{
    lemma_failed_or_without_graph(runs);
    assert(text::views(batch.cfg_unavailable@).len() == batch.cfg_unavailable@.len());
    assert(crate::engine::batch::errors_view(batch.failures@).len() == batch.failures@.len());
}

// ---- imports ----

/// How many imports lead where.
pub struct ImportSummary {
    pub total: usize,
    pub local: usize,
    pub external: usize,
    pub unresolved_local: usize,
    /// Re-exports among them, wherever they lead.
    pub re_exports: usize,
}

/// How many imports lead where.
pub fn summarize_imports(edges: &[ImportEdge]) -> (summary: ImportSummary)
    ensures
        summary.total == edges@.len(),
        summary.local == count(edges@, |e: ImportEdge| e.target is LocalFile),
        summary.external == count(edges@, |e: ImportEdge| e.target is External),
        summary.unresolved_local == count(edges@, |e: ImportEdge| e.target is UnresolvedLocal),
        summary.re_exports == count(edges@, |e: ImportEdge| e.is_re_export),
        summary.local + summary.external + summary.unresolved_local == summary.total,
{
    let ghost in_project = |e: ImportEdge| e.target is LocalFile;
    let ghost of_package = |e: ImportEdge| e.target is External;
    let ghost of_nothing = |e: ImportEdge| e.target is UnresolvedLocal;
    let ghost passed_on = |e: ImportEdge| e.is_re_export;
    let mut local: usize = 0;
    let mut external: usize = 0;
    let mut unresolved_local: usize = 0;
    let mut re_exports: usize = 0;
    proof {
        lemma_count_none(edges@, in_project);
        lemma_count_none(edges@, of_package);
        lemma_count_none(edges@, of_nothing);
        lemma_count_none(edges@, passed_on);
    }
    for i in 0..edges.len()
        invariant
            in_project == (|e: ImportEdge| e.target is LocalFile),
            of_package == (|e: ImportEdge| e.target is External),
            of_nothing == (|e: ImportEdge| e.target is UnresolvedLocal),
            passed_on == (|e: ImportEdge| e.is_re_export),
            local + external + unresolved_local == i,
            re_exports <= i,
            local == count(edges@.take(i as int), in_project),
            external == count(edges@.take(i as int), of_package),
            unresolved_local == count(edges@.take(i as int), of_nothing),
            re_exports == count(edges@.take(i as int), passed_on),
    {
        proof {
            lemma_count_step(edges@, in_project, i as int);
            lemma_count_step(edges@, of_package, i as int);
            lemma_count_step(edges@, of_nothing, i as int);
            lemma_count_step(edges@, passed_on, i as int);
        }
        match &edges[i].target {
            ImportTarget::LocalFile(_) => {
                local = local + 1;
            },
            ImportTarget::External(_) => {
                external = external + 1;
            },
            ImportTarget::UnresolvedLocal(_) => {
                unresolved_local = unresolved_local + 1;
            },
        }
        if edges[i].is_re_export {
            re_exports = re_exports + 1;
        }
    }
    assert(edges@.take(edges@.len() as int) =~= edges@);
    ImportSummary { total: edges.len(), local, external, unresolved_local, re_exports }
}

/// The names of the packages that are imported, once for each import.
pub open spec fn package_names(edges: Seq<ImportEdgeView>) -> Seq<Seq<char>>
    decreases edges.len(),
{
    if edges.len() == 0 {
        Seq::empty()
    } else {
        match edges.last().target {
            ImportTargetView::External(name) => package_names(edges.drop_last()).push(name),
            _ => package_names(edges.drop_last()),
        }
    }
}

/// The names of the packages that are imported, once for each import.
pub fn external_names(edges: &[ImportEdge]) -> (names: Vec<&str>)
    ensures
        text::str_views(names@) == package_names(resolve::edges_view(edges@)),
{
    let ghost all = resolve::edges_view(edges@);
    let mut names: Vec<&str> = Vec::new();
    proof {
        assert(text::str_views(names@) =~= Seq::empty());
        assert(all.take(0) =~= Seq::empty());
    }
    for i in 0..edges.len()
        invariant
            all == resolve::edges_view(edges@),
            text::str_views(names@) == package_names(all.take(i as int)),
    {
        let ghost before = text::str_views(names@);
        assert(all.take(i + 1).drop_last() =~= all.take(i as int));
        assert(all[i as int] == edges@[i as int]@);
        match &edges[i].target {
            ImportTarget::External(name) => {
                names.push(name.as_str());
                assert(text::str_views(names@) =~= before.push(name@));
            },
            _ => {},
        }
    }
    assert(all.take(edges@.len() as int) =~= all);
    names
}

/// The numbers of those of the first `upto` imports that are local and lead
/// nowhere.
pub open spec fn lost_imports(edges: Seq<ImportEdgeView>, upto: nat) -> Seq<usize>
    decreases upto,
{
    if upto == 0 {
        Seq::empty()
    } else if edges[upto - 1].target is UnresolvedLocal {
        lost_imports(edges, (upto - 1) as nat).push((upto - 1) as usize)
    } else {
        lost_imports(edges, (upto - 1) as nat)
    }
}

/// The first `limit` imports that are local and lead nowhere, by their
/// numbers.
pub fn first_lost_imports(edges: &[ImportEdge], limit: usize) -> (numbers: Vec<usize>)
    ensures
        ({
            let all = lost_imports(resolve::edges_view(edges@), edges@.len());
            numbers@ == if all.len() <= limit {
                all
            } else {
                all.take(limit as int)
            }
        }),
{
    let ghost all = resolve::edges_view(edges@);
    let mut numbers: Vec<usize> = Vec::new();
    for i in 0..edges.len()
        invariant
            all == resolve::edges_view(edges@),
            numbers@.len() <= limit,
            lost_imports(all, i as nat).len() <= limit ==> numbers@ == lost_imports(all, i as nat),
            lost_imports(all, i as nat).len() > limit ==> numbers@ == lost_imports(
                all,
                i as nat,
            ).take(limit as int),
    {
        assert(all[i as int] == edges@[i as int]@);
        let ghost sofar = lost_imports(all, i as nat);
        let ghost more = lost_imports(all, (i + 1) as nat);
        match &edges[i].target {
            ImportTarget::UnresolvedLocal(_) => {
                assert(more == sofar.push(i));
                if numbers.len() < limit {
                    assert(sofar.len() < limit);
                    numbers.push(i);
                } else {
                    assert(more.take(limit as int) =~= sofar.take(limit as int));
                    assert(sofar.take(limit as int) =~= numbers@);
                }
            },
            _ => {
                assert(more == sofar);
            },
        }
    }
    numbers
}

/// What became of the path aliases of a project.
#[derive(Debug, Clone, Copy, PartialEq, Eq, Structural)]
pub enum AliasUse {
    NoneDeclared,
    NoneUsable,
    Used,
}

/// What became of the path aliases of a project, of which `declared` are
/// declared and `fed` given to the resolver.
pub fn alias_use(declared: usize, fed: usize) -> (r: AliasUse)
    ensures
        r == if declared == 0 {
            AliasUse::NoneDeclared
        } else if fed == 0 {
            AliasUse::NoneUsable
        } else {
            AliasUse::Used
        },
{
    if declared == 0 {
        AliasUse::NoneDeclared
    } else if fed == 0 {
        AliasUse::NoneUsable
    } else {
        AliasUse::Used
    }
}

// ---- references ----

/// How many calls lead where.
pub struct ReferenceSummary {
    pub calls: usize,
    pub same_file: usize,
    pub cross_file: usize,
    pub unresolved_import: usize,
    pub unmatched: usize,
    pub extends: usize,
    pub failed: usize,
}

/// How many calls lead where.
pub fn summarize_references(batch: &ReferenceBatch) -> (summary: ReferenceSummary)
    ensures
        summary.calls == batch.calls@.len(),
        summary.same_file == count(batch.calls@, |c: CallReference| c.target is SameFile),
        summary.cross_file == count(batch.calls@, |c: CallReference| c.target is CrossFile),
        summary.unresolved_import == count(
            batch.calls@,
            |c: CallReference| c.target is UnresolvedImport,
        ),
        summary.unmatched == count(batch.calls@, |c: CallReference| c.target is Unmatched),
        summary.extends == batch.extends@.len(),
        summary.failed == batch.failures@.len(),
        summary.same_file + summary.cross_file + summary.unresolved_import + summary.unmatched
            == summary.calls,
{
    let calls = &batch.calls;
    let ghost here = |c: CallReference| c.target is SameFile;
    let ghost there = |c: CallReference| c.target is CrossFile;
    let ghost outside = |c: CallReference| c.target is UnresolvedImport;
    let ghost nowhere = |c: CallReference| c.target is Unmatched;
    let mut same_file: usize = 0;
    let mut cross_file: usize = 0;
    let mut unresolved_import: usize = 0;
    let mut unmatched: usize = 0;
    proof {
        lemma_count_none(calls@, here);
        lemma_count_none(calls@, there);
        lemma_count_none(calls@, outside);
        lemma_count_none(calls@, nowhere);
    }
    for i in 0..calls.len()
        invariant
            here == (|c: CallReference| c.target is SameFile),
            there == (|c: CallReference| c.target is CrossFile),
            outside == (|c: CallReference| c.target is UnresolvedImport),
            nowhere == (|c: CallReference| c.target is Unmatched),
            same_file + cross_file + unresolved_import + unmatched == i,
            same_file == count(calls@.take(i as int), here),
            cross_file == count(calls@.take(i as int), there),
            unresolved_import == count(calls@.take(i as int), outside),
            unmatched == count(calls@.take(i as int), nowhere),
    {
        proof {
            lemma_count_step(calls@, here, i as int);
            lemma_count_step(calls@, there, i as int);
            lemma_count_step(calls@, outside, i as int);
            lemma_count_step(calls@, nowhere, i as int);
        }
        match &calls[i].target {
            ReferenceTarget::SameFile(_) => {
                same_file = same_file + 1;
            },
            ReferenceTarget::CrossFile(_) => {
                cross_file = cross_file + 1;
            },
            ReferenceTarget::UnresolvedImport(_) => {
                unresolved_import = unresolved_import + 1;
            },
            ReferenceTarget::Unmatched => {
                unmatched = unmatched + 1;
            },
        }
    }
    assert(calls@.take(calls@.len() as int) =~= calls@);
    ReferenceSummary {
        calls: calls.len(),
        same_file,
        cross_file,
        unresolved_import,
        unmatched,
        extends: batch.extends.len(),
        failed: batch.failures.len(),
    }
}

// ---- functions ----

/// The complexities of all functions together.
pub open spec fn complexity_sum(reports: Seq<FunctionCfgReport>) -> nat
    decreases reports.len(),
{
    if reports.len() == 0 {
        0
    } else {
        complexity_sum(reports.drop_last()) + reports.last().cyclomatic_complexity as nat
    }
}

proof fn lemma_complexity_sum_grows(reports: Seq<FunctionCfgReport>, i: int)
    requires
        0 <= i <= reports.len(),
    ensures
        complexity_sum(reports.take(i)) <= complexity_sum(reports),
    decreases reports.len() - i,
{
    if i == reports.len() {
        assert(reports.take(i) =~= reports);
    } else {
        lemma_complexity_sum_grows(reports, i + 1);
        assert(reports.take(i + 1).drop_last() =~= reports.take(i));
    }
}

/// The complexities of all functions together; nothing where the sum does not
/// fit.
pub fn total_complexity(reports: &[FunctionCfgReport]) -> (total: Option<u64>)
    ensures
        match total {
            Some(total) => total == complexity_sum(reports@),
            None => complexity_sum(reports@) > u64::MAX,
        },
{
    let mut total: u64 = 0;
    for i in 0..reports.len()
        invariant
            total == complexity_sum(reports@.take(i as int)),
    {
        proof {
            lemma_complexity_sum_grows(reports@, i + 1);
            assert(reports@.take(i + 1).drop_last() =~= reports@.take(i as int));
        }
        let complexity: u64 = reports[i].cyclomatic_complexity as u64;
        if complexity > u64::MAX - total {
            return None;
        }
        total = total + complexity;
    }
    assert(reports@.take(reports@.len() as int) =~= reports@);
    Some(total)
}

/// How complex each function is, in their order.
pub fn complexities(reports: &[FunctionCfgReport]) -> (keys: Vec<usize>)
    ensures
        keys@ == reports@.map_values(|r: FunctionCfgReport| r.cyclomatic_complexity as usize),
{
    let mut keys: Vec<usize> = Vec::new();
    for i in 0..reports.len()
        invariant
            keys@.len() == i,
            forall|k: int|
                0 <= k < i ==> #[trigger] keys@[k] == reports@[k].cyclomatic_complexity as usize,
    {
        keys.push(reports[i].cyclomatic_complexity as usize);
    }
    assert(keys@ =~= reports@.map_values(
        |r: FunctionCfgReport| r.cyclomatic_complexity as usize,
    ));
    keys
}

// ---- the largest first ----

/// Whether number `a` comes before number `b` where the largest of `keys` come
/// first and, of equal ones, those that came first.
pub open spec fn comes_before(keys: Seq<usize>, a: usize, b: usize) -> bool {
    keys[a as int] > keys[b as int] || (keys[a as int] == keys[b as int] && a < b)
}

/// Whether `order` lists the numbers below `n`, each once.
pub open spec fn lists_all(order: Seq<usize>, n: nat) -> bool {
    &&& order.len() == n
    &&& order.no_duplicates()
    &&& forall|i: int| 0 <= i < order.len() ==> (#[trigger] order[i]) < n
}

/// Whether `order` lists the numbers of all `keys`, the largest first.
pub open spec fn is_descending(keys: Seq<usize>, order: Seq<usize>) -> bool {
    &&& lists_all(order, keys.len())
    &&& forall|i: int, j: int|
        0 <= i < j < order.len() ==> comes_before(keys, #[trigger] order[i], #[trigger] order[j])
}

/// The numbers of `keys`, the largest first and, of equal ones, in the order
/// in which they came.
pub fn descending(keys: &[usize]) -> (order: Vec<usize>)
    ensures
        is_descending(keys@, order@),
{
    let mut order: Vec<usize> = Vec::new();
    for n in 0..keys.len()
        invariant
            lists_all(order@, n as nat),
            forall|i: int, j: int|
                0 <= i < j < order@.len() ==> comes_before(
                    keys@,
                    #[trigger] order@[i],
                    #[trigger] order@[j],
                ),
    {
        let ghost before = order@;
        let mut at: usize = order.len();
        while at > 0 && keys[order[at - 1]] < keys[n]
            invariant
                at <= order@.len(),
                order@ == before,
                n < keys@.len(),
                lists_all(order@, n as nat),
                forall|k: int|
                    at <= k < order@.len() ==> keys@[(#[trigger] order@[k]) as int] < keys@[n as int],
            decreases at,
        {
            at = at - 1;
        }
        order.insert(at, n);
        proof {
            assert(order@ == before.insert(at as int, n));
            assert forall|i: int, j: int| 0 <= i < j < order@.len() implies comes_before(
                keys@,
                #[trigger] order@[i],
                #[trigger] order@[j],
            ) by {
                if j < at {
                    assert(order@[i] == before[i] && order@[j] == before[j]);
                } else if i < at && j > at {
                    assert(order@[i] == before[i] && order@[j] == before[j - 1]);
                } else if i > at {
                    assert(order@[i] == before[i - 1] && order@[j] == before[j - 1]);
                } else if j == at {
                    assert(order@[i] == before[i]);
                    assert(before[at - 1] < n);
                    if i < at - 1 {
                        assert(comes_before(keys@, before[i], before[at - 1]));
                    }
                } else {
                    assert(order@[j] == before[j - 1]);
                }
            }
            assert forall|i: int, j: int|
                0 <= i < order@.len() && 0 <= j < order@.len() && i != j implies order@[i]
                != order@[j] by {
                let a = if i < at {
                    i
                } else {
                    i - 1
                };
                let b = if j < at {
                    j
                } else {
                    j - 1
                };
                if i != at {
                    assert(order@[i] == before[a]);
                    assert(before[a] < n);
                }
                if j != at {
                    assert(order@[j] == before[b]);
                    assert(before[b] < n);
                }
            }
            assert forall|i: int| 0 <= i < order@.len() implies (#[trigger] order@[i]) < n + 1 by {
                if i < at {
                    assert(order@[i] == before[i]);
                } else if i > at {
                    assert(order@[i] == before[i - 1]);
                }
            }
        }
    }
    order
}

/// The packages that are imported are told in order, one for each import that
/// leads to one.
pub proof fn law_packages_are_told_in_order(before: Seq<ImportEdgeView>, edge: ImportEdgeView)
    ensures
        package_names(Seq::empty()).len() == 0,
        edge.target matches ImportTargetView::External(name) ==> package_names(before.push(edge))
            == package_names(before).push(name),
        !(edge.target is External) ==> package_names(before.push(edge)) == package_names(before),
{
    assert(before.push(edge).drop_last() =~= before);
}

/// An import is told as lost exactly if it is local and leads nowhere, and the
/// first is told first.
pub proof fn law_lost_imports_are_told(edges: Seq<ImportEdgeView>, upto: nat, i: int)
    requires
        upto <= edges.len(),
        upto <= usize::MAX,
    ensures
        0 <= i < upto && edges[i].target is UnresolvedLocal ==> lost_imports(edges, upto).contains(
            i as usize,
        ),
        0 <= i < lost_imports(edges, upto).len() ==> lost_imports(edges, upto)[i] < upto
            && edges[lost_imports(edges, upto)[i] as int].target is UnresolvedLocal,
        0 < i < lost_imports(edges, upto).len() ==> lost_imports(edges, upto)[i - 1]
            < lost_imports(edges, upto)[i],
    decreases upto,
{
    if upto > 0 {
        let before = lost_imports(edges, (upto - 1) as nat);
        let all = lost_imports(edges, upto);
        law_lost_imports_are_told(edges, (upto - 1) as nat, i);
        if 0 <= i < upto && edges[i].target is UnresolvedLocal {
            if i == upto - 1 {
                assert(all[before.len() as int] == i as usize);
            } else {
                assert(all[before.index_of(i as usize)] == i as usize);
            }
        }
        if 0 < i < all.len() && i == before.len() {
            law_lost_imports_are_told(edges, (upto - 1) as nat, i - 1);
        }
    }
}

/// The complexities are added up one by one.
pub proof fn law_complexities_add_up(reports: Seq<FunctionCfgReport>, report: FunctionCfgReport)
    ensures
        complexity_sum(Seq::empty()) == 0,
        complexity_sum(reports.push(report)) == complexity_sum(reports)
            + report.cyclomatic_complexity,
{
    assert(reports.push(report).drop_last() =~= reports);
}

/// The largest stand first: no number stands after one with a smaller key.
pub proof fn law_the_largest_stand_first(keys: Seq<usize>, order: Seq<usize>, i: int, j: int)
    requires
        is_descending(keys, order),
        0 <= i < j < order.len(),
    ensures
        order.len() == keys.len(),
        order[i] < keys.len(),
        order[i] != order[j],
        keys[order[i] as int] >= keys[order[j] as int],
        keys[order[i] as int] == keys[order[j] as int] ==> order[i] < order[j],
{
    assert(comes_before(keys, order[i], order[j]));
}

/// A file has complaints exactly if the parser gave up on it or said anything.
pub proof fn law_what_is_a_complaint(outcome: ParseOutcome)
    ensures
        complained(outcome) <==> outcome.panicked || outcome.diagnostic_count != 0,
{
}

} // verus!
