//! What holds of the order in which the modules of a package are documented.

use vstd::prelude::*;
use crate::listing::{listing, ListingView};
use crate::module_laws::{
    entries_all, lemma_entries_concat, lemma_entries_one, modules_are_entered_once,
};
use crate::package::{resides_in, FileIdView, PackageSpecView};
use crate::plan::{
    is_fresh, journey_from, journey_start, lemma_queue_shrinks, module_end, module_link,
    module_start, pending_of, queue_after, queue_size, symbol_ident, with_module, with_queue,
    with_symbols, JourneyView, ModuleSectionView, PendingView, ProgressView, ScopeView,
    SectionView, SubmoduleView,
};
use crate::plan_laws::{
    all_symbols_are_documented, file_at, lemma_module_grows, lemma_numbered_with,
    lemma_queue_grows, sections_follow,
};
use crate::records::lemma_number_stays;
use crate::scan::ScanView;
use crate::scan_laws::{all_charted, among, charted, only_own_modules_are_entered};
use crate::symbols::SymbolView;

verus! {

/// The modules in the order in which they are documented.
pub open spec fn visited(
    scope: ScopeView,
    journey: JourneyView,
    queue: Seq<PendingView>,
) -> Seq<PendingView>
    decreases queue_size(queue),
{
    if queue.len() == 0 {
        Seq::empty()
    } else {
        proof {
            lemma_queue_shrinks(scope, journey, queue);
        }
        seq![queue[0]] + visited(
            scope,
            with_module(scope, journey, queue[0]),
            queue_after(scope, journey, queue),
        )
    }
}

/// Whether the documentation of a module is that of one that waited: it has
/// the best path to it, its name, its paths, the identifier through which it
/// was met, and a section for each of its symbols in order.
pub open spec fn introduces(
    scope: ScopeView,
    module: PendingView,
    section: ModuleSectionView,
) -> bool {
    &&& section.info.prefix == scope.primary(module.file)
    &&& section.info.name == module.name
    &&& section.info.aka == scope.akas(module.file)
    &&& section.info.parent_ident == module.parent_ident
    &&& sections_follow(scope.primary(module.file), module.children, section.symbols)
}

proof fn lemma_visited_modules(scope: ScopeView, journey: JourneyView, queue: Seq<PendingView>)
    ensures
        ({
            let modules = with_queue(scope, journey, queue).modules;
            let order = visited(scope, journey, queue);
            let n = journey.modules.len();
            &&& modules.len() == n + order.len()
            &&& journey.modules.is_prefix_of(modules)
            &&& forall|i: int|
                0 <= i < order.len() ==> introduces(scope, order[i], #[trigger] modules[n + i])
        }),
    decreases queue_size(queue),
{
    let modules = with_queue(scope, journey, queue).modules;
    let order = visited(scope, journey, queue);
    let n = journey.modules.len();
    if queue.len() == 0 {
        assert(modules.subrange(0, n as int) =~= journey.modules);
    } else {
        let next = with_module(scope, journey, queue[0]);
        let rest = queue_after(scope, journey, queue);
        lemma_queue_shrinks(scope, journey, queue);
        lemma_visited_modules(scope, next, rest);
        let later = visited(scope, next, rest);
        assert(modules == with_queue(scope, next, rest).modules);
        assert(modules.subrange(0, n as int) =~= journey.modules) by {
            assert forall|i: int| 0 <= i < n implies modules[i] == journey.modules[i] by {
                assert(modules.subrange(0, next.modules.len() as int)[i] == next.modules[i]);
            }
        }
        assert forall|i: int| 0 <= i < order.len() implies introduces(
            scope,
            order[i],
            #[trigger] modules[n + i],
        ) by {
            if i == 0 {
                all_symbols_are_documented(scope, journey, queue[0]);
                assert(modules.subrange(0, next.modules.len() as int)[n as int]
                    == next.modules[n as int]);
            } else {
                assert(order[i] == later[i - 1]);
                let k = i - 1;
                assert(introduces(scope, later[k], modules[next.modules.len() + k]));
            }
        }
    }
}

proof fn lemma_visited_places(scope: ScopeView, journey: JourneyView, queue: Seq<PendingView>)
    requires
        journey.files.no_duplicates(),
        with_queue(scope, journey, queue).files.len() <= usize::MAX,
    ensures
        ({
            let end = with_queue(scope, journey, queue);
            let order = visited(scope, journey, queue);
            let n = journey.modules.len();
            forall|i: int|
                0 <= i < order.len() ==> file_at(
                    end.files,
                    (#[trigger] end.modules[n + i]).info.loc,
                ) == order[i].file
        }),
    decreases queue_size(queue),
{
    let end = with_queue(scope, journey, queue);
    let order = visited(scope, journey, queue);
    let n = journey.modules.len();
    if queue.len() > 0 {
        let first = queue[0];
        let next = with_module(scope, journey, first);
        let rest = queue_after(scope, journey, queue);
        let start = module_start(journey, first);
        lemma_queue_shrinks(scope, journey, queue);
        lemma_module_grows(scope, journey, first);
        lemma_queue_grows(scope, next, rest);
        lemma_visited_places(scope, next, rest);
        lemma_visited_modules(scope, next, rest);
        let later = visited(scope, next, rest);
        assert forall|i: int| 0 <= i < order.len() implies file_at(
            end.files,
            (#[trigger] end.modules[n + i]).info.loc,
        ) == order[i].file by {
            if i == 0 {
                assert(end.modules.subrange(0, next.modules.len() as int)[n as int]
                    == next.modules[n as int]);
                if first.file is Some {
                    let file = first.file->0;
                    lemma_numbered_with(journey.files, file);
                    assert(start.files.is_prefix_of(end.files)) by {
                        let m = start.files.len() as int;
                        assert(end.files.subrange(0, m) =~= next.files.subrange(0, m));
                    }
                    lemma_number_stays(start.files, end.files, file);
                }
            } else {
                let k = i - 1;
                assert(order[i] == later[k]);
                assert(file_at(end.files, end.modules[next.modules.len() + k].info.loc)
                    == later[k].file);
            }
        }
    }
}

/// Whether the modules that wait are modules of the package with their own
/// files, and so are all modules below them.
pub open spec fn queue_charted(
    has: spec_fn(FileIdView) -> bool,
    package: PackageSpecView,
    queue: Seq<PendingView>,
) -> bool {
    forall|i: int|
        0 <= i < queue.len() ==> all_charted(has, package, (#[trigger] queue[i]).children)
}

/// How often the module of a file is listed with its symbols below the
/// modules that wait.
pub open spec fn queue_entries(queue: Seq<PendingView>, file: FileIdView) -> nat
    decreases queue.len(),
{
    if queue.len() == 0 {
        0
    } else {
        queue_entries(queue.drop_last(), file) + entries_all(queue.last().children, file)
    }
}

proof fn lemma_queue_entries_concat(a: Seq<PendingView>, b: Seq<PendingView>, file: FileIdView)
    ensures
        queue_entries(a + b, file) == queue_entries(a, file) + queue_entries(b, file),
    decreases b.len(),
{
    if b.len() == 0 {
        assert(a + b =~= a);
    } else {
        assert((a + b).drop_last() =~= a + b.drop_last());
        lemma_queue_entries_concat(a, b.drop_last(), file);
    }
}

/// Once for a module that was met.
pub open spec fn once_met(met: Set<FileIdView>, file: FileIdView) -> nat {
    if met.contains(file) {
        1
    } else {
        0
    }
}

/// How often a module was met or is still to be met, in the modules that wait
/// outside, in those that wait here, and below some symbols.
pub open spec fn tally(
    outside: Seq<PendingView>,
    progress: ProgressView,
    symbols: Seq<SymbolView>,
    file: FileIdView,
) -> nat {
    once_met(progress.met, file) + queue_entries(outside, file) + queue_entries(
        progress.waiting,
        file,
    ) + entries_all(symbols, file)
}

/// The modules that a module brings into the queue: each is new, and none is
/// brought twice.
pub open spec fn brings_new(met: Set<FileIdView>, waiting: Seq<PendingView>) -> bool {
    &&& forall|i: int|
        0 <= i < waiting.len() ==> (#[trigger] waiting[i]).file is Some && !met.contains(
            waiting[i].file->0,
        )
    &&& forall|i: int, j: int|
        0 <= i < j < waiting.len() ==> (#[trigger] waiting[i]).file != (#[trigger] waiting[j]).file
}

/// The modules among some symbols of the module in the file `site`: those with
/// children, in order, each met through its own symbol.
pub open spec fn submodules(
    scope: ScopeView,
    site: Option<FileIdView>,
    symbols: Seq<SymbolView>,
) -> Seq<PendingView>
    decreases symbols.len(),
{
    if symbols.len() == 0 {
        Seq::empty()
    } else {
        let before = submodules(scope, site, symbols.drop_last());
        let last = symbols.last();
        if last.children.len() > 0 {
            before.push(
                PendingView {
                    parent_ident: symbol_ident(
                        last.head.kind,
                        scope.primary(site),
                        last.head.name,
                    ),
                    name: last.head.name,
                    file: last.head.fid,
                    children: last.children,
                },
            )
        } else {
            before
        }
    }
}

/// The modules of two groups of symbols are the modules of both together.
pub proof fn submodules_add_up(
    scope: ScopeView,
    site: Option<FileIdView>,
    a: Seq<SymbolView>,
    b: Seq<SymbolView>,
)
    ensures
        submodules(scope, site, a + b) == submodules(scope, site, a) + submodules(scope, site, b),
    decreases b.len(),
{
    if b.len() == 0 {
        assert(a + b =~= a);
        assert(submodules(scope, site, a) + submodules(scope, site, b) =~= submodules(
            scope,
            site,
            a,
        ));
    } else {
        assert((a + b).drop_last() =~= a + b.drop_last());
        assert((a + b).last() == b.last());
        submodules_add_up(scope, site, a, b.drop_last());
        assert(submodules(scope, site, a + b) =~= submodules(scope, site, a) + submodules(
            scope,
            site,
            b,
        ));
    }
}

/// Whether exactly the modules in the queue were met since `before`.
pub open spec fn met_by(
    before: Set<FileIdView>,
    after: Set<FileIdView>,
    waiting: Seq<PendingView>,
) -> bool {
    &&& before.subset_of(after)
    &&& forall|i: int|
        0 <= i < waiting.len() ==> (#[trigger] waiting[i]).file is Some && after.contains(
            waiting[i].file->0,
        )
    &&& forall|file: FileIdView| #[trigger]
        after.contains(file) && !before.contains(file) ==> exists|i: int|
            0 <= i < waiting.len() && (#[trigger] waiting[i]).file == Some(file)
}

proof fn lemma_symbols_tally(
    has: spec_fn(FileIdView) -> bool,
    scope: ScopeView,
    site: Option<FileIdView>,
    outside: Seq<PendingView>,
    progress: ProgressView,
    symbols: Seq<SymbolView>,
    later: Seq<SymbolView>,
)
    requires
        progress.waiting.len() == 0,
        all_charted(has, scope.package, symbols),
        forall|file: FileIdView|
            #[trigger] tally(outside, progress, symbols + later, file) <= 1,
    ensures
        ({
            let after = with_symbols(scope, site, progress, symbols);
            &&& forall|file: FileIdView| #[trigger]
                tally(outside, after, later, file) == tally(
                    outside,
                    progress,
                    symbols + later,
                    file,
                )
            &&& after.waiting == submodules(scope, site, symbols)
            &&& queue_charted(has, scope.package, after.waiting)
            &&& brings_new(progress.met, after.waiting)
            &&& met_by(progress.met, after.met, after.waiting)
        }),
    decreases symbols.len(),
{
    let after = with_symbols(scope, site, progress, symbols);
    if symbols.len() == 0 {
        assert(symbols + later =~= later);
        assert(after.waiting =~= Seq::empty());
    } else {
        let init = symbols.drop_last();
        let last = symbols.last();
        let before = with_symbols(scope, site, progress, init);
        assert(symbols + later =~= init + (seq![last] + later));
        assert forall|i: int| 0 <= i < init.len() implies charted(
            has,
            scope.package,
            #[trigger] init[i],
        ) by {
            assert(init[i] == symbols[i]);
        }
        lemma_symbols_tally(has, scope, site, outside, progress, init, seq![last] + later);
        assert(charted(has, scope.package, symbols[symbols.len() - 1]));
        let fresh = is_fresh(before.met, last);
        if last.children.len() > 0 {
            let own = last.head.fid->0;
            lemma_entries_concat(seq![last], later, own);
            lemma_entries_one(last, own);
            assert(tally(outside, before, seq![last] + later, own) <= 1);
            assert(fresh);
        }
        assert forall|file: FileIdView| #[trigger] tally(outside, after, later, file) == tally(
            outside,
            progress,
            symbols + later,
            file,
        ) by {
            lemma_entries_concat(seq![last], later, file);
            lemma_entries_one(last, file);
            assert(tally(outside, before, seq![last] + later, file) == tally(
                outside,
                progress,
                symbols + later,
                file,
            ));
            if fresh {
                assert(after.waiting.drop_last() =~= before.waiting);
                assert(queue_entries(after.waiting, file) == queue_entries(before.waiting, file)
                    + entries_all(last.children, file));
            } else {
                assert(last.children =~= Seq::empty());
                assert(entries_all(last.children, file) == 0);
            }
        }
        if fresh {
            let own = last.head.fid->0;
            let added = after.waiting.last();
            assert(added.file == Some(own));
            assert forall|i: int| 0 <= i < after.waiting.len() implies all_charted(
                has,
                scope.package,
                (#[trigger] after.waiting[i]).children,
            ) by {
                if i < before.waiting.len() {
                    assert(after.waiting[i] == before.waiting[i]);
                } else {
                    assert(after.waiting[i].children == last.children);
                }
            }
            assert forall|i: int, j: int| 0 <= i < j < after.waiting.len() implies (
            #[trigger] after.waiting[i]).file != (#[trigger] after.waiting[j]).file by {
                assert(after.waiting[i] == before.waiting[i]);
                if j < before.waiting.len() {
                    assert(after.waiting[j] == before.waiting[j]);
                }
            }
            assert forall|i: int| 0 <= i < after.waiting.len() implies (
            #[trigger] after.waiting[i]).file is Some && !progress.met.contains(
                after.waiting[i].file->0,
            ) && after.met.contains(after.waiting[i].file->0) by {
                if i < before.waiting.len() {
                    assert(after.waiting[i] == before.waiting[i]);
                }
            }
            assert forall|file: FileIdView| #[trigger]
                after.met.contains(file) && !progress.met.contains(file) implies exists|i: int|
                0 <= i < after.waiting.len() && (#[trigger] after.waiting[i]).file == Some(file) by {
                if file == own {
                    let n = before.waiting.len() as int;
                    assert(after.waiting[n].file == Some(file));
                } else {
                    assert(before.met.contains(file));
                    let i = choose|i: int|
                        0 <= i < before.waiting.len() && (#[trigger] before.waiting[i]).file
                            == Some(file);
                    assert(after.waiting[i].file == Some(file));
                }
            }
        }
    }
}

/// How often a module was met or is still to be met.
pub open spec fn due(met: Set<FileIdView>, queue: Seq<PendingView>, file: FileIdView) -> nat {
    once_met(met, file) + queue_entries(queue, file)
}

/// Whether the modules that wait have different files, each that of the root
/// module or of a module that was met.
pub open spec fn queue_known(
    met: Set<FileIdView>,
    root: FileIdView,
    queue: Seq<PendingView>,
) -> bool {
    &&& forall|i: int|
        0 <= i < queue.len() ==> (#[trigger] queue[i]).file is Some && (queue[i].file == Some(root)
            || met.contains(queue[i].file->0))
    &&& forall|i: int, j: int|
        0 <= i < j < queue.len() ==> (#[trigger] queue[i]).file != (#[trigger] queue[j]).file
}

proof fn lemma_module_visits(
    has: spec_fn(FileIdView) -> bool,
    scope: ScopeView,
    journey: JourneyView,
    queue: Seq<PendingView>,
    root: FileIdView,
)
    requires
        queue.len() > 0,
        queue_charted(has, scope.package, queue),
        forall|file: FileIdView| #[trigger] due(journey.met, queue, file) <= 1,
        due(journey.met, queue, root) == 0,
        queue_known(journey.met, root, queue),
    ensures
        ({
            let next = with_module(scope, journey, queue[0]);
            let rest = queue_after(scope, journey, queue);
            let waiting = module_end(scope, journey, queue[0]).waiting;
            &&& queue_charted(has, scope.package, rest)
            &&& forall|file: FileIdView| #[trigger]
                due(next.met, rest, file) == due(journey.met, queue, file)
            &&& queue_known(next.met, root, rest)
            &&& waiting == submodules(scope, queue[0].file, queue[0].children)
            &&& brings_new(journey.met, waiting)
            &&& met_by(journey.met, next.met, waiting)
        }),
{
    let first = queue[0];
    let outside = queue.skip(1);
    let start = module_start(journey, first);
    let after = module_end(scope, journey, first);
    let next = with_module(scope, journey, first);
    let rest = queue_after(scope, journey, queue);
    let none = Seq::<SymbolView>::empty();
    assert(seq![first] + outside =~= queue);
    assert(seq![first].drop_last() =~= Seq::empty());
    assert(first.children + none =~= first.children);
    assert forall|file: FileIdView| tally(
        outside,
        start,
        first.children + none,
        file,
    ) == #[trigger] due(journey.met, queue, file) by {
        lemma_queue_entries_concat(seq![first], outside, file);
        reveal_with_fuel(queue_entries, 2);
    }
    assert forall|file: FileIdView| #[trigger] tally(
        outside,
        start,
        first.children + none,
        file,
    ) <= 1 by {
        assert(due(journey.met, queue, file) <= 1);
    }
    assert(all_charted(has, scope.package, queue[0].children));
    lemma_symbols_tally(has, scope, first.file, outside, start, first.children, none);
    assert forall|file: FileIdView| #[trigger] due(next.met, rest, file) == due(
        journey.met,
        queue,
        file,
    ) by {
        lemma_queue_entries_concat(outside, after.waiting, file);
        assert(tally(outside, after, none, file) == tally(
            outside,
            start,
            first.children + none,
            file,
        ));
    }
    assert forall|i: int| 0 <= i < rest.len() implies all_charted(
        has,
        scope.package,
        (#[trigger] rest[i]).children,
    ) by {
        if i < outside.len() {
            assert(rest[i] == queue[i + 1]);
        } else {
            assert(rest[i] == after.waiting[i - outside.len()]);
        }
    }
    assert(due(next.met, rest, root) == 0);
    assert(!next.met.contains(root));
    assert forall|i: int| 0 <= i < rest.len() implies (#[trigger] rest[i]).file is Some && (
    rest[i].file == Some(root) || next.met.contains(rest[i].file->0)) by {
        if i < outside.len() {
            assert(rest[i] == queue[i + 1]);
        } else {
            assert(rest[i] == after.waiting[i - outside.len()]);
        }
    }
    assert forall|i: int, j: int| 0 <= i < j < rest.len() implies (#[trigger] rest[i]).file != (
    #[trigger] rest[j]).file by {
        let n = outside.len() as int;
        if j < n {
            assert(rest[i] == queue[i + 1] && rest[j] == queue[j + 1]);
        } else {
            assert(rest[j] == after.waiting[j - n]);
            if i < n {
                assert(rest[i] == queue[i + 1]);
                if rest[i].file == Some(root) {
                    assert(next.met.contains(rest[j].file->0));
                }
            } else {
                assert(rest[i] == after.waiting[i - n]);
            }
        }
    }
}

/// What holds of the order in which the modules are documented.
pub open spec fn order_is_right(
    journey: JourneyView,
    queue: Seq<PendingView>,
    root: FileIdView,
    order: Seq<PendingView>,
    end: JourneyView,
) -> bool {
    &&& order.len() >= queue.len()
    &&& forall|i: int| 0 <= i < queue.len() ==> (#[trigger] order[i]).file == queue[i].file
    &&& forall|i: int| 0 <= i < order.len() ==> (#[trigger] order[i]).file is Some
    &&& forall|i: int|
        queue.len() <= i < order.len() ==> (#[trigger] order[i]).file != Some(root)
            && !journey.met.contains(order[i].file->0)
    &&& forall|i: int, j: int|
        0 <= i < j < order.len() ==> (#[trigger] order[i]).file != (#[trigger] order[j]).file
    &&& forall|file: FileIdView| #[trigger]
        end.met.contains(file) && !journey.met.contains(file) ==> exists|i: int|
            0 <= i < order.len() && (#[trigger] order[i]).file == Some(file)
    &&& forall|file: FileIdView| #[trigger]
        once_met(end.met, file) == due(journey.met, queue, file)
    &&& journey.met.subset_of(end.met)
}

proof fn lemma_queue_visits(
    has: spec_fn(FileIdView) -> bool,
    scope: ScopeView,
    journey: JourneyView,
    queue: Seq<PendingView>,
    root: FileIdView,
)
    requires
        queue_charted(has, scope.package, queue),
        forall|file: FileIdView| #[trigger] due(journey.met, queue, file) <= 1,
        due(journey.met, queue, root) == 0,
        queue_known(journey.met, root, queue),
    ensures
        order_is_right(
            journey,
            queue,
            root,
            visited(scope, journey, queue),
            with_queue(scope, journey, queue),
        ),
    decreases queue_size(queue),
{
    let order = visited(scope, journey, queue);
    let end = with_queue(scope, journey, queue);
    if queue.len() > 0 {
        let first = queue[0];
        let next = with_module(scope, journey, first);
        let rest = queue_after(scope, journey, queue);
        let waiting = module_end(scope, journey, first).waiting;
        let later = visited(scope, next, rest);
        let n = queue.len() - 1;
        lemma_queue_shrinks(scope, journey, queue);
        lemma_module_visits(has, scope, journey, queue, root);
        assert forall|file: FileIdView| #[trigger] due(next.met, rest, file) <= 1 by {
            assert(due(journey.met, queue, file) <= 1);
        }
        lemma_queue_visits(has, scope, next, rest, root);
        assert(order =~= seq![first] + later);
        assert forall|i: int| 1 <= i < order.len() implies #[trigger] order[i] == later[i - 1] by {}
        assert forall|i: int| 0 <= i < queue.len() implies (#[trigger] order[i]).file
            == queue[i].file by {
            if i > 0 {
                assert(later[i - 1].file == rest[i - 1].file);
                assert(rest[i - 1] == queue[i]);
            }
        }
        assert forall|i: int| 0 <= i < order.len() implies (#[trigger] order[i]).file is Some by {
            if i > 0 {
                assert(later[i - 1].file is Some);
            }
        }
        assert forall|i: int| queue.len() <= i < order.len() implies (#[trigger] order[i]).file
            != Some(root) && !journey.met.contains(order[i].file->0) by {
            let k = i - 1;
            if k < rest.len() {
                assert(later[k].file == rest[k].file);
                assert(rest[k] == waiting[k - n]);
                assert(!journey.met.contains(waiting[k - n].file->0));
                assert(next.met.contains(waiting[k - n].file->0));
                assert(due(next.met, rest, root) == 0);
            } else {
                assert(later[k].file != Some(root) && !next.met.contains(later[k].file->0));
            }
        }
        assert forall|i: int, j: int| 0 <= i < j < order.len() implies (#[trigger] order[i]).file
            != (#[trigger] order[j]).file by {
            if i > 0 {
                assert(later[i - 1].file != later[j - 1].file);
            } else if j < queue.len() {
                assert(queue[0].file != queue[j].file);
            } else {
                assert(order[j].file != Some(root) && !journey.met.contains(order[j].file->0));
            }
        }
        assert forall|file: FileIdView| #[trigger]
            end.met.contains(file) && !journey.met.contains(file) implies exists|i: int|
            0 <= i < order.len() && (#[trigger] order[i]).file == Some(file) by {
            if next.met.contains(file) {
                let w = choose|w: int|
                    0 <= w < waiting.len() && (#[trigger] waiting[w]).file == Some(file);
                assert(rest[n + w] == waiting[w]);
                assert(later[n + w].file == rest[n + w].file);
                assert(order[n + w + 1].file == Some(file));
            } else {
                let k = choose|k: int|
                    0 <= k < later.len() && (#[trigger] later[k]).file == Some(file);
                assert(order[k + 1].file == Some(file));
            }
        }
        assert forall|file: FileIdView| #[trigger] once_met(end.met, file) == due(
            journey.met,
            queue,
            file,
        ) by {
            assert(due(next.met, rest, file) == due(journey.met, queue, file));
        }
    }
}

/// The modules below some modules: those below the first, then those below the
/// second, and so on.
pub open spec fn next_in_order(scope: ScopeView, modules: Seq<PendingView>) -> Seq<PendingView>
    decreases modules.len(),
{
    if modules.len() == 0 {
        Seq::empty()
    } else {
        submodules(scope, modules[0].file, modules[0].children) + next_in_order(
            scope,
            modules.skip(1),
        )
    }
}

proof fn lemma_visited_order(
    has: spec_fn(FileIdView) -> bool,
    scope: ScopeView,
    journey: JourneyView,
    queue: Seq<PendingView>,
    root: FileIdView,
)
    requires
        queue_charted(has, scope.package, queue),
        forall|file: FileIdView| #[trigger] due(journey.met, queue, file) <= 1,
        due(journey.met, queue, root) == 0,
        queue_known(journey.met, root, queue),
    ensures
        visited(scope, journey, queue) == queue + next_in_order(
            scope,
            visited(scope, journey, queue),
        ),
    decreases queue_size(queue),
{
    let order = visited(scope, journey, queue);
    if queue.len() == 0 {
        assert(order =~= queue + next_in_order(scope, order));
    } else {
        let first = queue[0];
        let next = with_module(scope, journey, first);
        let rest = queue_after(scope, journey, queue);
        let waiting = module_end(scope, journey, first).waiting;
        let later = visited(scope, next, rest);
        lemma_queue_shrinks(scope, journey, queue);
        lemma_module_visits(has, scope, journey, queue, root);
        assert forall|file: FileIdView| #[trigger] due(next.met, rest, file) <= 1 by {
            assert(due(journey.met, queue, file) <= 1);
        }
        lemma_visited_order(has, scope, next, rest, root);
        assert(order =~= seq![first] + later);
        assert(order.skip(1) =~= later);
        assert(order[0] == first);
        assert(seq![first] + (queue.skip(1) + waiting + next_in_order(scope, later)) =~= queue + (
        waiting + next_in_order(scope, later)));
    }
}

/// Whether modules stand in the order in which they are met: the root first,
/// and behind it the modules below the first, those below the second, and so
/// on.
pub open spec fn is_order_of_meeting(
    scope: ScopeView,
    root: SymbolView,
    order: Seq<PendingView>,
) -> bool {
    &&& order.len() > 0
    &&& order[0].name == root.head.name
    &&& order[0].parent_ident == root.head.name
    &&& order[0].file == root.head.fid
    &&& order[0].children == root.children
    &&& order.skip(1) == next_in_order(scope, order)
}

/// The modules are documented in the order in which they are met, each under
/// its name and path, with all its symbols.
pub proof fn modules_are_documented_as_they_are_met(
    scan: ScanView,
    title: Seq<char>,
    uses: Map<Seq<char>, Seq<Seq<char>>>,
)
    requires
        resides_in(scan.root, scan.package),
        listing(scan) is Done,
    ensures
        listing(scan) matches ListingView::Done(root, _) && {
            let scope = scope_of(scan, title, uses);
            let end = journey_from(scope, root);
            exists|order: Seq<PendingView>| #[trigger]
                is_order_of_meeting(scope, root, order) && order.len() == end.modules.len() && (
                forall|i: int|
                    0 <= i < order.len() ==> introduces(scope, order[i], #[trigger] end.modules[i]))
        },
{
    only_own_modules_are_entered(scan);
    lemma_listing_visits(scan, title, uses);
    if let ListingView::Done(root, aliases) = listing(scan) {
        let scope = scope_of(scan, title, uses);
        let queue = seq![pending_of(root.head.name, root)];
        let end = journey_from(scope, root);
        let order = visited(scope, journey_start(), queue);
        let n = journey_start().modules.len() as int;
        assert forall|file: FileIdView| #[trigger] due(Set::empty(), queue, file) <= 1 by {
            modules_are_entered_once(scan, file);
        }
        modules_are_entered_once(scan, scan.root);
        lemma_visited_order(among(aliases), scope, journey_start(), queue, scan.root);
        lemma_visited_modules(scope, journey_start(), queue);
        assert(order[0] == queue[0]);
        assert(order.skip(1) =~= next_in_order(scope, order));
        assert forall|i: int| 0 <= i < order.len() implies introduces(
            scope,
            order[i],
            #[trigger] end.modules[i],
        ) by {
            assert(introduces(scope, order[i], end.modules[n + i]));
        }
        assert(is_order_of_meeting(scope, root, order));
    }
}

/// The scope in which the symbols of a package are documented.
pub open spec fn scope_of(
    scan: ScanView,
    title: Seq<char>,
    uses: Map<Seq<char>, Seq<Seq<char>>>,
) -> ScopeView {
    ScopeView { title, package: scan.package, uses }
}

proof fn lemma_listing_visits(
    scan: ScanView,
    title: Seq<char>,
    uses: Map<Seq<char>, Seq<Seq<char>>>,
)
    requires
        resides_in(scan.root, scan.package),
        listing(scan) is Done,
    ensures
        listing(scan) matches ListingView::Done(root, _) ==> {
            let scope = scope_of(scan, title, uses);
            let queue = seq![pending_of(root.head.name, root)];
            &&& order_is_right(
                journey_start(),
                queue,
                scan.root,
                visited(scope, journey_start(), queue),
                journey_from(scope, root),
            )
            &&& queue[0].file == Some(scan.root)
            &&& forall|file: FileIdView| #[trigger]
                due(Set::empty(), queue, file) == entries_all(root.children, file)
        },
{
    only_own_modules_are_entered(scan);
    if let ListingView::Done(root, aliases) = listing(scan) {
        let scope = scope_of(scan, title, uses);
        let queue = seq![pending_of(root.head.name, root)];
        assert(queue.drop_last() =~= Seq::empty());
        assert forall|file: FileIdView| #[trigger] due(Set::empty(), queue, file) == entries_all(
            root.children,
            file,
        ) by {
            reveal_with_fuel(queue_entries, 2);
        }
        assert forall|file: FileIdView| #[trigger] due(Set::empty(), queue, file) <= 1 by {
            modules_are_entered_once(scan, file);
        }
        modules_are_entered_once(scan, scan.root);
        lemma_queue_visits(among(aliases), scope, journey_start(), queue, scan.root);
    }
}

/// No module is documented twice. The root module comes first.
pub proof fn modules_are_documented_once(
    scan: ScanView,
    title: Seq<char>,
    uses: Map<Seq<char>, Seq<Seq<char>>>,
)
    requires
        resides_in(scan.root, scan.package),
        listing(scan) matches ListingView::Done(root, _) && journey_from(
            scope_of(scan, title, uses),
            root,
        ).files.len() <= usize::MAX,
    ensures
        listing(scan) matches ListingView::Done(root, _) ==> {
            let end = journey_from(scope_of(scan, title, uses), root);
            &&& end.modules.len() > 0
            &&& file_at(end.files, end.modules[0].info.loc) == Some(scan.root)
            &&& forall|i: int, j: int|
                0 <= i < j < end.modules.len() ==> (#[trigger] end.modules[i]).info.loc != (
                #[trigger] end.modules[j]).info.loc
        },
{
    lemma_listing_visits(scan, title, uses);
    if let ListingView::Done(root, _) = listing(scan) {
        let scope = scope_of(scan, title, uses);
        let queue = seq![pending_of(root.head.name, root)];
        let end = journey_from(scope, root);
        let order = visited(scope, journey_start(), queue);
        let n = journey_start().modules.len() as int;
        lemma_visited_modules(scope, journey_start(), queue);
        lemma_visited_places(scope, journey_start(), queue);
        assert(order[0].file == queue[0].file);
        assert(file_at(end.files, end.modules[n + 0].info.loc) == order[0].file);
        assert forall|i: int, j: int| 0 <= i < j < end.modules.len() implies (
        #[trigger] end.modules[i]).info.loc != (#[trigger] end.modules[j]).info.loc by {
            assert(file_at(end.files, end.modules[n + i].info.loc) == order[i].file);
            assert(file_at(end.files, end.modules[n + j].info.loc) == order[j].file);
            assert(order[i].file != order[j].file);
        }
    }
}

/// Every module that is listed with its symbols is documented.
pub proof fn listed_modules_are_documented(
    scan: ScanView,
    title: Seq<char>,
    uses: Map<Seq<char>, Seq<Seq<char>>>,
    file: FileIdView,
)
    requires
        resides_in(scan.root, scan.package),
        listing(scan) matches ListingView::Done(root, _) && journey_from(
            scope_of(scan, title, uses),
            root,
        ).files.len() <= usize::MAX && entries_all(root.children, file) > 0,
    ensures
        listing(scan) matches ListingView::Done(root, _) ==> {
            let end = journey_from(scope_of(scan, title, uses), root);
            exists|i: int|
                0 <= i < end.modules.len() && file_at(
                    end.files,
                    (#[trigger] end.modules[i]).info.loc,
                ) == Some(file)
        },
{
    lemma_listing_visits(scan, title, uses);
    if let ListingView::Done(root, _) = listing(scan) {
        let scope = scope_of(scan, title, uses);
        let queue = seq![pending_of(root.head.name, root)];
        let end = journey_from(scope, root);
        let order = visited(scope, journey_start(), queue);
        let n = journey_start().modules.len() as int;
        lemma_visited_modules(scope, journey_start(), queue);
        lemma_visited_places(scope, journey_start(), queue);
        assert(once_met(end.met, file) == due(Set::empty(), queue, file));
        let i = choose|i: int| 0 <= i < order.len() && (#[trigger] order[i]).file == Some(file);
        assert(file_at(end.files, end.modules[n + i].info.loc) == order[i].file);
    }
}

/// Whether every link to the docs of a module is one to a module that was met.
pub open spec fn links_met(
    scope: ScopeView,
    met: Set<FileIdView>,
    sections: Seq<SectionView>,
) -> bool {
    forall|i: int|
        0 <= i < sections.len() ==> match (#[trigger] sections[i]).submodule {
            Some(SubmoduleView::Documented(link)) => exists|file: FileIdView| #[trigger]
                met.contains(file) && link == module_link(scope.primary(Some(file))),
            _ => true,
        }
}

proof fn lemma_links_met_more(
    scope: ScopeView,
    before: Set<FileIdView>,
    after: Set<FileIdView>,
    sections: Seq<SectionView>,
)
    requires
        before.subset_of(after),
        links_met(scope, before, sections),
    ensures
        links_met(scope, after, sections),
{
    assert forall|i: int| 0 <= i < sections.len() implies match (#[trigger] sections[i]).submodule {
        Some(SubmoduleView::Documented(link)) => exists|file: FileIdView| #[trigger]
            after.contains(file) && link == module_link(scope.primary(Some(file))),
        _ => true,
    } by {
        if let Some(SubmoduleView::Documented(link)) = sections[i].submodule {
            let file = choose|file: FileIdView| #[trigger]
                before.contains(file) && link == module_link(scope.primary(Some(file)));
            assert(after.contains(file));
        }
    }
}

proof fn lemma_symbols_links(
    scope: ScopeView,
    site: Option<FileIdView>,
    progress: ProgressView,
    symbols: Seq<SymbolView>,
)
    requires
        links_met(scope, progress.met, progress.sections),
    ensures
        links_met(
            scope,
            with_symbols(scope, site, progress, symbols).met,
            with_symbols(scope, site, progress, symbols).sections,
        ),
        progress.met.subset_of(with_symbols(scope, site, progress, symbols).met),
    decreases symbols.len(),
{
    if symbols.len() > 0 {
        let init = symbols.drop_last();
        let last = symbols.last();
        lemma_symbols_links(scope, site, progress, init);
        let before = with_symbols(scope, site, progress, init);
        let after = with_symbols(scope, site, progress, symbols);
        lemma_links_met_more(scope, before.met, after.met, before.sections);
        assert forall|i: int| 0 <= i < after.sections.len() implies match (
        #[trigger] after.sections[i]).submodule {
            Some(SubmoduleView::Documented(link)) => exists|file: FileIdView| #[trigger]
                after.met.contains(file) && link == module_link(scope.primary(Some(file))),
            _ => true,
        } by {
            if i < before.sections.len() {
                assert(after.sections[i] == before.sections[i]);
            } else if last.children.len() > 0 && last.head.fid is Some {
                assert(after.met.contains(last.head.fid->0));
            }
        }
    }
}

/// Whether every link in some modules is one to a module that was met.
pub open spec fn all_links_met(scope: ScopeView, journey: JourneyView) -> bool {
    forall|i: int|
        0 <= i < journey.modules.len() ==> links_met(
            scope,
            journey.met,
            (#[trigger] journey.modules[i]).symbols,
        )
}

proof fn lemma_queue_links(scope: ScopeView, journey: JourneyView, queue: Seq<PendingView>)
    requires
        all_links_met(scope, journey),
    ensures
        all_links_met(scope, with_queue(scope, journey, queue)),
    decreases queue_size(queue),
{
    if queue.len() > 0 {
        let first = queue[0];
        let next = with_module(scope, journey, first);
        lemma_queue_shrinks(scope, journey, queue);
        lemma_symbols_links(scope, first.file, module_start(journey, first), first.children);
        assert forall|i: int| 0 <= i < next.modules.len() implies links_met(
            scope,
            next.met,
            (#[trigger] next.modules[i]).symbols,
        ) by {
            if i < journey.modules.len() {
                assert(next.modules[i] == journey.modules[i]);
                lemma_links_met_more(scope, journey.met, next.met, journey.modules[i].symbols);
            }
        }
        lemma_queue_links(scope, next, queue_after(scope, journey, queue));
    }
}

/// Whether no symbol is shown as a module without a file.
pub open spec fn none_builtin(sections: Seq<SectionView>) -> bool {
    forall|i: int|
        0 <= i < sections.len() ==> (#[trigger] sections[i]).submodule != Some(
            SubmoduleView::Builtin,
        )
}

proof fn lemma_symbols_not_builtin(
    has: spec_fn(FileIdView) -> bool,
    scope: ScopeView,
    site: Option<FileIdView>,
    progress: ProgressView,
    symbols: Seq<SymbolView>,
)
    requires
        all_charted(has, scope.package, symbols),
        queue_charted(has, scope.package, progress.waiting),
        none_builtin(progress.sections),
    ensures
        queue_charted(
            has,
            scope.package,
            with_symbols(scope, site, progress, symbols).waiting,
        ),
        none_builtin(with_symbols(scope, site, progress, symbols).sections),
    decreases symbols.len(),
{
    if symbols.len() > 0 {
        let init = symbols.drop_last();
        let last = symbols.last();
        assert forall|i: int| 0 <= i < init.len() implies charted(
            has,
            scope.package,
            #[trigger] init[i],
        ) by {
            assert(init[i] == symbols[i]);
        }
        lemma_symbols_not_builtin(has, scope, site, progress, init);
        assert(charted(has, scope.package, symbols[symbols.len() - 1]));
        let before = with_symbols(scope, site, progress, init);
        let after = with_symbols(scope, site, progress, symbols);
        assert forall|i: int| 0 <= i < after.sections.len() implies (
        #[trigger] after.sections[i]).submodule != Some(SubmoduleView::Builtin) by {
            if i < before.sections.len() {
                assert(after.sections[i] == before.sections[i]);
            }
        }
        assert forall|i: int| 0 <= i < after.waiting.len() implies all_charted(
            has,
            scope.package,
            (#[trigger] after.waiting[i]).children,
        ) by {
            if i < before.waiting.len() {
                assert(after.waiting[i] == before.waiting[i]);
            } else {
                assert(after.waiting[i].children == last.children);
            }
        }
    }
}

proof fn lemma_queue_not_builtin(
    has: spec_fn(FileIdView) -> bool,
    scope: ScopeView,
    journey: JourneyView,
    queue: Seq<PendingView>,
)
    requires
        queue_charted(has, scope.package, queue),
        forall|i: int|
            0 <= i < journey.modules.len() ==> none_builtin(
                (#[trigger] journey.modules[i]).symbols,
            ),
    ensures
        forall|i: int|
            0 <= i < with_queue(scope, journey, queue).modules.len() ==> none_builtin(
                (#[trigger] with_queue(scope, journey, queue).modules[i]).symbols,
            ),
    decreases queue_size(queue),
{
    if queue.len() > 0 {
        let first = queue[0];
        let next = with_module(scope, journey, first);
        let rest = queue_after(scope, journey, queue);
        let waiting = module_end(scope, journey, first).waiting;
        lemma_queue_shrinks(scope, journey, queue);
        assert(all_charted(has, scope.package, queue[0].children));
        lemma_symbols_not_builtin(
            has,
            scope,
            first.file,
            module_start(journey, first),
            first.children,
        );
        assert forall|i: int| 0 <= i < rest.len() implies all_charted(
            has,
            scope.package,
            (#[trigger] rest[i]).children,
        ) by {
            let n = queue.len() - 1;
            if i < n {
                assert(rest[i] == queue[i + 1]);
            } else {
                assert(rest[i] == waiting[i - n]);
            }
        }
        lemma_queue_not_builtin(has, scope, next, rest);
    }
}

/// Where a symbol of a package has a module behind it, there is a link, and it
/// leads to a module that is documented.
pub proof fn module_links_lead_to_modules(
    scan: ScanView,
    title: Seq<char>,
    uses: Map<Seq<char>, Seq<Seq<char>>>,
    i: int,
    k: int,
)
    requires
        resides_in(scan.root, scan.package),
        listing(scan) matches ListingView::Done(root, _) && {
            let end = journey_from(scope_of(scan, title, uses), root);
            &&& 0 <= i < end.modules.len()
            &&& 0 <= k < end.modules[i].symbols.len()
            &&& end.modules[i].symbols[k].submodule is Some
        },
    ensures
        listing(scan) matches ListingView::Done(root, _) ==> {
            let end = journey_from(scope_of(scan, title, uses), root);
            end.modules[i].symbols[k].submodule matches Some(SubmoduleView::Documented(link))
                && exists|j: int|
                0 <= j < end.modules.len() && module_link(
                    (#[trigger] end.modules[j]).info.prefix,
                ) == link
        },
{
    only_own_modules_are_entered(scan);
    lemma_listing_visits(scan, title, uses);
    if let ListingView::Done(root, aliases) = listing(scan) {
        let scope = scope_of(scan, title, uses);
        let queue = seq![pending_of(root.head.name, root)];
        let end = journey_from(scope, root);
        let order = visited(scope, journey_start(), queue);
        let n = journey_start().modules.len() as int;
        lemma_visited_modules(scope, journey_start(), queue);
        lemma_queue_links(scope, journey_start(), queue);
        lemma_queue_not_builtin(among(aliases), scope, journey_start(), queue);
        assert(links_met(scope, end.met, end.modules[i].symbols));
        assert(none_builtin(end.modules[i].symbols));
        let section = end.modules[i].symbols[k];
        if let Some(SubmoduleView::Documented(link)) = section.submodule {
            let file = choose|file: FileIdView| #[trigger]
                end.met.contains(file) && link == module_link(scope.primary(Some(file)));
            let j = choose|j: int|
                0 <= j < order.len() && (#[trigger] order[j]).file == Some(file);
            assert(introduces(scope, order[j], end.modules[n + j]));
        }
    }
}

} // verus!
