//! What holds of every documentation.

use vstd::prelude::*;
use crate::collections::{number_of, numbered_with};
use crate::package::FileIdView;
use crate::plan::{
    comment_safe, convert_fault, journey_from, journey_start, lemma_queue_shrinks, located,
    module_faults, module_start, owner, pending_of, planned, queue_after, queue_size,
    section_faults, symbol_ident, with_module, with_queue, with_symbols, JourneyView, ModuleSectionView,
    PendingView, ProgressView, ScopeView, SectionView,
};
use crate::records::{lemma_number_stays, PackageMetaView};
use crate::symbols::{span_file, HeadView, SymbolView};
use crate::text::{holds_text, stands_at};

verus! {

proof fn lemma_comment_texts()
    ensures
        "-->"@ == seq!['-', '-', '>'],
        "—>"@ == seq!['—', '>'],
{
    reveal_strlit("-->");
    reveal_strlit("—>");
    assert("-->"@ =~= seq!['-', '-', '>']);
    assert("—>"@ =~= seq!['—', '>']);
}

/// What a text begins with once the ends of comments are replaced, it began
/// with before.
proof fn lemma_safe_beginning(text: Seq<char>)
    ensures
        comment_safe(text).len() > 0 && comment_safe(text)[0] != '—' ==> text.len() > 0
            && comment_safe(text)[0] == text[0],
        comment_safe(text).len() > 1 && comment_safe(text)[0] == '-' && comment_safe(text)[1] == '>'
            ==> text.len() > 1 && text[0] == '-' && text[1] == '>',
{
    lemma_comment_texts();
    if text.len() > 0 {
        let rest = text.skip(1);
        if !stands_at(text, 0, "-->"@) && rest.len() > 0 {
            if stands_at(rest, 0, "-->"@) {
                assert(comment_safe(rest)[0] == '—');
            }
        }
    }
}

/// A text whose ends of comments are replaced holds none, so it cannot end the
/// comment that it stands in.
pub proof fn safe_text_ends_no_comment(text: Seq<char>)
    ensures
        !holds_text(comment_safe(text), "-->"@),
    decreases text.len(),
{
    lemma_comment_texts();
    let pat = "-->"@;
    let out = comment_safe(text);
    if text.len() == 0 {
        assert forall|i: int| !stands_at(out, i, pat) by {}
    } else if stands_at(text, 0, pat) {
        let rest = text.skip(3);
        safe_text_ends_no_comment(rest);
        let tail = comment_safe(rest);
        assert(out == seq!['—', '>'] + tail);
        assert forall|i: int| !stands_at(out, i, pat) by {
            if stands_at(out, i, pat) {
                assert(out.subrange(i, i + 3)[0] == out[i]);
                assert(i >= 2);
                assert(tail.subrange(i - 2, i + 1) =~= out.subrange(i, i + 3));
                assert(stands_at(tail, i - 2, pat));
            }
        }
    } else {
        let rest = text.skip(1);
        safe_text_ends_no_comment(rest);
        lemma_safe_beginning(rest);
        let tail = comment_safe(rest);
        assert(out == seq![text[0]] + tail);
        assert forall|i: int| !stands_at(out, i, pat) by {
            if stands_at(out, i, pat) {
                let part = out.subrange(i, i + 3);
                assert(part[0] == out[i] && part[1] == out[i + 1] && part[2] == out[i + 2]);
                if i == 0 {
                    assert(tail[0] == '-' && tail[1] == '>');
                    assert(text[1] == rest[0] && text[2] == rest[1]);
                    assert(text.subrange(0, 3) =~= pat);
                } else {
                    assert(tail.subrange(i - 1, i + 2) =~= part);
                    assert(stands_at(tail, i - 1, pat));
                }
            }
        }
    }
}

/// Whether no fault in the documentation of some symbols ends a comment.
pub open spec fn faults_are_safe(sections: Seq<SectionView>) -> bool {
    forall|i: int|
        0 <= i < sections.len() && (#[trigger] sections[i]).fault is Some ==> !holds_text(
            sections[i].fault->0,
            "-->"@,
        )
}

proof fn lemma_symbols_safe(
    scope: ScopeView,
    site: Option<FileIdView>,
    progress: ProgressView,
    symbols: Seq<SymbolView>,
)
    requires
        faults_are_safe(progress.sections),
    ensures
        faults_are_safe(with_symbols(scope, site, progress, symbols).sections),
    decreases symbols.len(),
{
    if symbols.len() > 0 {
        lemma_symbols_safe(scope, site, progress, symbols.drop_last());
        let head = symbols.last().head;
        if head.docs is Some && head.docs->0.converted is Err {
            let inner = convert_fault(scope.title, head.docs->0.converted->Err_0@);
            safe_text_ends_no_comment(
                "failed to convert docs in "@ + scope.title + ": "@ + inner,
            );
        }
        let before = with_symbols(scope, site, progress, symbols.drop_last()).sections;
        let after = with_symbols(scope, site, progress, symbols).sections;
        assert forall|i: int|
            0 <= i < after.len() && (#[trigger] after[i]).fault is Some implies !holds_text(
            after[i].fault->0,
            "-->"@,
        ) by {
            if i < before.len() {
                assert(after[i] == before[i]);
            }
        }
    }
}

/// Whether no fault in the documentation of some modules ends a comment.
pub open spec fn all_faults_are_safe(modules: Seq<ModuleSectionView>) -> bool {
    forall|i: int| 0 <= i < modules.len() ==> faults_are_safe((#[trigger] modules[i]).symbols)
}

proof fn lemma_queue_safe(scope: ScopeView, journey: JourneyView, queue: Seq<PendingView>)
    requires
        all_faults_are_safe(journey.modules),
    ensures
        all_faults_are_safe(with_queue(scope, journey, queue).modules),
    decreases queue_size(queue),
{
    if queue.len() > 0 {
        let first = queue[0];
        lemma_queue_shrinks(scope, journey, queue);
        lemma_symbols_safe(scope, first.file, module_start(journey, first), first.children);
        lemma_queue_safe(
            scope,
            with_module(scope, journey, first),
            queue_after(scope, journey, queue),
        );
    }
}

proof fn lemma_section_faults_safe(sections: Seq<SectionView>)
    requires
        faults_are_safe(sections),
    ensures
        forall|i: int|
            0 <= i < section_faults(sections).len() ==> !holds_text(
                #[trigger] section_faults(sections)[i],
                "-->"@,
            ),
    decreases sections.len(),
{
    if sections.len() > 0 {
        let init = sections.drop_last();
        assert forall|i: int|
            0 <= i < init.len() && (#[trigger] init[i]).fault is Some implies !holds_text(
            init[i].fault->0,
            "-->"@,
        ) by {
            assert(init[i] == sections[i]);
        }
        lemma_section_faults_safe(init);
        let last = sections[sections.len() - 1];
        let before = section_faults(init);
        let after = section_faults(sections);
        assert forall|i: int| 0 <= i < after.len() implies !holds_text(#[trigger] after[i], "-->"@) by {
            if i < before.len() {
                assert(after[i] == before[i]);
            } else {
                assert(after[i] == last.fault->0);
            }
        }
    }
}

proof fn lemma_module_faults_safe(modules: Seq<ModuleSectionView>)
    requires
        all_faults_are_safe(modules),
    ensures
        forall|i: int|
            0 <= i < module_faults(modules).len() ==> !holds_text(
                #[trigger] module_faults(modules)[i],
                "-->"@,
            ),
    decreases modules.len(),
{
    if modules.len() > 0 {
        let init = modules.drop_last();
        assert forall|i: int| 0 <= i < init.len() implies faults_are_safe(
            (#[trigger] init[i]).symbols,
        ) by {
            assert(init[i] == modules[i]);
        }
        lemma_module_faults_safe(init);
        assert(faults_are_safe(modules[modules.len() - 1].symbols));
        lemma_section_faults_safe(modules.last().symbols);
        let before = module_faults(init);
        let added = section_faults(modules.last().symbols);
        let after = module_faults(modules);
        assert forall|i: int| 0 <= i < after.len() implies !holds_text(#[trigger] after[i], "-->"@) by {
            if i < before.len() {
                assert(after[i] == before[i]);
            } else {
                assert(after[i] == added[i - before.len()]);
            }
        }
    }
}

/// None of the faults that the documentation lists, and none that stands in
/// it as a comment, holds the end of a comment.
pub proof fn faults_end_no_comment(scope: ScopeView, package: PackageMetaView, root: SymbolView)
    ensures
        all_faults_are_safe(planned(scope, package, root).modules),
        forall|i: int|
            0 <= i < planned(scope, package, root).errors.len() ==> !holds_text(
                #[trigger] planned(scope, package, root).errors[i],
                "-->"@,
            ),
{
    lemma_queue_safe(scope, journey_start(), seq![pending_of(root.head.name, root)]);
    lemma_module_faults_safe(journey_from(scope, root).modules);
}

pub proof fn lemma_numbered_with(files: Seq<FileIdView>, file: FileIdView)
    requires
        files.no_duplicates(),
    ensures
        numbered_with(files, file).no_duplicates(),
        files.is_prefix_of(numbered_with(files, file)),
        numbered_with(files, file).contains(file),
        0 <= number_of(numbered_with(files, file), file) < numbered_with(files, file).len(),
        numbered_with(files, file)[number_of(numbered_with(files, file), file)] == file,
{
    let after = numbered_with(files, file);
    assert(after.subrange(0, files.len() as int) =~= files);
    if !files.contains(file) {
        assert(after.last() == file);
    }
    assert(after.contains(file));
}

proof fn lemma_prefix_trans(a: Seq<FileIdView>, b: Seq<FileIdView>, c: Seq<FileIdView>)
    requires
        a.is_prefix_of(b),
        b.is_prefix_of(c),
    ensures
        a.is_prefix_of(c),
{
    let n = a.len() as int;
    assert(c.subrange(0, n) =~= b.subrange(0, n));
}

/// The file that the place of a symbol is in.
pub open spec fn place_of(head: HeadView, site: Option<FileIdView>) -> Option<FileIdView> {
    if span_file(head) is Some && head.span->0.range is Some {
        span_file(head)
    } else {
        owner(head, site)
    }
}

/// The bytes that a symbol takes up there.
pub open spec fn range_of(head: HeadView) -> (usize, usize) {
    if span_file(head) is Some && head.span->0.range is Some {
        head.span->0.range->0
    } else {
        (0, 0)
    }
}

/// Whether the place of a symbol is that of its span, or the file that it
/// belongs to, with the number that the file has.
pub open spec fn rightly_placed(
    files: Seq<FileIdView>,
    site: Option<FileIdView>,
    head: HeadView,
) -> bool {
    match place_of(head, site) {
        Some(file) => {
            &&& head.loc matches Some((number, start, end))
            &&& (start, end) == range_of(head)
            &&& number < files.len()
            &&& files[number as int] == file
        },
        None => head.loc is None,
    }
}

proof fn lemma_located(files: Seq<FileIdView>, head: HeadView, site: Option<FileIdView>)
    requires
        files.no_duplicates(),
    ensures
        located(files, head, site).1.no_duplicates(),
        files.is_prefix_of(located(files, head, site).1),
        located(files, head, site).1.len() <= usize::MAX ==> rightly_placed(
            located(files, head, site).1,
            site,
            (HeadView { loc: located(files, head, site).0, ..head }),
        ),
{
    let with_span = match span_file(head) {
        Some(file) => numbered_with(files, file),
        None => files,
    };
    assert(files.subrange(0, files.len() as int) =~= files);
    if span_file(head) is Some {
        lemma_numbered_with(files, span_file(head)->0);
    }
    if owner(head, site) is Some {
        lemma_numbered_with(with_span, owner(head, site)->0);
        lemma_prefix_trans(files, with_span, numbered_with(with_span, owner(head, site)->0));
    }
}

proof fn lemma_placed_later(
    before: Seq<FileIdView>,
    after: Seq<FileIdView>,
    site: Option<FileIdView>,
    head: HeadView,
)
    requires
        before.is_prefix_of(after),
        rightly_placed(before, site, head),
    ensures
        rightly_placed(after, site, head),
{
    if place_of(head, site) is Some {
        let (n, _, _) = head.loc->0;
        assert(after.subrange(0, before.len() as int)[n as int] == after[n as int]);
    }
}

proof fn lemma_symbols_grow(
    scope: ScopeView,
    site: Option<FileIdView>,
    progress: ProgressView,
    symbols: Seq<SymbolView>,
)
    requires
        progress.files.no_duplicates(),
    ensures
        with_symbols(scope, site, progress, symbols).files.no_duplicates(),
        progress.files.is_prefix_of(with_symbols(scope, site, progress, symbols).files),
    decreases symbols.len(),
{
    if symbols.len() == 0 {
        assert(progress.files.subrange(0, progress.files.len() as int) =~= progress.files);
    } else {
        lemma_symbols_grow(scope, site, progress, symbols.drop_last());
        let before = with_symbols(scope, site, progress, symbols.drop_last()).files;
        lemma_located(before, symbols.last().head, site);
        lemma_prefix_trans(
            progress.files,
            before,
            with_symbols(scope, site, progress, symbols).files,
        );
    }
}

/// Whether the symbols of a module in the file `site` are rightly placed.
pub open spec fn all_rightly_placed(
    files: Seq<FileIdView>,
    site: Option<FileIdView>,
    sections: Seq<SectionView>,
) -> bool {
    forall|i: int|
        0 <= i < sections.len() ==> rightly_placed(files, site, (#[trigger] sections[i]).head)
}

proof fn lemma_symbols_placed(
    scope: ScopeView,
    site: Option<FileIdView>,
    progress: ProgressView,
    symbols: Seq<SymbolView>,
)
    requires
        progress.files.no_duplicates(),
        all_rightly_placed(progress.files, site, progress.sections),
        with_symbols(scope, site, progress, symbols).files.len() <= usize::MAX,
    ensures
        all_rightly_placed(
            with_symbols(scope, site, progress, symbols).files,
            site,
            with_symbols(scope, site, progress, symbols).sections,
        ),
    decreases symbols.len(),
{
    if symbols.len() > 0 {
        let before = with_symbols(scope, site, progress, symbols.drop_last());
        let after = with_symbols(scope, site, progress, symbols);
        lemma_symbols_grow(scope, site, progress, symbols.drop_last());
        lemma_located(before.files, symbols.last().head, site);
        lemma_symbols_placed(scope, site, progress, symbols.drop_last());
        assert forall|i: int| 0 <= i < after.sections.len() implies rightly_placed(
            after.files,
            site,
            (#[trigger] after.sections[i]).head,
        ) by {
            if i < before.sections.len() {
                assert(after.sections[i] == before.sections[i]);
                lemma_placed_later(before.files, after.files, site, before.sections[i].head);
            } else {
                let head = symbols.last().head;
                let shown = after.sections[i].head;
                assert(shown.span == head.span && shown.fid == head.fid);
                assert(rightly_placed(
                    after.files,
                    site,
                    (HeadView { loc: shown.loc, ..head }),
                ));
            }
        }
    }
}

/// The file that a number stands for.
pub open spec fn file_at(files: Seq<FileIdView>, number: Option<usize>) -> Option<FileIdView> {
    match number {
        Some(number) => Some(files[number as int]),
        None => None,
    }
}

/// Whether a module and its symbols are rightly placed.
pub open spec fn module_placed(files: Seq<FileIdView>, module: ModuleSectionView) -> bool {
    &&& module.info.loc is Some ==> module.info.loc->0 < files.len()
    &&& all_rightly_placed(files, file_at(files, module.info.loc), module.symbols)
}

/// Whether some modules and their symbols are rightly placed.
pub open spec fn modules_placed(
    files: Seq<FileIdView>,
    modules: Seq<ModuleSectionView>,
) -> bool {
    forall|i: int| 0 <= i < modules.len() ==> module_placed(files, #[trigger] modules[i])
}

pub proof fn lemma_module_grows(scope: ScopeView, journey: JourneyView, module: PendingView)
    requires
        journey.files.no_duplicates(),
    ensures
        with_module(scope, journey, module).files.no_duplicates(),
        module_start(journey, module).files.no_duplicates(),
        journey.files.is_prefix_of(with_module(scope, journey, module).files),
        journey.files.is_prefix_of(module_start(journey, module).files),
        module_start(journey, module).files.is_prefix_of(
            with_module(scope, journey, module).files,
        ),
{
    let start = module_start(journey, module);
    assert(journey.files.subrange(0, journey.files.len() as int) =~= journey.files);
    if module.file is Some {
        lemma_numbered_with(journey.files, module.file->0);
    }
    lemma_symbols_grow(scope, module.file, start, module.children);
    lemma_prefix_trans(
        journey.files,
        start.files,
        with_module(scope, journey, module).files,
    );
}

pub proof fn lemma_queue_grows(scope: ScopeView, journey: JourneyView, queue: Seq<PendingView>)
    requires
        journey.files.no_duplicates(),
    ensures
        with_queue(scope, journey, queue).files.no_duplicates(),
        journey.files.is_prefix_of(with_queue(scope, journey, queue).files),
    decreases queue_size(queue),
{
    if queue.len() == 0 {
        assert(journey.files.subrange(0, journey.files.len() as int) =~= journey.files);
    } else {
        let next = with_module(scope, journey, queue[0]);
        lemma_queue_shrinks(scope, journey, queue);
        lemma_module_grows(scope, journey, queue[0]);
        lemma_queue_grows(scope, next, queue_after(scope, journey, queue));
        lemma_prefix_trans(
            journey.files,
            next.files,
            with_queue(scope, journey, queue).files,
        );
    }
}

proof fn lemma_module_placed_later(
    before: Seq<FileIdView>,
    after: Seq<FileIdView>,
    module: ModuleSectionView,
)
    requires
        before.is_prefix_of(after),
        module_placed(before, module),
    ensures
        module_placed(after, module),
{
    if module.info.loc is Some {
        let n = module.info.loc->0 as int;
        assert(after.subrange(0, before.len() as int)[n] == after[n]);
    }
    let site = file_at(before, module.info.loc);
    assert(file_at(after, module.info.loc) == site);
    assert forall|i: int| 0 <= i < module.symbols.len() implies rightly_placed(
        after,
        site,
        (#[trigger] module.symbols[i]).head,
    ) by {
        lemma_placed_later(before, after, site, module.symbols[i].head);
    }
}

proof fn lemma_module_placed(scope: ScopeView, journey: JourneyView, module: PendingView)
    requires
        journey.files.no_duplicates(),
        modules_placed(journey.files, journey.modules),
        with_module(scope, journey, module).files.len() <= usize::MAX,
    ensures
        modules_placed(
            with_module(scope, journey, module).files,
            with_module(scope, journey, module).modules,
        ),
{
    let start = module_start(journey, module);
    let after = with_module(scope, journey, module);
    lemma_module_grows(scope, journey, module);
    if module.file is Some {
        lemma_numbered_with(journey.files, module.file->0);
        lemma_number_stays(start.files, after.files, module.file->0);
    }
    lemma_symbols_placed(scope, module.file, start, module.children);
    assert forall|i: int| 0 <= i < after.modules.len() implies module_placed(
        after.files,
        #[trigger] after.modules[i],
    ) by {
        if i < journey.modules.len() {
            assert(after.modules[i] == journey.modules[i]);
            lemma_module_placed_later(journey.files, after.files, journey.modules[i]);
        } else {
            assert(file_at(after.files, after.modules[i].info.loc) == module.file);
        }
    }
}

proof fn lemma_queue_placed(scope: ScopeView, journey: JourneyView, queue: Seq<PendingView>)
    requires
        journey.files.no_duplicates(),
        modules_placed(journey.files, journey.modules),
        with_queue(scope, journey, queue).files.len() <= usize::MAX,
    ensures
        modules_placed(
            with_queue(scope, journey, queue).files,
            with_queue(scope, journey, queue).modules,
        ),
    decreases queue_size(queue),
{
    if queue.len() > 0 {
        let next = with_module(scope, journey, queue[0]);
        let rest = queue_after(scope, journey, queue);
        lemma_queue_shrinks(scope, journey, queue);
        lemma_module_grows(scope, journey, queue[0]);
        lemma_queue_grows(scope, next, rest);
        lemma_module_placed(scope, journey, queue[0]);
        lemma_queue_placed(scope, next, rest);
    }
}

/// Every number by which the documentation refers to a file is the number of
/// that file in the list at its end: those of the modules, and those in the
/// places of the symbols.
pub proof fn places_are_right(scope: ScopeView, root: SymbolView)
    requires
        journey_from(scope, root).files.len() <= usize::MAX,
    ensures
        journey_from(scope, root).files.no_duplicates(),
        modules_placed(journey_from(scope, root).files, journey_from(scope, root).modules),
{
    let queue = seq![pending_of(root.head.name, root)];
    lemma_queue_grows(scope, journey_start(), queue);
    lemma_queue_placed(scope, journey_start(), queue);
}

/// Whether the documentation of some symbols has one section for each of them,
/// in order, under its name and kind.
pub open spec fn sections_follow(
    primary: Seq<char>,
    symbols: Seq<SymbolView>,
    sections: Seq<SectionView>,
) -> bool {
    &&& sections.len() == symbols.len()
    &&& forall|i: int|
        0 <= i < symbols.len() ==> {
            let head = symbols[i].head;
            let section = #[trigger] sections[i];
            &&& section.head.name == head.name
            &&& section.head.kind == head.kind
            &&& section.ident == symbol_ident(head.kind, primary, head.name)
        }
}

proof fn lemma_sections_follow(
    scope: ScopeView,
    site: Option<FileIdView>,
    progress: ProgressView,
    symbols: Seq<SymbolView>,
)
    requires
        progress.sections.len() == 0,
    ensures
        sections_follow(
            scope.primary(site),
            symbols,
            with_symbols(scope, site, progress, symbols).sections,
        ),
    decreases symbols.len(),
{
    if symbols.len() > 0 {
        let init = symbols.drop_last();
        lemma_sections_follow(scope, site, progress, init);
        let before = with_symbols(scope, site, progress, init).sections;
        let after = with_symbols(scope, site, progress, symbols).sections;
        assert forall|i: int| 0 <= i < symbols.len() implies ({
            let head = symbols[i].head;
            let section = #[trigger] after[i];
            &&& section.head.name == head.name
            &&& section.head.kind == head.kind
            &&& section.ident == symbol_ident(head.kind, scope.primary(site), head.name)
        }) by {
            if i < init.len() {
                assert(after[i] == before[i]);
                assert(init[i] == symbols[i]);
            }
        }
    }
}

/// The documentation of a module has one section for each of its symbols, in
/// order.
pub proof fn all_symbols_are_documented(
    scope: ScopeView,
    journey: JourneyView,
    module: PendingView,
)
    ensures
        sections_follow(
            scope.primary(module.file),
            module.children,
            with_module(scope, journey, module).modules.last().symbols,
        ),
{
    lemma_sections_follow(scope, module.file, module_start(journey, module), module.children);
}

} // verus!
