//! What the documentation says of a symbol and of a module.

use vstd::prelude::*;
use crate::collections::{number_of, numbered_with};
use crate::docs::{parsed, RawDocs};
use crate::package::{file_text, version_text, FileIdView, PackageSpecView};
use crate::plan::{
    docs_fault, documented_head, journey_from, links, located, module_faults, module_link,
    module_start, planned, section_faults, shown_signature, submodule_of, symbol_ident,
    symbol_section, undotted, with_module, with_symbols, JourneyView, ModuleSectionView,
    PendingView, ProgressView, ScopeView, SectionView, SubmoduleView,
};
use crate::records::{end_record, PackageMetaView};
use crate::signature::value_signature;
use crate::symbols::{HeadView, SymbolView, ValueView};
use crate::text::{replaced, stands_at};
use crate::value::{FuncValue, Value};

verus! {

/// A text without its dots: all other characters, in order.
pub open spec fn no_dots(text: Seq<char>) -> Seq<char> {
    text.filter(|c: char| c != '.')
}

/// Taking out the dots keeps all other characters in order.
pub proof fn dots_are_taken_out(text: Seq<char>)
    ensures
        undotted(text) == no_dots(text),
    decreases text.len(),
{
    reveal_strlit(".");
    reveal_strlit("");
    let p = |c: char| c != '.';
    if text.len() == 0 {
        assert(text.filter(p) =~= Seq::empty()) by {
            reveal(Seq::filter);
        }
        assert(undotted(text) =~= Seq::empty());
    } else {
        let first = seq![text[0]];
        let rest = text.skip(1);
        dots_are_taken_out(rest);
        assert(text =~= first + rest);
        Seq::filter_distributes_over_add(first, rest, p);
        assert(first.filter(p) =~= if text[0] == '.' {
            Seq::<char>::empty()
        } else {
            first
        }) by {
            reveal(Seq::filter);
            assert(first.drop_last() =~= Seq::empty());
            assert(first.drop_last().filter(p) =~= Seq::empty());
        }
        assert(text.subrange(0, 1) =~= first);
        assert("."@ =~= seq!['.']);
        if text[0] == '.' {
            assert(stands_at(text, 0, "."@));
            assert(""@ + undotted(rest) =~= undotted(rest));
            assert(Seq::<char>::empty() + rest.filter(p) =~= rest.filter(p));
        } else {
            assert(!stands_at(text, 0, "."@)) by {
                if stands_at(text, 0, "."@) {
                    assert(text.subrange(0, 1)[0] == '.');
                }
            }
        }
    }
}

/// The best path to a module is the first of its paths, and there is none
/// without a file. All paths are those under the notation of the file.
pub proof fn best_path_comes_first(scope: ScopeView, file: FileIdView)
    ensures
        scope.akas(Some(file)) == scope.uses[file_text(file)],
        scope.akas(None) == Seq::<Seq<char>>::empty(),
        scope.uses[file_text(file)].len() > 0 ==> scope.primary(Some(file))
            == scope.uses[file_text(file)][0],
        scope.uses[file_text(file)].len() == 0 ==> scope.primary(Some(file)) == Seq::<
            char,
        >::empty(),
        scope.primary(None) == Seq::<char>::empty(),
{
}

/// A symbol is identified by its kind, the path to its module and its name; in
/// a module with the empty path the path is left out.
pub proof fn symbols_are_identified(kind: Seq<char>, primary: Seq<char>, name: Seq<char>)
    ensures
        primary.len() > 0 ==> symbol_ident(kind, primary, name) == "symbol-"@ + kind + "-"@
            + primary + "."@ + name,
        primary.len() == 0 ==> symbol_ident(kind, primary, name) == "symbol-"@ + kind + "-"@
            + name,
{
}

/// Only a reexport whose file is known is linked. In the same package the links
/// lead to the section of its file, for another package to where that is
/// published, and without a package to the docs of the language.
pub proof fn reexports_are_linked(
    scope: ScopeView,
    head: HeadView,
    file: FileIdView,
    package: PackageSpecView,
)
    ensures
        !head.export_again || head.fid is None ==> links(scope, head) is None,
        head.export_again && head.fid == Some(file) && file.package == Some(scope.package) ==> {
            let primary = scope.primary(Some(file));
            links(scope, head) == Some(
                (
                    no_dots("#"@ + head.kind + "-"@ + head.name + "-in-"@ + primary),
                    "#symbol-"@ + head.kind + "-"@ + primary + "."@ + head.name,
                ),
            )
        },
        head.export_again && head.fid == Some(file) && file.package == Some(package) && package
            != scope.package ==> {
            let link = "https://typst.app/universe/package/"@ + package.name + "/"@ + version_text(
                package.version,
            );
            links(scope, head) == Some((link, link))
        },
        head.export_again && head.fid == Some(file) && file.package is None ==> links(scope, head)
            == Some(("https://typst.app/docs"@, "https://typst.app/docs"@)),
{
    dots_are_taken_out(
        "#"@ + head.kind + "-"@ + head.name + "-in-"@ + scope.primary(Some(file)),
    );
}

/// The message about docs that could not be converted, fit for a comment.
pub open spec fn fault_message(title: Seq<char>, message: Seq<char>) -> Seq<char> {
    replaced("failed to convert docs in "@ + title + ": "@ + message, "-->"@, "—>"@)
}

/// There is a fault exactly where there are docs that could not be converted,
/// and it names the title and the message of the conversion, twice over.
pub proof fn failed_conversions_are_faults(title: Seq<char>, docs: Option<RawDocs>)
    ensures
        docs_fault(title, docs) is Some <==> docs is Some && docs->0.converted is Err,
        docs is Some && docs->0.converted is Err ==> docs_fault(title, docs) == Some(
            fault_message(title, fault_message(title, docs->0.converted->Err_0@)),
        ),
{
}

/// Everything that the documentation knows of a symbol: what was known before,
/// its place, its signature, the link to where it is documented, and its docs,
/// parsed if they could be converted and raw if not.
pub proof fn documented_symbols_keep_what_was_known(
    scope: ScopeView,
    loc: Option<(usize, usize, usize)>,
    head: HeadView,
)
    ensures
        ({
            let shown = documented_head(scope, loc, head);
            let converts = head.docs is Some && head.docs->0.converted is Ok;
            &&& shown.name == head.name && shown.kind == head.kind && shown.value == head.value
            &&& shown.fid == head.fid && shown.span == head.span
            &&& shown.name_range == head.name_range && shown.constant == head.constant
            &&& shown.export_again == head.export_again && shown.oneliner == head.oneliner
            &&& shown.loc == loc
            &&& shown.signature == shown_signature(head)
            &&& links(scope, head) is None ==> shown.external_link == head.external_link
            &&& links(scope, head) matches Some((_, record)) ==> shown.external_link == Some(
                record,
            )
            &&& converts ==> shown.docs is None && shown.parsed_docs == Some(
                parsed(head.kind, head.docs->0.converted->Ok_0),
            )
            &&& !converts ==> shown.docs == head.docs && shown.parsed_docs == head.parsed_docs
        }),
{
}

/// The signature of a symbol is that of the function that it stands for, read
/// at the place of the symbol's name; other symbols have none.
pub proof fn symbols_show_their_signatures(head: HeadView, func: FuncValue)
    ensures
        head.value == Some(ValueView::Func(func)) ==> shown_signature(head) == value_signature(
            Value::Func(func),
            head.name_range,
        ),
        head.value is None || !(head.value->0 is Func) ==> shown_signature(head) is None,
{
}

/// A symbol with children is said to have a module behind it: with a file, the
/// module at the anchor of its best path, and without one a builtin module.
pub proof fn modules_behind_symbols_are_named(scope: ScopeView, symbol: SymbolView)
    ensures
        symbol.children.len() == 0 <==> submodule_of(scope, symbol) is None,
        symbol.children.len() > 0 && symbol.head.fid is Some ==> submodule_of(scope, symbol) == Some(
            SubmoduleView::Documented(no_dots("module-"@ + scope.primary(symbol.head.fid))),
        ),
        symbol.children.len() > 0 && symbol.head.fid is None ==> submodule_of(scope, symbol) == Some(
            SubmoduleView::Builtin,
        ),
{
    dots_are_taken_out("module-"@ + scope.primary(symbol.head.fid));
}

/// The anchor of a module is its path without dots, behind a word.
pub proof fn anchors_hold_no_dots(primary: Seq<char>)
    ensures
        module_link(primary) == no_dots("module-"@ + primary),
{
    dots_are_taken_out("module-"@ + primary);
}

/// A symbol with a place in a source at hand stands there; any other one at
/// the beginning of its own file, of the file that its place points into, or of
/// the file of the module, the first of them that there is. The file that a
/// place points into is numbered in any case, and before the other one.
pub proof fn symbols_are_located(
    files: Seq<FileIdView>,
    head: HeadView,
    site: Option<FileIdView>,
    spot: FileIdView,
    other: FileIdView,
)
    ensures
        ({
            let at = head.span is Some && head.span->0.id == Some(spot);
            let nowhere = head.span is None || head.span->0.id is None;
            let with = numbered_with(files, spot);
            &&& at && head.span->0.range is Some ==> located(files, head, site) == (
                Some(
                    (
                        number_of(with, spot) as usize,
                        (head.span->0.range->0).0,
                        (head.span->0.range->0).1,
                    ),
                ),
                with,
            )
            &&& at && head.span->0.range is None && head.fid == Some(other) ==> located(
                files,
                head,
                site,
            ) == (
                Some((number_of(numbered_with(with, other), other) as usize, 0usize, 0usize)),
                numbered_with(with, other),
            )
            &&& at && head.span->0.range is None && head.fid is None ==> located(files, head, site)
                == (
                Some((number_of(numbered_with(with, spot), spot) as usize, 0usize, 0usize)),
                numbered_with(with, spot),
            )
            &&& nowhere && head.fid == Some(other) ==> located(files, head, site) == (
                Some((number_of(numbered_with(files, other), other) as usize, 0usize, 0usize)),
                numbered_with(files, other),
            )
            &&& nowhere && head.fid is None && site == Some(other) ==> located(files, head, site)
                == (
                Some((number_of(numbered_with(files, other), other) as usize, 0usize, 0usize)),
                numbered_with(files, other),
            )
            &&& nowhere && head.fid is None && site is None ==> located(files, head, site) == (
                None::<(usize, usize, usize)>,
                files,
            )
        }),
{
}

/// The section of a symbol says what is documented of it, under its identifier
/// in the module, with its link, its fault and the module behind it.
pub proof fn sections_say_everything(
    scope: ScopeView,
    site: Option<FileIdView>,
    files: Seq<FileIdView>,
    symbol: SymbolView,
)
    ensures
        ({
            let section = symbol_section(scope, site, files, symbol);
            let head = symbol.head;
            &&& section.head == documented_head(scope, located(files, head, site).0, head)
            &&& section.ident == symbol_ident(head.kind, scope.primary(site), head.name)
            &&& links(scope, head) matches Some((link, _)) ==> section.link == Some(link)
            &&& links(scope, head) is None ==> section.link is None
            &&& section.fault == docs_fault(scope.title, head.docs)
            &&& section.submodule == submodule_of(scope, symbol)
        }),
{
}

/// Each symbol of a module has its section in its place. What is documented of
/// it goes by the files that the symbols before it have numbered, and its own
/// files are numbered next.
pub proof fn each_symbol_has_its_section(
    scope: ScopeView,
    site: Option<FileIdView>,
    progress: ProgressView,
    symbols: Seq<SymbolView>,
    i: int,
)
    requires
        0 <= i < symbols.len(),
    ensures
        ({
            let before = with_symbols(scope, site, progress, symbols.take(i));
            let now = with_symbols(scope, site, progress, symbols.take(i + 1));
            let end = with_symbols(scope, site, progress, symbols);
            let n = progress.sections.len() as int;
            &&& end.sections.len() == n + symbols.len()
            &&& end.sections[n + i] == symbol_section(scope, site, before.files, symbols[i])
            &&& now.files == located(before.files, symbols[i].head, site).1
        }),
    decreases symbols.len(),
{
    let last = symbols.len() - 1;
    let init = symbols.drop_last();
    assert(symbols.take(i + 1).drop_last() =~= symbols.take(i));
    assert(symbols.take(i + 1).last() == symbols[i]);
    if i == last {
        assert(symbols.take(i) =~= init);
        assert(symbols.take(i + 1) =~= symbols);
        if init.len() > 0 {
            each_symbol_has_its_section(scope, site, progress, init, 0);
        }
    } else {
        each_symbol_has_its_section(scope, site, progress, init, i);
        assert(init.take(i) =~= symbols.take(i));
        assert(init.take(i + 1) =~= symbols.take(i + 1));
    }
}

/// The documentation of a module comes behind those before it. It carries the
/// best path to the module, its name, all its paths, the identifier through
/// which it was met and the number of its file.
pub proof fn modules_are_introduced(
    scope: ScopeView,
    journey: JourneyView,
    module: PendingView,
    file: FileIdView,
)
    ensures
        ({
            let after = with_module(scope, journey, module);
            let info = after.modules.last().info;
            let start = module_start(journey, module);
            &&& after.modules.len() == journey.modules.len() + 1
            &&& after.modules.drop_last() == journey.modules
            &&& info.prefix == scope.primary(module.file)
            &&& info.name == module.name
            &&& info.parent_ident == module.parent_ident
            &&& info.aka == scope.akas(module.file)
            &&& module.file is None ==> info.loc is None && start.files == journey.files
            &&& module.file == Some(file) ==> start.files == numbered_with(journey.files, file)
                && info.loc == Some(number_of(start.files, file) as usize)
            &&& start.met == journey.met && start.waiting.len() == 0 && start.sections.len() == 0
            &&& ({
                let end = with_symbols(scope, module.file, start, module.children);
                &&& after.modules.last().symbols == end.sections
                &&& after.files == end.files
                &&& after.met == end.met
            })
        }),
{
    let after = with_module(scope, journey, module);
    assert(after.modules.drop_last() =~= journey.modules);
}

/// The faults of two groups of symbols are the faults of both together; one
/// symbol has its own fault, if any.
pub proof fn symbol_faults_add_up(a: Seq<SectionView>, b: Seq<SectionView>, section: SectionView)
    ensures
        section_faults(a + b) == section_faults(a) + section_faults(b),
        section.fault is Some ==> section_faults(seq![section]) == seq![section.fault->0],
        section.fault is None ==> section_faults(seq![section]).len() == 0,
    decreases b.len(),
{
    let one = seq![section];
    assert(one.drop_last() =~= Seq::empty());
    assert(section_faults(one.drop_last()) =~= Seq::empty());
    assert(section_faults(one) =~= if section.fault is Some {
        seq![section.fault->0]
    } else {
        Seq::empty()
    });
    if b.len() == 0 {
        assert(a + b =~= a);
        assert(section_faults(a) + section_faults(b) =~= section_faults(a));
    } else {
        assert((a + b).drop_last() =~= a + b.drop_last());
        assert((a + b).last() == b.last());
        symbol_faults_add_up(a, b.drop_last(), section);
        assert(section_faults(a + b) =~= section_faults(a) + section_faults(b));
    }
}

/// The faults of two groups of modules are the faults of both together; one
/// module has the faults of its symbols.
pub proof fn module_faults_add_up(
    a: Seq<ModuleSectionView>,
    b: Seq<ModuleSectionView>,
    module: ModuleSectionView,
)
    ensures
        module_faults(a + b) == module_faults(a) + module_faults(b),
        module_faults(seq![module]) == section_faults(module.symbols),
    decreases b.len(),
{
    let one = seq![module];
    assert(one.drop_last() =~= Seq::empty());
    assert(module_faults(one.drop_last()) =~= Seq::empty());
    assert(module_faults(one) =~= section_faults(module.symbols));
    if b.len() == 0 {
        assert(a + b =~= a);
        assert(module_faults(a) + module_faults(b) =~= module_faults(a));
    } else {
        assert((a + b).drop_last() =~= a + b.drop_last());
        assert((a + b).last() == b.last());
        module_faults_add_up(a, b.drop_last(), module);
        assert(module_faults(a + b) =~= module_faults(a) + module_faults(b));
    }
}

/// A plan has the title and the package that it was made for, all documented
/// modules, the faults of all of them, and the record of all numbered files.
pub proof fn plans_are_complete(scope: ScopeView, package: PackageMetaView, root: SymbolView)
    ensures
        ({
            let plan = planned(scope, package, root);
            let journey = journey_from(scope, root);
            &&& plan.title == scope.title
            &&& plan.package == package
            &&& plan.modules == journey.modules
            &&& plan.errors == module_faults(journey.modules)
            &&& plan.end == end_record(journey.files)
        }),
{
}

} // verus!
