//! What every document in markdown consists of.

use vstd::prelude::*;
use vstd::utf8::encode_utf8;
use crate::annotations::stripped;
use crate::docs::{DocsView, TidyParamView};
use crate::encoding::{base64_of, base64_text_fits};
use crate::markdown::{
    docs_md, document_md, faults_md, link_md, marker, module_fits, module_md, modules_md, param_md,
    params_md, parsed_md, raw_docs, raw_md, record_fits, records_fit, signature_md, submodule_md,
    symbol_md, symbols_md, ModuleRecordsView, RecordsView,
};
use crate::plan::{ModuleSectionView, PlanView, SectionView, SubmoduleView};
use crate::signature::{tooltip, SignatureView};
use crate::symbols::HeadView;

verus! {

/// Some pieces of text in a row.
pub open spec fn in_a_row(pieces: Seq<Seq<char>>) -> Seq<char>
    decreases pieces.len(),
{
    if pieces.len() == 0 {
        Seq::empty()
    } else {
        pieces[0] + in_a_row(pieces.skip(1))
    }
}

/// Two rows one after the other are a row.
pub proof fn rows_add_up(a: Seq<Seq<char>>, b: Seq<Seq<char>>)
    ensures
        in_a_row(a + b) == in_a_row(a) + in_a_row(b),
    decreases a.len(),
{
    if a.len() == 0 {
        assert(a + b =~= b);
        assert(in_a_row(a) + in_a_row(b) =~= in_a_row(b));
    } else {
        assert((a + b).skip(1) =~= a.skip(1) + b);
        rows_add_up(a.skip(1), b);
        assert(a[0] + (in_a_row(a.skip(1)) + in_a_row(b)) =~= a[0] + in_a_row(a.skip(1))
            + in_a_row(b));
    }
}

/// A row of one piece is that piece.
pub proof fn row_of_one(piece: Seq<char>)
    ensures
        in_a_row(seq![piece]) == piece,
{
    assert(seq![piece].skip(1) =~= Seq::empty());
    assert(in_a_row(seq![piece].skip(1)) =~= Seq::empty());
    assert(piece + Seq::<char>::empty() =~= piece);
}

/// Every piece of a row stands in it, behind the pieces before it.
pub proof fn row_holds_every_piece(pieces: Seq<Seq<char>>, i: int)
    requires
        0 <= i < pieces.len(),
    ensures
        in_a_row(pieces) == in_a_row(pieces.take(i)) + pieces[i] + in_a_row(pieces.skip(i + 1)),
{
    let a = pieces.take(i);
    let b = seq![pieces[i]];
    let c = pieces.skip(i + 1);
    assert(pieces =~= a + b + c);
    rows_add_up(a + b, c);
    rows_add_up(a, b);
    row_of_one(pieces[i]);
}

proof fn lemma_row_push(pieces: Seq<Seq<char>>)
    requires
        pieces.len() > 0,
    ensures
        in_a_row(pieces) == in_a_row(pieces.drop_last()) + pieces.last(),
{
    assert(pieces =~= pieces.drop_last() + seq![pieces.last()]);
    rows_add_up(pieces.drop_last(), seq![pieces.last()]);
    row_of_one(pieces.last());
}

/// A comment with the given words.
pub open spec fn comment(words: Seq<char>) -> Seq<char> {
    "<!-- "@ + words + " -->\n"@
}

proof fn lemma_marker(word: Seq<char>, text: Seq<char>)
    ensures
        marker(word, text) == comment(word + " "@ + text),
{
    assert(marker(word, text) =~= comment(word + " "@ + text));
}

/// The section about a parameter of a function.
pub open spec fn param_section(param: TidyParamView) -> Seq<char> {
    in_a_row(
        seq![
            comment("begin:param"@ + " "@ + param.name),
            "#### "@ + param.name + " ("@ + param.types + ")\n"@,
            comment("begin:param-doc"@ + " "@ + param.name),
            param.docs + "\n"@,
            comment("end:param-doc"@ + " "@ + param.name),
            "<!-- end:param -->\n"@,
        ],
    )
}

proof fn lemma_row_of_six(
    a: Seq<char>,
    b: Seq<char>,
    c: Seq<char>,
    d: Seq<char>,
    e: Seq<char>,
    f: Seq<char>,
)
    ensures
        in_a_row(seq![a, b, c, d, e, f]) == a + b + c + d + e + f,
{
    let s = seq![a, b, c, d, e, f];
    lemma_row_push(s);
    assert(s.drop_last() =~= seq![a, b, c, d, e]);
    lemma_row_push(seq![a, b, c, d, e]);
    assert(seq![a, b, c, d, e].drop_last() =~= seq![a, b, c, d]);
    lemma_row_push(seq![a, b, c, d]);
    assert(seq![a, b, c, d].drop_last() =~= seq![a, b, c]);
    lemma_row_push(seq![a, b, c]);
    assert(seq![a, b, c].drop_last() =~= seq![a, b]);
    lemma_row_push(seq![a, b]);
    assert(seq![a, b].drop_last() =~= seq![a]);
    row_of_one(a);
}

proof fn lemma_param_section(param: TidyParamView)
    ensures
        param_md(param) == param_section(param),
{
    lemma_marker("begin:param"@, param.name);
    lemma_marker("begin:param-doc"@, param.name);
    lemma_marker("end:param-doc"@, param.name);
    let a = marker("begin:param"@, param.name);
    let c = marker("begin:param-doc"@, param.name);
    let e = marker("end:param-doc"@, param.name);
    let b = "#### "@ + param.name + " ("@ + param.types + ")\n"@;
    let d = param.docs + "\n"@;
    let f = "<!-- end:param -->\n"@;
    lemma_row_of_six(a, b, c, d, e, f);
    assert(a + "#### "@ + param.name + " ("@ + param.types + ")\n"@ =~= a + b);
    assert(a + b + c + param.docs + "\n"@ =~= a + b + c + d);
}

/// The docs of the parameters are the sections of all of them, in order.
pub proof fn every_parameter_has_its_section(params: Seq<TidyParamView>)
    ensures
        params_md(params) == in_a_row(
            params.map_values(|param: TidyParamView| param_section(param)),
        ),
    decreases params.len(),
{
    let pieces = params.map_values(|param: TidyParamView| param_section(param));
    if params.len() > 0 {
        let init = params.drop_last();
        every_parameter_has_its_section(init);
        lemma_param_section(params.last());
        assert(pieces.drop_last() =~= init.map_values(|param: TidyParamView| param_section(param)));
        assert(pieces.last() == param_section(params.last()));
        lemma_row_push(pieces);
    }
}

/// The docs of two groups of parameters are the docs of both together.
pub proof fn parameter_docs_add_up(
    a: Seq<TidyParamView>,
    b: Seq<TidyParamView>,
    param: TidyParamView,
)
    ensures
        params_md(a + b) == params_md(a) + params_md(b),
        params_md(seq![param]) == param_md(param),
        params_md(seq![param]) == param_section(param),
{
    let f = |param: TidyParamView| param_section(param);
    every_parameter_has_its_section(a);
    every_parameter_has_its_section(b);
    every_parameter_has_its_section(a + b);
    every_parameter_has_its_section(seq![param]);
    assert((a + b).map_values(f) =~= a.map_values(f) + b.map_values(f));
    rows_add_up(a.map_values(f), b.map_values(f));
    assert(seq![param].map_values(f) =~= seq![param_section(param)]);
    row_of_one(param_section(param));
    lemma_param_section(param);
}

/// Parsed docs are the text, a line ending, and for a function the sections of
/// all its parameters.
pub proof fn parsed_docs_are_written(clean: Seq<char>, docs: DocsView)
    ensures
        docs matches DocsView::Function(_, params) ==> parsed_md(clean, docs) == clean + "\n"@
            + in_a_row(params.map_values(|param: TidyParamView| param_section(param))),
        !(docs is Function) ==> parsed_md(clean, docs) == clean + "\n"@,
{
    if let DocsView::Function(_, params) = docs {
        every_parameter_has_its_section(params);
    } else {
        assert(parsed_md(clean, docs) =~= clean + "\n"@);
    }
}

/// Docs that were parsed are written without annotations. If they could not be
/// converted, the fault is written instead, and without docs nothing is.
pub proof fn parsed_docs_or_their_fault(fault: Option<Seq<char>>, docs: Option<DocsView>)
    ensures
        fault is Some ==> docs_md(fault, docs) == comment("convert-error:"@ + " "@ + fault->0),
        fault is None && docs is None ==> docs_md(fault, docs) == Seq::<char>::empty(),
        fault is None ==> match docs {
            Some(DocsView::Function(text, params)) => docs_md(fault, docs) == stripped(text)
                + "\n"@ + in_a_row(
                params.map_values(|param: TidyParamView| param_section(param)),
            ),
            Some(DocsView::Variable(text)) => docs_md(fault, docs) == stripped(text) + "\n"@,
            Some(DocsView::Module(text)) => docs_md(fault, docs) == stripped(text) + "\n"@,
            Some(DocsView::Plain(text)) => docs_md(fault, docs) == stripped(text) + "\n"@,
            None => true,
        },
{
    if fault is Some {
        lemma_marker("convert-error:"@, fault->0);
    }
    if let Some(shown) = docs {
        match shown {
            DocsView::Function(text, _) => parsed_docs_are_written(stripped(text), shown),
            DocsView::Variable(text) => parsed_docs_are_written(stripped(text), shown),
            DocsView::Module(text) => parsed_docs_are_written(stripped(text), shown),
            DocsView::Plain(text) => parsed_docs_are_written(stripped(text), shown),
        }
    }
}

/// Raw docs are written as they are, or else their first line is; inside a
/// fence of five if a fence of three stands in them.
pub proof fn raw_docs_are_fenced(head: HeadView, text: Seq<char>)
    requires
        head.docs is Some ==> text == head.docs->0.text@,
        head.docs is None ==> head.oneliner == Some(text),
    ensures
        (exists|a: Seq<char>, b: Seq<char>| text == #[trigger] ((a + "```"@) + b)) ==> raw_md(
            raw_docs(head),
        ) == "`````typ\n"@ + text + "\n`````\n"@,
        !(exists|a: Seq<char>, b: Seq<char>| text == #[trigger] ((a + "```"@) + b)) ==> raw_md(
            raw_docs(head),
        ) == text + "\n"@,
{
    crate::text_laws::text_is_held_between_two_parts(text, "```"@);
}

/// The smaller parts of the documentation of a symbol: nothing where there is
/// nothing to say, and else the link, the signature with all its parameters,
/// and the word about the module behind the symbol.
pub proof fn small_parts_are_written(
    head: HeadView,
    link: Seq<char>,
    name: Seq<char>,
    signature: SignatureView,
)
    ensures
        link_md(None) == Seq::<char>::empty(),
        link_md(Some(link)) == "[Symbol Docs]("@ + link + ")\n\n"@,
        signature_md(name, None) == Seq::<char>::empty(),
        signature_md(name, Some(signature)) == "<!-- begin:sig -->\n```typc\nlet "@ + name + "("@
            + tooltip(signature) + ");\n```\n<!-- end:sig -->\n"@,
        submodule_md(None) == Seq::<char>::empty(),
        submodule_md(Some(SubmoduleView::Documented(link))) == "[Module Docs](#"@ + link
            + ")\n\n"@,
        submodule_md(Some(SubmoduleView::Builtin)) == "A Builtin Module\n"@,
        head.docs is None && head.oneliner is None ==> raw_md(raw_docs(head)) == Seq::<
            char,
        >::empty(),
{
}

/// The Base64 text of a record in JSON.
pub open spec fn base64_record(json: Seq<char>) -> Seq<char> {
    base64_of(encode_utf8(json))
}

/// The pieces of the documentation of a symbol, in order.
pub open spec fn symbol_pieces(
    primary: Seq<char>,
    section: SectionView,
    json: Seq<char>,
) -> Seq<Seq<char>> {
    let head = section.head;
    seq![
        "### "@ + head.kind + ": "@ + head.name + " in "@ + primary + "\n"@,
        link_md(section.link),
        comment("begin:symbol"@ + " "@ + (section.ident + " "@ + base64_record(json))),
        signature_md(head.name, head.signature),
        docs_md(section.fault, head.parsed_docs),
        raw_md(raw_docs(head)),
        submodule_md(section.submodule),
        comment("end:symbol"@ + " "@ + section.ident),
    ]
}

/// The documentation of a symbol: its kind, name and module, the link to where
/// it is documented, and between two comments with its identifier, of which
/// the first carries its record, the signature, the docs and the link to the
/// module behind it.
pub proof fn symbol_is_written(primary: Seq<char>, section: SectionView, json: Seq<char>)
    ensures
        symbol_md(primary, section, json) == in_a_row(symbol_pieces(primary, section, json)),
{
    let p = symbol_pieces(primary, section, json);
    lemma_marker("begin:symbol"@, section.ident + " "@ + base64_record(json));
    lemma_marker("end:symbol"@, section.ident);
    lemma_row_push(p);
    assert(p.drop_last() =~= p.take(7));
    lemma_row_push(p.take(7));
    assert(p.take(7).drop_last() =~= p.take(6));
    assert(p.take(6) =~= seq![p[0], p[1], p[2], p[3], p[4], p[5]]);
    lemma_row_of_six(p[0], p[1], p[2], p[3], p[4], p[5]);
}

/// The symbols of a module are written one after the other, each with its own
/// record.
pub proof fn every_symbol_is_written(
    primary: Seq<char>,
    sections: Seq<SectionView>,
    records: Seq<Seq<char>>,
)
    requires
        sections.len() <= records.len(),
    ensures
        symbols_md(primary, sections, records) == in_a_row(
            Seq::new(
                sections.len(),
                |i: int| in_a_row(symbol_pieces(primary, sections[i], records[i])),
            ),
        ),
    decreases sections.len(),
{
    let f = |i: int| in_a_row(symbol_pieces(primary, sections[i], records[i]));
    let pieces = Seq::new(sections.len(), f);
    if sections.len() > 0 {
        let init = sections.drop_last();
        let n = sections.len() - 1;
        every_symbol_is_written(primary, init, records);
        symbol_is_written(primary, sections[n], records[n]);
        assert(pieces.drop_last() =~= Seq::new(
            init.len(),
            |i: int| in_a_row(symbol_pieces(primary, init[i], records[i])),
        ));
        lemma_row_push(pieces);
    }
}

/// The pieces of the documentation of a module, in order.
pub open spec fn module_pieces(
    section: ModuleSectionView,
    records: ModuleRecordsView,
) -> Seq<Seq<char>> {
    let primary = section.info.prefix;
    seq![
        if primary.len() > 0 {
            "---\n## Module: "@ + primary + "\n"@
        } else {
            Seq::empty()
        },
        comment("begin:module"@ + " "@ + (primary + " "@ + base64_record(records.info))),
        in_a_row(
            Seq::new(
                section.symbols.len(),
                |i: int|
                    in_a_row(symbol_pieces(primary, section.symbols[i], records.symbols[i])),
            ),
        ),
        comment("end:module"@ + " "@ + primary),
    ]
}

/// The documentation of a module: its heading, and between two comments with
/// its path, of which the first carries its record, all its symbols.
pub proof fn module_is_written(section: ModuleSectionView, records: ModuleRecordsView)
    requires
        section.symbols.len() <= records.symbols.len(),
    ensures
        module_md(section, records) == in_a_row(module_pieces(section, records)),
{
    let primary = section.info.prefix;
    let p = module_pieces(section, records);
    lemma_marker("begin:module"@, primary + " "@ + base64_record(records.info));
    lemma_marker("end:module"@, primary);
    every_symbol_is_written(primary, section.symbols, records.symbols);
    lemma_row_push(p);
    assert(p.drop_last() =~= seq![p[0], p[1], p[2]]);
    lemma_row_push(seq![p[0], p[1], p[2]]);
    assert(seq![p[0], p[1], p[2]].drop_last() =~= seq![p[0], p[1]]);
    lemma_row_push(seq![p[0], p[1]]);
    assert(seq![p[0], p[1]].drop_last() =~= seq![p[0]]);
    row_of_one(p[0]);
}

proof fn lemma_modules_row(sections: Seq<ModuleSectionView>, records: Seq<ModuleRecordsView>)
    requires
        sections.len() <= records.len(),
        forall|i: int|
            0 <= i < sections.len() ==> (#[trigger] sections[i]).symbols.len()
                <= records[i].symbols.len(),
    ensures
        modules_md(sections, records) == in_a_row(
            Seq::new(
                sections.len(),
                |i: int| in_a_row(module_pieces(sections[i], records[i])),
            ),
        ),
    decreases sections.len(),
{
    let f = |i: int| in_a_row(module_pieces(sections[i], records[i]));
    let pieces = Seq::new(sections.len(), f);
    if sections.len() > 0 {
        let init = sections.drop_last();
        let n = sections.len() - 1;
        assert forall|i: int| 0 <= i < init.len() implies (#[trigger] init[i]).symbols.len()
            <= records[i].symbols.len() by {
            assert(init[i] == sections[i]);
        }
        lemma_modules_row(init, records);
        assert(sections[n].symbols.len() <= records[n].symbols.len());
        module_is_written(sections[n], records[n]);
        assert(pieces.drop_last() =~= Seq::new(
            init.len(),
            |i: int| in_a_row(module_pieces(init[i], records[i])),
        ));
        lemma_row_push(pieces);
    }
}

/// Each fault stands on a line of its own, in order.
pub proof fn every_fault_is_listed(errors: Seq<Seq<char>>)
    ensures
        faults_md(errors) == in_a_row(
            errors.map_values(|error: Seq<char>| "- "@ + error + "\n"@),
        ),
    decreases errors.len(),
{
    let f = |error: Seq<char>| "- "@ + error + "\n"@;
    let pieces = errors.map_values(f);
    if errors.len() > 0 {
        let init = errors.drop_last();
        every_fault_is_listed(init);
        assert(pieces.drop_last() =~= init.map_values(f));
        lemma_row_push(pieces);
        assert(in_a_row(init.map_values(f)) + f(errors.last()) =~= faults_md(init) + "- "@
            + errors.last() + "\n"@);
    }
}

proof fn lemma_grouped(start: Seq<char>, a: Seq<char>, b: Seq<char>, c: Seq<char>)
    ensures
        start + a + b + c == start + (a + b + c),
{
    assert(start + a + b + c =~= start + (a + b + c));
}

/// The document consists of the title with the word to the reader, the record
/// of the package, all modules in order, all faults in order with their
/// record, and the record of the files.
pub proof fn document_is_complete(plan: PlanView, records: RecordsView)
    requires
        records_fit(plan, records),
    ensures
        document_md(plan, records) == in_a_row(
            seq![
                "# "@ + plan.title
                    + "\n\nThis documentation is generated locally. Please submit issues to [tinymist](https://github.com/Myriad-Dreamin/tinymist/issues) if you see **incorrect** information in it.\n\n\n"@,
                comment("begin:package"@ + " "@ + base64_record(records.package)),
                in_a_row(
                    Seq::new(
                        plan.modules.len(),
                        |i: int| in_a_row(module_pieces(plan.modules[i], records.modules[i])),
                    ),
                ),
                comment("begin:errors"@ + " "@ + base64_record(records.result)),
                "## Errors\n"@ + in_a_row(
                    plan.errors.map_values(|error: Seq<char>| "- "@ + error + "\n"@),
                ) + "<!-- end:errors -->\n"@,
                comment("end:package"@ + " "@ + base64_record(records.end)),
            ],
        ),
{
    let a = "# "@ + plan.title
        + "\n\nThis documentation is generated locally. Please submit issues to [tinymist](https://github.com/Myriad-Dreamin/tinymist/issues) if you see **incorrect** information in it.\n\n\n"@;
    let b = marker("begin:package"@, base64_record(records.package));
    let c = modules_md(plan.modules, records.modules);
    let d = marker("begin:errors"@, base64_record(records.result));
    let e = "## Errors\n"@ + faults_md(plan.errors) + "<!-- end:errors -->\n"@;
    let f = marker("end:package"@, base64_record(records.end));
    lemma_marker("begin:package"@, base64_record(records.package));
    lemma_marker("begin:errors"@, base64_record(records.result));
    lemma_marker("end:package"@, base64_record(records.end));
    assert forall|i: int| 0 <= i < plan.modules.len() implies (
    #[trigger] plan.modules[i]).symbols.len() <= records.modules[i].symbols.len() by {}
    lemma_modules_row(plan.modules, records.modules);
    every_fault_is_listed(plan.errors);
    lemma_row_of_six(a, b, c, d, e, f);
    lemma_grouped(a + b + c + d, "## Errors\n"@, faults_md(plan.errors), "<!-- end:errors -->\n"@);
}

/// The records go with a plan exactly if there is one for each of its modules
/// and of their symbols, and the Base64 text of each of them can be held.
pub proof fn records_go_with_their_plan(plan: PlanView, records: RecordsView)
    ensures
        records_fit(plan, records) <==> {
            let held = |json: Seq<char>| base64_of(encode_utf8(json)).len() <= isize::MAX;
            &&& held(records.package)
            &&& held(records.result)
            &&& held(records.end)
            &&& records.modules.len() == plan.modules.len()
            &&& forall|i: int|
                0 <= i < records.modules.len() ==> held(#[trigger] records.modules[i].info)
                    && records.modules[i].symbols.len() == plan.modules[i].symbols.len()
            &&& forall|i: int, k: int|
                0 <= i < records.modules.len() && 0 <= k < records.modules[i].symbols.len()
                    ==> held(#[trigger] records.modules[i].symbols[k])
        },
{
    let held = |json: Seq<char>| base64_of(encode_utf8(json)).len() <= isize::MAX;
    assert forall|json: Seq<char>| #[trigger] record_fits(json) <==> held(json) by {
        base64_text_fits(encode_utf8(json));
    }
    assert(record_fits(records.package) <==> held(records.package));
    assert(record_fits(records.result) <==> held(records.result));
    assert(record_fits(records.end) <==> held(records.end));
    let all = {
        &&& forall|i: int|
            0 <= i < records.modules.len() ==> held(#[trigger] records.modules[i].info)
                && records.modules[i].symbols.len() == plan.modules[i].symbols.len()
        &&& forall|i: int, k: int|
            0 <= i < records.modules.len() && 0 <= k < records.modules[i].symbols.len() ==> held(
                #[trigger] records.modules[i].symbols[k],
            )
    };
    if records_fit(plan, records) {
        assert forall|i: int| 0 <= i < records.modules.len() implies held(
            #[trigger] records.modules[i].info,
        ) && records.modules[i].symbols.len() == plan.modules[i].symbols.len() by {
            assert(module_fits(plan.modules[i], records.modules[i]));
            assert(record_fits(records.modules[i].info));
        }
        assert forall|i: int, k: int|
            0 <= i < records.modules.len() && 0 <= k
                < records.modules[i].symbols.len() implies held(
            #[trigger] records.modules[i].symbols[k],
        ) by {
            assert(module_fits(plan.modules[i], records.modules[i]));
            assert(record_fits(records.modules[i].symbols[k]));
        }
    }
    if all && records.modules.len() == plan.modules.len() {
        assert forall|i: int| 0 <= i < plan.modules.len() implies module_fits(
            #[trigger] plan.modules[i],
            records.modules[i],
        ) by {
            assert(held(records.modules[i].info));
            assert(record_fits(records.modules[i].info));
            assert forall|k: int| 0 <= k < records.modules[i].symbols.len() implies record_fits(
                #[trigger] records.modules[i].symbols[k],
            ) by {
                assert(held(records.modules[i].symbols[k]));
            }
        }
    }
}

} // verus!
