//! The documentation of a package in markdown.

use vstd::prelude::*;
use vstd::string::*;
use crate::annotations::{remove_list_annotations, stripped};
use crate::docs::{docs_text, opt_docs, tidy_params, Docs, DocsView, TidyParamDocs, TidyParamView};
use crate::encoding::{can_encode, encodable, jbase64, record_text};
use crate::plan::{
    module_views, section_views, submodule_view, DocPlan, ModuleSection, ModuleSectionView,
    PlanView, SectionView, Submodule, SubmoduleView, SymbolSection,
};
use crate::signature::{opt_signature, param_tooltip, tooltip, DocSignature, SignatureView};
use crate::symbols::{HeadView, SymbolInfoHead};
use crate::text::{byte_len, contains_text, holds_text, opt_text, views};

verus! {

/// The records about a module in JSON.
#[derive(Debug)]
pub struct ModuleRecords {
    /// The module itself.
    pub info: String,
    /// Its symbols.
    pub symbols: Vec<String>,
}

/// The records that the documentation of a package carries, in JSON.
#[derive(Debug)]
pub struct Records {
    /// The package.
    pub package: String,
    /// Its modules.
    pub modules: Vec<ModuleRecords>,
    /// The faults of docs that could not be converted.
    pub result: String,
    /// The files and the packages that the documentation refers to.
    pub end: String,
}

pub struct ModuleRecordsView {
    pub info: Seq<char>,
    pub symbols: Seq<Seq<char>>,
}

pub struct RecordsView {
    pub package: Seq<char>,
    pub modules: Seq<ModuleRecordsView>,
    pub result: Seq<char>,
    pub end: Seq<char>,
}

impl View for ModuleRecords {
    type V = ModuleRecordsView;

    open spec fn view(&self) -> ModuleRecordsView {
        ModuleRecordsView { info: self.info@, symbols: views(self.symbols@) }
    }
}

/// The values behind the records of some modules.
pub open spec fn module_record_views(records: Seq<ModuleRecords>) -> Seq<ModuleRecordsView> {
    records.map_values(|record: ModuleRecords| record@)
}

impl View for Records {
    type V = RecordsView;

    open spec fn view(&self) -> RecordsView {
        RecordsView {
            package: self.package@,
            modules: module_record_views(self.modules@),
            result: self.result@,
            end: self.end@,
        }
    }
}

/// Whether the text of a record can be put into the documentation.
pub open spec fn record_fits(json: Seq<char>) -> bool {
    encodable(byte_len(json))
}

/// Whether there is a record for a module and for each of its symbols.
pub open spec fn module_fits(section: ModuleSectionView, records: ModuleRecordsView) -> bool {
    &&& record_fits(records.info)
    &&& records.symbols.len() == section.symbols.len()
    &&& forall|i: int|
        0 <= i < records.symbols.len() ==> record_fits(#[trigger] records.symbols[i])
}

/// Whether there is a record for everything that a plan has one for.
pub open spec fn records_fit(plan: PlanView, records: RecordsView) -> bool {
    &&& record_fits(records.package)
    &&& record_fits(records.result)
    &&& record_fits(records.end)
    &&& records.modules.len() == plan.modules.len()
    &&& forall|i: int|
        0 <= i < plan.modules.len() ==> module_fits(
            #[trigger] plan.modules[i],
            records.modules[i],
        )
}

/// The head of the document.
pub open spec fn intro_md(title: Seq<char>) -> Seq<char> {
    "# "@ + title
        + "\n\nThis documentation is generated locally. Please submit issues to [tinymist](https://github.com/Myriad-Dreamin/tinymist/issues) if you see **incorrect** information in it.\n\n\n"@
}

/// A comment with a word and a text.
pub open spec fn marker(word: Seq<char>, text: Seq<char>) -> Seq<char> {
    "<!-- "@ + word + " "@ + text + " -->\n"@
}

/// The docs of a parameter.
pub open spec fn param_md(param: TidyParamView) -> Seq<char> {
    marker("begin:param"@, param.name) + "#### "@ + param.name + " ("@ + param.types + ")\n"@
        + marker("begin:param-doc"@, param.name) + param.docs + "\n"@ + marker(
        "end:param-doc"@,
        param.name,
    ) + "<!-- end:param -->\n"@
}

/// The docs of some parameters.
pub open spec fn params_md(params: Seq<TidyParamView>) -> Seq<char>
    decreases params.len(),
{
    if params.len() == 0 {
        Seq::empty()
    } else {
        params_md(params.drop_last()) + param_md(params.last())
    }
}

/// Parsed docs whose text without annotations is given. Those of a function
/// go on with its parameters.
pub open spec fn parsed_md(clean: Seq<char>, docs: DocsView) -> Seq<char> {
    clean + "\n"@ + match docs {
        DocsView::Function(_, params) => params_md(params),
        _ => Seq::empty(),
    }
}

/// The signature of a symbol.
pub open spec fn signature_md(name: Seq<char>, signature: Option<SignatureView>) -> Seq<char> {
    match signature {
        Some(signature) => "<!-- begin:sig -->\n```typc\nlet "@ + name + "("@ + tooltip(signature)
            + ");\n```\n<!-- end:sig -->\n"@,
        None => Seq::empty(),
    }
}

/// The parsed docs of a symbol, or why there are none.
pub open spec fn docs_md(fault: Option<Seq<char>>, docs: Option<DocsView>) -> Seq<char> {
    match (fault, docs) {
        (Some(fault), _) => marker("convert-error:"@, fault),
        (None, Some(docs)) => parsed_md(stripped(docs_text(docs)), docs),
        (None, None) => Seq::empty(),
    }
}

/// The raw docs of a symbol, or their first line.
pub open spec fn raw_docs(head: HeadView) -> Option<Seq<char>> {
    match head.docs {
        Some(docs) => Some(docs.text@),
        None => head.oneliner,
    }
}

/// Raw docs, inside a long fence if they hold a fence themselves.
pub open spec fn raw_md(docs: Option<Seq<char>>) -> Seq<char> {
    match docs {
        Some(docs) => if holds_text(docs, "```"@) {
            "`````typ\n"@ + docs + "\n`````\n"@
        } else {
            docs + "\n"@
        },
        None => Seq::empty(),
    }
}

/// The link to the docs of a symbol from elsewhere.
pub open spec fn link_md(link: Option<Seq<char>>) -> Seq<char> {
    match link {
        Some(link) => "[Symbol Docs]("@ + link + ")\n\n"@,
        None => Seq::empty(),
    }
}

/// The link to the docs of the module behind a symbol.
pub open spec fn submodule_md(submodule: Option<SubmoduleView>) -> Seq<char> {
    match submodule {
        Some(SubmoduleView::Documented(link)) => "[Module Docs](#"@ + link + ")\n\n"@,
        Some(SubmoduleView::Builtin) => "A Builtin Module\n"@,
        None => Seq::empty(),
    }
}

/// The heading of a symbol in the module with the given path.
pub open spec fn caption_md(primary: Seq<char>, head: HeadView) -> Seq<char> {
    "### "@ + head.kind + ": "@ + head.name + " in "@ + primary + "\n"@
}

/// The documentation of a symbol in the module with the given path.
pub open spec fn symbol_md(
    primary: Seq<char>,
    section: SectionView,
    json: Seq<char>,
) -> Seq<char> {
    let head = section.head;
    caption_md(primary, head) + link_md(section.link) + marker(
        "begin:symbol"@,
        section.ident + " "@ + record_text(json),
    ) + signature_md(head.name, head.signature) + docs_md(section.fault, head.parsed_docs)
        + raw_md(raw_docs(head)) + submodule_md(section.submodule) + marker(
        "end:symbol"@,
        section.ident,
    )
}

/// The documentation of some symbols.
pub open spec fn symbols_md(
    primary: Seq<char>,
    sections: Seq<SectionView>,
    records: Seq<Seq<char>>,
) -> Seq<char>
    decreases sections.len(),
{
    if sections.len() == 0 {
        Seq::empty()
    } else {
        symbols_md(primary, sections.drop_last(), records) + symbol_md(
            primary,
            sections.last(),
            records[sections.len() - 1],
        )
    }
}

/// The heading of a module that can be reached by a path.
pub open spec fn heading_md(primary: Seq<char>) -> Seq<char> {
    if primary.len() > 0 {
        "---\n## Module: "@ + primary + "\n"@
    } else {
        Seq::empty()
    }
}

/// The documentation of a module.
pub open spec fn module_md(section: ModuleSectionView, records: ModuleRecordsView) -> Seq<char> {
    let primary = section.info.prefix;
    heading_md(primary) + marker("begin:module"@, primary + " "@ + record_text(records.info))
        + symbols_md(primary, section.symbols, records.symbols) + marker("end:module"@, primary)
}

/// The documentation of some modules.
pub open spec fn modules_md(
    sections: Seq<ModuleSectionView>,
    records: Seq<ModuleRecordsView>,
) -> Seq<char>
    decreases sections.len(),
{
    if sections.len() == 0 {
        Seq::empty()
    } else {
        modules_md(sections.drop_last(), records) + module_md(
            sections.last(),
            records[sections.len() - 1],
        )
    }
}

/// A list of faults.
pub open spec fn faults_md(errors: Seq<Seq<char>>) -> Seq<char>
    decreases errors.len(),
{
    if errors.len() == 0 {
        Seq::empty()
    } else {
        faults_md(errors.drop_last()) + "- "@ + errors.last() + "\n"@
    }
}

/// The documentation of a package.
pub open spec fn document_md(plan: PlanView, records: RecordsView) -> Seq<char> {
    intro_md(plan.title) + marker("begin:package"@, record_text(records.package)) + modules_md(
        plan.modules,
        records.modules,
    ) + marker("begin:errors"@, record_text(records.result)) + "## Errors\n"@ + faults_md(
        plan.errors,
    ) + "<!-- end:errors -->\n"@ + marker("end:package"@, record_text(records.end))
}

fn write_marker(md: &mut String, word: &str, text: &str)
    ensures
        final(md)@ == old(md)@ + marker(word@, text@),
{
    md.append("<!-- ");
    md.append(word);
    md.append(" ");
    md.append(text);
    md.append(" -->\n");
    assert(md@ =~= old(md)@ + marker(word@, text@));
}

fn write_record(md: &mut String, word: &str, text: &str, json: &str)
    requires
        record_fits(json@),
    ensures
        final(md)@ == old(md)@ + marker(word@, text@ + " "@ + record_text(json@)),
{
    let record: String = jbase64(json);
    md.append("<!-- ");
    md.append(word);
    md.append(" ");
    md.append(text);
    md.append(" ");
    md.append(record.as_str());
    md.append(" -->\n");
    assert(md@ =~= old(md)@ + marker(word@, text@ + " "@ + record_text(json@)));
}

fn write_param(md: &mut String, param: &TidyParamDocs)
    ensures
        final(md)@ == old(md)@ + param_md(param@),
{
    let name: &str = param.name.as_str();
    write_marker(md, "begin:param", name);
    md.append("#### ");
    md.append(name);
    md.append(" (");
    md.append(param.types.as_str());
    md.append(")\n");
    write_marker(md, "begin:param-doc", name);
    md.append(param.docs.as_str());
    md.append("\n");
    write_marker(md, "end:param-doc", name);
    md.append("<!-- end:param -->\n");
    assert(md@ =~= old(md)@ + param_md(param@));
}

/// Writes parsed docs whose text without annotations is given.
pub fn write_parsed(md: &mut String, clean: &str, docs: &Docs)
    ensures
        final(md)@ == old(md)@ + parsed_md(clean@, docs@),
{
    md.append(clean);
    md.append("\n");
    let ghost before = md@;
    if let Docs::Function(function) = docs {
        let ghost all = tidy_params(function.params@);
        let mut i: usize = 0;
        assert(md@ =~= before + params_md(all.take(0)));
        while i < function.params.len()
            invariant
                i <= function.params.len(),
                all == tidy_params(function.params@),
                md@ =~= before + params_md(all.take(i as int)),
            decreases function.params.len() - i,
        {
            proof {
                assert(all[i as int] == function.params@[i as int]@);
                assert(all.take(i + 1).drop_last() =~= all.take(i as int));
                assert(all.take(i + 1).last() == all[i as int]);
            }
            write_param(md, &function.params[i]);
            i = i + 1;
        }
        assert(all.take(i as int) =~= all);
    }
    assert(md@ =~= old(md)@ + parsed_md(clean@, docs@));
}

fn write_signature(md: &mut String, name: &str, signature: &Option<DocSignature>)
    ensures
        final(md)@ == old(md)@ + signature_md(name@, opt_signature(*signature)),
{
    if let Some(signature) = signature {
        md.append("<!-- begin:sig -->\n```typc\nlet ");
        md.append(name);
        md.append("(");
        md.append(param_tooltip(signature).as_str());
        md.append(");\n```\n<!-- end:sig -->\n");
    }
    assert(md@ =~= old(md)@ + signature_md(name@, opt_signature(*signature)));
}

fn write_docs(md: &mut String, fault: &Option<String>, docs: &Option<Docs>)
    ensures
        final(md)@ == old(md)@ + docs_md(
            opt_text(*fault),
            opt_docs(*docs),
        ),
{
    match (fault, docs) {
        (Some(fault), _) => {
            write_marker(md, "convert-error:", fault.as_str());
        },
        (None, Some(docs)) => {
            let clean: String = remove_list_annotations(docs.docs());
            write_parsed(md, clean.as_str(), docs);
        },
        (None, None) => {
            assert(md@ =~= old(md)@ + Seq::<char>::empty());
        },
    }
}

fn write_raw(md: &mut String, head: &SymbolInfoHead)
    ensures
        final(md)@ == old(md)@ + raw_md(raw_docs(head@)),
{
    let docs: Option<&str> = match &head.docs {
        Some(docs) => Some(docs.text.as_str()),
        None => match &head.oneliner {
            Some(line) => Some(line.as_str()),
            None => None,
        },
    };
    if let Some(docs) = docs {
        let fenced: bool = contains_text(docs, "```");
        if fenced {
            md.append("`````typ\n");
        }
        md.append(docs);
        if fenced {
            md.append("\n`````\n");
        } else {
            md.append("\n");
        }
    }
    assert(md@ =~= old(md)@ + raw_md(raw_docs(head@)));
}

fn write_link(md: &mut String, link: &Option<String>)
    ensures
        final(md)@ == old(md)@ + link_md(opt_text(*link)),
{
    if let Some(link) = link {
        md.append("[Symbol Docs](");
        md.append(link.as_str());
        md.append(")\n\n");
    }
    assert(md@ =~= old(md)@ + link_md(opt_text(*link)));
}

fn write_submodule(md: &mut String, submodule: &Option<Submodule>)
    ensures
        final(md)@ == old(md)@ + submodule_md(submodule_view(*submodule)),
{
    match submodule {
        Some(Submodule::Documented(link)) => {
            md.append("[Module Docs](#");
            md.append(link.as_str());
            md.append(")\n\n");
        },
        Some(Submodule::Builtin) => {
            md.append("A Builtin Module\n");
        },
        None => {},
    }
    assert(md@ =~= old(md)@ + submodule_md(submodule_view(*submodule)));
}

proof fn lemma_appended(start: Seq<char>, done: Seq<char>, piece: Seq<char>)
    ensures
        start + done + piece == start + (done + piece),
{
    assert(start + done + piece =~= start + (done + piece));
}

fn write_caption(md: &mut String, primary: &str, head: &SymbolInfoHead)
    ensures
        final(md)@ == old(md)@ + caption_md(primary@, head@),
{
    md.append("### ");
    md.append(head.kind.as_str());
    md.append(": ");
    md.append(head.name.as_str());
    md.append(" in ");
    md.append(primary);
    md.append("\n");
    assert(md@ =~= old(md)@ + caption_md(primary@, head@));
}

fn write_symbol(md: &mut String, primary: &str, section: &SymbolSection, json: &str)
    requires
        record_fits(json@),
    ensures
        final(md)@ == old(md)@ + symbol_md(primary@, section@, json@),
{
    let head: &SymbolInfoHead = &section.head;
    write_caption(md, primary, head);
    write_link(md, &section.link);
    write_record(md, "begin:symbol", section.ident.as_str(), json);
    write_signature(md, head.name.as_str(), &head.signature);
    write_docs(md, &section.fault, &head.parsed_docs);
    write_raw(md, head);
    write_submodule(md, &section.submodule);
    write_marker(md, "end:symbol", section.ident.as_str());
    proof {
        let start = old(md)@;
        let a = caption_md(primary@, head@);
        let b = link_md(section@.link);
        let c = marker("begin:symbol"@, section@.ident + " "@ + record_text(json@));
        let d = signature_md(head@.name, head@.signature);
        let e = docs_md(section@.fault, head@.parsed_docs);
        let f = raw_md(raw_docs(head@));
        let g = submodule_md(section@.submodule);
        lemma_appended(start, a, b);
        lemma_appended(start, a + b, c);
        lemma_appended(start, a + b + c, d);
        lemma_appended(start, a + b + c + d, e);
        lemma_appended(start, a + b + c + d + e, f);
        lemma_appended(start, a + b + c + d + e + f, g);
        lemma_appended(start, a + b + c + d + e + f + g, marker("end:symbol"@, section@.ident));
    }
}

fn write_module(md: &mut String, section: &ModuleSection, records: &ModuleRecords)
    requires
        module_fits(section@, records@),
    ensures
        final(md)@ == old(md)@ + module_md(section@, records@),
{
    let primary: &str = section.info.prefix.as_str();
    if primary.unicode_len() > 0 {
        md.append("---\n## Module: ");
        md.append(primary);
        md.append("\n");
    }
    assert(md@ =~= old(md)@ + heading_md(primary@));
    write_record(md, "begin:module", primary, records.info.as_str());
    let ghost before = md@;
    let ghost all = section_views(section.symbols@);
    let ghost texts = views(records.symbols@);
    let mut i: usize = 0;
    assert(all.len() == section.symbols@.len() && texts.len() == records.symbols@.len());
    assert(md@ =~= before + symbols_md(primary@, all.take(0), texts));
    while i < section.symbols.len()
        invariant
            i <= section.symbols.len(),
            section.symbols@.len() == records.symbols@.len(),
            all == section_views(section.symbols@),
            texts == views(records.symbols@),
            module_fits(section@, records@),
            md@ =~= before + symbols_md(primary@, all.take(i as int), texts),
        decreases section.symbols.len() - i,
    {
        proof {
            assert(all[i as int] == section.symbols@[i as int]@);
            assert(records@.symbols[i as int] == records.symbols@[i as int]@);
            assert(all.take(i + 1).drop_last() =~= all.take(i as int));
            assert(all.take(i + 1).last() == all[i as int]);
            assert(record_fits(records@.symbols[i as int]));
        }
        write_symbol(md, primary, &section.symbols[i], records.symbols[i].as_str());
        i = i + 1;
    }
    assert(all.take(i as int) =~= all);
    write_marker(md, "end:module", primary);
    assert(md@ =~= old(md)@ + module_md(section@, records@));
}

fn module_records_match(section: &ModuleSection, records: &ModuleRecords) -> (res: bool)
    ensures
        res == module_fits(section@, records@),
{
    let ghost texts = views(records.symbols@);
    assert(texts.len() == records.symbols@.len());
    assert(section@.symbols.len() == section.symbols@.len());
    if !can_encode(records.info.as_str()) || records.symbols.len() != section.symbols.len() {
        return false;
    }
    let mut i: usize = 0;
    while i < records.symbols.len()
        invariant
            i <= records.symbols.len(),
            texts == views(records.symbols@),
            texts == records@.symbols,
            forall|k: int| 0 <= k < i ==> record_fits(#[trigger] texts[k]),
        decreases records.symbols.len() - i,
    {
        assert(texts[i as int] == records.symbols@[i as int]@);
        if !can_encode(records.symbols[i].as_str()) {
            assert(!record_fits(records@.symbols[i as int]));
            return false;
        }
        i = i + 1;
    }
    true
}

/// Whether there is a record for everything that a plan has one for.
pub fn records_match(plan: &DocPlan, records: &Records) -> (res: bool)
    ensures
        res == records_fit(plan@, records@),
{
    let ghost sections = module_views(plan.modules@);
    let ghost listed = module_record_views(records.modules@);
    assert(sections.len() == plan.modules@.len() && listed.len() == records.modules@.len());
    if !can_encode(records.package.as_str()) || !can_encode(records.result.as_str()) || !can_encode(
        records.end.as_str(),
    ) || records.modules.len() != plan.modules.len() {
        return false;
    }
    let mut i: usize = 0;
    while i < plan.modules.len()
        invariant
            i <= plan.modules.len(),
            plan.modules@.len() == records.modules@.len(),
            sections == plan@.modules,
            sections == module_views(plan.modules@),
            listed == records@.modules,
            listed == module_record_views(records.modules@),
            forall|k: int| 0 <= k < i ==> module_fits(#[trigger] sections[k], listed[k]),
        decreases plan.modules.len() - i,
    {
        assert(sections[i as int] == plan.modules@[i as int]@);
        assert(listed[i as int] == records.modules@[i as int]@);
        if !module_records_match(&plan.modules[i], &records.modules[i]) {
            assert(!module_fits(plan@.modules[i as int], records@.modules[i as int]));
            return false;
        }
        i = i + 1;
    }
    true
}

/// Generate full documents in markdown format.
pub fn generate_md_docs(plan: &DocPlan, records: &Records) -> (md: String)
    requires
        records_fit(plan@, records@),
    ensures
        md@ == document_md(plan@, records@),
{
    let mut md: String = "# ".to_owned();
    md.append(plan.title.as_str());
    md.append(
        "\n\nThis documentation is generated locally. Please submit issues to [tinymist](https://github.com/Myriad-Dreamin/tinymist/issues) if you see **incorrect** information in it.\n\n\n",
    );
    write_marker(&mut md, "begin:package", jbase64(records.package.as_str()).as_str());
    let ghost before = md@;
    let ghost sections = module_views(plan.modules@);
    let ghost listed = module_record_views(records.modules@);
    let mut i: usize = 0;
    assert(sections.len() == plan.modules@.len() && listed.len() == records.modules@.len());
    assert(md@ =~= before + modules_md(sections.take(0), listed));
    while i < plan.modules.len()
        invariant
            i <= plan.modules.len(),
            plan.modules@.len() == records.modules@.len(),
            records_fit(plan@, records@),
            sections == plan@.modules,
            sections == module_views(plan.modules@),
            listed == records@.modules,
            listed == module_record_views(records.modules@),
            md@ =~= before + modules_md(sections.take(i as int), listed),
        decreases plan.modules.len() - i,
    {
        proof {
            assert(sections[i as int] == plan.modules@[i as int]@);
            assert(listed[i as int] == records.modules@[i as int]@);
            assert(sections.take(i + 1).drop_last() =~= sections.take(i as int));
            assert(sections.take(i + 1).last() == sections[i as int]);
            assert(module_fits(plan@.modules[i as int], records@.modules[i as int]));
        }
        write_module(&mut md, &plan.modules[i], &records.modules[i]);
        i = i + 1;
    }
    assert(sections.take(i as int) =~= sections);
    write_marker(&mut md, "begin:errors", jbase64(records.result.as_str()).as_str());
    md.append("## Errors\n");
    let ghost behind = md@;
    let ghost faults = views(plan.result.errors@);
    let mut k: usize = 0;
    assert(md@ =~= behind + faults_md(faults.take(0)));
    while k < plan.result.errors.len()
        invariant
            k <= plan.result.errors.len(),
            faults == views(plan.result.errors@),
            md@ =~= behind + faults_md(faults.take(k as int)),
        decreases plan.result.errors.len() - k,
    {
        proof {
            assert(faults[k as int] == plan.result.errors@[k as int]@);
            assert(faults.take(k + 1).drop_last() =~= faults.take(k as int));
            assert(faults.take(k + 1).last() == faults[k as int]);
        }
        md.append("- ");
        md.append(plan.result.errors[k].as_str());
        md.append("\n");
        k = k + 1;
    }
    assert(faults.take(k as int) =~= faults);
    md.append("<!-- end:errors -->\n");
    write_marker(&mut md, "end:package", jbase64(records.end.as_str()).as_str());
    assert(md@ =~= document_md(plan@, records@));
    md
}

} // verus!
