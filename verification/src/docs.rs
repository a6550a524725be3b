//! The documentation of a symbol, raw and parsed.

use vstd::prelude::*;
use vstd::string::*;
use crate::text::same_text;

verus! {

/// Docs about a parameter of a function.
#[derive(Debug)]
pub struct TidyParamDocs {
    /// The name of the parameter.
    pub name: String,
    /// The markdown docs of the parameter.
    pub docs: String,
    /// The types that the parameter accepts.
    pub types: String,
}

/// Docs about a function.
#[derive(Debug)]
pub struct TidyFuncDocs {
    /// The markdown docs of the function.
    pub docs: String,
    /// The docs of its parameters.
    pub params: Vec<TidyParamDocs>,
}

/// Docs about a variable.
#[derive(Debug)]
pub struct TidyVarDocs {
    /// The markdown docs of the variable.
    pub docs: String,
}

/// Docs about a module.
#[derive(Debug)]
pub struct TidyModuleDocs {
    /// The markdown docs of the module.
    pub docs: String,
}

/// Docs about a symbol.
#[derive(Debug)]
pub enum Docs {
    /// Docs about a function.
    Function(TidyFuncDocs),
    /// Docs about a variable.
    Variable(TidyVarDocs),
    /// Docs about a module.
    Module(TidyModuleDocs),
    /// Other kinds of docs.
    Plain(String),
}

pub struct TidyParamView {
    pub name: Seq<char>,
    pub docs: Seq<char>,
    pub types: Seq<char>,
}

pub enum DocsView {
    Function(Seq<char>, Seq<TidyParamView>),
    Variable(Seq<char>),
    Module(Seq<char>),
    Plain(Seq<char>),
}

impl View for TidyParamDocs {
    type V = TidyParamView;

    open spec fn view(&self) -> TidyParamView {
        TidyParamView { name: self.name@, docs: self.docs@, types: self.types@ }
    }
}

/// The values behind the docs of some parameters.
pub open spec fn tidy_params(params: Seq<TidyParamDocs>) -> Seq<TidyParamView> {
    params.map_values(|param: TidyParamDocs| param@)
}

impl View for Docs {
    type V = DocsView;

    open spec fn view(&self) -> DocsView {
        match self {
            Docs::Function(docs) => DocsView::Function(docs.docs@, tidy_params(docs.params@)),
            Docs::Variable(docs) => DocsView::Variable(docs.docs@),
            Docs::Module(docs) => DocsView::Module(docs.docs@),
            Docs::Plain(docs) => DocsView::Plain(docs@),
        }
    }
}

/// The markdown text of some docs.
pub open spec fn docs_text(docs: DocsView) -> Seq<char> {
    match docs {
        DocsView::Function(text, _) => text,
        DocsView::Variable(text) => text,
        DocsView::Module(text) => text,
        DocsView::Plain(text) => text,
    }
}

impl Docs {
    /// Get the markdown representation of the docs.
    pub fn docs(&self) -> (text: &str)
        ensures
            text@ == docs_text(self@),
    {
        match self {
            Docs::Function(docs) => docs.docs.as_str(),
            Docs::Variable(docs) => docs.docs.as_str(),
            Docs::Module(docs) => docs.docs.as_str(),
            Docs::Plain(docs) => docs.as_str(),
        }
    }
}

/// The value behind optional docs.
pub open spec fn opt_docs(docs: Option<Docs>) -> Option<DocsView> {
    match docs {
        Some(docs) => Some(docs@),
        None => None,
    }
}

/// What the parsers of structured docs make of one markdown text.
#[derive(Debug)]
pub struct TidyParses {
    /// The text read as docs about a function.
    pub function: Result<TidyFuncDocs, String>,
    /// The text read as docs about a variable.
    pub variable: Result<TidyVarDocs, String>,
    /// The text read as docs about a module.
    pub module: Result<TidyModuleDocs, String>,
}

/// Docs in markdown, and what their parsers make of them.
#[derive(Debug)]
pub struct ConvertedDocs {
    /// The markdown text.
    pub content: String,
    /// The structure found in the markdown text.
    pub parses: TidyParses,
}

/// Docs as they stand in the source, and what converting them to markdown
/// gives.
#[derive(Debug)]
pub struct RawDocs {
    /// The text in the source.
    pub text: String,
    /// The docs in markdown, or the message that says why there are none.
    pub converted: Result<ConvertedDocs, String>,
}

/// What came of converting docs to markdown.
#[derive(Debug)]
pub enum Conversion {
    /// The docs could not be made a source, for the given reason.
    Refused(String),
    /// The source could not be converted, for the given reason.
    Failed(String),
    /// The docs in markdown.
    Markdown(String),
}

/// The docs in markdown, or the message that says why there are none.
pub open spec fn conversion_result(conversion: Conversion) -> Result<Seq<char>, Seq<char>> {
    match conversion {
        Conversion::Refused(message) => Err(message@),
        Conversion::Failed(message) => Err("failed to convert to markdown: "@ + message@),
        Conversion::Markdown(content) => Ok(content@),
    }
}

/// The docs in markdown, or the message that says why there are none.
pub fn convert_docs(conversion: Conversion) -> (res: Result<String, String>)
    ensures
        match conversion_result(conversion) {
            Ok(content) => res is Ok && res->Ok_0@ == content,
            Err(message) => res is Err && res->Err_0@ == message,
        },
{
    match conversion {
        Conversion::Refused(message) => Err(message),
        Conversion::Failed(reason) => {
            let mut message: String = "failed to convert to markdown: ".to_owned();
            message.append(reason.as_str());
            Err(message)
        },
        Conversion::Markdown(content) => Ok(content),
    }
}

/// What docs about a symbol of the given kind are, if they follow the
/// structure for that kind.
pub open spec fn identified(kind: Seq<char>, parses: TidyParses) -> Result<DocsView, Seq<char>> {
    if kind == "function"@ {
        match parses.function {
            Ok(docs) => Ok(DocsView::Function(docs.docs@, tidy_params(docs.params@))),
            Err(fault) => Err(fault@),
        }
    } else if kind == "variable"@ {
        match parses.variable {
            Ok(docs) => Ok(DocsView::Variable(docs.docs@)),
            Err(fault) => Err(fault@),
        }
    } else if kind == "module"@ {
        match parses.module {
            Ok(docs) => Ok(DocsView::Module(docs.docs@)),
            Err(fault) => Err(fault@),
        }
    } else {
        Err("unknown kind "@ + kind)
    }
}

fn copy_params(params: &Vec<TidyParamDocs>) -> (copy: Vec<TidyParamDocs>)
    ensures
        tidy_params(copy@) == tidy_params(params@),
{
    let mut copy: Vec<TidyParamDocs> = Vec::new();
    let mut i: usize = 0;
    while i < params.len()
        invariant
            i <= params.len(),
            tidy_params(copy@) =~= tidy_params(params@).take(i as int),
        decreases params.len() - i,
    {
        let param: &TidyParamDocs = &params[i];
        let twin: TidyParamDocs = TidyParamDocs {
            name: param.name.clone(),
            docs: param.docs.clone(),
            types: param.types.clone(),
        };
        let ghost before = tidy_params(copy@);
        let ghost added = twin@;
        copy.push(twin);
        proof {
            assert(added == tidy_params(params@)[i as int]);
            assert(tidy_params(copy@) =~= before.push(added));
            assert(tidy_params(params@).take(i + 1) =~= tidy_params(params@).take(i as int).push(
                added,
            ));
        }
        i = i + 1;
    }
    assert(tidy_params(params@).take(i as int) =~= tidy_params(params@));
    copy
}

/// Finds the docs about a symbol of the given kind in what the parsers made
/// of their text.
pub fn identify_docs(kind: &str, parses: &TidyParses) -> (res: Result<Docs, String>)
    ensures
        match identified(kind@, *parses) {
            Ok(docs) => res is Ok && res->Ok_0@ == docs,
            Err(message) => res is Err && res->Err_0@ == message,
        },
{
    if same_text(kind, "function") {
        match &parses.function {
            Ok(docs) => Ok(
                Docs::Function(
                    TidyFuncDocs { docs: docs.docs.clone(), params: copy_params(&docs.params) },
                ),
            ),
            Err(fault) => Err(fault.clone()),
        }
    } else if same_text(kind, "variable") {
        match &parses.variable {
            Ok(docs) => Ok(Docs::Variable(TidyVarDocs { docs: docs.docs.clone() })),
            Err(fault) => Err(fault.clone()),
        }
    } else if same_text(kind, "module") {
        match &parses.module {
            Ok(docs) => Ok(Docs::Module(TidyModuleDocs { docs: docs.docs.clone() })),
            Err(fault) => Err(fault.clone()),
        }
    } else {
        let mut message: String = String::new();
        message.append("unknown kind ");
        message.append(kind);
        assert(message@ =~= "unknown kind "@ + kind@);
        Err(message)
    }
}

/// The docs about a symbol of the given kind once they are in markdown: the
/// structured docs, or the plain text where it has not the structure.
pub open spec fn parsed(kind: Seq<char>, docs: ConvertedDocs) -> DocsView {
    match identified(kind, docs.parses) {
        Ok(found) => found,
        Err(_) => DocsView::Plain(docs.content@),
    }
}

/// The docs about a symbol of the given kind once they are in markdown.
pub fn parse_docs(kind: &str, docs: &ConvertedDocs) -> (res: Docs)
    ensures
        res@ == parsed(kind@, *docs),
{
    match identify_docs(kind, &docs.parses) {
        Ok(found) => found,
        Err(_) => Docs::Plain(docs.content.clone()),
    }
}

} // verus!
