//! What is known of a symbol.

use std::sync::Arc;
use vstd::prelude::*;
use vstd::string::*;
use crate::docs::{opt_docs, Docs, DocsView, RawDocs};
use crate::package::{copy_file, file_view, FileId, FileIdView};
use crate::signature::{opt_signature, DocSignature, SignatureView};
use crate::text::{first_line, first_line_of, opt_text};
use crate::value::{FuncValue, Span, Value};

verus! {

/// Information about a symbol.
pub struct SymbolInfoHead {
    /// The name of the symbol.
    pub name: String,
    /// The kind of the symbol.
    pub kind: String,
    /// The location (file, start, end) of the symbol.
    pub loc: Option<(usize, usize, usize)>,
    /// Is the symbol a reexport?
    pub export_again: bool,
    /// The link to the docs of a symbol that is a reexport.
    pub external_link: Option<String>,
    /// The one-line documentation of the symbol.
    pub oneliner: Option<String>,
    /// The raw documentation of the symbol.
    pub docs: Option<Arc<RawDocs>>,
    /// The signature of the symbol.
    pub signature: Option<DocSignature>,
    /// The parsed documentation of the symbol.
    pub parsed_docs: Option<Docs>,
    /// The value of the symbol.
    pub constant: Option<String>,
    /// The file owning the symbol.
    pub fid: Option<FileId>,
    /// The span of the symbol.
    pub span: Option<Span>,
    /// The name range of the symbol.
    pub name_range: Option<(usize, usize)>,
    /// The value of the symbol.
    pub value: Option<Arc<Value>>,
}

/// Information about a symbol.
pub struct SymbolInfo {
    /// The primary information about the symbol.
    pub head: SymbolInfoHead,
    /// The children of the symbol.
    pub children: Vec<SymbolInfo>,
}

pub struct SpanView {
    pub id: Option<FileIdView>,
    pub range: Option<(usize, usize)>,
}

pub enum ValueView {
    Module { name: Seq<char>, file: Option<FileIdView>, repr: Seq<char> },
    Type(Seq<char>),
    Func(FuncValue),
    Label(Seq<char>),
    Other(Seq<char>),
}

pub struct HeadView {
    pub name: Seq<char>,
    pub kind: Seq<char>,
    pub loc: Option<(usize, usize, usize)>,
    pub export_again: bool,
    pub external_link: Option<Seq<char>>,
    pub oneliner: Option<Seq<char>>,
    pub docs: Option<RawDocs>,
    pub signature: Option<SignatureView>,
    pub parsed_docs: Option<DocsView>,
    pub constant: Option<Seq<char>>,
    pub fid: Option<FileIdView>,
    pub span: Option<SpanView>,
    pub name_range: Option<(usize, usize)>,
    pub value: Option<ValueView>,
}

pub struct SymbolView {
    pub head: HeadView,
    pub children: Seq<SymbolView>,
}

impl View for Span {
    type V = SpanView;

    open spec fn view(&self) -> SpanView {
        SpanView { id: file_view(self.id), range: self.range }
    }
}

impl View for Value {
    type V = ValueView;

    open spec fn view(&self) -> ValueView {
        match *self {
            Value::Module(module) => ValueView::Module {
                name: module.name@,
                file: file_view(module.file),
                repr: module.repr@,
            },
            Value::Type(repr) => ValueView::Type(repr@),
            Value::Func(func) => ValueView::Func(func),
            Value::Label(repr) => ValueView::Label(repr@),
            Value::Other(repr) => ValueView::Other(repr@),
        }
    }
}

/// The value behind an optional span.
pub open spec fn span_view(span: Option<Span>) -> Option<SpanView> {
    match span {
        Some(span) => Some(span@),
        None => None,
    }
}

impl View for SymbolInfoHead {
    type V = HeadView;

    open spec fn view(&self) -> HeadView {
        HeadView {
            name: self.name@,
            kind: self.kind@,
            loc: self.loc,
            export_again: self.export_again,
            external_link: opt_text(self.external_link),
            oneliner: opt_text(self.oneliner),
            docs: match self.docs {
                Some(docs) => Some(*docs),
                None => None,
            },
            signature: opt_signature(self.signature),
            parsed_docs: opt_docs(self.parsed_docs),
            constant: opt_text(self.constant),
            fid: file_view(self.fid),
            span: span_view(self.span),
            name_range: self.name_range,
            value: match self.value {
                Some(value) => Some((*value)@),
                None => None,
            },
        }
    }
}

/// The tree behind a symbol.
pub open spec fn symbol_view(symbol: SymbolInfo) -> SymbolView
    decreases symbol,
{
    SymbolView {
        head: symbol.head@,
        children: Seq::new(
            symbol.children@.len(),
            |i: int|
                if 0 <= i < symbol.children@.len() {
                    symbol_view(symbol.children@[i])
                } else {
                    arbitrary()
                },
        ),
    }
}

impl View for SymbolInfo {
    type V = SymbolView;

    open spec fn view(&self) -> SymbolView {
        symbol_view(*self)
    }
}

/// The trees behind some symbols.
pub open spec fn symbol_views(symbols: Seq<SymbolInfo>) -> Seq<SymbolView> {
    symbols.map_values(|symbol: SymbolInfo| symbol_view(symbol))
}

pub proof fn lemma_symbol_view(symbol: SymbolInfo)
    ensures
        symbol@.head == symbol.head@,
        symbol@.children == symbol_views(symbol.children@),
{
    assert(symbol@.children =~= symbol_views(symbol.children@));
}

/// The name of the kind of a value.
pub open spec fn kind_name(value: ValueView) -> Seq<char> {
    match value {
        ValueView::Module { .. } => "module"@,
        ValueView::Type(_) => "struct"@,
        ValueView::Func(_) => "function"@,
        ValueView::Label(_) => "reference"@,
        ValueView::Other(_) => "constant"@,
    }
}

/// The name of the kind of a value.
pub fn kind_of(value: &Value) -> (kind: &'static str)
    ensures
        kind@ == kind_name(value@),
{
    match value {
        Value::Module(_) => "module",
        Value::Type(_) => "struct",
        Value::Func(_) => "function",
        Value::Label(_) => "reference",
        Value::Other(_) => "constant",
    }
}

/// The place by which a function is known: that of its definition, or its own
/// where no definition was found.
pub open spec fn func_span(func: FuncValue) -> SpanView {
    match func.definition {
        Some(definition) => definition.span@,
        None => func.span@,
    }
}

/// The information about a symbol without anything in it.
pub open spec fn empty_head() -> HeadView {
    HeadView {
        name: Seq::empty(),
        kind: Seq::empty(),
        loc: None,
        export_again: false,
        external_link: None,
        oneliner: None,
        docs: None,
        signature: None,
        parsed_docs: None,
        constant: None,
        fid: None,
        span: None,
        name_range: None,
        value: None,
    }
}

impl Default for SymbolInfoHead {
    fn default() -> (head: Self)
        ensures
            head@ == empty_head(),
    {
        SymbolInfoHead {
            name: String::new(),
            kind: String::new(),
            loc: None,
            export_again: false,
            external_link: None,
            oneliner: None,
            docs: None,
            signature: None,
            parsed_docs: None,
            constant: None,
            fid: None,
            span: None,
            name_range: None,
            value: None,
        }
    }
}

/// What a name and a value tell of a symbol. A function is owned by the file
/// with its definition, a module by its own file.
pub open spec fn head_of(name: Seq<char>, value: ValueView) -> HeadView {
    let base = HeadView { name, kind: kind_name(value), value: Some(value), ..empty_head() };
    match value {
        ValueView::Func(func) => HeadView {
            docs: match func.definition {
                Some(definition) => match definition.docs {
                    Some(docs) => Some(*docs),
                    None => None,
                },
                None => None,
            },
            name_range: match func.definition {
                Some(definition) => definition.name_range,
                None => None,
            },
            fid: func_span(func).id,
            span: Some(func_span(func)),
            ..base
        },
        ValueView::Module { name: _, file, repr } => HeadView {
            fid: file,
            constant: Some(repr),
            ..base
        },
        ValueView::Type(repr) => HeadView { constant: Some(repr), ..base },
        ValueView::Label(repr) => HeadView { constant: Some(repr), ..base },
        ValueView::Other(repr) => HeadView { constant: Some(repr), ..base },
    }
}

fn copy_span(span: &Span) -> (copy: Span)
    ensures
        copy@ == span@,
{
    Span { id: copy_file(&span.id), range: span.range }
}

/// What a name and a value tell of a symbol.
pub fn create_head(name: &str, value: &Arc<Value>) -> (head: SymbolInfoHead)
    ensures
        head@ == head_of(name@, (**value)@),
{
    let mut head: SymbolInfoHead = SymbolInfoHead::default();
    head.name = name.to_owned();
    head.kind = kind_of(&**value).to_owned();
    head.value = Some(value.clone());
    match &**value {
        Value::Func(func) => {
            let mut span: Span = copy_span(&func.span);
            if let Some(definition) = &func.definition {
                span = copy_span(&definition.span);
                head.name_range = definition.name_range;
                if let Some(docs) = &definition.docs {
                    head.docs = Some(docs.clone());
                }
            }
            head.fid = copy_file(&span.id);
            head.span = Some(span);
        },
        Value::Module(module) => {
            head.fid = copy_file(&module.file);
            head.constant = Some(module.repr.clone());
        },
        Value::Type(repr) => {
            head.constant = Some(repr.clone());
        },
        Value::Label(repr) => {
            head.constant = Some(repr.clone());
        },
        Value::Other(repr) => {
            head.constant = Some(repr.clone());
        },
    }
    head
}

/// The file that a symbol's span points into.
pub open spec fn span_file(head: HeadView) -> Option<FileIdView> {
    match head.span {
        Some(span) => span.id,
        None => None,
    }
}

/// Whether a symbol that is not a module is listed by a module in another
/// file than the one that it stands in.
pub open spec fn reexports(head: HeadView, value: ValueView, site: Option<FileIdView>) -> bool {
    &&& !(value is Module)
    &&& span_file(head) is Some
    &&& site is Some
    &&& span_file(head) != site
}

/// A symbol as a module lists it: one that stands in another file is marked,
/// and only the first line of its docs is kept.
pub open spec fn listed_by(
    head: HeadView,
    value: ValueView,
    site: Option<FileIdView>,
) -> HeadView {
    if reexports(head, value, site) {
        HeadView {
            export_again: true,
            oneliner: match head.docs {
                Some(docs) => Some(first_line(docs.text@)),
                None => None,
            },
            docs: None,
            ..head
        }
    } else {
        head
    }
}

/// Extract the first line of documentation.
pub fn oneliner(docs: &str) -> (line: &str)
    ensures
        line@ == first_line(docs@),
{
    first_line_of(docs)
}

/// What is known of a symbol that a module lists.
pub fn list_head(name: &str, value: &Arc<Value>, site: Option<&FileId>) -> (head: SymbolInfoHead)
    ensures
        head@ == listed_by(
            head_of(name@, (**value)@),
            (**value)@,
            match site {
                Some(site) => Some(site@),
                None => None,
            },
        ),
{
    let mut head: SymbolInfoHead = create_head(name, value);
    let is_module: bool = match &**value {
        Value::Module(_) => true,
        _ => false,
    };
    let elsewhere: bool = match (&head.span, site) {
        (Some(span), Some(site)) => match &span.id {
            Some(file) => !file.same(site),
            None => false,
        },
        _ => false,
    };
    if !is_module && elsewhere {
        let line: Option<String> = match &head.docs {
            Some(docs) => Some(oneliner(docs.text.as_str()).to_owned()),
            None => None,
        };
        head.export_again = true;
        head.oneliner = line;
        head.docs = None;
    }
    head
}

} // verus!
