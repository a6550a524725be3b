//! What a name and a value tell of a symbol.

use vstd::prelude::*;
use crate::package::{file_view, FileIdView};
use crate::symbols::{
    empty_head, head_of, kind_name, listed_by, HeadView, SpanView, ValueView,
};
use crate::text::first_line;
use crate::value::{FuncValue, Span};

verus! {

/// Each kind of value has its own name.
pub proof fn kinds_are_told_apart(value: ValueView)
    ensures
        value is Module ==> kind_name(value) == "module"@,
        value is Type ==> kind_name(value) == "struct"@,
        value is Func ==> kind_name(value) == "function"@,
        value is Label ==> kind_name(value) == "reference"@,
        value is Other ==> kind_name(value) == "constant"@,
{
}

/// Whether nothing is said yet that only the documentation finds out.
pub open spec fn is_undocumented(head: HeadView) -> bool {
    &&& head.loc is None
    &&& !head.export_again
    &&& head.external_link is None
    &&& head.oneliner is None
    &&& head.signature is None
    &&& head.parsed_docs is None
}

/// A symbol has the name, the kind and the value that it was made from, and
/// nothing that only the documentation finds out.
pub proof fn symbols_keep_name_and_value(name: Seq<char>, value: ValueView)
    ensures
        head_of(name, value).name == name,
        head_of(name, value).kind == kind_name(value),
        head_of(name, value).value == Some(value),
        is_undocumented(head_of(name, value)),
{
}

/// Whether a place is shown with its file and its bytes.
pub open spec fn shows_span(shown: Option<SpanView>, span: Span) -> bool {
    shown matches Some(view) && view.range == span.range && (span.id is Some ==> view.id == Some(
        span.id->0@,
    )) && (span.id is None ==> view.id is None)
}

/// A function is known by its definition: the place, the name there, the docs
/// there, and the file. Without a definition it is known by its own place, and
/// has neither name nor docs. It shows no value.
pub proof fn functions_are_known_by_their_definition(name: Seq<char>, func: FuncValue)
    ensures
        ({
            let head = head_of(name, ValueView::Func(func));
            &&& head.constant is None
            &&& func.definition is Some ==> {
                let definition = func.definition->0;
                &&& shows_span(head.span, definition.span)
                &&& head.fid == file_view(definition.span.id)
                &&& head.name_range == definition.name_range
                &&& definition.docs is Some ==> head.docs == Some(*definition.docs->0)
                &&& definition.docs is None ==> head.docs is None
            }
            &&& func.definition is None ==> {
                &&& shows_span(head.span, func.span)
                &&& head.fid == file_view(func.span.id)
                &&& head.name_range is None
                &&& head.docs is None
            }
        }),
{
}

/// A module is owned by its file and shows itself; it has no place, no name in
/// the source and no docs.
pub proof fn modules_are_owned_by_their_files(
    name: Seq<char>,
    module: Seq<char>,
    file: Option<FileIdView>,
    repr: Seq<char>,
)
    ensures
        ({
            let head = head_of(name, ValueView::Module { name: module, file, repr });
            &&& head.fid == file
            &&& head.constant == Some(repr)
            &&& head.span is None && head.name_range is None && head.docs is None
        }),
{
}

/// Any other value shows itself and belongs to no file.
pub proof fn other_values_show_themselves(name: Seq<char>, repr: Seq<char>, value: ValueView)
    requires
        value == ValueView::Type(repr) || value == ValueView::Label(repr) || value
            == ValueView::Other(repr),
    ensures
        ({
            let head = head_of(name, value);
            &&& head.constant == Some(repr)
            &&& head.fid is None
            &&& head.span is None && head.name_range is None && head.docs is None
        }),
{
}

/// Whether two symbols agree but for the mark of a reexport, the docs and the
/// line that stands for them.
pub open spec fn same_but_docs(a: HeadView, b: HeadView) -> bool {
    &&& a.name == b.name && a.kind == b.kind && a.loc == b.loc
    &&& a.external_link == b.external_link && a.signature == b.signature
    &&& a.parsed_docs == b.parsed_docs && a.constant == b.constant
    &&& a.fid == b.fid && a.span == b.span
    &&& a.name_range == b.name_range && a.value == b.value
}

/// A symbol that stands in another file than the module that lists it is
/// marked, and of its docs only the first line is kept. Modules, symbols whose
/// file is not known and symbols at home stay as they are.
pub proof fn only_reexports_are_marked(
    head: HeadView,
    value: ValueView,
    file: FileIdView,
    site: FileIdView,
)
    ensures
        ({
            let listed = listed_by(head, value, Some(site));
            let abroad = !(value is Module) && head.span is Some && head.span->0.id == Some(file)
                && file != site;
            let at_home = value is Module || head.span is None || head.span->0.id is None
                || head.span->0.id == Some(site);
            &&& same_but_docs(listed, head)
            &&& abroad ==> listed.export_again && listed.docs is None
            &&& abroad && head.docs is Some ==> listed.oneliner == Some(
                first_line(head.docs->0.text@),
            )
            &&& abroad && head.docs is None ==> listed.oneliner is None
            &&& at_home ==> listed == head
        }),
        listed_by(head, value, None) == head,
{
}

/// Nothing is known of a symbol before it is looked at.
pub proof fn nothing_is_known_at_first()
    ensures
        ({
            let head = empty_head();
            &&& head.name.len() == 0 && head.kind.len() == 0
            &&& head.loc is None && !head.export_again && head.external_link is None
            &&& head.oneliner is None && head.docs is None && head.parsed_docs is None
            &&& head.signature is None && head.constant is None && head.fid is None
            &&& head.span is None && head.name_range is None && head.value is None
        }),
{
}

} // verus!
