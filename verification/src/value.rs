//! What is known of the values that a module binds.

use std::sync::Arc;
use vstd::prelude::*;
use crate::docs::RawDocs;
use crate::package::FileId;

verus! {

/// A place in the source.
#[derive(Debug)]
pub struct Span {
    /// The file that the span points into, if any.
    pub id: Option<FileId>,
    /// The bytes of that file's source, from the first up to the one behind
    /// the last, if the source is at hand and has the span.
    pub range: Option<(usize, usize)>,
}

/// A type as it is shown to a reader.
#[derive(Debug)]
pub struct TypeFacts {
    /// The short description, if the type has one.
    pub described: Option<String>,
    /// The type in full.
    pub debug: String,
}

/// A parameter as the analysis of a function finds it.
#[derive(Debug)]
pub struct ParamFacts {
    /// The parameter's name.
    pub name: String,
    /// Documentation for the parameter.
    pub docs: String,
    /// The parameter's default name as type.
    pub type_repr: Option<String>,
    /// The parameter's default name as value.
    pub expr: Option<String>,
    /// Is the parameter positional?
    pub positional: bool,
    /// Is the parameter named?
    pub named: bool,
    /// Can the parameter be given any number of times?
    pub variadic: bool,
    /// Is the parameter settable with a set rule?
    pub settable: bool,
}

/// The parameters of a function.
#[derive(Debug)]
pub struct PrimarySignature {
    /// The positional parameters.
    pub pos: Vec<ParamFacts>,
    /// The named parameters, by name.
    pub named: Vec<(String, ParamFacts)>,
    /// The rest parameter.
    pub rest: Option<ParamFacts>,
    /// The return type.
    pub ret_ty: Option<TypeFacts>,
}

/// The types that the type checker inferred for the parameters of a function.
#[derive(Debug)]
pub struct TypeSignature {
    /// The types of the positional parameters.
    pub pos: Vec<TypeFacts>,
    /// The types of the named parameters, by name.
    pub named: Vec<(String, TypeFacts)>,
    /// The type of the rest parameter.
    pub rest: Option<TypeFacts>,
    /// The type of the result.
    pub body: Option<TypeFacts>,
}

/// What the analysis finds out about a function.
#[derive(Debug)]
pub struct SignatureFacts {
    /// The parameters of the function.
    pub primary: PrimarySignature,
    /// The types of the parameters, if the type checker knows the name and the
    /// place of the function.
    pub typed: Option<TypeSignature>,
}

/// Where a function is defined.
#[derive(Debug)]
pub struct Definition {
    /// The place of the definition.
    pub span: Span,
    /// The bytes that hold the name of the function.
    pub name_range: Option<(usize, usize)>,
    /// The docs at the definition.
    pub docs: Option<Arc<RawDocs>>,
}

/// A function.
#[derive(Debug)]
pub struct FuncValue {
    /// The place of the function.
    pub span: Span,
    /// The definition of the function, if its source is at hand and has it.
    pub definition: Option<Definition>,
    /// How the function came about.
    pub repr: FuncRepr,
}

/// How a function came about.
#[derive(Debug)]
pub enum FuncRepr {
    /// An element, a native function or a closure.
    Plain(SignatureFacts),
    /// A function with arguments applied in advance.
    With(Box<FuncValue>),
}

/// A module.
#[derive(Debug)]
pub struct ModuleValue {
    /// The name of the module.
    pub name: String,
    /// The file that the module was evaluated from, if any.
    pub file: Option<FileId>,
    /// The module as it is shown to a reader.
    pub repr: String,
}

/// A value that a module binds.
#[derive(Debug)]
pub enum Value {
    /// A module.
    Module(ModuleValue),
    /// A type, as it is shown to a reader.
    Type(String),
    /// A function.
    Func(FuncValue),
    /// A label, as it is shown to a reader.
    Label(String),
    /// Any other value, as it is shown to a reader.
    Other(String),
}

/// The place of a function and what is known of its signature, below all
/// arguments that were applied in advance.
pub open spec fn innermost(func: FuncValue) -> (Span, SignatureFacts)
    decreases func,
{
    match func.repr {
        FuncRepr::Plain(facts) => (func.span, facts),
        FuncRepr::With(inner) => innermost(*inner),
    }
}

/// The place of a function and what is known of its signature, below all
/// arguments that were applied in advance.
pub fn innermost_signature(func: &FuncValue) -> (found: (&Span, &SignatureFacts))
    ensures
        (*found.0, *found.1) == innermost(*func),
{
    let mut at: &FuncValue = func;
    loop
        invariant
            innermost(*at) == innermost(*func),
        decreases at,
    {
        match &at.repr {
            FuncRepr::Plain(facts) => {
                return (&at.span, facts);
            },
            FuncRepr::With(inner) => {
                at = &**inner;
            },
        }
    }
}

} // verus!
