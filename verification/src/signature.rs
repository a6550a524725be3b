//! The signatures of functions, and how they are shown.

use vstd::prelude::*;
use vstd::relations::total_ordering;
use vstd::string::*;
use crate::collections::join_items;
use crate::order::{
    lemma_lex_antisymmetric, lemma_lex_reflexive, lemma_lex_total, lemma_lex_transitive, lex_le,
    lex_le_text, ranking, seen, sort_ranked, Ranked,
};
use crate::table::{lemma_entry_values, values_of, Table};
use crate::text::{
    byte_len, copy_text, fenced, is_fenced, joined, opt_text, trim_text, trimmed, views,
};
use crate::value::{
    innermost, innermost_signature, FuncValue, ParamFacts, PrimarySignature, SignatureFacts, Span,
    TypeFacts, TypeSignature, Value,
};

verus! {

/// A type as it is shown: the short form, and the long one.
pub type TypeRepr = Option<(String, String)>;

/// The texts behind a shown type.
pub open spec fn type_view(ty: TypeRepr) -> Option<(Seq<char>, Seq<char>)> {
    match ty {
        Some((short, long)) => Some((short@, long@)),
        None => None,
    }
}

/// Describes a primary function signature.
pub struct DocSignature {
    /// The positional parameters.
    pub pos: Vec<DocParamSpec>,
    /// The named parameters.
    pub named: Table<String, DocParamSpec>,
    /// The rest parameter.
    pub rest: Option<DocParamSpec>,
    /// The return type.
    pub ret_ty: TypeRepr,
}

/// Describes a function parameter.
#[derive(Debug)]
pub struct DocParamSpec {
    /// The parameter's name.
    pub name: String,
    /// Documentation for the parameter.
    pub docs: String,
    /// Inferred type of the parameter.
    pub cano_type: TypeRepr,
    /// The parameter's default name as type.
    pub type_repr: Option<String>,
    /// The parameter's default name as value.
    pub expr: Option<String>,
    /// Is the parameter positional?
    pub positional: bool,
    /// Is the parameter named?
    ///
    /// Can be true even if `positional` is true if the parameter can be given
    /// in both variants.
    pub named: bool,
    /// Can the parameter be given any number of times?
    pub variadic: bool,
    /// Is the parameter settable with a set rule?
    pub settable: bool,
}

pub struct ParamView {
    pub name: Seq<char>,
    pub docs: Seq<char>,
    pub cano_type: Option<(Seq<char>, Seq<char>)>,
    pub type_repr: Option<Seq<char>>,
    pub expr: Option<Seq<char>>,
    pub positional: bool,
    pub named: bool,
    pub variadic: bool,
    pub settable: bool,
}

pub struct SignatureView {
    pub pos: Seq<ParamView>,
    pub named: Map<Seq<char>, ParamView>,
    pub rest: Option<ParamView>,
    pub ret_ty: Option<(Seq<char>, Seq<char>)>,
}

impl View for DocParamSpec {
    type V = ParamView;

    open spec fn view(&self) -> ParamView {
        ParamView {
            name: self.name@,
            docs: self.docs@,
            cano_type: type_view(self.cano_type),
            type_repr: opt_text(self.type_repr),
            expr: opt_text(self.expr),
            positional: self.positional,
            named: self.named,
            variadic: self.variadic,
            settable: self.settable,
        }
    }
}

/// The values behind some parameters by name.
pub open spec fn named_view(named: Map<Seq<char>, DocParamSpec>) -> Map<Seq<char>, ParamView> {
    named.map_values(|param: DocParamSpec| param@)
}

impl View for DocSignature {
    type V = SignatureView;

    open spec fn view(&self) -> SignatureView {
        SignatureView {
            pos: seen(self.pos@),
            named: named_view(self.named@),
            rest: match self.rest {
                Some(param) => Some(param@),
                None => None,
            },
            ret_ty: type_view(self.ret_ty),
        }
    }
}

/// The value behind an optional signature.
pub open spec fn opt_signature(signature: Option<DocSignature>) -> Option<SignatureView> {
    match signature {
        Some(signature) => Some(signature@),
        None => None,
    }
}

/// How a type is shown: its description, or `unknown` where it has none, and
/// its full form.
pub open spec fn type_doc(ty: Option<TypeFacts>) -> Option<(Seq<char>, Seq<char>)> {
    match ty {
        Some(ty) => Some(
            (
                match ty.described {
                    Some(text) => text@,
                    None => "unknown"@,
                },
                ty.debug@,
            ),
        ),
        None => None,
    }
}

/// How a type is shown.
pub fn doc_ty(ty: Option<&TypeFacts>) -> (repr: TypeRepr)
    ensures
        type_view(repr) == type_doc(
            match ty {
                Some(ty) => Some(*ty),
                None => None,
            },
        ),
{
    match ty {
        Some(ty) => {
            let short: String = match &ty.described {
                Some(text) => text.clone(),
                None => "unknown".to_owned(),
            };
            Some((short, ty.debug.clone()))
        },
        None => None,
    }
}

/// The docs of a parameter of the given type.
pub open spec fn param_doc(param: ParamFacts, ty: Option<TypeFacts>) -> ParamView {
    ParamView {
        name: param.name@,
        docs: param.docs@,
        cano_type: type_doc(ty),
        type_repr: opt_text(param.type_repr),
        expr: opt_text(param.expr),
        positional: param.positional,
        named: param.named,
        variadic: param.variadic,
        settable: param.settable,
    }
}

fn describe_param(param: &ParamFacts, ty: Option<&TypeFacts>) -> (doc: DocParamSpec)
    ensures
        doc@ == param_doc(
            *param,
            match ty {
                Some(ty) => Some(*ty),
                None => None,
            },
        ),
{
    DocParamSpec {
        name: param.name.clone(),
        docs: param.docs.clone(),
        cano_type: doc_ty(ty),
        type_repr: copy_text(&param.type_repr),
        expr: copy_text(&param.expr),
        positional: param.positional,
        named: param.named,
        variadic: param.variadic,
        settable: param.settable,
    }
}

/// The inferred type of a positional parameter.
pub open spec fn pos_type(typed: Option<TypeSignature>, i: int) -> Option<TypeFacts> {
    match typed {
        Some(typed) => if 0 <= i < typed.pos@.len() {
            Some(typed.pos@[i])
        } else {
            None
        },
        None => None,
    }
}

/// The first of some types that goes by a name.
pub open spec fn type_named(types: Seq<(String, TypeFacts)>, name: Seq<char>) -> Option<TypeFacts>
    decreases types.len(),
{
    if types.len() == 0 {
        None
    } else if types[0].0@ == name {
        Some(types[0].1)
    } else {
        type_named(types.skip(1), name)
    }
}

/// The inferred type of a named parameter.
pub open spec fn named_type(typed: Option<TypeSignature>, name: Seq<char>) -> Option<TypeFacts> {
    match typed {
        Some(typed) => type_named(typed.named@, name),
        None => None,
    }
}

fn find_named_type<'a>(typed: &'a TypeSignature, name: &String) -> (ty: Option<&'a TypeFacts>)
    ensures
        match ty {
            Some(ty) => type_named(typed.named@, name@) == Some(*ty),
            None => type_named(typed.named@, name@) is None,
        },
{
    let mut i: usize = 0;
    assert(typed.named@.skip(0) =~= typed.named@);
    while i < typed.named.len()
        invariant
            i <= typed.named.len(),
            type_named(typed.named@, name@) == type_named(typed.named@.skip(i as int), name@),
        decreases typed.named.len() - i,
    {
        assert(typed.named@.skip(i as int).skip(1) =~= typed.named@.skip(i + 1));
        if typed.named[i].0.eq(name) {
            return Some(&typed.named[i].1);
        }
        i = i + 1;
    }
    None
}

/// The docs of the named parameters; of two that go by one name the later
/// counts.
pub open spec fn named_docs(
    named: Seq<(String, ParamFacts)>,
    typed: Option<TypeSignature>,
) -> Map<Seq<char>, ParamView>
    decreases named.len(),
{
    if named.len() == 0 {
        Map::empty()
    } else {
        let (name, param) = named.last();
        named_docs(named.drop_last(), typed).insert(
            name@,
            param_doc(param, named_type(typed, name@)),
        )
    }
}

/// The docs of a signature.
pub open spec fn signature_doc(facts: SignatureFacts) -> SignatureView {
    let primary = facts.primary;
    SignatureView {
        pos: Seq::new(
            primary.pos@.len(),
            |i: int| param_doc(primary.pos@[i], pos_type(facts.typed, i)),
        ),
        named: named_docs(primary.named@, facts.typed),
        rest: match primary.rest {
            Some(param) => Some(
                param_doc(
                    param,
                    match facts.typed {
                        Some(typed) => typed.rest,
                        None => None,
                    },
                ),
            ),
            None => None,
        },
        ret_ty: type_doc(
            match facts.typed {
                Some(typed) if typed.body is Some => typed.body,
                _ => primary.ret_ty,
            },
        ),
    }
}

/// The inferred types of a function: none count unless the function stands in
/// a file and its symbol has a name in the source.
pub open spec fn inferred_types(
    span: Span,
    name_range: Option<(usize, usize)>,
    found: Option<TypeSignature>,
) -> Option<TypeSignature> {
    if span.id is Some && name_range is Some {
        found
    } else {
        None
    }
}

/// What counts of the signature of a function whose symbol has a name at the
/// given place.
pub open spec fn counting_facts(
    func: FuncValue,
    name_range: Option<(usize, usize)>,
) -> SignatureFacts {
    let (span, facts) = innermost(func);
    SignatureFacts {
        primary: facts.primary,
        typed: inferred_types(span, name_range, facts.typed),
    }
}

/// The docs of the signature of a value: those of a function, below all
/// arguments that were applied in advance, and none of any other value.
pub open spec fn value_signature(
    value: Value,
    name_range: Option<(usize, usize)>,
) -> Option<SignatureView> {
    match value {
        Value::Func(func) => Some(signature_doc(counting_facts(func, name_range))),
        _ => None,
    }
}

/// Whether a signature shows no inferred type: none of its parameters has one,
/// and its return type is the one that the function states itself.
pub open spec fn shows_no_inferred_type(
    signature: SignatureView,
    primary: PrimarySignature,
) -> bool {
    &&& forall|i: int|
        0 <= i < signature.pos.len() ==> (#[trigger] signature.pos[i]).cano_type is None
    &&& forall|name: Seq<char>| #[trigger]
        signature.named.contains_key(name) ==> signature.named[name].cano_type is None
    &&& signature.rest is Some ==> signature.rest->0.cano_type is None
    &&& signature.ret_ty == type_doc(primary.ret_ty)
}

proof fn lemma_named_untyped(named: Seq<(String, ParamFacts)>)
    ensures
        forall|name: Seq<char>| #[trigger]
            named_docs(named, None).contains_key(name) ==> named_docs(
                named,
                None,
            )[name].cano_type is None,
    decreases named.len(),
{
    if named.len() > 0 {
        lemma_named_untyped(named.drop_last());
    }
}

/// A function that stands in no file, one whose symbol has no name in the
/// source and one of which no types were inferred are shown alike: without any
/// inferred type.
pub proof fn unplaced_functions_show_no_inferred_type(
    func: FuncValue,
    name_range: Option<(usize, usize)>,
)
    requires
        innermost(func).0.id is None || name_range is None || innermost(func).1.typed is None,
    ensures
        value_signature(Value::Func(func), name_range) is Some,
        shows_no_inferred_type(
            value_signature(Value::Func(func), name_range)->0,
            innermost(func).1.primary,
        ),
        value_signature(Value::Func(func), name_range) == Some(
            signature_doc(
                (SignatureFacts { primary: innermost(func).1.primary, typed: None }),
            ),
        ),
{
    lemma_named_untyped(innermost(func).1.primary.named@);
}

fn describe_pos(primary: &PrimarySignature, typed: &Option<TypeSignature>) -> (docs: Vec<
    DocParamSpec,
>)
    ensures
        seen(docs@) == Seq::new(
            primary.pos@.len(),
            |i: int| param_doc(primary.pos@[i], pos_type(*typed, i)),
        ),
{
    let mut docs: Vec<DocParamSpec> = Vec::new();
    let mut i: usize = 0;
    while i < primary.pos.len()
        invariant
            i <= primary.pos.len(),
            docs@.len() == i,
            forall|j: int|
                0 <= j < i ==> #[trigger] docs@[j]@ == param_doc(
                    primary.pos@[j],
                    pos_type(*typed, j),
                ),
        decreases primary.pos.len() - i,
    {
        let ty: Option<&TypeFacts> = match typed {
            Some(typed) => if i < typed.pos.len() {
                Some(&typed.pos[i])
            } else {
                None
            },
            None => None,
        };
        docs.push(describe_param(&primary.pos[i], ty));
        i = i + 1;
    }
    assert(seen(docs@) =~= Seq::new(
        primary.pos@.len(),
        |i: int| param_doc(primary.pos@[i], pos_type(*typed, i)),
    ));
    docs
}

fn describe_named(primary: &PrimarySignature, typed: &Option<TypeSignature>) -> (docs: Table<
    String,
    DocParamSpec,
>)
    ensures
        named_view(docs@) == named_docs(primary.named@, *typed),
{
    let mut docs: Table<String, DocParamSpec> = Table::new();
    let mut i: usize = 0;
    assert(named_view(docs@) =~= Map::empty());
    while i < primary.named.len()
        invariant
            i <= primary.named.len(),
            named_view(docs@) =~= named_docs(primary.named@.take(i as int), *typed),
        decreases primary.named.len() - i,
    {
        let name: &String = &primary.named[i].0;
        let ty: Option<&TypeFacts> = match typed {
            Some(typed) => find_named_type(typed, name),
            None => None,
        };
        let doc: DocParamSpec = describe_param(&primary.named[i].1, ty);
        let ghost before = docs@;
        let ghost entry = doc;
        docs.insert(name.clone(), doc);
        proof {
            let upto = primary.named@.take(i + 1);
            assert(upto.drop_last() =~= primary.named@.take(i as int));
            assert(upto.last() == primary.named@[i as int]);
            assert(named_view(before.insert(name@, entry)) =~= named_view(before).insert(
                name@,
                entry@,
            ));
        }
        i = i + 1;
    }
    assert(primary.named@.take(i as int) =~= primary.named@);
    docs
}

/// The docs of the signature of a value whose symbol has a name at the given
/// place.
pub fn docs_signature(value: &Value, name_range: Option<(usize, usize)>) -> (signature: Option<
    DocSignature,
>)
    ensures
        opt_signature(signature) == value_signature(*value, name_range),
{
    let func = match value {
        Value::Func(func) => func,
        _ => {
            return None;
        },
    };
    let (span, facts) = innermost_signature(func);
    let untyped: Option<TypeSignature> = None;
    let typed: &Option<TypeSignature> = if span.id.is_some() && name_range.is_some() {
        &facts.typed
    } else {
        &untyped
    };
    let rest: Option<DocParamSpec> = match &facts.primary.rest {
        Some(param) => {
            let ty: Option<&TypeFacts> = match typed {
                Some(typed) => match &typed.rest {
                    Some(ty) => Some(ty),
                    None => None,
                },
                None => None,
            };
            Some(describe_param(param, ty))
        },
        None => None,
    };
    let body: Option<&TypeFacts> = match typed {
        Some(typed) => match &typed.body {
            Some(ty) => Some(ty),
            None => None,
        },
        None => None,
    };
    let ret: Option<&TypeFacts> = match body {
        Some(ty) => Some(ty),
        None => match &facts.primary.ret_ty {
            Some(ty) => Some(ty),
            None => None,
        },
    };
    Some(
        DocSignature {
            pos: describe_pos(&facts.primary, typed),
            named: describe_named(&facts.primary, typed),
            rest,
            ret_ty: doc_ty(ret),
        },
    )
}

/// A type as it is shown in a signature: without white space at its ends, and
/// with a stand-in for a long dictionary, raw text or content.
pub open spec fn short_type(ty: Seq<char>) -> Seq<char> {
    let trim = trimmed(ty);
    if byte_len(trim) <= 30 {
        trim
    } else if fenced(trim, '{', '}') {
        "{ ... }"@
    } else if fenced(trim, '`', '`') {
        "raw"@
    } else if fenced(trim, '[', ']') {
        "content"@
    } else {
        trim
    }
}

/// A named parameter as it is shown in a signature: its name, and its type or
/// `any`.
pub open spec fn named_tip(name: Seq<char>, ty: Option<Seq<char>>) -> Seq<char> {
    name + ": "@ + short_type(
        match ty {
            Some(ty) => ty,
            None => "any"@,
        },
    )
}

/// The order in which named parameters are shown: by name, and those of one
/// name by type, no type first.
pub open spec fn tip_le(
    a: (Seq<char>, Option<Seq<char>>),
    b: (Seq<char>, Option<Seq<char>>),
) -> bool {
    if a.0 != b.0 {
        lex_le(a.0, b.0)
    } else {
        match (a.1, b.1) {
            (None, _) => true,
            (Some(_), None) => false,
            (Some(x), Some(y)) => lex_le(x, y),
        }
    }
}

/// The name and the type by which a parameter is shown.
pub open spec fn tip_of(param: ParamView) -> (Seq<char>, Option<Seq<char>>) {
    (param.name, param.type_repr)
}

/// The named parameters as they are shown, in order.
pub open spec fn named_tips(named: Map<Seq<char>, ParamView>) -> Seq<Seq<char>> {
    values_of(named.map_values(|param: ParamView| tip_of(param))).sort_by(
        |a: (Seq<char>, Option<Seq<char>>), b: (Seq<char>, Option<Seq<char>>)| tip_le(a, b),
    ).map_values(|tip: (Seq<char>, Option<Seq<char>>)| named_tip(tip.0, tip.1))
}

/// The parameters of a signature as they are shown: the positional ones, the
/// rest, and the named ones in order, separated by commas.
pub open spec fn tooltip(sig: SignatureView) -> Seq<char> {
    let pos = sig.pos.map_values(|param: ParamView| param.name);
    let rest = match sig.rest {
        Some(param) => seq![param.name],
        None => Seq::empty(),
    };
    joined(pos + rest + named_tips(sig.named), ", "@)
}

/// A type as it is shown in a signature.
pub fn shorten_type(ty: &str) -> (text: String)
    ensures
        text@ == short_type(ty@),
{
    let trim: &str = trim_text(ty);
    if trim.as_bytes().len() <= 30 {
        trim.to_owned()
    } else if is_fenced(trim, '{', '}') {
        "{ ... }".to_owned()
    } else if is_fenced(trim, '`', '`') {
        "raw".to_owned()
    } else if is_fenced(trim, '[', ']') {
        "content".to_owned()
    } else {
        trim.to_owned()
    }
}

/// The name and the type by which a named parameter is shown.
struct NamedTip {
    name: String,
    ty: Option<String>,
}

impl View for NamedTip {
    type V = (Seq<char>, Option<Seq<char>>);

    closed spec fn view(&self) -> (Seq<char>, Option<Seq<char>>) {
        (self.name@, opt_text(self.ty))
    }
}

impl Ranked for NamedTip {
    open spec fn ranks(
        a: (Seq<char>, Option<Seq<char>>),
        b: (Seq<char>, Option<Seq<char>>),
    ) -> bool {
        tip_le(a, b)
    }

    proof fn ranks_totally() {
        let leq = |a: (Seq<char>, Option<Seq<char>>), b: (Seq<char>, Option<Seq<char>>)|
            Self::ranks(a, b);
        assert forall|a: (Seq<char>, Option<Seq<char>>)| #[trigger] leq(a, a) by {
            if a.1 is Some {
                lemma_lex_reflexive(a.1->0);
            }
        }
        assert forall|a: (Seq<char>, Option<Seq<char>>), b: (Seq<char>, Option<Seq<char>>)|
            #[trigger] leq(a, b) && #[trigger] leq(b, a) implies a == b by {
            if a.0 != b.0 {
                lemma_lex_antisymmetric(a.0, b.0);
            } else if a.1 is Some && b.1 is Some {
                lemma_lex_antisymmetric(a.1->0, b.1->0);
            }
        }
        assert forall|
            a: (Seq<char>, Option<Seq<char>>),
            b: (Seq<char>, Option<Seq<char>>),
            c: (Seq<char>, Option<Seq<char>>),
        | #[trigger]
            leq(a, b) && #[trigger] leq(b, c) implies leq(a, c) by {
            if a.0 == b.0 && b.0 == c.0 {
                if a.1 is Some && b.1 is Some && c.1 is Some {
                    lemma_lex_transitive(a.1->0, b.1->0, c.1->0);
                }
            } else if a.0 != b.0 && b.0 != c.0 {
                lemma_lex_transitive(a.0, b.0, c.0);
                if a.0 == c.0 {
                    lemma_lex_antisymmetric(a.0, b.0);
                }
            }
        }
        assert forall|a: (Seq<char>, Option<Seq<char>>), b: (Seq<char>, Option<Seq<char>>)|
            #[trigger] leq(a, b) || #[trigger] leq(b, a) by {
            lemma_lex_total(a.0, b.0);
            if a.1 is Some && b.1 is Some {
                lemma_lex_total(a.1->0, b.1->0);
            }
        }
    }

    fn ranks_before(&self, other: &Self) -> (res: bool) {
        if !self.name.eq(&other.name) {
            return lex_le_text(self.name.as_str(), other.name.as_str());
        }
        match (&self.ty, &other.ty) {
            (None, _) => true,
            (Some(_), None) => false,
            (Some(x), Some(y)) => lex_le_text(x.as_str(), y.as_str()),
        }
    }
}

fn show_tip(tip: &NamedTip) -> (text: String)
    ensures
        text@ == named_tip(tip@.0, tip@.1),
{
    let ty: String = match &tip.ty {
        Some(ty) => shorten_type(ty.as_str()),
        None => shorten_type("any"),
    };
    let mut text: String = tip.name.clone();
    text.append(": ");
    text.append(ty.as_str());
    assert(text@ =~= named_tip(tip@.0, tip@.1));
    text
}

fn show_named(named: &Table<String, DocParamSpec>) -> (tips: Vec<String>)
    ensures
        views(tips@) == named_tips(named_view(named@)),
{
    let entries: &Vec<(String, DocParamSpec)> = named.entries();
    let ghost f = |param: DocParamSpec| tip_of(param@);
    let ghost expected = entries@.map_values(|entry: (String, DocParamSpec)| f(entry.1));
    let mut list: Vec<NamedTip> = Vec::new();
    let mut i: usize = 0;
    while i < entries.len()
        invariant
            i <= entries.len(),
            f == (|param: DocParamSpec| tip_of(param@)),
            expected == entries@.map_values(|entry: (String, DocParamSpec)| f(entry.1)),
            seen(list@) =~= expected.take(i as int),
        decreases entries.len() - i,
    {
        let param: &DocParamSpec = &entries[i].1;
        let tip: NamedTip = NamedTip { name: param.name.clone(), ty: copy_text(&param.type_repr) };
        let ghost before = seen(list@);
        let ghost added = tip@;
        list.push(tip);
        proof {
            assert(added == expected[i as int]);
            assert(seen(list@) =~= before.push(added));
            assert(expected.take(i + 1) =~= expected.take(i as int).push(added));
        }
        i = i + 1;
    }
    let ghost unsorted = seen(list@);
    let sorted: Vec<NamedTip> = sort_ranked(list);
    let ghost tips_spec = named_tips(named_view(named@));
    proof {
        let le = |a: (Seq<char>, Option<Seq<char>>), b: (Seq<char>, Option<Seq<char>>)|
            tip_le(a, b);
        assert(unsorted =~= expected);
        NamedTip::ranks_totally();
        assert(ranking::<NamedTip>() =~= le);
        assert(total_ordering(le));
        lemma_entry_values(entries@, f);
        let listed = values_of(named_view(named@).map_values(|param: ParamView| tip_of(param)));
        assert(named_view(named@).map_values(|param: ParamView| tip_of(param))
            =~= named@.map_values(f));
        assert(listed.to_multiset() == expected.to_multiset());
        expected.lemma_sort_by_ensures(le);
        listed.lemma_sort_by_ensures(le);
        vstd::seq_lib::lemma_sorted_unique(expected.sort_by(le), listed.sort_by(le), le);
        assert(tips_spec =~= seen(sorted@).map_values(
            |tip: (Seq<char>, Option<Seq<char>>)| named_tip(tip.0, tip.1),
        ));
    }
    let mut tips: Vec<String> = Vec::new();
    let mut k: usize = 0;
    while k < sorted.len()
        invariant
            k <= sorted.len(),
            tips_spec =~= seen(sorted@).map_values(
                |tip: (Seq<char>, Option<Seq<char>>)| named_tip(tip.0, tip.1),
            ),
            views(tips@) =~= tips_spec.take(k as int),
        decreases sorted.len() - k,
    {
        let text: String = show_tip(&sorted[k]);
        let ghost before = views(tips@);
        let ghost added = text@;
        tips.push(text);
        proof {
            assert(seen(sorted@)[k as int] == sorted@[k as int]@);
            assert(added == tips_spec[k as int]);
            assert(views(tips@) =~= before.push(added));
            assert(tips_spec.take(k + 1) =~= tips_spec.take(k as int).push(added));
        }
        k = k + 1;
    }
    assert(tips_spec.take(k as int) =~= tips_spec);
    tips
}

/// The parameters of a signature as they are shown.
pub fn param_tooltip(sig: &DocSignature) -> (text: String)
    ensures
        text@ == tooltip(sig@),
{
    let mut parts: Vec<String> = Vec::new();
    let ghost pos = sig@.pos.map_values(|param: ParamView| param.name);
    let mut i: usize = 0;
    while i < sig.pos.len()
        invariant
            i <= sig.pos.len(),
            pos == sig@.pos.map_values(|param: ParamView| param.name),
            views(parts@) =~= pos.take(i as int),
        decreases sig.pos.len() - i,
    {
        let ghost before = views(parts@);
        parts.push(sig.pos[i].name.clone());
        proof {
            assert(sig@.pos[i as int] == sig.pos@[i as int]@);
            assert(views(parts@) =~= before.push(pos[i as int]));
            assert(pos.take(i + 1) =~= pos.take(i as int).push(pos[i as int]));
        }
        i = i + 1;
    }
    assert(pos.take(i as int) =~= pos);
    let ghost rest = match sig@.rest {
        Some(param) => seq![param.name],
        None => Seq::empty(),
    };
    match &sig.rest {
        Some(param) => {
            let ghost before = views(parts@);
            parts.push(param.name.clone());
            assert(views(parts@) =~= before + rest);
        },
        None => {
            assert(views(parts@) =~= pos + rest);
        },
    }
    let tips: Vec<String> = show_named(&sig.named);
    let ghost named = named_tips(sig@.named);
    let mut k: usize = 0;
    while k < tips.len()
        invariant
            k <= tips.len(),
            views(tips@) == named,
            views(parts@) =~= pos + rest + named.take(k as int),
        decreases tips.len() - k,
    {
        let ghost before = views(parts@);
        parts.push(tips[k].clone());
        proof {
            assert(named[k as int] == tips@[k as int]@);
            assert(views(parts@) =~= before.push(named[k as int]));
            assert(named.take(k + 1) =~= named.take(k as int).push(named[k as int]));
        }
        k = k + 1;
    }
    assert(named.take(k as int) =~= named);
    join_items(parts.as_slice(), ", ")
}

} // verus!
