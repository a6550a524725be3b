//! What holds of every signature that is shown.

use vstd::prelude::*;
use vstd::relations::total_ordering;
use vstd::utf8::encode_utf8;
use crate::order::{
    lemma_lex_antisymmetric, lemma_lex_reflexive, lemma_lex_total, lemma_lex_transitive, lex_le,
};
use crate::signature::{
    named_docs, named_tips, short_type, tip_le, tip_of, tooltip, type_named, value_signature,
    ParamView, SignatureView,
};
use crate::table::values_of;
use crate::text::{joined, trimmed};
use crate::value::{
    FuncRepr, FuncValue, ParamFacts, SignatureFacts, TypeFacts, TypeSignature, Value,
};

verus! {

/// Whether a type is shown by its description and its full form, and a type
/// without a description as `unknown`.
pub open spec fn shows_type(shown: Option<(Seq<char>, Seq<char>)>, ty: Option<TypeFacts>) -> bool {
    match ty {
        Some(ty) => {
            &&& shown matches Some((short, long))
            &&& ty.described is Some ==> short == ty.described->0@
            &&& ty.described is None ==> short == "unknown"@
            &&& long == ty.debug@
        },
        None => shown is None,
    }
}

/// Whether an optional text is shown as it is.
pub open spec fn shows_text(shown: Option<Seq<char>>, text: Option<String>) -> bool {
    &&& text is Some ==> shown == Some(text->0@)
    &&& text is None ==> shown is None
}

/// Whether everything that was found out about a parameter is shown.
pub open spec fn shows_param(shown: ParamView, param: ParamFacts) -> bool {
    &&& shown.name == param.name@
    &&& shown.docs == param.docs@
    &&& shows_text(shown.type_repr, param.type_repr)
    &&& shows_text(shown.expr, param.expr)
    &&& shown.positional == param.positional
    &&& shown.named == param.named
    &&& shown.variadic == param.variadic
    &&& shown.settable == param.settable
}

/// A value that is not a function has no signature.
pub proof fn only_functions_have_signatures(value: Value, name_range: Option<(usize, usize)>)
    ensures
        value_signature(value, name_range) is Some <==> value is Func,
{
}

/// Arguments that were applied in advance do not change the signature.
pub proof fn applied_arguments_change_nothing(
    func: FuncValue,
    inner: FuncValue,
    name_range: Option<(usize, usize)>,
)
    requires
        func.repr == FuncRepr::With(Box::new(inner)),
    ensures
        value_signature(Value::Func(func), name_range) == value_signature(
            Value::Func(inner),
            name_range,
        ),
{
}

/// Each positional parameter is shown in its place with all that is known of
/// it. Where the types of a placed and named function were inferred, each
/// shows the type that was inferred for its own place.
pub proof fn positional_parameters_are_shown(
    func: FuncValue,
    facts: SignatureFacts,
    name_range: Option<(usize, usize)>,
    i: int,
)
    requires
        func.repr == FuncRepr::Plain(facts),
        0 <= i < facts.primary.pos@.len(),
    ensures
        ({
            let shown = value_signature(Value::Func(func), name_range)->0.pos;
            let counts = func.span.id is Some && name_range is Some && facts.typed is Some;
            &&& shown.len() == facts.primary.pos@.len()
            &&& shows_param(shown[i], facts.primary.pos@[i])
            &&& counts && i < facts.typed->0.pos@.len() ==> shows_type(
                shown[i].cano_type,
                Some(facts.typed->0.pos@[i]),
            )
            &&& !(counts && i < facts.typed->0.pos@.len()) ==> shown[i].cano_type is None
        }),
{
}

proof fn lemma_type_named(types: Seq<(String, TypeFacts)>, name: Seq<char>, k: int)
    requires
        0 <= k < types.len(),
        types[k].0@ == name,
        forall|j: int| 0 <= j < k ==> (#[trigger] types[j]).0@ != name,
    ensures
        type_named(types, name) == Some(types[k].1),
    decreases types.len(),
{
    if k > 0 {
        assert(types[0].0@ != name);
        let rest = types.skip(1);
        assert forall|j: int| 0 <= j < k - 1 implies (#[trigger] rest[j]).0@ != name by {
            assert(rest[j] == types[j + 1]);
        }
        lemma_type_named(rest, name, k - 1);
    }
}

proof fn lemma_type_not_named(types: Seq<(String, TypeFacts)>, name: Seq<char>)
    requires
        forall|j: int| 0 <= j < types.len() ==> (#[trigger] types[j]).0@ != name,
    ensures
        type_named(types, name) is None,
    decreases types.len(),
{
    if types.len() > 0 {
        assert(types[0].0@ != name);
        let rest = types.skip(1);
        assert forall|j: int| 0 <= j < rest.len() implies (#[trigger] rest[j]).0@ != name by {
            assert(rest[j] == types[j + 1]);
        }
        lemma_type_not_named(rest, name);
    }
}

proof fn lemma_named_docs(
    named: Seq<(String, ParamFacts)>,
    typed: Option<TypeSignature>,
    name: Seq<char>,
    i: int,
)
    requires
        0 <= i < named.len(),
        named[i].0@ == name,
        forall|j: int| i < j < named.len() ==> (#[trigger] named[j]).0@ != name,
    ensures
        named_docs(named, typed).contains_key(name),
        shows_param(named_docs(named, typed)[name], named[i].1),
        typed is None ==> named_docs(named, typed)[name].cano_type is None,
        typed is Some ==> shows_type(
            named_docs(named, typed)[name].cano_type,
            type_named(typed->0.named@, name),
        ),
    decreases named.len(),
{
    let n = named.len() - 1;
    if i < n {
        assert(named[n].0@ != name);
        let init = named.drop_last();
        assert forall|j: int| i < j < init.len() implies (#[trigger] init[j]).0@ != name by {
            assert(init[j] == named[j]);
        }
        lemma_named_docs(init, typed, name, i);
    }
}

proof fn lemma_named_keys(
    named: Seq<(String, ParamFacts)>,
    typed: Option<TypeSignature>,
    name: Seq<char>,
)
    requires
        named_docs(named, typed).contains_key(name),
    ensures
        exists|i: int| 0 <= i < named.len() && (#[trigger] named[i]).0@ == name,
    decreases named.len(),
{
    let n = named.len() - 1;
    if named[n].0@ != name {
        let init = named.drop_last();
        lemma_named_keys(init, typed, name);
        let i = choose|i: int| 0 <= i < init.len() && (#[trigger] init[i]).0@ == name;
        assert(named[i].0@ == name);
    }
}

/// Each named parameter is shown under its name with all that is known of it,
/// the last one where several go by one name. Where the types of a placed and
/// named function were inferred, it shows the first type inferred for its
/// name.
pub proof fn named_parameters_are_shown(
    func: FuncValue,
    facts: SignatureFacts,
    name_range: Option<(usize, usize)>,
    i: int,
)
    requires
        func.repr == FuncRepr::Plain(facts),
        0 <= i < facts.primary.named@.len(),
        forall|j: int|
            i < j < facts.primary.named@.len() ==> (#[trigger] facts.primary.named@[j]).0@
                != facts.primary.named@[i].0@,
    ensures
        ({
            let shown = value_signature(Value::Func(func), name_range)->0.named;
            let name = facts.primary.named@[i].0@;
            let counts = func.span.id is Some && name_range is Some && facts.typed is Some;
            let types = facts.typed->0.named@;
            &&& shown.contains_key(name)
            &&& shows_param(shown[name], facts.primary.named@[i].1)
            &&& !counts ==> shown[name].cano_type is None
            &&& counts ==> forall|k: int|
                0 <= k < types.len() && (#[trigger] types[k]).0@ == name && (forall|j: int|
                    0 <= j < k ==> (#[trigger] types[j]).0@ != name) ==> shows_type(
                    shown[name].cano_type,
                    Some(types[k].1),
                )
            &&& counts && (forall|j: int| 0 <= j < types.len() ==> (#[trigger] types[j]).0@ != name)
                ==> shown[name].cano_type is None
        }),
{
    let name = facts.primary.named@[i].0@;
    let counts = func.span.id is Some && name_range is Some && facts.typed is Some;
    let shown = value_signature(Value::Func(func), name_range)->0.named;
    let typed = if counts {
        facts.typed
    } else {
        None
    };
    assert(shown == named_docs(facts.primary.named@, typed));
    lemma_named_docs(facts.primary.named@, typed, name, i);
    if counts {
        let types = facts.typed->0.named@;
        assert forall|k: int|
            0 <= k < types.len() && (#[trigger] types[k]).0@ == name && (forall|j: int|
                0 <= j < k ==> (#[trigger] types[j]).0@ != name) implies shows_type(
            shown[name].cano_type,
            Some(types[k].1),
        ) by {
            lemma_type_named(types, name, k);
        }
        if forall|j: int| 0 <= j < types.len() ==> (#[trigger] types[j]).0@ != name {
            lemma_type_not_named(types, name);
        }
    }
}

/// No other names are shown than those of the named parameters. The rest
/// parameter is shown with its own inferred type. The result has its inferred
/// type, or else the one that the function states.
pub proof fn rest_and_result_are_shown(
    func: FuncValue,
    facts: SignatureFacts,
    name_range: Option<(usize, usize)>,
    name: Seq<char>,
)
    requires
        func.repr == FuncRepr::Plain(facts),
    ensures
        ({
            let shown = value_signature(Value::Func(func), name_range)->0;
            let primary = facts.primary;
            let counts = func.span.id is Some && name_range is Some && facts.typed is Some;
            let types = facts.typed->0;
            &&& shown.named.contains_key(name) ==> exists|i: int|
                0 <= i < primary.named@.len() && (#[trigger] primary.named@[i]).0@ == name
            &&& shown.rest is Some <==> primary.rest is Some
            &&& primary.rest is Some ==> shows_param(shown.rest->0, primary.rest->0)
            &&& primary.rest is Some && counts ==> shows_type(shown.rest->0.cano_type, types.rest)
            &&& primary.rest is Some && !counts ==> shown.rest->0.cano_type is None
            &&& counts && types.body is Some ==> shows_type(shown.ret_ty, types.body)
            &&& !(counts && types.body is Some) ==> shows_type(shown.ret_ty, primary.ret_ty)
        }),
{
    let shown = value_signature(Value::Func(func), name_range)->0;
    let counts = func.span.id is Some && name_range is Some && facts.typed is Some;
    let typed = if counts {
        facts.typed
    } else {
        None
    };
    assert(shown.named == named_docs(facts.primary.named@, typed));
    if shown.named.contains_key(name) {
        lemma_named_keys(facts.primary.named@, typed, name);
    }
}

/// A type is shown without white space at its ends. If it then takes more than
/// thirty bytes, a dictionary, raw text and content have stand-ins; all other
/// types are shown in full.
pub proof fn types_are_shortened(ty: Seq<char>)
    ensures
        ({
            let v = trimmed(ty);
            let long = encode_utf8(v).len() > 30;
            &&& !long ==> short_type(ty) == v
            &&& long && v.len() > 0 && v[0] == '{' && v.last() == '}' ==> short_type(ty)
                == "{ ... }"@
            &&& long && v.len() > 0 && v[0] == '`' && v.last() == '`' ==> short_type(ty) == "raw"@
            &&& long && v.len() > 0 && v[0] == '[' && v.last() == ']' ==> short_type(ty)
                == "content"@
            &&& v.len() == 0 || !(v[0] == '{' && v.last() == '}') && !(v[0] == '`' && v.last()
                == '`') && !(v[0] == '[' && v.last() == ']') ==> short_type(ty) == v
        }),
{
    if trimmed(ty).len() == 0 {
        assert(trimmed(ty) =~= Seq::empty());
    }
}

proof fn lemma_order_of_values<K, W>(keys: Seq<K>, f: spec_fn(K) -> W, listed: Seq<W>) -> (order:
    Seq<K>)
    requires
        keys.no_duplicates(),
        keys.map_values(f).to_multiset() == listed.to_multiset(),
    ensures
        order.no_duplicates(),
        order.to_set() == keys.to_set(),
        order.len() == keys.len(),
        order.map_values(f) == listed,
    decreases listed.len(),
{
    broadcast use vstd::seq_lib::group_to_multiset_ensures;
    broadcast use vstd::multiset::group_multiset_axioms;

    let all = keys.map_values(f);
    assert(all.len() == all.to_multiset().len());
    assert(listed.len() == listed.to_multiset().len());
    if listed.len() == 0 {
        assert(keys.map_values(f) =~= listed);
        keys
    } else {
        let n = listed.len() - 1;
        let x = listed[n];
        assert(listed.contains(x));
        assert(all.to_multiset().count(x) > 0);
        assert(all.contains(x));
        let i = all.index_of(x);
        assert(all[i] == x);
        let fewer = keys.remove(i);
        let init = listed.drop_last();
        assert(fewer.map_values(f) =~= all.remove(i));
        assert(listed.remove(n) =~= init);
        assert(all.remove(i).to_multiset() == all.to_multiset().remove(x));
        assert(init.to_multiset() == listed.to_multiset().remove(x));
        assert(fewer.no_duplicates()) by {
            assert forall|a: int, b: int|
                0 <= a < fewer.len() && 0 <= b < fewer.len() && a != b implies fewer[a]
                != fewer[b] by {
                let c = if a < i { a } else { a + 1 };
                let d = if b < i { b } else { b + 1 };
                assert(fewer[a] == keys[c] && fewer[b] == keys[d]);
            }
        }
        let before = lemma_order_of_values(fewer, f, init);
        let order = before.push(keys[i]);
        assert(!fewer.contains(keys[i])) by {
            if fewer.contains(keys[i]) {
                let a = fewer.index_of(keys[i]);
                let c = if a < i { a } else { a + 1 };
                assert(fewer[a] == keys[c]);
                assert(keys[c] == keys[i] && c != i);
            }
        }
        assert(!before.contains(keys[i])) by {
            if before.contains(keys[i]) {
                assert(before.to_set().contains(keys[i]));
                assert(fewer.to_set().contains(keys[i]));
            }
        }
        assert(order.to_set() =~= keys.to_set()) by {
            assert forall|k: K| order.to_set().contains(k) == keys.to_set().contains(k) by {
                assert(order.contains(k) <==> before.contains(k) || k == keys[i]) by {
                    if order.contains(k) {
                        let a = order.index_of(k);
                        if a < before.len() {
                            assert(before[a] == k);
                        }
                    }
                    if before.contains(k) {
                        let a = before.index_of(k);
                        assert(order[a] == k);
                    }
                    if k == keys[i] {
                        assert(order[order.len() - 1] == k);
                    }
                }
                assert(before.to_set().contains(k) == fewer.to_set().contains(k));
                assert(keys.contains(k) <==> fewer.contains(k) || k == keys[i]) by {
                    if keys.contains(k) {
                        let c = keys.index_of(k);
                        if c < i {
                            assert(fewer[c] == k);
                        } else if c > i {
                            assert(fewer[c - 1] == k);
                        }
                    }
                    if fewer.contains(k) {
                        let a = fewer.index_of(k);
                        let c = if a < i { a } else { a + 1 };
                        assert(keys[c] == k);
                    }
                }
            }
        }
        assert(order.map_values(f) =~= listed) by {
            assert(before.map_values(f) == init);
            assert forall|a: int| 0 <= a < order.len() implies order.map_values(f)[a]
                == listed[a] by {
                if a < before.len() {
                    assert(before.map_values(f)[a] == init[a]);
                }
            }
        }
        order
    }
}

proof fn lemma_values_by_key<K, V>(m: Map<K, V>) -> (keys: Seq<K>)
    requires
        m.dom().finite(),
    ensures
        keys.no_duplicates(),
        keys.to_set() == m.dom(),
        keys.len() == m.dom().len(),
        values_of(m) == keys.map_values(|k: K| m[k]),
    decreases m.dom().len(),
{
    if m.dom().len() == 0 {
        let keys = Seq::<K>::empty();
        assert(m.dom() =~= Set::empty());
        assert(keys.to_set() =~= m.dom());
        assert(values_of(m) =~= keys.map_values(|k: K| m[k]));
        keys
    } else {
        let k = m.dom().choose();
        let rest = m.remove(k);
        assert(rest.dom() =~= m.dom().remove(k));
        let fewer = lemma_values_by_key(rest);
        let keys = fewer.push(k);
        assert(!fewer.contains(k)) by {
            if fewer.contains(k) {
                assert(fewer.to_set().contains(k));
            }
        }
        assert(keys.to_set() =~= m.dom()) by {
            assert forall|x: K| keys.to_set().contains(x) == m.dom().contains(x) by {
                assert(fewer.to_set().contains(x) == rest.dom().contains(x));
                assert(keys.contains(x) <==> fewer.contains(x) || x == k) by {
                    if keys.contains(x) {
                        let a = keys.index_of(x);
                        if a < fewer.len() {
                            assert(fewer[a] == x);
                        }
                    }
                    if fewer.contains(x) {
                        let a = fewer.index_of(x);
                        assert(keys[a] == x);
                    }
                    if x == k {
                        assert(keys[keys.len() - 1] == x);
                    }
                }
            }
        }
        assert(values_of(m) =~= keys.map_values(|k: K| m[k])) by {
            assert forall|a: int| 0 <= a < keys.len() implies values_of(m)[a] == keys.map_values(
                |k: K| m[k],
            )[a] by {
                if a < fewer.len() {
                    assert(values_of(rest)[a] == rest[fewer[a]]);
                    assert(fewer.contains(fewer[a]));
                    assert(fewer.to_set().contains(fewer[a]));
                    assert(rest.dom().contains(fewer[a]));
                }
            }
        }
        keys
    }
}

proof fn lemma_tips_ordered()
    ensures
        total_ordering(
            |a: (Seq<char>, Option<Seq<char>>), b: (Seq<char>, Option<Seq<char>>)| tip_le(a, b),
        ),
{
    let leq = |a: (Seq<char>, Option<Seq<char>>), b: (Seq<char>, Option<Seq<char>>)| tip_le(a, b);
    assert forall|a: (Seq<char>, Option<Seq<char>>)| #[trigger] leq(a, a) by {
        if a.1 is Some {
            lemma_lex_reflexive(a.1->0);
        }
    }
    assert forall|a: (Seq<char>, Option<Seq<char>>), b: (Seq<char>, Option<Seq<char>>)|
        #[trigger] leq(a, b) && #[trigger] leq(b, a) implies a == b by {
        if a.0 != b.0 {
            lemma_lex_antisymmetric(a.0, b.0);
        } else if a.1 is Some && b.1 is Some {
            lemma_lex_antisymmetric(a.1->0, b.1->0);
        }
    }
    assert forall|
        a: (Seq<char>, Option<Seq<char>>),
        b: (Seq<char>, Option<Seq<char>>),
        c: (Seq<char>, Option<Seq<char>>),
    | #[trigger]
        leq(a, b) && #[trigger] leq(b, c) implies leq(a, c) by {
        if a.0 == b.0 && b.0 == c.0 {
            if a.1 is Some && b.1 is Some && c.1 is Some {
                lemma_lex_transitive(a.1->0, b.1->0, c.1->0);
            }
        } else if a.0 != b.0 && b.0 != c.0 {
            lemma_lex_transitive(a.0, b.0, c.0);
            if a.0 == c.0 {
                lemma_lex_antisymmetric(a.0, b.0);
            }
        }
    }
    assert forall|a: (Seq<char>, Option<Seq<char>>), b: (Seq<char>, Option<Seq<char>>)|
        #[trigger] leq(a, b) || #[trigger] leq(b, a) by {
        lemma_lex_total(a.0, b.0);
        if a.1 is Some && b.1 is Some {
            lemma_lex_total(a.1->0, b.1->0);
        }
    }
}

/// A named parameter as it is shown: its name, and its short type or `any`.
pub open spec fn shown_named(param: ParamView) -> Seq<char> {
    param.name + ": "@ + if param.type_repr is Some {
        short_type(param.type_repr->0)
    } else {
        short_type("any"@)
    }
}

/// Whether one named parameter is shown before another: by name, and under one
/// name by type, none first.
pub open spec fn shown_before(a: ParamView, b: ParamView) -> bool {
    if a.name != b.name {
        lex_le(a.name, b.name)
    } else if a.type_repr is Some && b.type_repr is Some {
        lex_le(a.type_repr->0, b.type_repr->0)
    } else {
        a.type_repr is None
    }
}

/// Whether the parts of a tooltip are those of a signature, with the named
/// parameters in the given order.
pub open spec fn lists_parameters(
    sig: SignatureView,
    order: Seq<Seq<char>>,
    parts: Seq<Seq<char>>,
) -> bool {
    let base = sig.pos.len() + if sig.rest is Some {
        1int
    } else {
        0int
    };
    &&& order.no_duplicates()
    &&& order.to_set() == sig.named.dom()
    &&& order.len() == sig.named.dom().len()
    &&& parts.len() == base + sig.named.dom().len()
    &&& forall|i: int| 0 <= i < sig.pos.len() ==> #[trigger] parts[i] == sig.pos[i].name
    &&& sig.rest is Some ==> parts[sig.pos.len() as int] == sig.rest->0.name
    &&& forall|k: int|
        0 <= k < order.len() ==> parts[base + k] == shown_named(sig.named[#[trigger] order[k]])
    &&& forall|k: int, l: int|
        0 <= k < l < order.len() ==> shown_before(
            sig.named[#[trigger] order[k]],
            sig.named[#[trigger] order[l]],
        )
}

/// A signature is shown as the list of all its parameters with commas between
/// them: the positional ones, the rest parameter if there is one, and every
/// named one exactly once, ordered by name.
pub proof fn tooltip_lists_every_parameter(sig: SignatureView)
    requires
        sig.named.dom().finite(),
    ensures
        exists|order: Seq<Seq<char>>, parts: Seq<Seq<char>>| #[trigger]
            lists_parameters(sig, order, parts) && tooltip(sig) == joined(parts, ", "@),
{
    let le = |a: (Seq<char>, Option<Seq<char>>), b: (Seq<char>, Option<Seq<char>>)| tip_le(a, b);
    let show = |tip: (Seq<char>, Option<Seq<char>>)| crate::signature::named_tip(tip.0, tip.1);
    let tips = sig.named.map_values(|param: ParamView| tip_of(param));
    assert(tips.dom() =~= sig.named.dom());
    let unsorted = values_of(tips);
    let sorted = unsorted.sort_by(le);
    lemma_tips_ordered();
    unsorted.lemma_sort_by_ensures(le);
    let keys = lemma_values_by_key(tips);
    let f = |k: Seq<char>| tips[k];
    assert(keys.map_values(f) =~= unsorted);
    let order = lemma_order_of_values(keys, f, sorted);
    let pos = sig.pos.map_values(|param: ParamView| param.name);
    let rest = match sig.rest {
        Some(param) => seq![param.name],
        None => Seq::empty(),
    };
    let named = named_tips(sig.named);
    assert(named == sorted.map_values(show));
    let parts = pos + rest + named;
    let base = pos.len() + rest.len();
    assert forall|k: int| 0 <= k < order.len() implies parts[base + k] == shown_named(
        sig.named[#[trigger] order[k]],
    ) by {
        assert(order.contains(order[k]));
        assert(order.to_set().contains(order[k]));
        assert(order.map_values(f)[k] == sorted[k]);
        assert(named[k] == show(sorted[k]));
        assert(sorted[k] == tip_of(sig.named[order[k]]));
    }
    assert forall|k: int, l: int| 0 <= k < l < order.len() implies shown_before(
        sig.named[#[trigger] order[k]],
        sig.named[#[trigger] order[l]],
    ) by {
        assert(order.contains(order[k]) && order.contains(order[l]));
        assert(order.to_set().contains(order[k]) && order.to_set().contains(order[l]));
        assert(order.map_values(f)[k] == sorted[k]);
        assert(order.map_values(f)[l] == sorted[l]);
        assert(le(sorted[k], sorted[l]));
    }
    assert(lists_parameters(sig, order, parts));
}

} // verus!
