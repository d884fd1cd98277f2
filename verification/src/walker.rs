//! The property walker: one recursive skeleton, two modes. Evaluate mode
//! hands every bracketed string to the expression engine; escape mode
//! prepends one `[` to every bracketed string so that exported values stay
//! literal on re-apply. Either mode rejects a sequence nested directly in a
//! sequence. The input is never mutated.
use vstd::prelude::*;

use crate::context::Context;
use crate::engine::ExpressionEngine;
use crate::error::DscError;
use crate::value::{
    array_view, escape_string, group_value_axioms, is_bracketed, object_view, spec_bracketed,
    spec_escape_str, SpecValue, PropValue,
};

verus! {

/// The escape of one string value: one `[` prepended when it is bracketed.
pub open spec fn spec_escape_string(s: Seq<char>) -> Seq<char> {
    if spec_bracketed(s) {
        spec_escape_str(s)
    } else {
        s
    }
}

/// The escape of a value; `None` where a sequence stands directly inside a
/// sequence, which no property value may.
pub open spec fn spec_escape_value(v: SpecValue) -> Option<SpecValue>
    decreases v,
{
    match v {
        SpecValue::String(s) => Some(SpecValue::String(spec_escape_string(s))),
        SpecValue::Array(es) => match spec_escape_elems(es) {
            Some(es2) => Some(SpecValue::Array(es2)),
            None => None,
        },
        SpecValue::Object(fs) => match spec_escape_fields(fs) {
            Some(fs2) => Some(SpecValue::Object(fs2)),
            None => None,
        },
        _ => Some(v),
    }
}

/// The escape of a run of sequence elements: a sequence nested directly
/// among them is the error case.
pub open spec fn spec_escape_elems(es: Seq<SpecValue>) -> Option<Seq<SpecValue>>
    decreases es,
{
    if es.len() == 0 {
        Some(Seq::empty())
    } else {
        match spec_escape_elems(es.drop_last()) {
            Some(rest) => {
                if es.last() is Array {
                    None
                } else {
                    match spec_escape_value(es.last()) {
                        Some(e2) => Some(rest.push(e2)),
                        None => None,
                    }
                }
            },
            None => None,
        }
    }
}

pub open spec fn spec_escape_fields(fs: Seq<(Seq<char>, SpecValue)>) -> Option<
    Seq<(Seq<char>, SpecValue)>,
>
    decreases fs,
{
    if fs.len() == 0 {
        Some(Seq::empty())
    } else {
        match spec_escape_fields(fs.drop_last()) {
            Some(rest) => match spec_escape_value(fs.last().1) {
                Some(v2) => Some(rest.push((fs.last().0, v2))),
                None => None,
            },
            None => None,
        }
    }
}

/// One bad element anywhere makes the whole element run fail to escape.
proof fn lemma_escape_elems_bad(es: Seq<SpecValue>, i: int)
    requires
        0 <= i < es.len(),
        es[i] is Array || spec_escape_value(es[i]) is None,
    ensures
        spec_escape_elems(es) is None,
    decreases es.len(),
{
    if i < es.len() - 1 {
        lemma_escape_elems_bad(es.drop_last(), i);
    }
}

/// One bad field value anywhere makes the whole field run fail to escape.
proof fn lemma_escape_fields_bad(fs: Seq<(Seq<char>, SpecValue)>, i: int)
    requires
        0 <= i < fs.len(),
        spec_escape_value(fs[i].1) is None,
    ensures
        spec_escape_fields(fs) is None,
    decreases fs.len(),
{
    if i < fs.len() - 1 {
        lemma_escape_fields_bad(fs.drop_last(), i);
    }
}

/// Escape one value.
#[verifier::loop_isolation(false)]
pub fn escape_value(v: &PropValue) -> (r: Result<PropValue, DscError>)
    ensures
        r is Ok <==> spec_escape_value(v@) is Some,
        r matches Ok(x) ==> Some(x@) == spec_escape_value(v@),
        r matches Err(e) ==> (e matches DscError::Parser(m) && m@
            == "Nested arrays not supported"@),
    decreases v,
{
    broadcast use group_value_axioms;

    match v {
        PropValue::Null => Ok(PropValue::Null),
        PropValue::Bool(b) => Ok(PropValue::Bool(*b)),
        PropValue::Int(i) => Ok(PropValue::Int(*i)),
        PropValue::Number(s) => Ok(PropValue::Number(s.clone())),
        PropValue::String(s) => {
            if is_bracketed(s) {
                Ok(PropValue::String(escape_string(s)))
            } else {
                Ok(PropValue::String(s.clone()))
            }
        },
        PropValue::Array(es) => {
            let mut out: Vec<PropValue> = Vec::new();
            let n = es.len();
            let mut i: usize = 0;
            while i < n
                invariant
                    0 <= i <= n,
                    out.len() == i,
                    spec_escape_elems(array_view(*es).take(i as int)) matches Some(pre) && pre
                        =~= array_view(out),
                decreases n - i,
            {
                proof {
                    assert(array_view(*es).take(i as int + 1).drop_last() =~= array_view(
                        *es,
                    ).take(i as int));
                    assert(array_view(*es).take(i as int + 1).last() == es[i as int]@);
                }
                let e2 = match &es[i] {
                    PropValue::Array(_) => {
                        proof {
                            assert(array_view(*es)[i as int] is Array);
                            lemma_escape_elems_bad(array_view(*es), i as int);
                        }
                        return Err(
                            DscError::Parser(String::from_str("Nested arrays not supported")),
                        );
                    },
                    other => match escape_value(other) {
                        Ok(x) => x,
                        Err(e) => {
                            proof {
                                lemma_escape_elems_bad(array_view(*es), i as int);
                            }
                            return Err(e);
                        },
                    },
                };
                let ghost old_out = array_view(out);
                out.push(e2);
                proof {
                    assert(array_view(out).drop_last() =~= old_out);
                    assert(array_view(out).last() == e2@);
                }
                i += 1;
            }
            proof {
                assert(array_view(*es).take(n as int) =~= array_view(*es));
            }
            Ok(PropValue::Array(out))
        },
        PropValue::Object(fs) => {
            let mut out: Vec<(String, PropValue)> = Vec::new();
            let n = fs.len();
            let mut i: usize = 0;
            while i < n
                invariant
                    0 <= i <= n,
                    out.len() == i,
                    spec_escape_fields(object_view(*fs).take(i as int)) matches Some(pre) && pre
                        =~= object_view(out),
                decreases n - i,
            {
                proof {
                    assert(object_view(*fs).take(i as int + 1).drop_last() =~= object_view(
                        *fs,
                    ).take(i as int));
                    assert(object_view(*fs).take(i as int + 1).last() == (fs[i as int].0@,
                    fs[i as int].1@));
                }
                let v2 = match escape_value(&fs[i].1) {
                    Ok(x) => x,
                    Err(e) => {
                        proof {
                            lemma_escape_fields_bad(object_view(*fs), i as int);
                        }
                        return Err(e);
                    },
                };
                let ghost old_out = object_view(out);
                out.push((fs[i].0.clone(), v2));
                proof {
                    assert(object_view(out).drop_last() =~= old_out);
                    assert(object_view(out).last() == (fs[i as int].0@, v2@));
                }
                i += 1;
            }
            proof {
                assert(object_view(*fs).take(n as int) =~= object_view(*fs));
            }
            Ok(PropValue::Object(out))
        },
    }
}

/// Escape a whole property bag; the absence of one stays absent.
pub fn escape_property_values(properties: &Option<Vec<(String, PropValue)>>) -> (r: Result<
    Option<Vec<(String, PropValue)>>,
    DscError,
>)
    ensures
        match *properties {
            None => r matches Ok(o) && o is None,
            Some(ref fs) => {
                &&& r is Ok <==> spec_escape_fields(object_view(*fs)) is Some
                &&& r matches Ok(o) ==> o matches Some(fs2) && Some(object_view(fs2))
                    == spec_escape_fields(object_view(*fs))
                &&& r matches Err(e) ==> (e matches DscError::Parser(m) && m@
                    == "Nested arrays not supported"@)
            },
        },
{
    broadcast use group_value_axioms;

    let fs = match properties {
        None => {
            return Ok(None);
        },
        Some(fs) => fs,
    };
    match escape_value(&PropValue::Object(crate::value::clone_properties(fs))) {
        Ok(PropValue::Object(out)) => Ok(Some(out)),
        Ok(other) => {
            proof {
                assert(other@ is Object);
                assert(false);
            }
            Err(DscError::Parser(String::from_str("Nested arrays not supported")))
        },
        Err(e) => Err(e),
    }
}

/// No string anywhere inside the value is bracketed: nothing for the
/// expression engine.
pub open spec fn no_expressions(v: SpecValue) -> bool
    decreases v,
{
    match v {
        SpecValue::String(s) => !spec_bracketed(s),
        SpecValue::Array(es) => forall|i: int| 0 <= i < es.len() ==> no_expressions(#[trigger] es[i]),
        SpecValue::Object(fs) => forall|i: int|
            0 <= i < fs.len() ==> no_expressions(#[trigger] fs[i].1),
        _ => true,
    }
}

/// No sequence stands directly inside a sequence anywhere in the value.
pub open spec fn no_nested_arrays(v: SpecValue) -> bool
    decreases v,
{
    match v {
        SpecValue::Array(es) => forall|i: int|
            0 <= i < es.len() ==> !((#[trigger] es[i]) is Array) && no_nested_arrays(es[i]),
        SpecValue::Object(fs) => forall|i: int|
            0 <= i < fs.len() ==> no_nested_arrays(#[trigger] fs[i].1),
        _ => true,
    }
}

/// How an evaluated value relates to its input, whatever the engine
/// answered: the shape and every mapping key are kept, scalars and
/// non-bracketed strings are unchanged, and each bracketed string is
/// replaced by some string.
pub open spec fn evaluated(a: SpecValue, b: SpecValue) -> bool
    decreases a,
{
    match a {
        SpecValue::String(s) => if spec_bracketed(s) {
            b is String
        } else {
            b == a
        },
        SpecValue::Array(es) => b matches SpecValue::Array(bs) && bs.len() == es.len() && forall|
            i: int,
        | 0 <= i < es.len() ==> evaluated(#[trigger] es[i], bs[i]),
        SpecValue::Object(fs) => b matches SpecValue::Object(gs) && gs.len() == fs.len()
            && forall|i: int|
            0 <= i < fs.len() ==> (#[trigger] gs[i]).0 == fs[i].0 && evaluated(fs[i].1, gs[i].1),
        _ => b == a,
    }
}

/// How an evaluated property bag relates to its input, field by field.
pub open spec fn fields_evaluated(
    fs: Seq<(Seq<char>, SpecValue)>,
    gs: Seq<(Seq<char>, SpecValue)>,
) -> bool {
    gs.len() == fs.len() && forall|i: int|
        0 <= i < fs.len() ==> (#[trigger] gs[i]).0 == fs[i].0 && evaluated(fs[i].1, gs[i].1)
}

/// No sequence stands directly inside a sequence anywhere in the bag.
pub open spec fn props_no_nested(fs: Seq<(Seq<char>, SpecValue)>) -> bool {
    forall|i: int| 0 <= i < fs.len() ==> no_nested_arrays(#[trigger] fs[i].1)
}

/// No string anywhere in the bag is bracketed.
pub open spec fn props_no_expressions(fs: Seq<(Seq<char>, SpecValue)>) -> bool {
    forall|i: int| 0 <= i < fs.len() ==> no_expressions(#[trigger] fs[i].1)
}

/// Evaluate one value: bracketed strings are handed to the engine and
/// replaced by its answer, everything else passes through unchanged.
#[verifier::loop_isolation(false)]
pub fn eval_value<E: ExpressionEngine>(engine: &mut E, context: &Context, v: &PropValue) -> (r: Result<
    PropValue,
    DscError,
>)
    ensures
        no_expressions(v@) && no_nested_arrays(v@) ==> (r matches Ok(x) && x@ == v@),
        r matches Ok(x) ==> evaluated(v@, x@) && no_nested_arrays(v@),
        no_expressions(v@) && !no_nested_arrays(v@) ==> (r matches Err(e) && e
            matches DscError::Parser(m) && m@ == "Nested arrays not supported"@),
    decreases v,
{
    broadcast use group_value_axioms;

    match v {
        PropValue::Null => Ok(PropValue::Null),
        PropValue::Bool(b) => Ok(PropValue::Bool(*b)),
        PropValue::Int(i) => Ok(PropValue::Int(*i)),
        PropValue::Number(s) => Ok(PropValue::Number(s.clone())),
        PropValue::String(s) => {
            if is_bracketed(s) {
                match engine.evaluate(s, context) {
                    Ok(out) => Ok(PropValue::String(out)),
                    Err(e) => Err(e),
                }
            } else {
                Ok(PropValue::String(s.clone()))
            }
        },
        PropValue::Array(es) => {
            let mut out: Vec<PropValue> = Vec::new();
            let n = es.len();
            let mut i: usize = 0;
            while i < n
                invariant
                    0 <= i <= n,
                    out.len() == i,
                    (no_expressions(v@) && no_nested_arrays(v@)) ==> forall|j: int|
                        0 <= j < i ==> #[trigger] out[j]@ == es[j]@,
                    forall|j: int| 0 <= j < i ==> evaluated(#[trigger] es[j]@, out[j]@),
                    forall|j: int|
                        0 <= j < i ==> !((#[trigger] es[j]@) is Array) && no_nested_arrays(es[j]@),
                decreases n - i,
            {
                proof {
                    if no_expressions(v@) && no_nested_arrays(v@) {
                        assert(no_expressions(array_view(*es)[i as int]));
                        assert(no_nested_arrays(array_view(*es)[i as int]));
                        assert(!(array_view(*es)[i as int] is Array));
                    }
                    if no_expressions(v@) {
                        assert(no_expressions(v@->Array_0[i as int]));
                        assert(v@->Array_0[i as int] == es[i as int]@);
                    }
                }
                let e2 = match &es[i] {
                    PropValue::Array(_) => {
                        proof {
                            assert(array_view(*es)[i as int] is Array);
                        }
                        return Err(
                            DscError::Parser(String::from_str("Nested arrays not supported")),
                        );
                    },
                    other => match eval_value(engine, context, other) {
                        Ok(x) => x,
                        Err(e) => {
                            return Err(e);
                        },
                    },
                };
                out.push(e2);
                i += 1;
            }
            proof {
                if no_expressions(v@) && no_nested_arrays(v@) {
                    assert(array_view(out) =~= array_view(*es));
                }
                assert forall|j: int| 0 <= j < array_view(*es).len() implies evaluated(
                    #[trigger] array_view(*es)[j],
                    array_view(out)[j],
                ) && !(array_view(*es)[j] is Array) && no_nested_arrays(array_view(*es)[j]) by {
                    assert(array_view(*es)[j] == es[j]@);
                    assert(array_view(out)[j] == out[j]@);
                }
                assert(v@->Array_0 == array_view(*es));
                assert(no_nested_arrays(v@)) by {
                    assert forall|j: int| 0 <= j < v@->Array_0.len() implies !((
                    #[trigger] v@->Array_0[j]) is Array) && no_nested_arrays(v@->Array_0[j]) by {
                        assert(v@->Array_0[j] == array_view(*es)[j]);
                    }
                }
                assert(evaluated(v@, SpecValue::Array(array_view(out)))) by {
                    assert forall|j: int| 0 <= j < v@->Array_0.len() implies evaluated(
                        #[trigger] v@->Array_0[j],
                        array_view(out)[j],
                    ) by {
                        assert(v@->Array_0[j] == array_view(*es)[j]);
                    }
                }
            }
            Ok(PropValue::Array(out))
        },
        PropValue::Object(fs) => {
            let mut out: Vec<(String, PropValue)> = Vec::new();
            let n = fs.len();
            let mut i: usize = 0;
            while i < n
                invariant
                    0 <= i <= n,
                    out.len() == i,
                    forall|j: int| 0 <= j < i ==> #[trigger] out[j].0@ == fs[j].0@,
                    (no_expressions(v@) && no_nested_arrays(v@)) ==> forall|j: int|
                        0 <= j < i ==> #[trigger] out[j].1@ == fs[j].1@,
                    forall|j: int| 0 <= j < i ==> evaluated(#[trigger] fs[j].1@, out[j].1@),
                    forall|j: int| 0 <= j < i ==> no_nested_arrays(#[trigger] fs[j].1@),
                decreases n - i,
            {
                proof {
                    if no_expressions(v@) && no_nested_arrays(v@) {
                        assert(v@ == SpecValue::Object(object_view(*fs)));
                        assert(v@->Object_0 == object_view(*fs));
                        assert(no_expressions(v@->Object_0[i as int].1));
                        assert(no_nested_arrays(v@->Object_0[i as int].1));
                        assert(object_view(*fs)[i as int].1 == fs[i as int].1@);
                    }
                    if no_expressions(v@) {
                        assert(v@->Object_0 == object_view(*fs));
                        assert(no_expressions(v@->Object_0[i as int].1));
                        assert(object_view(*fs)[i as int].1 == fs[i as int].1@);
                    }
                }
                let v2 = match eval_value(engine, context, &fs[i].1) {
                    Ok(x) => x,
                    Err(e) => {
                        return Err(e);
                    },
                };
                out.push((fs[i].0.clone(), v2));
                i += 1;
            }
            proof {
                if no_expressions(v@) && no_nested_arrays(v@) {
                    assert(object_view(out) =~= object_view(*fs));
                }
                assert forall|j: int| 0 <= j < object_view(*fs).len() implies (#[trigger] object_view(
                    out,
                )[j]).0 == object_view(*fs)[j].0 && evaluated(
                    object_view(*fs)[j].1,
                    object_view(out)[j].1,
                ) && no_nested_arrays(object_view(*fs)[j].1) by {
                    assert(object_view(*fs)[j] == (fs[j].0@, fs[j].1@));
                    assert(object_view(out)[j] == (out[j].0@, out[j].1@));
                }
                assert(v@->Object_0 == object_view(*fs));
                assert(no_nested_arrays(v@)) by {
                    assert forall|j: int| 0 <= j < v@->Object_0.len() implies no_nested_arrays(
                        (#[trigger] v@->Object_0[j]).1,
                    ) by {
                        assert(v@->Object_0[j] == object_view(*fs)[j]);
                    }
                }
                assert(evaluated(v@, SpecValue::Object(object_view(out)))) by {
                    assert forall|j: int| 0 <= j < v@->Object_0.len() implies (#[trigger] object_view(
                        out,
                    )[j]).0 == v@->Object_0[j].0 && evaluated(
                        v@->Object_0[j].1,
                        object_view(out)[j].1,
                    ) by {
                        assert(v@->Object_0[j] == object_view(*fs)[j]);
                    }
                }
            }
            Ok(PropValue::Object(out))
        },
    }
}

/// Whether every value of a property bag is free of expressions and nested
/// sequences.
pub open spec fn props_plain(fs: Seq<(Seq<char>, SpecValue)>) -> bool {
    forall|i: int|
        0 <= i < fs.len() ==> no_expressions(#[trigger] fs[i].1) && no_nested_arrays(fs[i].1)
}

/// Evaluate a whole property bag in document order; the absence of one stays
/// absent. A bag without expressions or nested sequences comes back equal.
#[verifier::loop_isolation(false)]
pub fn invoke_property_expressions<E: ExpressionEngine>(
    engine: &mut E,
    context: &Context,
    properties: &Option<Vec<(String, PropValue)>>,
) -> (r: Result<Option<Vec<(String, PropValue)>>, DscError>)
    ensures
        match *properties {
            None => r matches Ok(o) && o is None,
            Some(ref fs) => {
                &&& props_plain(object_view(*fs)) ==> (r matches Ok(o) && o matches Some(fs2)
                    && object_view(fs2) == object_view(*fs))
                &&& r matches Ok(o) ==> (o matches Some(fs2) && fields_evaluated(
                    object_view(*fs),
                    object_view(fs2),
                ) && props_no_nested(object_view(*fs)))
                &&& (props_no_expressions(object_view(*fs)) && !props_no_nested(object_view(*fs)))
                    ==> (r matches Err(e) && e matches DscError::Parser(m) && m@
                        == "Nested arrays not supported"@)
            },
        },
{
    broadcast use group_value_axioms;

    let fs = match properties {
        None => {
            return Ok(None);
        },
        Some(fs) => fs,
    };
    let mut out: Vec<(String, PropValue)> = Vec::new();
    let n = fs.len();
    let mut i: usize = 0;
    while i < n
        invariant
            0 <= i <= n,
            out.len() == i,
            forall|j: int| 0 <= j < i ==> #[trigger] out[j].0@ == fs[j].0@,
            props_plain(object_view(*fs)) ==> forall|j: int|
                0 <= j < i ==> #[trigger] out[j].1@ == fs[j].1@,
            forall|j: int| 0 <= j < i ==> evaluated(#[trigger] fs[j].1@, out[j].1@),
            forall|j: int| 0 <= j < i ==> no_nested_arrays(#[trigger] fs[j].1@),
        decreases n - i,
    {
        proof {
            if props_plain(object_view(*fs)) {
                assert(no_expressions(object_view(*fs)[i as int].1));
                assert(no_nested_arrays(object_view(*fs)[i as int].1));
            }
            if props_no_expressions(object_view(*fs)) {
                assert(no_expressions(object_view(*fs)[i as int].1));
                assert(object_view(*fs)[i as int].1 == fs[i as int].1@);
            }
        }
        let v2 = match eval_value(engine, context, &fs[i].1) {
            Ok(x) => x,
            Err(e) => {
                return Err(e);
            },
        };
        out.push((fs[i].0.clone(), v2));
        i += 1;
    }
    proof {
        if props_plain(object_view(*fs)) {
            assert(object_view(out) =~= object_view(*fs));
        }
        assert forall|j: int| 0 <= j < object_view(*fs).len() implies (#[trigger] object_view(
            out,
        )[j]).0 == object_view(*fs)[j].0 && evaluated(
            object_view(*fs)[j].1,
            object_view(out)[j].1,
        ) && no_nested_arrays(object_view(*fs)[j].1) by {
            assert(object_view(*fs)[j] == (fs[j].0@, fs[j].1@));
            assert(object_view(out)[j] == (out[j].0@, out[j].1@));
        }
    }
    Ok(Some(out))
}

} // verus!
