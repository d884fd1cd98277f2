//! Validation of a parameter value against its declared typed constraints:
//! length bounds, an allowed-value list, numeric limits, and the declared
//! type's runtime shape.
use vstd::prelude::*;

use crate::doc::{DataType, ParameterDeclaration, SpecParameterDeclaration};
use crate::error::DscError;
use crate::doc::values_view;
use crate::value::{deep_eq, group_value_axioms, SpecValue, PropValue};

verus! {

/// The message begins `Parameter '<name>'`: every constraint failure names
/// the offending parameter.
pub open spec fn message_names(m: Seq<char>, name: Seq<char>) -> bool {
    let pre = "Parameter '"@ + name;
    m.len() >= pre.len() && m.take(pre.len() as int) == pre
}

/// The length a value is measured by: character count for strings, element
/// count for sequences; no other shape has a length.
pub open spec fn value_length(v: SpecValue) -> Option<int> {
    match v {
        SpecValue::String(s) => Some(s.len() as int),
        SpecValue::Array(es) => Some(es.len() as int),
        _ => None,
    }
}

pub open spec fn length_check_applies(d: SpecParameterDeclaration) -> bool {
    d.min_length is Some || d.max_length is Some
}

/// The length constraint holds: the value has a length and it lies within
/// the declared inclusive bounds.
pub open spec fn length_check_passes(d: SpecParameterDeclaration, v: SpecValue) -> bool {
    match value_length(v) {
        Some(n) => (d.min_length matches Some(m) ==> n >= m) && (d.max_length matches Some(m)
            ==> n <= m),
        None => false,
    }
}

/// A validation error whose message names the parameter and states a cause.
pub(crate) fn named_validation_error(name: &String, cause: &str) -> (r: DscError)
    ensures
        r matches DscError::Validation(m) && message_names(m@, name@),
{
    let mut m = String::from_str("Parameter '");
    m.append(name.as_str());
    m.append(cause);
    proof {
        assert(m@.take(("Parameter '"@ + name@).len() as int) =~= "Parameter '"@ + name@);
    }
    DscError::Validation(m)
}

fn ge_i64(n: usize, m: i64) -> (r: bool)
    ensures
        r == (n as int >= m as int),
{
    if m <= 0 {
        true
    } else {
        (n as u64) >= (m as u64)
    }
}

fn le_i64(n: usize, m: i64) -> (r: bool)
    ensures
        r == (n as int <= m as int),
{
    if m < 0 {
        false
    } else {
        (n as u64) <= (m as u64)
    }
}

/// Check the declared length bounds, where any are declared; a value without
/// a length fails the check outright.
pub fn check_length(name: &String, value: &PropValue, constraint: &ParameterDeclaration) -> (r: Result<
    (),
    DscError,
>)
    ensures
        r is Ok <==> (!length_check_applies(constraint@) || length_check_passes(
            constraint@,
            value@,
        )),
        r matches Err(e) ==> (e matches DscError::Validation(m) && message_names(m@, name@)),
{
    broadcast use group_value_axioms;

    if constraint.min_length.is_none() && constraint.max_length.is_none() {
        return Ok(());
    }
    let n: usize = match value {
        PropValue::String(s) => s.as_str().unicode_len(),
        PropValue::Array(es) => es.len(),
        _ => {
            return Err(named_validation_error(name, "' length constraints apply only to strings and sequences"));
        },
    };
    if let Some(min) = constraint.min_length {
        if !ge_i64(n, min) {
            return Err(named_validation_error(name, "' is shorter than its declared minimum length"));
        }
    }
    if let Some(max) = constraint.max_length {
        if !le_i64(n, max) {
            return Err(named_validation_error(name, "' is longer than its declared maximum length"));
        }
    }
    Ok(())
}

/// The allowed-values constraint holds: no list is declared, or the value is
/// deep-equal to some listed element.
pub open spec fn allowed_check_passes(d: SpecParameterDeclaration, v: SpecValue) -> bool {
    match d.allowed_values {
        None => true,
        Some(es) => exists|i: int| 0 <= i < es.len() && #[trigger] es[i] == v,
    }
}

/// Check the declared allowed-value list, where one is declared.
#[verifier::loop_isolation(false)]
pub fn check_allowed_values(
    name: &String,
    value: &PropValue,
    constraint: &ParameterDeclaration,
) -> (r: Result<(), DscError>)
    ensures
        r is Ok <==> allowed_check_passes(constraint@, value@),
        r matches Err(e) ==> (e matches DscError::Validation(m) && message_names(m@, name@)),
{
    broadcast use group_value_axioms;

    let es = match &constraint.allowed_values {
        Some(es) => es,
        None => {
            return Ok(());
        },
    };
    let n = es.len();
    let mut i: usize = 0;
    while i < n
        invariant
            0 <= i <= n,
            forall|j: int| 0 <= j < i ==> #[trigger] es[j]@ != value@,
        decreases n - i,
    {
        if deep_eq(&es[i], value) {
            proof {
                let es2 = constraint@.allowed_values->Some_0;
                assert(es2 == values_view(*es));
                assert(es2[i as int] == value@);
            }
            return Ok(());
        }
        i += 1;
    }
    proof {
        let es2 = constraint@.allowed_values->Some_0;
        assert(es2 == values_view(*es));
        assert(forall|j: int| 0 <= j < es2.len() ==> #[trigger] es2[j] != value@);
    }
    Err(named_validation_error(name, "' is not one of the allowed values"))
}

pub open spec fn number_check_applies(d: SpecParameterDeclaration) -> bool {
    d.min_value is Some || d.max_value is Some
}

/// The numeric limits hold: the value is an integer within the declared
/// inclusive bounds; limits never apply to any other shape.
pub open spec fn number_check_passes(d: SpecParameterDeclaration, v: SpecValue) -> bool {
    match v {
        SpecValue::Int(n) => (d.min_value matches Some(m) ==> n >= m) && (d.max_value
            matches Some(m) ==> n <= m),
        _ => false,
    }
}

/// Check the declared numeric limits, where any are declared; they apply
/// only to integer values.
pub fn check_number_limits(
    name: &String,
    value: &PropValue,
    constraint: &ParameterDeclaration,
) -> (r: Result<(), DscError>)
    ensures
        r is Ok <==> (!number_check_applies(constraint@) || number_check_passes(
            constraint@,
            value@,
        )),
        r matches Err(e) ==> (e matches DscError::Validation(m) && message_names(m@, name@)),
{
    if constraint.min_value.is_none() && constraint.max_value.is_none() {
        return Ok(());
    }
    let n: i64 = match value {
        PropValue::Int(n) => *n,
        _ => {
            return Err(named_validation_error(name, "' numeric limits apply only to integers"));
        },
    };
    if let Some(min) = constraint.min_value {
        if n < min {
            return Err(named_validation_error(name, "' is below its declared minimum value"));
        }
    }
    if let Some(max) = constraint.max_value {
        if n > max {
            return Err(named_validation_error(name, "' is above its declared maximum value"));
        }
    }
    Ok(())
}

/// The declared type's runtime shape; `secure` variants validate exactly as
/// their plain counterparts.
pub open spec fn type_matches(t: DataType, v: SpecValue) -> bool {
    match t {
        DataType::String => v is String,
        DataType::SecureString => v is String,
        DataType::Int => v is Int,
        DataType::Bool => v is Bool,
        DataType::Array => v is Array,
        DataType::Object => v is Object,
        DataType::SecureObject => v is Object,
    }
}

/// Enforce the declared type's runtime shape.
pub fn check_type(name: &String, value: &PropValue, constraint: &ParameterDeclaration) -> (r: Result<
    (),
    DscError,
>)
    ensures
        r is Ok <==> type_matches(constraint@.parameter_type, value@),
        r matches Err(e) ==> (e matches DscError::Validation(m) && message_names(m@, name@)),
{
    broadcast use group_value_axioms;

    let ok = match constraint.parameter_type {
        DataType::String => matches!(value, PropValue::String(_)),
        DataType::SecureString => matches!(value, PropValue::String(_)),
        DataType::Int => matches!(value, PropValue::Int(_)),
        DataType::Bool => matches!(value, PropValue::Bool(_)),
        DataType::Array => matches!(value, PropValue::Array(_)),
        DataType::Object => matches!(value, PropValue::Object(_)),
        DataType::SecureObject => matches!(value, PropValue::Object(_)),
    };
    if ok {
        Ok(())
    } else {
        Err(named_validation_error(name, "' does not match its declared type"))
    }
}

/// Every constraint of a declaration holds of a value, the declared type's
/// shape included.
pub open spec fn parameter_value_ok(d: SpecParameterDeclaration, v: SpecValue) -> bool {
    &&& !length_check_applies(d) || length_check_passes(d, v)
    &&& allowed_check_passes(d, v)
    &&& !number_check_applies(d) || number_check_passes(d, v)
    &&& type_matches(d.parameter_type, v)
}

/// Run every constraint check of a declaration over a value, in order:
/// length, allowed values, numeric limits, then the declared type.
pub fn check_parameter(name: &String, value: &PropValue, constraint: &ParameterDeclaration) -> (r:
    Result<(), DscError>)
    ensures
        r is Ok <==> parameter_value_ok(constraint@, value@),
        r matches Err(e) ==> (e matches DscError::Validation(m) && message_names(m@, name@)),
{
    match check_length(name, value, constraint) {
        Ok(_) => {
        },
        Err(e) => {
            return Err(e);
        },
    }
    match check_allowed_values(name, value, constraint) {
        Ok(_) => {
        },
        Err(e) => {
            return Err(e);
        },
    }
    match check_number_limits(name, value, constraint) {
        Ok(_) => {
        },
        Err(e) => {
            return Err(e);
        },
    }
    check_type(name, value, constraint)
}

} // verus!
