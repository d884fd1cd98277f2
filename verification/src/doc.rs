//! The document model: typed configurations, resources and parameter
//! declarations, extracted from a parsed JSON-shaped value. Unknown top-level
//! fields are tolerated; unknown fields of a resource are preserved verbatim
//! in its property bag; field types are checked strictly.
use vstd::prelude::*;

use crate::context::assoc_lookup;
use crate::error::DscError;
use crate::value::{
    clone_properties, clone_value, group_value_axioms, object_view, str_is, SpecValue, PropValue,
};

verus! {

/// The declared type of a parameter.
#[derive(Clone, Copy, PartialEq, Eq, Structural, Debug)]
pub enum DataType {
    String,
    SecureString,
    Int,
    Bool,
    Array,
    Object,
    SecureObject,
}

/// A parameter declaration: a type and optional constraints.
pub struct ParameterDeclaration {
    pub parameter_type: DataType,
    pub default_value: Option<PropValue>,
    pub min_length: Option<i64>,
    pub max_length: Option<i64>,
    pub min_value: Option<i64>,
    pub max_value: Option<i64>,
    pub allowed_values: Option<Vec<PropValue>>,
}

/// One declarative unit of a configuration.
pub struct Resource {
    pub name: String,
    pub resource_type: String,
    pub properties: Option<Vec<(String, PropValue)>>,
    pub depends_on: Option<Vec<String>>,
}

/// The root document: named parameter declarations, ordered resources, and
/// an opaque metadata block.
pub struct Configuration {
    pub parameters: Option<Vec<(String, ParameterDeclaration)>>,
    pub resources: Vec<Resource>,
    pub metadata: Option<PropValue>,
}

/// Mathematical model of a parameter declaration.
pub struct SpecParameterDeclaration {
    pub parameter_type: DataType,
    pub default_value: Option<SpecValue>,
    pub min_length: Option<int>,
    pub max_length: Option<int>,
    pub min_value: Option<int>,
    pub max_value: Option<int>,
    pub allowed_values: Option<Seq<SpecValue>>,
}

/// Mathematical model of a resource.
#[verifier::ext_equal]
pub struct SpecResource {
    pub name: Seq<char>,
    pub resource_type: Seq<char>,
    pub properties: Option<Seq<(Seq<char>, SpecValue)>>,
    pub depends_on: Option<Seq<Seq<char>>>,
}

/// Mathematical model of a configuration.
pub struct SpecConfiguration {
    pub parameters: Option<Seq<(Seq<char>, SpecParameterDeclaration)>>,
    pub resources: Seq<SpecResource>,
    pub metadata: Option<SpecValue>,
}

pub open spec fn strings_view(v: Vec<String>) -> Seq<Seq<char>> {
    Seq::new(v.len() as nat, |i: int| v[i]@)
}

pub open spec fn values_view(v: Vec<PropValue>) -> Seq<SpecValue> {
    Seq::new(v.len() as nat, |i: int| v[i]@)
}

impl View for ParameterDeclaration {
    type V = SpecParameterDeclaration;

    open spec fn view(&self) -> SpecParameterDeclaration {
        SpecParameterDeclaration {
            parameter_type: self.parameter_type,
            default_value: match self.default_value {
                Some(ref d) => Some(d@),
                None => None,
            },
            min_length: match self.min_length {
                Some(n) => Some(n as int),
                None => None,
            },
            max_length: match self.max_length {
                Some(n) => Some(n as int),
                None => None,
            },
            min_value: match self.min_value {
                Some(n) => Some(n as int),
                None => None,
            },
            max_value: match self.max_value {
                Some(n) => Some(n as int),
                None => None,
            },
            allowed_values: match self.allowed_values {
                Some(ref vs) => Some(values_view(*vs)),
                None => None,
            },
        }
    }
}

impl View for Resource {
    type V = SpecResource;

    open spec fn view(&self) -> SpecResource {
        SpecResource {
            name: self.name@,
            resource_type: self.resource_type@,
            properties: match self.properties {
                Some(ref p) => Some(object_view(*p)),
                None => None,
            },
            depends_on: match self.depends_on {
                Some(ref d) => Some(strings_view(*d)),
                None => None,
            },
        }
    }
}

pub open spec fn params_view(ps: Vec<(String, ParameterDeclaration)>) -> Seq<
    (Seq<char>, SpecParameterDeclaration),
> {
    Seq::new(ps.len() as nat, |i: int| (ps[i].0@, ps[i].1@))
}

pub open spec fn resources_view(rs: Vec<Resource>) -> Seq<SpecResource> {
    Seq::new(rs.len() as nat, |i: int| rs[i]@)
}

impl View for Configuration {
    type V = SpecConfiguration;

    open spec fn view(&self) -> SpecConfiguration {
        SpecConfiguration {
            parameters: match self.parameters {
                Some(ref ps) => Some(params_view(*ps)),
                None => None,
            },
            resources: resources_view(self.resources),
            metadata: match self.metadata {
                Some(ref m) => Some(m@),
                None => None,
            },
        }
    }
}

/// The value a mapping-shaped model holds for a field name.
pub open spec fn field_of(j: SpecValue, k: Seq<char>) -> Option<SpecValue> {
    match j {
        SpecValue::Object(fs) => assoc_lookup(fs, k),
        _ => None,
    }
}

/// Look a field up in a property list; the last entry for the name wins.
#[verifier::loop_isolation(false)]
pub fn get_field<'a>(fs: &'a Vec<(String, PropValue)>, key: &str) -> (r: Option<&'a PropValue>)
    ensures
        match r {
            Some(v) => assoc_lookup(object_view(*fs), key@) == Some(v@),
            None => assoc_lookup(object_view(*fs), key@) is None,
        },
{
    broadcast use group_value_axioms;

    let ghost all = object_view(*fs);
    proof {
        assert(all.take(fs.len() as int) =~= all);
    }
    let mut i: usize = fs.len();
    while i > 0
        invariant
            0 <= i <= fs.len(),
            assoc_lookup(all, key@) == assoc_lookup(all.take(i as int), key@),
        decreases i,
    {
        i = i - 1;
        let hit = str_is(&fs[i].0, key);
        proof {
            assert(all.take(i as int + 1).last() == (fs[i as int].0@, fs[i as int].1@));
            assert(all.take(i as int + 1).drop_last() =~= all.take(i as int));
        }
        if hit {
            return Some(&fs[i].1);
        }
    }
    proof {
        assert(all.take(0) =~= Seq::<(Seq<char>, SpecValue)>::empty());
    }
    None
}

/// The declared type a type-name string denotes, if any.
pub open spec fn spec_data_type(s: Seq<char>) -> Option<DataType> {
    if s == "string"@ {
        Some(DataType::String)
    } else if s == "secureString"@ {
        Some(DataType::SecureString)
    } else if s == "int"@ {
        Some(DataType::Int)
    } else if s == "bool"@ {
        Some(DataType::Bool)
    } else if s == "array"@ {
        Some(DataType::Array)
    } else if s == "object"@ {
        Some(DataType::Object)
    } else if s == "secureObject"@ {
        Some(DataType::SecureObject)
    } else {
        None
    }
}

/// Parse a declared parameter type name.
pub fn parse_data_type(s: &String) -> (r: Result<DataType, DscError>)
    ensures
        r is Ok <==> spec_data_type(s@) is Some,
        r matches Ok(d) ==> spec_data_type(s@) == Some(d),
        r matches Err(e) ==> e is Validation,
{
    if str_is(s, "string") {
        Ok(DataType::String)
    } else if str_is(s, "secureString") {
        Ok(DataType::SecureString)
    } else if str_is(s, "int") {
        Ok(DataType::Int)
    } else if str_is(s, "bool") {
        Ok(DataType::Bool)
    } else if str_is(s, "array") {
        Ok(DataType::Array)
    } else if str_is(s, "object") {
        Ok(DataType::Object)
    } else if str_is(s, "secureObject") {
        Ok(DataType::SecureObject)
    } else {
        Err(DscError::Validation(String::from_str("unknown parameter type")))
    }
}

pub open spec fn opt_int_field_ok(j: SpecValue, k: Seq<char>) -> bool {
    match field_of(j, k) {
        None => true,
        Some(f) => f is Int,
    }
}

pub open spec fn opt_int_field(j: SpecValue, k: Seq<char>) -> Option<int> {
    match field_of(j, k) {
        Some(SpecValue::Int(i)) => Some(i),
        _ => None,
    }
}

/// Whether a model is a well-formed parameter declaration.
pub open spec fn decl_ok(j: SpecValue) -> bool {
    &&& j is Object
    &&& match field_of(j, "type"@) {
        Some(SpecValue::String(s)) => spec_data_type(s) is Some,
        _ => false,
    }
    &&& opt_int_field_ok(j, "minLength"@)
    &&& opt_int_field_ok(j, "maxLength"@)
    &&& opt_int_field_ok(j, "minValue"@)
    &&& opt_int_field_ok(j, "maxValue"@)
    &&& match field_of(j, "allowedValues"@) {
        None => true,
        Some(a) => a is Array,
    }
}

/// The declaration a well-formed model denotes.
pub open spec fn decl_of(j: SpecValue) -> SpecParameterDeclaration {
    SpecParameterDeclaration {
        parameter_type: match field_of(j, "type"@) {
            Some(SpecValue::String(s)) => match spec_data_type(s) {
                Some(d) => d,
                None => DataType::String,
            },
            _ => DataType::String,
        },
        default_value: field_of(j, "defaultValue"@),
        min_length: opt_int_field(j, "minLength"@),
        max_length: opt_int_field(j, "maxLength"@),
        min_value: opt_int_field(j, "minValue"@),
        max_value: opt_int_field(j, "maxValue"@),
        allowed_values: match field_of(j, "allowedValues"@) {
            Some(SpecValue::Array(es)) => Some(es),
            _ => None,
        },
    }
}

/// Read an optional integer constraint field.
fn get_opt_int_field(fs: &Vec<(String, PropValue)>, key: &str) -> (r: Result<Option<i64>, DscError>)
    ensures
        r is Ok <==> opt_int_field_ok(SpecValue::Object(object_view(*fs)), key@),
        r matches Ok(o) ==> match o {
            Some(n) => opt_int_field(SpecValue::Object(object_view(*fs)), key@) == Some(n as int),
            None => opt_int_field(SpecValue::Object(object_view(*fs)), key@) is None,
        },
        r matches Err(e) ==> e is Validation,
{
    match get_field(fs, key) {
        None => Ok(None),
        Some(v) => match v {
            PropValue::Int(n) => Ok(Some(*n)),
            _ => Err(DscError::Validation(String::from_str("constraint must be an integer"))),
        },
    }
}

/// Extract a parameter declaration, checking each field's type strictly.
pub fn extract_param_decl(v: &PropValue) -> (r: Result<ParameterDeclaration, DscError>)
    ensures
        r is Ok <==> decl_ok(v@),
        r matches Ok(d) ==> d@ == decl_of(v@),
        r matches Err(e) ==> e is Validation,
{
    broadcast use group_value_axioms;

    let fs = match v {
        PropValue::Object(fs) => fs,
        _ => {
            return Err(
                DscError::Validation(String::from_str("parameter declaration must be an object")),
            );
        },
    };
    let parameter_type = match get_field(fs, "type") {
        Some(PropValue::String(s)) => match parse_data_type(s) {
            Ok(d) => d,
            Err(e) => {
                return Err(e);
            },
        },
        _ => {
            return Err(
                DscError::Validation(
                    String::from_str("parameter declaration needs a type name string"),
                ),
            );
        },
    };
    let default_value = match get_field(fs, "defaultValue") {
        Some(d) => Some(clone_value(d)),
        None => None,
    };
    let min_length = match get_opt_int_field(fs, "minLength") {
        Ok(o) => o,
        Err(e) => {
            return Err(e);
        },
    };
    let max_length = match get_opt_int_field(fs, "maxLength") {
        Ok(o) => o,
        Err(e) => {
            return Err(e);
        },
    };
    let min_value = match get_opt_int_field(fs, "minValue") {
        Ok(o) => o,
        Err(e) => {
            return Err(e);
        },
    };
    let max_value = match get_opt_int_field(fs, "maxValue") {
        Ok(o) => o,
        Err(e) => {
            return Err(e);
        },
    };
    let allowed_values = match get_field(fs, "allowedValues") {
        Some(PropValue::Array(es)) => {
            let mut out: Vec<PropValue> = Vec::new();
            let n = es.len();
            let mut i: usize = 0;
            #[verifier::loop_isolation(false)]
            while i < n
                invariant
                    0 <= i <= n,
                    out.len() == i,
                    forall|j: int| 0 <= j < i ==> #[trigger] out[j]@ == es[j]@,
                decreases n - i,
            {
                out.push(clone_value(&es[i]));
                i += 1;
            }
            proof {
                assert(values_view(out) =~= crate::value::array_view(*es));
            }
            Some(out)
        },
        Some(_) => {
            return Err(DscError::Validation(String::from_str("allowedValues must be an array")));
        },
        None => None,
    };
    let d = ParameterDeclaration {
        parameter_type,
        default_value,
        min_length,
        max_length,
        min_value,
        max_value,
        allowed_values,
    };
    Ok(d)
}

/// The resource fields the model understands; anything else is data.
pub open spec fn known_resource_key(k: Seq<char>) -> bool {
    k == "name"@ || k == "type"@ || k == "properties"@ || k == "dependsOn"@
}

/// The unrecognized fields of a resource object, in document order.
pub open spec fn unknown_fields(fs: Seq<(Seq<char>, SpecValue)>) -> Seq<(Seq<char>, SpecValue)>
    decreases fs.len(),
{
    if fs.len() == 0 {
        Seq::empty()
    } else if known_resource_key(fs.last().0) {
        unknown_fields(fs.drop_last())
    } else {
        unknown_fields(fs.drop_last()).push(fs.last())
    }
}

/// The property bag a resource model denotes: the declared properties first,
/// then every unrecognized field, preserved verbatim.
pub open spec fn res_props_of(j: SpecValue) -> Option<Seq<(Seq<char>, SpecValue)>> {
    let extras = unknown_fields(j->Object_0);
    let base = match field_of(j, "properties"@) {
        Some(SpecValue::Object(p)) => p,
        _ => Seq::empty(),
    };
    if field_of(j, "properties"@) is Some || extras.len() > 0 {
        Some(base + extras)
    } else {
        None
    }
}

/// Whether a model is a well-formed resource.
pub open spec fn res_ok(j: SpecValue) -> bool {
    &&& j is Object
    &&& field_of(j, "name"@) matches Some(n) && n is String
    &&& field_of(j, "type"@) matches Some(t) && t is String
    &&& match field_of(j, "properties"@) {
        None => true,
        Some(p) => p is Object,
    }
    &&& match field_of(j, "dependsOn"@) {
        None => true,
        Some(d) => d matches SpecValue::Array(es) && forall|i: int|
            0 <= i < es.len() ==> #[trigger] es[i] is String,
    }
}

/// The resource a well-formed model denotes.
pub open spec fn res_of(j: SpecValue) -> SpecResource {
    SpecResource {
        name: match field_of(j, "name"@) {
            Some(SpecValue::String(s)) => s,
            _ => Seq::empty(),
        },
        resource_type: match field_of(j, "type"@) {
            Some(SpecValue::String(s)) => s,
            _ => Seq::empty(),
        },
        properties: res_props_of(j),
        depends_on: match field_of(j, "dependsOn"@) {
            Some(SpecValue::Array(es)) => Some(
                Seq::new(es.len(), |i: int| match es[i] {
                    SpecValue::String(s) => s,
                    _ => Seq::empty(),
                }),
            ),
            _ => None,
        },
    }
}

/// Extract one resource from its model, preserving unknown fields in the
/// property bag.
#[verifier::loop_isolation(false)]
pub fn extract_resource(v: &PropValue) -> (r: Result<Resource, DscError>)
    ensures
        r is Ok <==> res_ok(v@),
        r matches Ok(res) ==> res@ == res_of(v@),
        r matches Err(e) ==> e is Validation,
{
    broadcast use group_value_axioms;

    let fs = match v {
        PropValue::Object(fs) => fs,
        _ => {
            return Err(DscError::Validation(String::from_str("resource must be an object")));
        },
    };
    let name = match get_field(fs, "name") {
        Some(PropValue::String(s)) => s.clone(),
        _ => {
            return Err(DscError::Validation(String::from_str("resource needs a name string")));
        },
    };
    let resource_type = match get_field(fs, "type") {
        Some(PropValue::String(s)) => s.clone(),
        _ => {
            return Err(DscError::Validation(String::from_str("resource needs a type string")));
        },
    };
    let mut props: Vec<(String, PropValue)>;
    let has_props_field: bool;
    match get_field(fs, "properties") {
        Some(PropValue::Object(p)) => {
            props = clone_properties(p);
            has_props_field = true;
        },
        Some(_) => {
            return Err(
                DscError::Validation(String::from_str("resource properties must be an object")),
            );
        },
        None => {
            props = Vec::new();
            has_props_field = false;
        },
    }
    let ghost base = object_view(props);
    let mut had_extras = false;
    let n = fs.len();
    let mut i: usize = 0;
    while i < n
        invariant
            0 <= i <= n,
            object_view(props) =~= base + unknown_fields(object_view(*fs).take(i as int)),
            had_extras <==> unknown_fields(object_view(*fs).take(i as int)).len() > 0,
        decreases n - i,
    {
        let known = str_is(&fs[i].0, "name") || str_is(&fs[i].0, "type") || str_is(
            &fs[i].0,
            "properties",
        ) || str_is(&fs[i].0, "dependsOn");
        proof {
            assert(object_view(*fs).take(i as int + 1).last() == (fs[i as int].0@,
            fs[i as int].1@));
            assert(object_view(*fs).take(i as int + 1).drop_last() =~= object_view(*fs).take(
                i as int,
            ));
        }
        if !known {
            let ghost before = object_view(props);
            props.push((fs[i].0.clone(), clone_value(&fs[i].1)));
            had_extras = true;
            proof {
                assert(object_view(props).drop_last() =~= before);
                assert(object_view(props) =~= before.push((fs[i as int].0@, fs[i as int].1@)));
            }
        }
        i += 1;
    }
    proof {
        assert(object_view(*fs).take(n as int) =~= object_view(*fs));
    }
    let properties = if has_props_field || had_extras {
        Some(props)
    } else {
        None
    };
    let depends_on = match get_field(fs, "dependsOn") {
        Some(PropValue::Array(es)) => {
            let mut out: Vec<String> = Vec::new();
            let m = es.len();
            let mut k: usize = 0;
            while k < m
                invariant
                    0 <= k <= m,
                    out.len() == k,
                    forall|j: int| 0 <= j < k ==> #[trigger] es[j]@ is String,
                    forall|j: int| 0 <= j < k ==> #[trigger] out[j]@ == es[j]@->String_0,
                decreases m - k,
            {
                match &es[k] {
                    PropValue::String(s) => {
                        out.push(s.clone());
                    },
                    _ => {
                        proof {
                            assert(crate::value::array_view(*es)[k as int] == es[k as int]@);
                            assert(!(crate::value::array_view(*es)[k as int] is String));
                        }
                        return Err(
                            DscError::Validation(
                                String::from_str("dependsOn entries must be resource name strings"),
                            ),
                        );
                    },
                }
                k += 1;
            }
            proof {
                assert(forall|j: int|
                    0 <= j < es.len() ==> #[trigger] crate::value::array_view(*es)[j] is String);
            }
            Some(out)
        },
        Some(_) => {
            return Err(
                DscError::Validation(String::from_str("dependsOn must be a sequence of names")),
            );
        },
        None => None,
    };
    let res = Resource { name, resource_type, properties, depends_on };
    proof {
        match res_of(v@).properties {
            Some(ps) => {
                assert(res@.properties matches Some(actual) && actual =~= ps);
            },
            None => {
            },
        }
        match res_of(v@).depends_on {
            Some(ds) => {
                assert(res@.depends_on matches Some(actual) && actual =~= ds);
            },
            None => {
            },
        }
    }
    Ok(res)
}

/// Whether a model is a well-formed configuration document.
pub open spec fn config_ok(j: SpecValue) -> bool {
    &&& j is Object
    &&& field_of(j, "resources"@) matches Some(r) && r matches SpecValue::Array(rs) && forall|
        i: int,
    |
        0 <= i < rs.len() ==> #[trigger] res_ok(rs[i])
    &&& match field_of(j, "parameters"@) {
        None => true,
        Some(p) => p matches SpecValue::Object(ps) && forall|i: int|
            0 <= i < ps.len() ==> #[trigger] decl_ok(ps[i].1),
    }
}

/// The configuration a well-formed model denotes.
pub open spec fn config_of(j: SpecValue) -> SpecConfiguration {
    SpecConfiguration {
        parameters: match field_of(j, "parameters"@) {
            Some(SpecValue::Object(ps)) => Some(
                Seq::new(ps.len(), |i: int| (ps[i].0, decl_of(ps[i].1))),
            ),
            _ => None,
        },
        resources: match field_of(j, "resources"@) {
            Some(SpecValue::Array(rs)) => Seq::new(rs.len(), |i: int| res_of(rs[i])),
            _ => Seq::empty(),
        },
        metadata: field_of(j, "metadata"@),
    }
}

/// Extract a whole configuration document from its model.
#[verifier::loop_isolation(false)]
pub fn extract_config(v: &PropValue) -> (r: Result<Configuration, DscError>)
    ensures
        r is Ok <==> config_ok(v@),
        r matches Ok(c) ==> c@ == config_of(v@),
        r matches Err(e) ==> e is Validation,
{
    broadcast use group_value_axioms;

    let fs = match v {
        PropValue::Object(fs) => fs,
        _ => {
            return Err(DscError::Validation(String::from_str("configuration must be an object")));
        },
    };
    let resources = match get_field(fs, "resources") {
        Some(PropValue::Array(rs)) => {
            let mut out: Vec<Resource> = Vec::new();
            let n = rs.len();
            let mut i: usize = 0;
            while i < n
                invariant
                    0 <= i <= n,
                    out.len() == i,
                    forall|j: int| 0 <= j < i ==> #[trigger] res_ok(rs[j]@),
                    forall|j: int| 0 <= j < i ==> #[trigger] out[j]@ == res_of(rs[j]@),
                decreases n - i,
            {
                match extract_resource(&rs[i]) {
                    Ok(res) => {
                        out.push(res);
                    },
                    Err(e) => {
                        proof {
                            assert(crate::value::array_view(*rs)[i as int] == rs[i as int]@);
                            assert(!res_ok(crate::value::array_view(*rs)[i as int]));
                        }
                        return Err(e);
                    },
                }
                i += 1;
            }
            proof {
                let rsv = crate::value::array_view(*rs);
                assert(forall|j: int| 0 <= j < rsv.len() ==> #[trigger] res_ok(rsv[j]));
                assert(resources_view(out) =~= Seq::new(rsv.len(), |i: int| res_of(rsv[i])));
            }
            out
        },
        Some(_) => {
            return Err(
                DscError::Validation(String::from_str("resources must be a sequence of resources")),
            );
        },
        None => {
            return Err(DscError::Validation(String::from_str("configuration needs resources")));
        },
    };
    let parameters = match get_field(fs, "parameters") {
        Some(PropValue::Object(ps)) => {
            let mut out: Vec<(String, ParameterDeclaration)> = Vec::new();
            let n = ps.len();
            let mut i: usize = 0;
            while i < n
                invariant
                    0 <= i <= n,
                    out.len() == i,
                    forall|j: int| 0 <= j < i ==> #[trigger] decl_ok(ps[j].1@),
                    forall|j: int| 0 <= j < i ==> #[trigger] out[j].0@ == ps[j].0@,
                    forall|j: int| 0 <= j < i ==> #[trigger] out[j].1@ == decl_of(ps[j].1@),
                decreases n - i,
            {
                match extract_param_decl(&ps[i].1) {
                    Ok(d) => {
                        out.push((ps[i].0.clone(), d));
                    },
                    Err(e) => {
                        proof {
                            assert(object_view(*ps)[i as int] == (ps[i as int].0@, ps[i as int].1@));
                            assert(!decl_ok(object_view(*ps)[i as int].1));
                        }
                        return Err(e);
                    },
                }
                i += 1;
            }
            proof {
                let psv = object_view(*ps);
                assert(forall|j: int| 0 <= j < psv.len() ==> #[trigger] decl_ok(psv[j].1));
                assert(params_view(out) =~= Seq::new(
                    psv.len(),
                    |i: int| (psv[i].0, decl_of(psv[i].1)),
                ));
            }
            Some(out)
        },
        Some(_) => {
            return Err(
                DscError::Validation(String::from_str("parameters must be a set of declarations")),
            );
        },
        None => None,
    };
    let metadata = match get_field(fs, "metadata") {
        Some(m) => Some(clone_value(m)),
        None => None,
    };
    let c = Configuration { parameters, resources, metadata };
    proof {
        assert(c@.resources =~= config_of(v@).resources);
        match config_of(v@).parameters {
            Some(ps) => {
                assert(c@.parameters matches Some(actual) && actual =~= ps);
            },
            None => {
            },
        }
    }
    Ok(c)
}

} // verus!
