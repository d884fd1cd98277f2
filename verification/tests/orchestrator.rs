use dsc_core::configure::{Configurator, ErrorAction};
use dsc_core::context::Context;
use dsc_core::engine::{ExpressionEngine, ProviderHost};
use dsc_core::error::DscError;
use dsc_core::value::{clone_value, deep_eq, PropValue};
use dsc_core::walker::{escape_property_values, invoke_property_expressions};

fn ref_name(s: &str) -> Option<String> {
    s.strip_prefix("[reference('")?.strip_suffix("')]").map(|x| x.to_string())
}

/// A small expression engine: `[reference('<name>')]` reads the named
/// resource's result out of the context; any other statement echoes itself.
struct RefEngine;

impl ExpressionEngine for RefEngine {
    fn evaluate(&mut self, statement: &String, context: &Context) -> Result<String, DscError> {
        match ref_name(statement) {
            Some(name) => match context.get_resource_result(&name) {
                Some(PropValue::String(s)) => Ok(s.clone()),
                Some(_) => Ok(String::from("non-string result")),
                None => Err(DscError::Expression(String::from("unknown reference"))),
            },
            None => Ok(statement.clone()),
        }
    }

    fn references(&mut self, statement: &String) -> Result<Vec<String>, DscError> {
        Ok(match ref_name(statement) {
            Some(n) => vec![n],
            None => vec![],
        })
    }
}

/// A provider host that knows every type, answers each call with a fresh
/// string payload, and records what it was handed.
struct Host {
    calls: usize,
    filters: Vec<(String, Option<Vec<(String, PropValue)>>)>,
    export_instances: Vec<PropValue>,
}

fn clone_props(p: &Option<Vec<(String, PropValue)>>) -> Option<Vec<(String, PropValue)>> {
    p.as_ref().map(|fs| fs.iter().map(|(k, v)| (k.clone(), clone_value(v))).collect())
}

impl Host {
    fn new() -> Host {
        Host { calls: 0, filters: Vec::new(), export_instances: Vec::new() }
    }

    fn answer(&mut self, t: &String, p: &Option<Vec<(String, PropValue)>>) -> PropValue {
        self.filters.push((t.clone(), clone_props(p)));
        let payload = PropValue::String(format!("r{}", self.calls));
        self.calls += 1;
        payload
    }
}

impl ProviderHost for Host {
    fn discover(&mut self, _resource_types: &Vec<String>) {}

    fn find(&mut self, _resource_type: &String) -> bool {
        true
    }

    fn get(
        &mut self,
        t: &String,
        filter: &Option<Vec<(String, PropValue)>>,
    ) -> Result<PropValue, DscError> {
        Ok(self.answer(t, filter))
    }

    fn set(
        &mut self,
        t: &String,
        desired: &Option<Vec<(String, PropValue)>>,
        _skip_test: bool,
    ) -> Result<PropValue, DscError> {
        Ok(self.answer(t, desired))
    }

    fn test(
        &mut self,
        t: &String,
        expected: &Option<Vec<(String, PropValue)>>,
    ) -> Result<PropValue, DscError> {
        Ok(self.answer(t, expected))
    }

    fn export(
        &mut self,
        t: &String,
        input: &Option<Vec<(String, PropValue)>>,
    ) -> Result<Vec<PropValue>, DscError> {
        self.filters.push((t.clone(), clone_props(input)));
        Ok(self.export_instances.iter().map(clone_value).collect())
    }
}

fn result_names(results: &Vec<dsc_core::configure::ResourceOpResult>) -> Vec<String> {
    results.iter().map(|r| r.name.clone()).collect()
}

fn s(x: &str) -> String {
    String::from(x)
}

fn obj(fields: Vec<(&str, PropValue)>) -> PropValue {
    PropValue::Object(fields.into_iter().map(|(k, v)| (s(k), v)).collect())
}

fn params_input(fields: Vec<(&str, PropValue)>) -> PropValue {
    obj(vec![("parameters", obj(fields))])
}

#[test]
fn order_via_explicit_depends_on() {
    let config = r#"{ "resources": [
        { "name": "A", "type": "T/T", "dependsOn": ["B"] },
        { "name": "B", "type": "T/T" },
        { "name": "C", "type": "T/T", "dependsOn": ["A", "B"] }
    ]}"#;
    let mut c = Configurator::new(config, Host::new(), RefEngine);
    let r = c.invoke_get(ErrorAction::Stop).unwrap();
    assert_eq!(result_names(&r.results), vec![s("B"), s("A"), s("C")]);
}

#[test]
fn order_via_implicit_reference() {
    let config = r#"{ "resources": [
        { "name": "X", "type": "T/T", "properties": { "p": "[reference('Y')]" } },
        { "name": "Y", "type": "T/T", "properties": { "q": "literal" } }
    ]}"#;
    let mut c = Configurator::new(config, Host::new(), RefEngine);
    let r = c.invoke_get(ErrorAction::Stop).unwrap();
    assert_eq!(result_names(&r.results), vec![s("Y"), s("X")]);
    // X's provider filter holds Y's payload: the expression was evaluated
    // against a context already carrying Y's result.
    let host = c.into_parts().0;
    let xf = host.filters[1].1.as_ref().unwrap();
    assert_eq!(xf.len(), 1);
    assert_eq!(xf[0].0, s("p"));
    assert!(deep_eq(&xf[0].1, &PropValue::String(s("r0"))));
}

#[test]
fn escape_round_trip() {
    let props = Some(vec![
        (s("cmd"), PropValue::String(s("[echo hello]"))),
        (s("list"), PropValue::Array(vec![PropValue::String(s("[x]")), PropValue::String(s("y"))])),
    ]);
    let escaped = escape_property_values(&props).unwrap().unwrap();
    let expected = vec![
        (s("cmd"), PropValue::String(s("[[echo hello]"))),
        (
            s("list"),
            PropValue::Array(vec![PropValue::String(s("[[x]")), PropValue::String(s("y"))]),
        ),
    ];
    assert!(deep_eq(&PropValue::Object(escaped), &PropValue::Object(expected)));
}

#[test]
fn escape_adds_one_bracket_each_time() {
    let props = Some(vec![(s("cmd"), PropValue::String(s("[echo]")))]);
    let once = escape_property_values(&props).unwrap();
    let twice = escape_property_values(&once).unwrap().unwrap();
    let once = once.unwrap();
    assert!(deep_eq(&once[0].1, &PropValue::String(s("[[echo]"))));
    assert!(deep_eq(&twice[0].1, &PropValue::String(s("[[[echo]"))));
    assert!(!deep_eq(&once[0].1, &twice[0].1));
}

fn plain_props() -> Option<Vec<(String, PropValue)>> {
    Some(vec![
        (s("a"), PropValue::String(s("plain"))),
        (s("b"), PropValue::Int(3)),
        (s("c"), obj(vec![("inner", PropValue::Bool(true))])),
    ])
}

#[test]
fn both_walker_modes_are_identity_without_brackets() {
    let props = plain_props();
    let escaped = escape_property_values(&props).unwrap().unwrap();
    let mut engine = RefEngine;
    let context = Context::new();
    let evaluated = invoke_property_expressions(&mut engine, &context, &props).unwrap().unwrap();
    let original = props.unwrap();
    assert!(deep_eq(&PropValue::Object(escaped), &PropValue::Object(plain_props().unwrap())));
    assert!(deep_eq(&PropValue::Object(evaluated), &PropValue::Object(original)));
}

#[test]
fn nested_arrays_are_a_parse_error() {
    let props = Some(vec![(
        s("a"),
        PropValue::Array(vec![PropValue::Array(vec![PropValue::Int(1)])]),
    )]);
    match escape_property_values(&props) {
        Err(DscError::Parser(m)) => assert_eq!(m, s("Nested arrays not supported")),
        _ => panic!("expected a parser error"),
    }
}

#[test]
fn parameter_numeric_limit_failure() {
    let config = r#"{ "parameters": { "p": { "type": "int", "minValue": 1, "maxValue": 10 } },
                     "resources": [] }"#;
    let mut c = Configurator::new(config, Host::new(), RefEngine);
    match c.set_parameters(&Some(params_input(vec![("p", PropValue::Int(11))]))) {
        Err(DscError::Validation(m)) => assert!(m.contains("'p'")),
        _ => panic!("expected a validation error"),
    }
    assert!(c.context().get_parameter(&s("p")).is_none());
}

#[test]
fn parameter_allowed_values() {
    let config = r#"{ "parameters": { "mode": { "type": "string", "allowedValues": ["a", "b"] } },
                     "resources": [] }"#;
    let mut c = Configurator::new(config, Host::new(), RefEngine);
    match c.set_parameters(&Some(params_input(vec![("mode", PropValue::String(s("c")))]))) {
        Err(DscError::Validation(m)) => assert!(m.contains("'mode'")),
        _ => panic!("expected a validation error"),
    }
    c.set_parameters(&Some(params_input(vec![("mode", PropValue::String(s("b")))]))).unwrap();
    match c.context().get_parameter(&s("mode")) {
        Some(PropValue::String(v)) => assert_eq!(*v, s("b")),
        _ => panic!("mode must be bound to b"),
    }
}

#[test]
fn parameter_type_mismatches() {
    let config = r#"{ "parameters": {
        "a": { "type": "string" }, "b": { "type": "secureString" },
        "c": { "type": "int" }, "d": { "type": "bool" },
        "e": { "type": "array" }, "f": { "type": "object" },
        "g": { "type": "secureObject" } }, "resources": [] }"#;
    let cases: Vec<(&str, PropValue)> = vec![
        ("a", PropValue::Int(1)),
        ("b", PropValue::Bool(true)),
        ("c", PropValue::String(s("x"))),
        ("d", PropValue::Int(0)),
        ("e", obj(vec![])),
        ("f", PropValue::Array(vec![])),
        ("g", PropValue::String(s("x"))),
    ];
    for (name, value) in cases {
        let mut c = Configurator::new(config, Host::new(), RefEngine);
        match c.set_parameters(&Some(params_input(vec![(name, value)]))) {
            Err(DscError::Validation(m)) => {
                assert!(m.contains(format!("'{}'", name).as_str()));
                assert!(m.contains("does not match its declared type"));
            },
            _ => panic!("expected a validation error for {}", name),
        }
    }
}

#[test]
fn set_parameters_is_idempotent() {
    let config = r#"{ "parameters": { "mode": { "type": "string", "defaultValue": "a" },
                                      "n": { "type": "int" } },
                     "resources": [] }"#;
    let mut c = Configurator::new(config, Host::new(), RefEngine);
    let input = Some(params_input(vec![("n", PropValue::Int(4))]));
    c.set_parameters(&input).unwrap();
    let mode1 = clone_value(c.context().get_parameter(&s("mode")).unwrap());
    let n1 = clone_value(c.context().get_parameter(&s("n")).unwrap());
    c.set_parameters(&input).unwrap();
    assert!(deep_eq(&mode1, c.context().get_parameter(&s("mode")).unwrap()));
    assert!(deep_eq(&n1, c.context().get_parameter(&s("n")).unwrap()));
    assert!(deep_eq(&n1, &PropValue::Int(4)));
}

#[test]
fn unknown_parameter_is_rejected() {
    let config = r#"{ "resources": [] }"#;
    let mut c = Configurator::new(config, Host::new(), RefEngine);
    match c.set_parameters(&Some(params_input(vec![("q", PropValue::Int(1))]))) {
        Err(DscError::Validation(m)) => {
            assert_eq!(m, s("No parameters defined in configuration"))
        },
        _ => panic!("expected a validation error"),
    }
}

#[test]
fn export_duplicate_types() {
    let config = r#"{ "resources": [
        { "name": "one", "type": "Example/Widget" },
        { "name": "two", "type": "Example/Widget" }
    ]}"#;
    let mut c = Configurator::new(config, Host::new(), RefEngine);
    match c.invoke_export(ErrorAction::Stop) {
        Err(DscError::Validation(m)) => {
            assert_eq!(m, s("Resource(s) Example/Widget specified multiple times"))
        },
        _ => panic!("expected a validation error"),
    }
    // the failure precedes every provider call
    assert_eq!(c.into_parts().0.filters.len(), 0);
}

#[test]
fn empty_configuration() {
    let config = r#"{ "resources": [] }"#;
    let mut c = Configurator::new(config, Host::new(), RefEngine);
    let g = c.invoke_get(ErrorAction::Stop).unwrap();
    assert_eq!(g.results.len(), 0);
    let e = c.invoke_export(ErrorAction::Stop).unwrap();
    assert_eq!(e.result.unwrap().resources.len(), 0);
}

#[test]
fn self_dependency_is_a_cycle() {
    let config = r#"{ "resources": [ { "name": "A", "type": "T/T", "dependsOn": ["A"] } ] }"#;
    let mut c = Configurator::new(config, Host::new(), RefEngine);
    match c.invoke_get(ErrorAction::Stop) {
        Err(DscError::Validation(m)) => {
            assert!(m.contains("Circular dependency"));
            assert!(m.contains("A"));
        },
        _ => panic!("expected a validation error"),
    }
}

#[test]
fn unknown_dependency_name() {
    let config = r#"{ "resources": [ { "name": "A", "type": "T/T", "dependsOn": ["Nope"] } ] }"#;
    let mut c = Configurator::new(config, Host::new(), RefEngine);
    match c.invoke_test(ErrorAction::Stop) {
        Err(DscError::Validation(_)) => {},
        _ => panic!("expected a validation error"),
    }
}

#[test]
fn export_escapes_and_names_instances() {
    let config = r#"{ "resources": [ { "name": "w", "type": "Example/Widget" } ] }"#;
    let mut host = Host::new();
    host.export_instances = vec![
        obj(vec![("cmd", PropValue::String(s("[echo hello]")))]),
        obj(vec![("cmd", PropValue::String(s("plain")))]),
    ];
    let mut c = Configurator::new(config, host, RefEngine);
    let r = c.invoke_export(ErrorAction::Stop).unwrap();
    let conf = r.result.unwrap();
    assert_eq!(conf.resources.len(), 2);
    assert_eq!(conf.resources[0].name, s("Example/Widget-0"));
    assert_eq!(conf.resources[1].name, s("Example/Widget-1"));
    assert_eq!(conf.resources[0].resource_type, s("Example/Widget"));
    let p0 = conf.resources[0].properties.as_ref().unwrap();
    assert!(deep_eq(&p0[0].1, &PropValue::String(s("[[echo hello]"))));
    let p1 = conf.resources[1].properties.as_ref().unwrap();
    assert!(deep_eq(&p1[0].1, &PropValue::String(s("plain"))));
}

#[test]
fn malformed_document_is_a_parse_error() {
    let mut c = Configurator::new("{ not json", Host::new(), RefEngine);
    match c.invoke_get(ErrorAction::Stop) {
        Err(DscError::Parser(_)) => {},
        _ => panic!("expected a parser error"),
    }
}

#[test]
fn raw_configuration_text_is_never_mutated() {
    let config = r#"{ "resources": [ { "name": "A", "type": "T/T" } ] }"#;
    let mut c = Configurator::new(config, Host::new(), RefEngine);
    c.set_parameters(&None).unwrap();
    let first = c.invoke_get(ErrorAction::Stop).unwrap();
    let second = c.invoke_get(ErrorAction::Stop).unwrap();
    assert_eq!(result_names(&first.results), result_names(&second.results));
}
