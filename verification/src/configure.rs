//! The orchestrator: parameter binding, document validation, dependency
//! ordering, per-resource dispatch and result aggregation for the get, set,
//! test and export operations. The raw configuration text is stored
//! verbatim and re-parsed on demand; no operation ever changes it.
use vstd::prelude::*;

use crate::constraints::{
    check_allowed_values, check_length, check_number_limits, check_type, parameter_value_ok,
};
use crate::context::{assoc_lookup, map_of, Context};
use crate::depends_on::{
    all_deps_resolve, config_expression_free, distinct_names, get_resource_invocation_order,
    in_prefix, message_prefixed, ordered_by_edges, resolver_ok_order,
};
use crate::doc::{
    config_of, config_ok, resources_view, Configuration, SpecConfiguration,
    SpecParameterDeclaration, SpecResource,
};
use crate::engine::{ExpressionEngine, ProviderHost};
use crate::error::DscError;
use crate::json::{json_of, lower_of, parse_document, spec_decimal, to_lowercase, usize_to_string};
use crate::value::{clone_value, group_value_axioms, object_view, SpecValue, PropValue};
use crate::walker::{escape_property_values, invoke_property_expressions, spec_escape_fields};

verus! {

/// What the caller asks of the run when a resource fails; accepted on every
/// operation, though the core treats each failure as fatal to the run.
#[derive(Debug, Clone, Copy)]
pub enum ErrorAction {
    Continue,
    Stop,
}

/// One resource's outcome: its name, its type as written in the document,
/// and the provider's opaque payload.
pub struct ResourceOpResult {
    pub name: String,
    pub resource_type: String,
    pub result: PropValue,
}

pub struct ConfigurationGetResult {
    pub results: Vec<ResourceOpResult>,
}

pub struct ConfigurationSetResult {
    pub results: Vec<ResourceOpResult>,
}

pub struct ConfigurationTestResult {
    pub results: Vec<ResourceOpResult>,
}

pub struct ConfigurationExportResult {
    pub result: Option<Configuration>,
}

/// The configuration a document text denotes: its JSON tree, where the text
/// parses and the tree is a well-formed document.
pub open spec fn spec_config_of_text(t: Seq<char>) -> Option<SpecConfiguration> {
    match json_of(t) {
        Some(j) => if config_ok(j) {
            Some(config_of(j))
        } else {
            None
        },
        None => None,
    }
}

/// The defaults a declaration list binds, later declarations overriding
/// earlier ones of the same name.
pub open spec fn defaults_map(ps: Seq<(Seq<char>, SpecParameterDeclaration)>) -> Map<
    Seq<char>,
    SpecValue,
>
    decreases ps.len(),
{
    if ps.len() == 0 {
        Map::empty()
    } else {
        match ps.last().1.default_value {
            Some(d) => defaults_map(ps.drop_last()).insert(ps.last().0, d),
            None => defaults_map(ps.drop_last()),
        }
    }
}

/// The caller-supplied parameter entries of an input document: the
/// `parameters` field's mapping entries.
pub open spec fn input_entries(input: SpecValue) -> Option<Seq<(Seq<char>, SpecValue)>> {
    match input {
        SpecValue::Object(fs) => match assoc_lookup(fs, "parameters"@) {
            Some(SpecValue::Object(ps)) => Some(ps),
            _ => None,
        },
        _ => None,
    }
}

/// One supplied entry names a declared parameter and satisfies its
/// declared constraints and type.
pub open spec fn entry_ok(
    decls: Seq<(Seq<char>, SpecParameterDeclaration)>,
    entry: (Seq<char>, SpecValue),
) -> bool {
    assoc_lookup(decls, entry.0) matches Some(d) && parameter_value_ok(d, entry.1)
}

/// Binding stopped at entry `k`: every earlier entry was bound, entry `k`
/// fails its declaration, the error is a validation error naming it, and the
/// context holds exactly the entries before `k` (no rollback, no more).
pub open spec fn binding_failed_at(
    before: Map<Seq<char>, SpecValue>,
    after: Map<Seq<char>, SpecValue>,
    ds: Seq<(Seq<char>, SpecParameterDeclaration)>,
    es: Seq<(Seq<char>, SpecValue)>,
    e: DscError,
    k: int,
) -> bool {
    &&& 0 <= k < es.len()
    &&& !entry_ok(ds, es[k])
    &&& (forall|k2: int| 0 <= k2 < k ==> entry_ok(ds, #[trigger] es[k2]))
    &&& (e matches DscError::Validation(m) && crate::constraints::message_names(m@, es[k].0))
    &&& after == bound_params(before, ds, es.take(k))
}

/// Every supplied entry names a declared parameter and satisfies its
/// declared constraints and type.
pub open spec fn inputs_ok(
    decls: Seq<(Seq<char>, SpecParameterDeclaration)>,
    entries: Seq<(Seq<char>, SpecValue)>,
) -> bool {
    forall|i: int|
        0 <= i < entries.len() ==> (assoc_lookup(decls, (#[trigger] entries[i]).0) matches Some(d)
            && parameter_value_ok(d, entries[i].1))
}

/// The caller-supplied entries, or none where the input is absent or not
/// shaped as a parameters document.
pub open spec fn input_entries_or_empty(inp: Option<SpecValue>) -> Seq<(Seq<char>, SpecValue)> {
    match inp {
        Some(iv) => match input_entries(iv) {
            Some(es) => es,
            None => Seq::empty(),
        },
        None => Seq::empty(),
    }
}

/// When parameter binding succeeds: the document parses and is well-formed,
/// and an input, if one is supplied, is a parameters document whose every
/// entry names a declaration and satisfies its constraints.
pub open spec fn binding_succeeds(
    cfgo: Option<SpecConfiguration>,
    inp: Option<SpecValue>,
) -> bool {
    match cfgo {
        Some(cfg) => match inp {
            None => true,
            Some(iv) => cfg.parameters matches Some(ds) && input_entries(iv) matches Some(es)
                && inputs_ok(ds, es),
        },
        None => false,
    }
}

/// The parameter mapping holds a bound prefix of the supplied entries: what
/// a binding that failed part-way leaves behind (no rollback is attempted).
pub open spec fn partially_bound(
    before: Map<Seq<char>, SpecValue>,
    after: Map<Seq<char>, SpecValue>,
    ds: Seq<(Seq<char>, SpecParameterDeclaration)>,
    entries: Seq<(Seq<char>, SpecValue)>,
) -> bool {
    exists|kk: int|
        0 <= kk <= entries.len() && after == bound_params(before, ds, #[trigger] entries.take(kk))
}

/// The parameter mapping after a successful binding: what stood before,
/// overridden by the declared defaults, overridden by the supplied values.
pub open spec fn bound_params(
    before: Map<Seq<char>, SpecValue>,
    decls: Seq<(Seq<char>, SpecParameterDeclaration)>,
    entries: Seq<(Seq<char>, SpecValue)>,
) -> Map<Seq<char>, SpecValue> {
    before.union_prefer_right(defaults_map(decls)).union_prefer_right(map_of(entries))
}

/// Binding the same input twice leaves the same mapping as binding it once:
/// the defaults and the supplied values override entry by entry, so a second
/// pass writes what already stands.
pub proof fn lemma_set_parameters_idempotent(
    before: Map<Seq<char>, SpecValue>,
    decls: Seq<(Seq<char>, SpecParameterDeclaration)>,
    entries: Seq<(Seq<char>, SpecValue)>,
)
    ensures
        bound_params(bound_params(before, decls, entries), decls, entries) == bound_params(
            before,
            decls,
            entries,
        ),
{
    assert(bound_params(bound_params(before, decls, entries), decls, entries)
        =~= bound_params(before, decls, entries));
}

/// The names and document types of the emitted results stand in a resolver
/// order of the document's resources: a topological sort of some edge list
/// covering every declared dependency, least-eligible-first at each position
/// (the document-order tie-break, which pins the order per edge list —
/// `lemma_resolver_order_unique`).
pub open spec fn results_in_order(
    cfg: SpecConfiguration,
    results: Seq<(Seq<char>, Seq<char>)>,
) -> bool {
    exists|ord: Seq<usize>|
        {
            &&& #[trigger] resolver_ok_order(cfg.resources, ord)
            &&& exists|es: Seq<(usize, usize)>| #[trigger] ordered_by_edges(cfg.resources, es, ord)
            &&& results.len() == cfg.resources.len()
            &&& forall|i: int|
                0 <= i < results.len() ==> (#[trigger] results[i]).0 == cfg.resources[ord[i] as int].name
                    && results[i].1 == cfg.resources[ord[i] as int].resource_type
        }
}

pub open spec fn results_view(rs: Seq<ResourceOpResult>) -> Seq<(Seq<char>, Seq<char>)> {
    Seq::new(rs.len(), |i: int| (rs[i].name@, rs[i].resource_type@))
}

/// The name-to-payload entries an aggregate publishes into the context.
pub open spec fn results_payload_view(rs: Seq<ResourceOpResult>) -> Seq<(Seq<char>, SpecValue)> {
    Seq::new(rs.len(), |i: int| (rs[i].name@, rs[i].result@))
}

/// The set of type names a configuration requires of discovery: each
/// resource type lower-cased, kept once, in first-occurrence order.
pub open spec fn required_types_of(rs: Seq<SpecResource>) -> Seq<Seq<char>>
    decreases rs.len(),
{
    if rs.len() == 0 {
        Seq::empty()
    } else {
        let pre = required_types_of(rs.drop_last());
        if pre.contains(lower_of(rs.last().resource_type)) {
            pre
        } else {
            pre.push(lower_of(rs.last().resource_type))
        }
    }
}

/// The type names handed to discovery: the document's resource types,
/// lower-cased and deduplicated, earliest occurrence first.
#[verifier::loop_isolation(false)]
pub fn required_types(config: &Configuration) -> (r: Vec<String>)
    ensures
        crate::doc::strings_view(r) == required_types_of(resources_view(config.resources)),
{
    let ghost rs = resources_view(config.resources);
    let mut required: Vec<String> = Vec::new();
    let n = config.resources.len();
    let mut i: usize = 0;
    while i < n
        invariant
            0 <= i <= n,
            crate::doc::strings_view(required) =~= required_types_of(rs.take(i as int)),
        decreases n - i,
    {
        proof {
            assert(rs.take(i as int + 1).drop_last() =~= rs.take(i as int));
            assert(rs.take(i as int + 1).last() == rs[i as int]);
        }
        let lower = to_lowercase(&config.resources[i].resource_type);
        let mut seen = false;
        let m = required.len();
        let mut k: usize = 0;
        while k < m
            invariant
                0 <= k <= m,
                m == required.len(),
                seen <==> exists|j: int| 0 <= j < k && (#[trigger] required[j]@) == lower@,
            decreases m - k,
        {
            if required[k] == lower {
                seen = true;
                proof {
                    assert(required[k as int]@ == lower@);
                }
            }
            k += 1;
        }
        proof {
            if seen {
                let j0 = choose|j: int| 0 <= j < m && (#[trigger] required[j]@) == lower@;
                assert(crate::doc::strings_view(required)[j0] == lower@);
                assert(required_types_of(rs.take(i as int)).contains(lower_of(rs[i as int].resource_type)));
            } else {
                if required_types_of(rs.take(i as int)).contains(
                    lower_of(rs[i as int].resource_type),
                ) {
                    let j0 = choose|j: int|
                        0 <= j < crate::doc::strings_view(required).len()
                            && crate::doc::strings_view(required)[j] == lower_of(
                            rs[i as int].resource_type,
                        );
                    assert(required[j0]@ == lower@);
                    assert(false);
                }
            }
        }
        if !seen {
            let ghost before = crate::doc::strings_view(required);
            required.push(lower);
            proof {
                assert(crate::doc::strings_view(required) =~= before.push(
                    lower_of(rs[i as int].resource_type),
                ));
            }
        }
        i += 1;
    }
    proof {
        assert(rs.take(n as int) =~= rs);
    }
    required
}

/// The orchestrator.
pub struct Configurator<H: ProviderHost, E: ExpressionEngine> {
    config: String,
    context: Context,
    discovery: H,
    statement_parser: E,
}

impl<H: ProviderHost, E: ExpressionEngine> Configurator<H, E> {
    /// The raw configuration text, stored verbatim at construction.
    pub closed spec fn raw_config(&self) -> Seq<char> {
        self.config@
    }

    pub closed spec fn context_params(&self) -> Map<Seq<char>, SpecValue> {
        self.context.params_map()
    }

    pub closed spec fn context_resources(&self) -> Map<Seq<char>, SpecValue> {
        self.context.resources_map()
    }

    /// Create an orchestrator over a configuration text and the two consumed
    /// collaborators; the context starts empty.
    pub fn new(config: &str, discovery: H, statement_parser: E) -> (r: Configurator<H, E>)
        ensures
            r.raw_config() == config@,
            r.context_params() == Map::<Seq<char>, SpecValue>::empty(),
            r.context_resources() == Map::<Seq<char>, SpecValue>::empty(),
    {
        Configurator {
            config: String::from_str(config),
            context: Context::new(),
            discovery,
            statement_parser,
        }
    }

    /// Hand the two collaborators back, dissolving the orchestrator; what
    /// they observed belongs to the caller.
    pub fn into_parts(self) -> (H, E) {
        (self.discovery, self.statement_parser)
    }

    /// Read-only view of the evaluation context, for callers and tests.
    pub fn context(&self) -> (r: &Context)
        ensures
            r.params_map() == self.context_params(),
            r.resources_map() == self.context_resources(),
    {
        &self.context
    }

    /// Parse the stored text and discover the set of resource types it
    /// names, lower-cased and deduplicated.
    fn validate_config(&mut self) -> (r: Result<Configuration, DscError>)
        ensures
            final(self).raw_config() == old(self).raw_config(),
            final(self).context_params() == old(self).context_params(),
            final(self).context_resources() == old(self).context_resources(),
            r matches Ok(c) ==> Some(c@) == spec_config_of_text(old(self).raw_config()),
            r is Ok <==> spec_config_of_text(old(self).raw_config()) is Some,
    {
        let doc = match parse_document(self.config.as_str()) {
            Ok(v) => v,
            Err(e) => {
                return Err(e);
            },
        };
        let config = match crate::doc::extract_config(&doc) {
            Ok(c) => c,
            Err(e) => {
                return Err(e);
            },
        };
        let required = required_types(&config);
        self.discovery.discover(&required);
        Ok(config)
    }

    /// Bind the caller's parameter values: declared defaults first, then
    /// each supplied value after its declaration's constraint checks.
    pub fn set_parameters(&mut self, parameters_input: &Option<PropValue>) -> (r: Result<
        (),
        DscError,
    >)
        ensures
            final(self).raw_config() == old(self).raw_config(),
            final(self).context_resources() == old(self).context_resources(),
            spec_config_of_text(old(self).raw_config()) is None ==> r is Err,
            r is Ok <==> binding_succeeds(
                spec_config_of_text(old(self).raw_config()),
                match *parameters_input {
                    Some(ref v) => Some(v@),
                    None => None,
                },
            ),
            r matches Err(e) ==> e is Parser || e is Validation,
            spec_config_of_text(old(self).raw_config()) matches Some(cfg) && cfg.parameters
                is None && parameters_input is Some ==> (r matches Err(e) && e
                matches DscError::Validation(m) && m@ == "No parameters defined in configuration"@),
            r is Err ==> match spec_config_of_text(old(self).raw_config()) {
                Some(cfg) => match cfg.parameters {
                    Some(ds) => match *parameters_input {
                        Some(ref inp) => match input_entries(inp@) {
                            Some(es) => r matches Err(e) && exists|k: int|
                                #[trigger] binding_failed_at(
                                    old(self).context_params(),
                                    final(self).context_params(),
                                    ds,
                                    es,
                                    e,
                                    k,
                                ),
                            None => true,
                        },
                        None => true,
                    },
                    None => true,
                },
                None => true,
            },
            r is Err ==> final(self).context_params() == old(self).context_params() || (
            spec_config_of_text(old(self).raw_config()) matches Some(cfg)
                && cfg.parameters matches Some(ds) && partially_bound(
                old(self).context_params(),
                final(self).context_params(),
                ds,
                input_entries_or_empty(
                    match *parameters_input {
                        Some(ref v) => Some(v@),
                        None => None,
                    },
                ),
            )),
            r matches Ok(_) ==> spec_config_of_text(old(self).raw_config()) matches Some(cfg) && {
                let decls = match cfg.parameters {
                    Some(ds) => ds,
                    None => Seq::empty(),
                };
                let entries = match *parameters_input {
                    Some(ref input) => match input_entries(input@) {
                        Some(es) => es,
                        None => Seq::empty(),
                    },
                    None => Seq::empty(),
                };
                &&& final(self).context_params() == bound_params(
                    old(self).context_params(),
                    decls,
                    entries,
                )
                &&& inputs_ok(decls, entries)
                &&& (parameters_input is Some ==> cfg.parameters is Some && input_entries(
                    parameters_input->Some_0@,
                ) is Some)
            },
    {
        broadcast use group_value_axioms;

        let doc = match parse_document(self.config.as_str()) {
            Ok(v) => v,
            Err(e) => {
                return Err(e);
            },
        };
        let config = match crate::doc::extract_config(&doc) {
            Ok(c) => c,
            Err(e) => {
                return Err(e);
            },
        };
        let ghost cfg = config@;
        let decls: &Vec<(String, crate::doc::ParameterDeclaration)> = match &config.parameters {
            Some(ds) => ds,
            None => {
                if parameters_input.is_none() {
                    proof {
                        assert(final(self).context_params() =~= bound_params(
                            old(self).context_params(),
                            Seq::empty(),
                            Seq::empty(),
                        ));
                    }
                    return Ok(());
                }
                return Err(
                    DscError::Validation(
                        String::from_str("No parameters defined in configuration"),
                    ),
                );
            },
        };
        let ghost dv = crate::doc::params_view(*decls);
        let n = decls.len();
        let mut i: usize = 0;
        #[verifier::loop_isolation(false)]
        while i < n
            invariant
                0 <= i <= n,
                self.config@ == old(self).config@,
                self.context.resources_map() == old(self).context.resources_map(),
                self.context.params_map() == old(self).context.params_map().union_prefer_right(
                    defaults_map(dv.take(i as int)),
                ),
            decreases n - i,
        {
            proof {
                assert(dv.take(i as int + 1).drop_last() =~= dv.take(i as int));
                assert(dv.take(i as int + 1).last() == (decls[i as int].0@, decls[i as int].1@));
            }
            let ghost before = self.context.params_map();
            if let Some(default_value) = &decls[i].1.default_value {
                let name = decls[i].0.clone();
                self.context.set_parameter(&name, clone_value(default_value));
            }
            proof {
                assert(self.context.params_map() =~= old(self).context.params_map()
                    .union_prefer_right(defaults_map(dv.take(i as int + 1))));
            }
            i += 1;
        }
        proof {
            assert(dv.take(n as int) =~= dv);
        }
        let input = match parameters_input {
            Some(input) => input,
            None => {
                proof {
                    assert(self.context.params_map() =~= bound_params(
                        old(self).context_params(),
                        dv,
                        Seq::empty(),
                    ));
                }
                return Ok(());
            },
        };
        let entries: &Vec<(String, PropValue)> = match input {
            PropValue::Object(fs) => match crate::doc::get_field(fs, "parameters") {
                Some(PropValue::Object(ps)) => ps,
                _ => {
                    proof {
                        assert(input_entries(input@) is None);
                        assert(self.context.params_map() =~= bound_params(
                            old(self).context_params(),
                            dv,
                            Seq::<(Seq<char>, SpecValue)>::empty().take(0),
                        ));
                    }
                    return Err(
                        DscError::Parser(
                            String::from_str("parameter input needs a parameters mapping"),
                        ),
                    );
                },
            },
            _ => {
                proof {
                    assert(input_entries(input@) is None);
                    assert(self.context.params_map() =~= bound_params(
                        old(self).context_params(),
                        dv,
                        Seq::<(Seq<char>, SpecValue)>::empty().take(0),
                    ));
                }
                return Err(
                    DscError::Parser(String::from_str("parameter input must be a mapping")),
                );
            },
        };
        let ghost ev = object_view(*entries);
        let ghost after_defaults = self.context.params_map();
        let m = entries.len();
        let mut k: usize = 0;
        #[verifier::loop_isolation(false)]
        while k < m
            invariant
                0 <= k <= m,
                self.config@ == old(self).config@,
                self.context.resources_map() == old(self).context.resources_map(),
                self.context.params_map() == after_defaults.union_prefer_right(
                    map_of(ev.take(k as int)),
                ),
                forall|k2: int|
                    0 <= k2 < k ==> (assoc_lookup(dv, (#[trigger] ev[k2]).0) matches Some(d)
                        && parameter_value_ok(d, ev[k2].1)),
                forall|k2: int| 0 <= k2 < k ==> entry_ok(dv, #[trigger] ev[k2]),
            decreases m - k,
        {
            proof {
                assert(ev.take(k as int + 1).drop_last() =~= ev.take(k as int));
                assert(ev.take(k as int + 1).last() == (entries[k as int].0@,
                entries[k as int].1@));
            }
            let name = entries[k].0.clone();
            let value = &entries[k].1;
            proof {
                assert(ev[k as int] == (entries[k as int].0@, entries[k as int].1@));
                assert(input_entries(input@) == Some(ev));
                assert(self.context.params_map() =~= bound_params(
                    old(self).context_params(),
                    dv,
                    ev.take(k as int),
                ));
            }
            let constraint = match find_declaration(decls, &name) {
                Some(c) => c,
                None => {
                    let err = crate::constraints::named_validation_error(
                        &name,
                        "' not defined in configuration",
                    );
                    proof {
                        assert(assoc_lookup(dv, ev[k as int].0) is None);
                        assert(!inputs_ok(dv, ev));
                        assert(binding_failed_at(
                            old(self).context_params(),
                            self.context.params_map(),
                            dv,
                            ev,
                            err,
                            k as int,
                        ));
                        let ds2 = spec_config_of_text(old(self).raw_config())->Some_0.parameters->Some_0;
                        let es2 = input_entries(parameters_input->Some_0@)->Some_0;
                        assert(ds2 == dv);
                        assert(es2 == ev);
                        assert(binding_failed_at(
                            old(self).context_params(),
                            final(self).context_params(),
                            ds2,
                            es2,
                            err,
                            k as int,
                        ));
                    }
                    return Err(err);
                },
            };
            match check_length(&name, value, constraint) {
                Ok(_) => {
                },
                Err(e) => {
                    proof {
                        assert(!parameter_value_ok(constraint@, ev[k as int].1));
                        assert(!inputs_ok(dv, ev));
                        assert(binding_failed_at(
                            old(self).context_params(),
                            self.context.params_map(),
                            dv,
                            ev,
                            e,
                            k as int,
                        ));
                        let ds2 = spec_config_of_text(old(self).raw_config())->Some_0.parameters->Some_0;
                        let es2 = input_entries(parameters_input->Some_0@)->Some_0;
                        assert(ds2 == dv);
                        assert(es2 == ev);
                        assert(binding_failed_at(
                            old(self).context_params(),
                            final(self).context_params(),
                            ds2,
                            es2,
                            e,
                            k as int,
                        ));
                    }
                    return Err(e);
                },
            }
            match check_allowed_values(&name, value, constraint) {
                Ok(_) => {
                },
                Err(e) => {
                    proof {
                        assert(!parameter_value_ok(constraint@, ev[k as int].1));
                        assert(!inputs_ok(dv, ev));
                        assert(binding_failed_at(
                            old(self).context_params(),
                            self.context.params_map(),
                            dv,
                            ev,
                            e,
                            k as int,
                        ));
                        let ds2 = spec_config_of_text(old(self).raw_config())->Some_0.parameters->Some_0;
                        let es2 = input_entries(parameters_input->Some_0@)->Some_0;
                        assert(ds2 == dv);
                        assert(es2 == ev);
                        assert(binding_failed_at(
                            old(self).context_params(),
                            final(self).context_params(),
                            ds2,
                            es2,
                            e,
                            k as int,
                        ));
                    }
                    return Err(e);
                },
            }
            match check_number_limits(&name, value, constraint) {
                Ok(_) => {
                },
                Err(e) => {
                    proof {
                        assert(!parameter_value_ok(constraint@, ev[k as int].1));
                        assert(!inputs_ok(dv, ev));
                        assert(binding_failed_at(
                            old(self).context_params(),
                            self.context.params_map(),
                            dv,
                            ev,
                            e,
                            k as int,
                        ));
                        let ds2 = spec_config_of_text(old(self).raw_config())->Some_0.parameters->Some_0;
                        let es2 = input_entries(parameters_input->Some_0@)->Some_0;
                        assert(ds2 == dv);
                        assert(es2 == ev);
                        assert(binding_failed_at(
                            old(self).context_params(),
                            final(self).context_params(),
                            ds2,
                            es2,
                            e,
                            k as int,
                        ));
                    }
                    return Err(e);
                },
            }
            match check_type(&name, value, constraint) {
                Ok(_) => {
                },
                Err(e) => {
                    proof {
                        assert(!parameter_value_ok(constraint@, ev[k as int].1));
                        assert(!inputs_ok(dv, ev));
                        assert(binding_failed_at(
                            old(self).context_params(),
                            self.context.params_map(),
                            dv,
                            ev,
                            e,
                            k as int,
                        ));
                        let ds2 = spec_config_of_text(old(self).raw_config())->Some_0.parameters->Some_0;
                        let es2 = input_entries(parameters_input->Some_0@)->Some_0;
                        assert(ds2 == dv);
                        assert(es2 == ev);
                        assert(binding_failed_at(
                            old(self).context_params(),
                            final(self).context_params(),
                            ds2,
                            es2,
                            e,
                            k as int,
                        ));
                    }
                    return Err(e);
                },
            }
            self.context.set_parameter(&name, clone_value(value));
            proof {
                assert(entry_ok(dv, ev[k as int]));
                assert(self.context.params_map() =~= after_defaults.union_prefer_right(
                    map_of(ev.take(k as int + 1)),
                ));
            }
            k += 1;
        }
        proof {
            assert(ev.take(m as int) =~= ev);
            assert(self.context.params_map() =~= bound_params(old(self).context_params(), dv, ev));
        }
        Ok(())
    }
}

/// The declaration an entry name resolves to: the latest declaration of the
/// name, as `assoc_lookup` reads it.
#[verifier::loop_isolation(false)]
fn find_declaration<'a>(
    decls: &'a Vec<(String, crate::doc::ParameterDeclaration)>,
    name: &String,
) -> (r: Option<&'a crate::doc::ParameterDeclaration>)
    ensures
        match r {
            Some(d) => assoc_lookup(crate::doc::params_view(*decls), name@) == Some(d@),
            None => assoc_lookup(crate::doc::params_view(*decls), name@) is None,
        },
{
    let ghost all = crate::doc::params_view(*decls);
    proof {
        assert(all.take(decls.len() as int) =~= all);
    }
    let mut i: usize = decls.len();
    while i > 0
        invariant
            0 <= i <= decls.len(),
            assoc_lookup(all, name@) == assoc_lookup(all.take(i as int), name@),
        decreases i,
    {
        i = i - 1;
        let hit = decls[i].0 == *name;
        proof {
            assert(all.take(i as int + 1).last() == (decls[i as int].0@, decls[i as int].1@));
            assert(all.take(i as int + 1).drop_last() =~= all.take(i as int));
        }
        if hit {
            return Some(&decls[i].1);
        }
    }
    proof {
        assert(all.take(0) =~= Seq::<(Seq<char>, SpecParameterDeclaration)>::empty());
    }
    None
}

/// The name an exported instance is given: the type, a dash, the instance's
/// position.
pub open spec fn export_name(t: Seq<char>, i: int) -> Seq<char> {
    t + seq!['-'] + spec_decimal(i as nat)
}

/// Every harvested instance is a mapping whose values escape cleanly: no
/// sequence stands directly inside a sequence.
pub open spec fn instances_exportable(es: Seq<SpecValue>) -> bool {
    forall|i: int|
        0 <= i < es.len() ==> ((#[trigger] es[i]) matches SpecValue::Object(fs)
            && spec_escape_fields(fs) is Some)
}

/// Append the instances harvested by one resource's export to a synthesized
/// configuration: instance `i` becomes a resource of the exporting type,
/// named by position, its properties escaped so they stay literal.
#[verifier::loop_isolation(false)]
pub fn add_resource_export_results_to_configuration(
    resource_type: &String,
    export_results: &Vec<PropValue>,
    conf: &mut Configuration,
) -> (r: Result<(), DscError>)
    ensures
        final(conf).parameters == old(conf).parameters,
        final(conf).metadata == old(conf).metadata,
        old(conf).resources@.len() <= final(conf).resources@.len() <= old(conf).resources@.len()
            + export_results@.len(),
        forall|i: int|
            0 <= i < old(conf).resources@.len() ==> resources_view(final(conf).resources)[i]
                == #[trigger] resources_view(old(conf).resources)[i],
        forall|i: int|
            0 <= i < final(conf).resources@.len() - old(conf).resources@.len() ==> {
                let nr = resources_view(final(conf).resources)[old(conf).resources@.len() + i];
                &&& nr.resource_type == resource_type@
                &&& nr.name == export_name(resource_type@, i)
                &&& nr.depends_on is None
                &&& (#[trigger] export_results@[i]@) matches SpecValue::Object(fs)
                    && nr.properties == spec_escape_fields(fs)
            },
        r is Ok <==> instances_exportable(crate::doc::values_view(*export_results)),
        r is Ok ==> final(conf).resources@.len() == old(conf).resources@.len()
            + export_results@.len(),
        r matches Err(e) ==> e is Parser,
{
    broadcast use group_value_axioms;

    proof {
        reveal_strlit("-");
    }
    let ghost old_len = conf.resources@.len();
    let n = export_results.len();
    let mut i: usize = 0;
    while i < n
        invariant
            0 <= i <= n,
            conf.parameters == old(conf).parameters,
            conf.metadata == old(conf).metadata,
            conf.resources@.len() == old_len + i,
            forall|j: int|
                0 <= j < old_len ==> resources_view(conf.resources)[j] == #[trigger] resources_view(
                    old(conf).resources,
                )[j],
            forall|j: int|
                0 <= j < i ==> {
                    let nr = resources_view(conf.resources)[old_len + j];
                    &&& nr.resource_type == resource_type@
                    &&& nr.name == export_name(resource_type@, j)
                    &&& nr.depends_on is None
                    &&& (#[trigger] export_results@[j]@) matches SpecValue::Object(fs)
                        && nr.properties == spec_escape_fields(fs)
                },
            forall|j: int|
                0 <= j < i ==> ((#[trigger] crate::doc::values_view(*export_results)[j])
                    matches SpecValue::Object(fs) && spec_escape_fields(fs) is Some),
        decreases n - i,
    {
        let fs = match &export_results[i] {
            PropValue::Object(fs) => fs,
            _ => {
                proof {
                    assert(!(crate::doc::values_view(*export_results)[i as int]
                        matches SpecValue::Object(_)));
                    assert(!instances_exportable(crate::doc::values_view(*export_results)));
                }
                return Err(
                    DscError::Parser(
                        String::from_str("exported instance state must be a mapping"),
                    ),
                );
            },
        };
        let props = match escape_property_values(&Some(crate::value::clone_properties(fs))) {
            Ok(p) => p,
            Err(e) => {
                proof {
                    assert(crate::doc::values_view(*export_results)[i as int]
                        == export_results[i as int]@);
                    assert(spec_escape_fields(object_view(*fs)) is None);
                    assert(!instances_exportable(crate::doc::values_view(*export_results)));
                }
                return Err(e);
            },
        };
        let mut name = resource_type.clone();
        name.append("-");
        let num = usize_to_string(i);
        name.append(num.as_str());
        proof {
            assert(name@ =~= export_name(resource_type@, i as int));
        }
        let res = crate::doc::Resource {
            name,
            resource_type: resource_type.clone(),
            properties: props,
            depends_on: None,
        };
        conf.resources.push(res);
        i += 1;
    }
    Ok(())
}

/// The resources one export harvest synthesizes: instance `j` becomes a
/// resource of the exporting type, named by position, its properties the
/// escape of the instance's fields.
pub open spec fn export_block(r: SpecResource, inst: Seq<SpecValue>) -> Seq<SpecResource> {
    Seq::new(
        inst.len(),
        |j: int|
            SpecResource {
                name: export_name(r.resource_type, j),
                resource_type: r.resource_type,
                properties: spec_escape_fields(inst[j]->Object_0),
                depends_on: None,
            },
    )
}

/// The synthesized configuration: the harvest blocks of the first `a`
/// document resources, concatenated in document order.
pub open spec fn export_synthesis(
    rs: Seq<SpecResource>,
    iss: Seq<Seq<SpecValue>>,
    a: int,
) -> Seq<SpecResource>
    decreases a,
{
    if a <= 0 {
        Seq::empty()
    } else {
        export_synthesis(rs, iss, a - 1) + export_block(rs[a - 1], iss[a - 1])
    }
}

/// The synthesis of the first `a` blocks reads only the first `a` harvests.
proof fn lemma_export_synthesis_prefix(
    rs: Seq<SpecResource>,
    iss1: Seq<Seq<SpecValue>>,
    iss2: Seq<Seq<SpecValue>>,
    a: int,
)
    requires
        forall|j: int| 0 <= j < a ==> (#[trigger] iss1[j]) == iss2[j],
    ensures
        export_synthesis(rs, iss1, a) == export_synthesis(rs, iss2, a),
    decreases a,
{
    if a > 0 {
        lemma_export_synthesis_prefix(rs, iss1, iss2, a - 1);
    }
}

/// Whether some resource type occurs more than once in the document.
pub open spec fn has_duplicate_types(rs: Seq<SpecResource>) -> bool {
    exists|x: int, y: int|
        0 <= x < y < rs.len() && (#[trigger] rs[x].resource_type) == (#[trigger] rs[y].resource_type)
}

impl<H: ProviderHost, E: ExpressionEngine> Configurator<H, E> {
    /// The types written more than once in the document, each once, in the
    /// order their second occurrence appears; empty exactly when every
    /// resource type is distinct.
    #[verifier::loop_isolation(false)]
    pub fn find_duplicate_resource_types(config: &Configuration) -> (r: Vec<String>)
        ensures
            r@.len() > 0 <==> has_duplicate_types(resources_view(config.resources)),
            forall|t: int|
                0 <= t < r@.len() ==> exists|x: int, y: int|
                    #![trigger resources_view(config.resources)[x].resource_type, resources_view(config.resources)[y].resource_type]
                    0 <= x < y < resources_view(config.resources).len() && resources_view(
                        config.resources,
                    )[x].resource_type == resources_view(config.resources)[y].resource_type
                        && resources_view(config.resources)[y].resource_type == (
                    #[trigger] crate::doc::strings_view(r)[t]),
            forall|x: int, y: int|
                #![trigger resources_view(config.resources)[x].resource_type, resources_view(config.resources)[y].resource_type]
                0 <= x < y < resources_view(config.resources).len() && resources_view(
                    config.resources,
                )[x].resource_type == resources_view(config.resources)[y].resource_type
                    ==> crate::doc::strings_view(r).contains(
                    resources_view(config.resources)[y].resource_type,
                ),
            forall|i: int, j: int|
                0 <= i < j < r@.len() ==> (#[trigger] crate::doc::strings_view(r)[i]) != (
                #[trigger] crate::doc::strings_view(r)[j]),
    {
        let ghost rs = resources_view(config.resources);
        let mut result: Vec<String> = Vec::new();
        let n = config.resources.len();
        let mut b: usize = 0;
        while b < n
            invariant
                0 <= b <= n,
                result@.len() > 0 <==> exists|x: int, y: int|
                    0 <= x < y < b && (#[trigger] rs[x].resource_type) == (#[trigger] rs[y].resource_type),
                forall|t: int|
                    0 <= t < result@.len() ==> exists|x: int, y: int|
                        #![trigger rs[x].resource_type, rs[y].resource_type]
                        0 <= x < y < b && rs[x].resource_type == rs[y].resource_type
                            && rs[y].resource_type == (#[trigger] crate::doc::strings_view(
                            result,
                        )[t]),
                forall|x: int, y: int|
                    #![trigger rs[x].resource_type, rs[y].resource_type]
                    0 <= x < y < b && rs[x].resource_type == rs[y].resource_type
                        ==> crate::doc::strings_view(result).contains(rs[y].resource_type),
                forall|i: int, j: int|
                    0 <= i < j < result@.len() ==> (#[trigger] crate::doc::strings_view(result)[i])
                        != (#[trigger] crate::doc::strings_view(result)[j]),
            decreases n - b,
        {
            let mut a: usize = 0;
            let mut hit = false;
            while a < b
                invariant
                    0 <= a <= b < n,
                    hit ==> exists|x: int|
                        0 <= x < b && (#[trigger] rs[x].resource_type) == rs[b as int].resource_type,
                    !hit ==> forall|x: int|
                        0 <= x < a ==> (#[trigger] rs[x].resource_type) != rs[b as int].resource_type,
                decreases b - a,
            {
                if config.resources[a].resource_type == config.resources[b].resource_type {
                    hit = true;
                    proof {
                        assert(rs[a as int].resource_type == rs[b as int].resource_type);
                    }
                }
                a += 1;
            }
            if hit {
                let mut already = false;
                let mut t: usize = 0;
                while t < result.len()
                    invariant
                        0 <= t <= result.len(),
                        already <==> exists|j: int|
                            0 <= j < t && (#[trigger] crate::doc::strings_view(result)[j])
                                == rs[b as int].resource_type,
                    decreases result.len() - t,
                {
                    if result[t] == config.resources[b].resource_type {
                        already = true;
                        proof {
                            assert(crate::doc::strings_view(result)[t as int]
                                == rs[b as int].resource_type);
                        }
                    }
                    t += 1;
                }
                let ghost old_view = crate::doc::strings_view(result);
                if !already {
                    result.push(config.resources[b].resource_type.clone());
                    proof {
                        assert(crate::doc::strings_view(result) =~= old_view.push(
                            rs[b as int].resource_type,
                        ));
                    }
                }
                proof {
                    let x0 = choose|x: int|
                        0 <= x < b && (#[trigger] rs[x].resource_type) == rs[b as int].resource_type;
                    assert(0 <= x0 < b as int && rs[x0].resource_type == rs[b as int].resource_type);
                    assert(crate::doc::strings_view(result).contains(rs[b as int].resource_type))
                        by {
                        if already {
                            let j0 = choose|j: int|
                                0 <= j < old_view.len() && old_view[j] == rs[b as int].resource_type;
                            assert(crate::doc::strings_view(result)[j0]
                                == rs[b as int].resource_type);
                        } else {
                            assert(crate::doc::strings_view(result).last()
                                == rs[b as int].resource_type);
                        }
                    }
                    assert forall|x: int, y: int|
                        #![trigger rs[x].resource_type, rs[y].resource_type]
                        0 <= x < y < b as int + 1 && rs[x].resource_type == rs[y].resource_type
                            implies crate::doc::strings_view(result).contains(
                        rs[y].resource_type,
                    ) by {
                        if y < b as int {
                            assert(old_view.contains(rs[y].resource_type));
                            let j0 = choose|j: int|
                                0 <= j < old_view.len() && old_view[j] == rs[y].resource_type;
                            assert(crate::doc::strings_view(result)[j0] == rs[y].resource_type);
                        }
                    }
                }
            } else {
                proof {
                    if result@.len() == 0 {
                        assert forall|x: int, y: int|
                            0 <= x < y < b as int + 1 implies (#[trigger] rs[x].resource_type) != (
                        #[trigger] rs[y].resource_type) by {
                            if y < b as int {
                                assert(!(exists|x2: int, y2: int|
                                    0 <= x2 < y2 < b && (#[trigger] rs[x2].resource_type) == (
                                    #[trigger] rs[y2].resource_type)));
                            }
                        }
                    }
                    assert forall|x: int, y: int|
                        #![trigger rs[x].resource_type, rs[y].resource_type]
                        0 <= x < y < b as int + 1 && rs[x].resource_type == rs[y].resource_type
                            implies crate::doc::strings_view(result).contains(
                        rs[y].resource_type,
                    ) by {
                        assert(y < b as int);
                    }
                }
            }
            b += 1;
        }
        result
    }

    /// Run one lifecycle operation over every resource, in resolver order:
    /// evaluate its properties, find its provider, dispatch, record the
    /// payload in the aggregate and publish it in the context.
    fn run_operation(&mut self, set_mode: bool, test_mode: bool, skip_test: bool) -> (r: Result<
        Vec<ResourceOpResult>,
        DscError,
    >)
        ensures
            final(self).raw_config() == old(self).raw_config(),
            final(self).context_params() == old(self).context_params(),
            spec_config_of_text(old(self).raw_config()) is None ==> r is Err,
            r matches Ok(results) ==> spec_config_of_text(old(self).raw_config()) matches Some(
                cfg,
            ) && results_in_order(cfg, results_view(results@)),
            spec_config_of_text(old(self).raw_config()) matches Some(cfg) && cfg.resources.len()
                == 0 ==> (r matches Ok(results) && results@.len() == 0),
            r matches Ok(results) ==> final(self).context_resources() == old(
                self,
            ).context_resources().union_prefer_right(map_of(results_payload_view(results@))),
            r is Ok ==> (spec_config_of_text(old(self).raw_config()) matches Some(cfg)
                && all_deps_resolve(cfg.resources)),
            spec_config_of_text(old(self).raw_config()) matches Some(cfg)
                && config_expression_free(cfg.resources) && !all_deps_resolve(cfg.resources)
                ==> (r matches Err(e) && e is Validation),
            spec_config_of_text(old(self).raw_config()) matches Some(cfg)
                && config_expression_free(cfg.resources) && distinct_names(cfg.resources)
                && all_deps_resolve(cfg.resources) && !(exists|ord: Seq<usize>| #[trigger]
            resolver_ok_order(cfg.resources, ord)) ==> (r matches Err(e) && e
                matches DscError::Validation(m) && message_prefixed(
                m@,
                "Circular dependency among resources: "@,
            )),
            r is Err ==> exists|published: Seq<(Seq<char>, SpecValue)>|
                final(self).context_resources() == old(self).context_resources()
                    .union_prefer_right(#[trigger] map_of(published)),
    {
        proof {
            assert(old(self).context_resources().union_prefer_right(
                map_of(Seq::<(Seq<char>, SpecValue)>::empty()),
            ) =~= old(self).context_resources());
        }
        let config = match self.validate_config() {
            Ok(c) => c,
            Err(e) => {
                return Err(e);
            },
        };
        let ghost cfg = config@;
        let ord = match get_resource_invocation_order(&config, &mut self.statement_parser) {
            Ok(ord) => ord,
            Err(e) => {
                return Err(e);
            },
        };
        let mut results: Vec<ResourceOpResult> = Vec::new();
        let n = ord.len();
        let mut i: usize = 0;
        #[verifier::loop_isolation(false)]
        while i < n
            invariant
                0 <= i <= n,
                self.config@ == old(self).config@,
                self.context.params_map() == old(self).context.params_map(),
                self.context.resources_map() == old(self).context.resources_map()
                    .union_prefer_right(map_of(results_payload_view(results@))),
                results@.len() == i,
                forall|j: int|
                    0 <= j < i ==> (#[trigger] results@[j].name@) == cfg.resources[ord@[j] as int].name,
                forall|j: int|
                    0 <= j < i ==> (#[trigger] results@[j].resource_type@) == cfg.resources[ord@[j] as int].resource_type,
            decreases n - i,
        {
            let idx = ord[i];
            let resource = &config.resources[idx];
            let properties = match invoke_property_expressions(
                &mut self.statement_parser,
                &self.context,
                &resource.properties,
            ) {
                Ok(p) => p,
                Err(e) => {
                    return Err(e);
                },
            };
            let lower = to_lowercase(&resource.resource_type);
            if !self.discovery.find(&lower) {
                return Err(DscError::ResourceNotFound(resource.resource_type.clone()));
            }
            let payload = if set_mode {
                match self.discovery.set(&lower, &properties, skip_test) {
                    Ok(p) => p,
                    Err(e) => {
                        return Err(e);
                    },
                }
            } else if test_mode {
                match self.discovery.test(&lower, &properties) {
                    Ok(p) => p,
                    Err(e) => {
                        return Err(e);
                    },
                }
            } else {
                match self.discovery.get(&lower, &properties) {
                    Ok(p) => p,
                    Err(e) => {
                        return Err(e);
                    },
                }
            };
            let ghost before_results = results@;
            self.context.set_resource_result(&resource.name, clone_value(&payload));
            results.push(
                ResourceOpResult {
                    name: resource.name.clone(),
                    resource_type: resource.resource_type.clone(),
                    result: payload,
                },
            );
            proof {
                assert(results_payload_view(results@).drop_last() =~= results_payload_view(
                    before_results,
                ));
                assert(results_payload_view(results@).last() == (resource.name@, payload@));
                assert(self.context.resources_map() =~= old(self).context.resources_map()
                    .union_prefer_right(map_of(results_payload_view(results@))));
            }
            i += 1;
        }
        proof {
            assert(resolver_ok_order(cfg.resources, ord@));
            assert(results_view(results@).len() == cfg.resources.len());
            assert forall|j: int| 0 <= j < results_view(results@).len() implies (
            #[trigger] results_view(results@)[j]).0 == cfg.resources[ord@[j] as int].name
                && results_view(results@)[j].1 == cfg.resources[ord@[j] as int].resource_type by {
            }
            assert(results_in_order(cfg, results_view(results@)));
        }
        Ok(results)
    }

    /// Invoke the get operation over the whole configuration.
    pub fn invoke_get(&mut self, _error_action: ErrorAction) -> (r: Result<
        ConfigurationGetResult,
        DscError,
    >)
        ensures
            final(self).raw_config() == old(self).raw_config(),
            final(self).context_params() == old(self).context_params(),
            spec_config_of_text(old(self).raw_config()) is None ==> r is Err,
            r matches Ok(res) ==> spec_config_of_text(old(self).raw_config()) matches Some(cfg)
                && results_in_order(cfg, results_view(res.results@)),
            spec_config_of_text(old(self).raw_config()) matches Some(cfg) && cfg.resources.len()
                == 0 ==> (r matches Ok(res) && res.results@.len() == 0),
            r matches Ok(res) ==> final(self).context_resources() == old(
                self,
            ).context_resources().union_prefer_right(map_of(results_payload_view(res.results@))),
            r is Ok ==> (spec_config_of_text(old(self).raw_config()) matches Some(cfg)
                && all_deps_resolve(cfg.resources)),
            spec_config_of_text(old(self).raw_config()) matches Some(cfg)
                && config_expression_free(cfg.resources) && !all_deps_resolve(cfg.resources)
                ==> (r matches Err(e) && e is Validation),
            spec_config_of_text(old(self).raw_config()) matches Some(cfg)
                && config_expression_free(cfg.resources) && distinct_names(cfg.resources)
                && all_deps_resolve(cfg.resources) && !(exists|ord: Seq<usize>| #[trigger]
            resolver_ok_order(cfg.resources, ord)) ==> (r matches Err(e) && e
                matches DscError::Validation(m) && message_prefixed(
                m@,
                "Circular dependency among resources: "@,
            )),
            r is Err ==> exists|published: Seq<(Seq<char>, SpecValue)>|
                final(self).context_resources() == old(self).context_resources()
                    .union_prefer_right(#[trigger] map_of(published)),
    {
        match self.run_operation(false, false, false) {
            Ok(results) => Ok(ConfigurationGetResult { results }),
            Err(e) => Err(e),
        }
    }

    /// Invoke the set operation over the whole configuration.
    pub fn invoke_set(&mut self, skip_test: bool, _error_action: ErrorAction) -> (r: Result<
        ConfigurationSetResult,
        DscError,
    >)
        ensures
            final(self).raw_config() == old(self).raw_config(),
            final(self).context_params() == old(self).context_params(),
            spec_config_of_text(old(self).raw_config()) is None ==> r is Err,
            r matches Ok(res) ==> spec_config_of_text(old(self).raw_config()) matches Some(cfg)
                && results_in_order(cfg, results_view(res.results@)),
            spec_config_of_text(old(self).raw_config()) matches Some(cfg) && cfg.resources.len()
                == 0 ==> (r matches Ok(res) && res.results@.len() == 0),
            r matches Ok(res) ==> final(self).context_resources() == old(
                self,
            ).context_resources().union_prefer_right(map_of(results_payload_view(res.results@))),
            r is Ok ==> (spec_config_of_text(old(self).raw_config()) matches Some(cfg)
                && all_deps_resolve(cfg.resources)),
            spec_config_of_text(old(self).raw_config()) matches Some(cfg)
                && config_expression_free(cfg.resources) && !all_deps_resolve(cfg.resources)
                ==> (r matches Err(e) && e is Validation),
            spec_config_of_text(old(self).raw_config()) matches Some(cfg)
                && config_expression_free(cfg.resources) && distinct_names(cfg.resources)
                && all_deps_resolve(cfg.resources) && !(exists|ord: Seq<usize>| #[trigger]
            resolver_ok_order(cfg.resources, ord)) ==> (r matches Err(e) && e
                matches DscError::Validation(m) && message_prefixed(
                m@,
                "Circular dependency among resources: "@,
            )),
            r is Err ==> exists|published: Seq<(Seq<char>, SpecValue)>|
                final(self).context_resources() == old(self).context_resources()
                    .union_prefer_right(#[trigger] map_of(published)),
    {
        match self.run_operation(true, false, skip_test) {
            Ok(results) => Ok(ConfigurationSetResult { results }),
            Err(e) => Err(e),
        }
    }

    /// Invoke the test operation over the whole configuration.
    pub fn invoke_test(&mut self, _error_action: ErrorAction) -> (r: Result<
        ConfigurationTestResult,
        DscError,
    >)
        ensures
            final(self).raw_config() == old(self).raw_config(),
            final(self).context_params() == old(self).context_params(),
            spec_config_of_text(old(self).raw_config()) is None ==> r is Err,
            r matches Ok(res) ==> spec_config_of_text(old(self).raw_config()) matches Some(cfg)
                && results_in_order(cfg, results_view(res.results@)),
            spec_config_of_text(old(self).raw_config()) matches Some(cfg) && cfg.resources.len()
                == 0 ==> (r matches Ok(res) && res.results@.len() == 0),
            r matches Ok(res) ==> final(self).context_resources() == old(
                self,
            ).context_resources().union_prefer_right(map_of(results_payload_view(res.results@))),
            r is Ok ==> (spec_config_of_text(old(self).raw_config()) matches Some(cfg)
                && all_deps_resolve(cfg.resources)),
            spec_config_of_text(old(self).raw_config()) matches Some(cfg)
                && config_expression_free(cfg.resources) && !all_deps_resolve(cfg.resources)
                ==> (r matches Err(e) && e is Validation),
            spec_config_of_text(old(self).raw_config()) matches Some(cfg)
                && config_expression_free(cfg.resources) && distinct_names(cfg.resources)
                && all_deps_resolve(cfg.resources) && !(exists|ord: Seq<usize>| #[trigger]
            resolver_ok_order(cfg.resources, ord)) ==> (r matches Err(e) && e
                matches DscError::Validation(m) && message_prefixed(
                m@,
                "Circular dependency among resources: "@,
            )),
            r is Err ==> exists|published: Seq<(Seq<char>, SpecValue)>|
                final(self).context_resources() == old(self).context_resources()
                    .union_prefer_right(#[trigger] map_of(published)),
    {
        match self.run_operation(false, true, false) {
            Ok(results) => Ok(ConfigurationTestResult { results }),
            Err(e) => Err(e),
        }
    }

    /// Invoke the export operation: harvest every instance of each resource
    /// and synthesize a new configuration from them, values escaped. A type
    /// written twice in the document is a validation error.
    pub fn invoke_export(&mut self, _error_action: ErrorAction) -> (r: Result<
        ConfigurationExportResult,
        DscError,
    >)
        ensures
            final(self).raw_config() == old(self).raw_config(),
            final(self).context_params() == old(self).context_params(),
            final(self).context_resources() == old(self).context_resources(),
            spec_config_of_text(old(self).raw_config()) is None ==> r is Err,
            spec_config_of_text(old(self).raw_config()) matches Some(cfg)
                && has_duplicate_types(cfg.resources) ==> (r matches Err(e) && e is Validation),
            spec_config_of_text(old(self).raw_config()) matches Some(cfg) && cfg.resources.len()
                == 0 ==> r is Ok,
            r matches Ok(res) ==> spec_config_of_text(old(self).raw_config()) matches Some(cfg) && {
                &&& !has_duplicate_types(cfg.resources)
                &&& res.result matches Some(conf)
                &&& (cfg.resources.len() == 0 ==> resources_view(conf.resources).len() == 0)
                &&& exists|iss: Seq<Seq<SpecValue>>|
                    {
                        &&& iss.len() == cfg.resources.len()
                        &&& (forall|i: int|
                            0 <= i < iss.len() ==> instances_exportable(#[trigger] iss[i]))
                        &&& resources_view(conf.resources) == #[trigger] export_synthesis(
                            cfg.resources,
                            iss,
                            cfg.resources.len() as int,
                        )
                    }
            },
    {
        let config = match self.validate_config() {
            Ok(c) => c,
            Err(e) => {
                return Err(e);
            },
        };
        let ghost cfg = config@;
        let duplicates = Self::find_duplicate_resource_types(&config);
        if duplicates.len() > 0 {
            let mut msg = String::from_str("Resource(s) ");
            let mut d: usize = 0;
            let m = duplicates.len();
            #[verifier::loop_isolation(false)]
            while d < m
                invariant
                    0 <= d <= m,
                decreases m - d,
            {
                if d > 0 {
                    msg.append(",");
                }
                msg.append(duplicates[d].as_str());
                d += 1;
            }
            msg.append(" specified multiple times");
            return Err(DscError::Validation(msg));
        }
        let mut conf = Configuration { parameters: None, resources: Vec::new(), metadata: None };
        let ghost mut iss: Seq<Seq<SpecValue>> = Seq::empty();
        let n = config.resources.len();
        let mut i: usize = 0;
        #[verifier::loop_isolation(false)]
        while i < n
            invariant
                0 <= i <= n,
                self.config@ == old(self).config@,
                self.context.params_map() == old(self).context.params_map(),
                self.context.resources_map() == old(self).context.resources_map(),
                n == 0 ==> conf.resources@.len() == 0,
                iss.len() == i,
                forall|j: int| 0 <= j < i ==> instances_exportable(#[trigger] iss[j]),
                resources_view(conf.resources) == export_synthesis(cfg.resources, iss, i as int),
            decreases n - i,
        {
            let resource = &config.resources[i];
            let lower = to_lowercase(&resource.resource_type);
            if !self.discovery.find(&lower) {
                return Err(DscError::ResourceNotFound(resource.resource_type.clone()));
            }
            let instances = match self.discovery.export(&lower, &resource.properties) {
                Ok(vs) => vs,
                Err(e) => {
                    return Err(e);
                },
            };
            let ghost before = conf.resources@.len() as int;
            let ghost prev = resources_view(conf.resources);
            match add_resource_export_results_to_configuration(
                &resource.resource_type,
                &instances,
                &mut conf,
            ) {
                Ok(_) => {
                },
                Err(e) => {
                    return Err(e);
                },
            }
            proof {
                let ghost inst = crate::doc::values_view(instances);
                let ghost iss2 = iss.push(inst);
                lemma_export_synthesis_prefix(cfg.resources, iss, iss2, i as int);
                assert(export_synthesis(cfg.resources, iss2, i as int + 1) == export_synthesis(
                    cfg.resources,
                    iss2,
                    i as int,
                ) + export_block(cfg.resources[i as int], inst));
                assert forall|j: int| 0 <= j < conf.resources@.len() implies resources_view(
                    conf.resources,
                )[j] =~~= export_synthesis(cfg.resources, iss2, i as int + 1)[j] by {
                    if j >= before {
                        let kk = j - before;
                        let iv = instances@[kk]@;
                        assert(inst[kk] == instances[kk]@);
                        assert(resources_view(conf.resources)[before + kk].resource_type
                            == resource.resource_type@);
                        assert(cfg.resources[i as int].resource_type == resource.resource_type@);
                        assert(export_block(cfg.resources[i as int], inst)[kk].name
                            == export_name(resource.resource_type@, kk));
                    } else {
                        assert(resources_view(conf.resources)[j] == prev[j]);
                    }
                }
                assert(resources_view(conf.resources) =~~= export_synthesis(
                    cfg.resources,
                    iss2,
                    i as int + 1,
                ));
                iss = iss2;
            }
            i += 1;
        }
        Ok(ConfigurationExportResult { result: Some(conf) })
    }
}

} // verus!
