//! The reverse branch of term-definition creation: building an
//! inverse-direction property mapping from one local-context entry.

use vstd::prelude::*;

use crate::context::{Context, CtxView, DefinedMap};
use crate::definition::{spec_parse_container, BuilderView, ContainerItem, DefinitionBuilder};
use crate::error::ErrorCode;
use crate::iri::{
    has_form_of_keyword, is_absolute_or_blank, is_absolute_ref_or_blank_node_ident, keyword_form,
};
use crate::json::{assoc_lookup, members_view, obj_contains_key, obj_get, Json, JsonValue, Nullable};
use crate::processor::{ExpandInput, ExpandIri, LoadRemoteDocument, Processor};

verus! {

/// What one run of the reverse branch leaves behind: its result, and the
/// active context and defined-map after it (expansion may have installed
/// dependent definitions even on a failing run).
pub ghost struct ReverseOutcome {
    pub result: Result<(), ErrorCode>,
    pub active: CtxView,
    pub defined: Map<Seq<char>, bool>,
}

/// Container validation for reverse properties: if the entry has `@container`,
/// parse it; the parsed mapping must reduce to null, a singleton
/// set-container, or a singleton index-container, and is stored verbatim.
pub open spec fn spec_process_container(
    members: Seq<(Seq<char>, Json)>,
    b: BuilderView,
) -> Result<BuilderView, ErrorCode> {
    match assoc_lookup(members, "@container"@) {
        None => Ok(b),
        Some(cv) => match spec_parse_container(cv) {
            Err(e) => Err(e),
            Ok(parsed) => {
                let accepted = match parsed {
                    None => true,
                    Some(items) => items.len() == 1 && (items[0] == ContainerItem::SetKw
                        || items[0] == ContainerItem::IndexKw),
                };
                if accepted {
                    Ok(BuilderView { container: parsed, ..b })
                } else {
                    Err(ErrorCode::InvalidReverseProperty)
                }
            },
        },
    }
}

/// The reverse branch, as a function of the expander's behaviour: reject
/// `@id`/`@nest` co-occurrence; require a string `@reverse`; silently accept a
/// keyword-shaped value; expand the value and require an absolute or
/// blank-node identifier; validate the container; then install the definition
/// under `term` and mark it complete.
pub open spec fn spec_run_for_reverse<E: ExpandIri>(
    e: E,
    active: CtxView,
    local: Json,
    base: Seq<char>,
    term: Seq<char>,
    defined: Map<Seq<char>, bool>,
    members: Seq<(Seq<char>, Json)>,
    reverse: Json,
    builder: BuilderView,
) -> ReverseOutcome {
    if assoc_lookup(members, "@id"@) is Some || assoc_lookup(members, "@nest"@) is Some {
        ReverseOutcome { result: Err(ErrorCode::InvalidReverseProperty), active, defined }
    } else {
        match reverse {
            Json::Text(s) => {
                if keyword_form(s) {
                    ReverseOutcome { result: Ok(()), active, defined }
                } else {
                    let out = e.expansion(
                        ExpandInput { active, local, base, defined, value: s, vocab: true },
                    );
                    match out.result {
                        Err(err) => ReverseOutcome {
                            result: Err(err),
                            active: out.active,
                            defined: out.defined,
                        },
                        Ok(None) => ReverseOutcome {
                            result: Err(ErrorCode::InvalidIriMapping),
                            active: out.active,
                            defined: out.defined,
                        },
                        Ok(Some(iri)) => {
                            if is_absolute_or_blank(iri) {
                                match spec_process_container(
                                    members,
                                    BuilderView { iri: Some(iri), ..builder },
                                ) {
                                    Err(err) => ReverseOutcome {
                                        result: Err(err),
                                        active: out.active,
                                        defined: out.defined,
                                    },
                                    Ok(b2) => {
                                        let td = crate::definition::TdView {
                                            iri,
                                            reverse: true,
                                            container: b2.container,
                                            protected: b2.protected,
                                        };
                                        ReverseOutcome {
                                            result: Ok(()),
                                            active: out.active.push_term(term, Some(td)),
                                            defined: out.defined.insert(term, true),
                                        }
                                    },
                                }
                            } else {
                                ReverseOutcome {
                                    result: Err(ErrorCode::InvalidIriMapping),
                                    active: out.active,
                                    defined: out.defined,
                                }
                            }
                        },
                    }
                }
            },
            _ => ReverseOutcome { result: Err(ErrorCode::InvalidIriMapping), active, defined },
        }
    }
}

/// Processes the `@container` entry of a reverse definition, if present.
pub fn process_container(value: &Vec<(String, JsonValue)>, definition: &mut DefinitionBuilder) -> (r:
    Result<(), ErrorCode>)
    ensures
        ({
            let sp = spec_process_container(members_view(value@), old(definition)@);
            match sp {
                Ok(b) => r is Ok && final(definition)@ == b,
                Err(e) => r == Err::<(), ErrorCode>(e) && final(definition)@ == old(definition)@,
            }
        }),
{
    let cv = match obj_get(value, "@container") {
        None => {
            return Ok(());
        },
        Some(cv) => cv,
    };
    let parsed = match crate::definition::parse_container(cv) {
        Ok(c) => c,
        Err(e) => {
            return Err(e);
        },
    };
    let accepted = match &parsed {
        Nullable::Null => true,
        Nullable::Value(cont) => match cont.get_single_item() {
            Some(it) => match it {
                ContainerItem::SetKw => true,
                ContainerItem::IndexKw => true,
                _ => false,
            },
            None => false,
        },
    };
    if accepted {
        definition.set_container(parsed);
        Ok(())
    } else {
        Err(ErrorCode::InvalidReverseProperty)
    }
}

/// Runs the rest of term-definition creation for an entry whose value object
/// holds `@reverse`: on success the definition is installed into
/// `active_context` under `term` and `term` is marked complete in `defined`.
pub fn run_for_reverse<L: LoadRemoteDocument, E: ExpandIri>(
    processor: &Processor<L, E>,
    active_context: &mut Context,
    local_context: &JsonValue,
    base: &str,
    term: &str,
    defined: &mut DefinedMap,
    value: &Vec<(String, JsonValue)>,
    reverse: &JsonValue,
    definition: DefinitionBuilder,
) -> (r: Result<(), ErrorCode>)
    ensures
        ({
            let out = spec_run_for_reverse(
                processor.spec_expander(),
                old(active_context)@,
                local_context@,
                base@,
                term@,
                old(defined)@,
                members_view(value@),
                reverse@,
                definition@,
            );
            r == out.result && final(active_context)@ == out.active && final(defined)@
                == out.defined
        }),
{
    proof {
        crate::processor::lemma_processor_views(processor);
    }
    // A reverse mapping is defined exclusively by `@reverse`.
    if obj_contains_key(value, "@id") || obj_contains_key(value, "@nest") {
        return Err(ErrorCode::InvalidReverseProperty);
    }
    // The `@reverse` value must be a string.
    let reverse_str = match reverse {
        JsonValue::String(s) => s,
        _ => {
            return Err(ErrorCode::InvalidIriMapping);
        },
    };
    // A keyword-shaped value is reserved: accepted silently, nothing installed.
    if has_form_of_keyword(reverse_str.as_str()) {
        return Ok(());
    }
    // Expand with vocabulary-relative expansion enabled.
    let mut definition = definition;
    let expanded = match processor.expander.expand(
        active_context,
        local_context,
        base,
        defined,
        reverse_str.as_str(),
        true,
    ) {
        Err(e) => {
            return Err(e);
        },
        Ok(None) => {
            return Err(ErrorCode::InvalidIriMapping);
        },
        Ok(Some(s)) => s,
    };
    // Only an absolute identifier or a blank-node identifier may be installed.
    if is_absolute_ref_or_blank_node_ident(expanded.as_str()) {
        definition.set_iri(expanded);
    } else {
        return Err(ErrorCode::InvalidIriMapping);
    }
    match process_container(value, &mut definition) {
        Ok(()) => {},
        Err(e) => {
            return Err(e);
        },
    }
    definition.set_reverse(true);
    let built = definition.build();
    active_context.insert_term_definition(term.to_owned(), Nullable::Value(built));
    defined.set(term.to_owned(), true);
    Ok(())
}

/// An entry object that also holds `@id` or `@nest` is always rejected as an
/// invalid reverse property, whatever its container says.
pub proof fn lemma_reverse_with_id_rejected<E: ExpandIri>(
    e: E,
    active: CtxView,
    local: Json,
    base: Seq<char>,
    term: Seq<char>,
    defined: Map<Seq<char>, bool>,
    members: Seq<(Seq<char>, Json)>,
    reverse: Json,
    builder: BuilderView,
)
    requires
        assoc_lookup(members, "@id"@) is Some || assoc_lookup(members, "@nest"@) is Some,
    ensures
        spec_run_for_reverse(e, active, local, base, term, defined, members, reverse, builder)
            == (ReverseOutcome {
            result: Err(ErrorCode::InvalidReverseProperty),
            active,
            defined,
        }),
{
}

/// An `@reverse` value that expands to an explicit "no value" is always an
/// invalid identifier mapping.
pub proof fn lemma_reverse_null_expansion_rejected<E: ExpandIri>(
    e: E,
    active: CtxView,
    local: Json,
    base: Seq<char>,
    term: Seq<char>,
    defined: Map<Seq<char>, bool>,
    members: Seq<(Seq<char>, Json)>,
    s: Seq<char>,
    builder: BuilderView,
)
    requires
        assoc_lookup(members, "@id"@) is None,
        assoc_lookup(members, "@nest"@) is None,
        !keyword_form(s),
        e.expansion(
            ExpandInput { active, local, base, defined, value: s, vocab: true },
        ).result matches Ok(o) && o is None,
    ensures
        spec_run_for_reverse(
            e,
            active,
            local,
            base,
            term,
            defined,
            members,
            Json::Text(s),
            builder,
        ).result == Err::<(), ErrorCode>(ErrorCode::InvalidIriMapping),
{
}

} // verus!
