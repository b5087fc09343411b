use ld_context::context::Context;
use ld_context::definition::{ContainerItem, DefinitionBuilder};
use ld_context::error::ErrorCode;
use ld_context::iri::{
    has_form_of_keyword, is_absolute_ref_or_blank_node_ident, is_iri_str, resolve_reference,
};
use ld_context::json::{JsonValue, Nullable};
use ld_context::merge::{extract_context, join_value, OptionalParams};
use ld_context::processor::{FixedExpander, FixedLoader, Processor, RemoteDocument};

const BASE: &str = "http://example.com/base";

fn fields(
    d: &ld_context::definition::TermDefinition,
) -> (String, bool, Option<Vec<ContainerItem>>) {
    let c = match d.container() {
        Nullable::Null => None,
        Nullable::Value(ct) => Some(ct.items().clone()),
    };
    (d.iri().clone(), d.is_reverse(), c)
}

fn obj(members: Vec<(&str, JsonValue)>) -> JsonValue {
    JsonValue::Object(members.into_iter().map(|(k, v)| (k.to_string(), v)).collect())
}

fn s(v: &str) -> JsonValue {
    JsonValue::String(v.to_string())
}

fn processor() -> Processor<FixedLoader, FixedExpander> {
    Processor::new(FixedLoader::new(), FixedExpander::new(), 10)
}

fn merge_default(
    p: &mut Processor<FixedLoader, FixedExpander>,
    active: &Context,
    local: &JsonValue,
) -> Result<Context, ErrorCode> {
    join_value(p, active, local, BASE, OptionalParams::new())
}

fn reverse_entry(term: &str, members: Vec<(&str, JsonValue)>) -> JsonValue {
    obj(vec![(term, obj(members))])
}

fn protected_context() -> Context {
    let mut ctx = Context::new();
    let mut b = DefinitionBuilder::new();
    b.set_iri("http://example.com/guarded".to_string());
    b.set_protected(true);
    ctx.insert_term_definition("guarded".to_string(), Nullable::Value(b.build()));
    ctx
}

#[test]
fn reverse_with_id_always_fails() {
    let mut p = processor();
    let local = reverse_entry(
        "knows",
        vec![("@reverse", s("ex:prop")), ("@id", s("ex:other"))],
    );
    let r = merge_default(&mut p, &Context::new(), &local);
    assert_eq!(r.unwrap_err(), ErrorCode::InvalidReverseProperty);
}

#[test]
fn reverse_with_nest_fails_regardless_of_container() {
    let mut p = processor();
    let local = reverse_entry(
        "knows",
        vec![
            ("@reverse", s("ex:prop")),
            ("@nest", s("ex:other")),
            ("@container", s("@set")),
        ],
    );
    let r = merge_default(&mut p, &Context::new(), &local);
    assert_eq!(r.unwrap_err(), ErrorCode::InvalidReverseProperty);
}

fn reverse_with_container(container: JsonValue) -> JsonValue {
    reverse_entry(
        "knows",
        vec![
            ("@reverse", s("http://example.com/knows")),
            ("@container", container),
        ],
    )
}

#[test]
fn reverse_container_set_succeeds() {
    let mut p = processor();
    let r = merge_default(&mut p, &Context::new(), &reverse_with_container(s("@set"))).unwrap();
    let def = match r.get_term_definition("knows").unwrap() {
        Nullable::Value(d) => fields(d),
        Nullable::Null => panic!("explicit null"),
    };
    assert_eq!(def.0, "http://example.com/knows");
    assert!(def.1);
    assert_eq!(def.2, Some(vec![ContainerItem::SetKw]));
}

#[test]
fn reverse_container_index_succeeds() {
    let mut p = processor();
    let r = merge_default(&mut p, &Context::new(), &reverse_with_container(s("@index"))).unwrap();
    assert!(r.get_term_definition("knows").is_some());
}

#[test]
fn reverse_container_null_succeeds_with_no_container() {
    let mut p = processor();
    let r =
        merge_default(&mut p, &Context::new(), &reverse_with_container(JsonValue::Null)).unwrap();
    let def = match r.get_term_definition("knows").unwrap() {
        Nullable::Value(d) => fields(d),
        Nullable::Null => panic!("explicit null"),
    };
    assert_eq!(def.2, None);
}

#[test]
fn reverse_container_absent_succeeds_with_no_container() {
    let mut p = processor();
    let local = reverse_entry("knows", vec![("@reverse", s("http://example.com/knows"))]);
    let r = merge_default(&mut p, &Context::new(), &local).unwrap();
    let def = match r.get_term_definition("knows").unwrap() {
        Nullable::Value(d) => fields(d),
        Nullable::Null => panic!("explicit null"),
    };
    assert_eq!(def.2, None);
}

#[test]
fn reverse_container_rejected_kinds() {
    for kw in ["@list", "@language", "@type", "@id", "@graph"] {
        let mut p = processor();
        let r = merge_default(&mut p, &Context::new(), &reverse_with_container(s(kw)));
        assert_eq!(r.unwrap_err(), ErrorCode::InvalidReverseProperty, "{kw}");
    }
}

#[test]
fn reverse_container_multi_item_rejected() {
    let mut p = processor();
    let multi = JsonValue::Array(vec![s("@set"), s("@index")]);
    let r = merge_default(&mut p, &Context::new(), &reverse_with_container(multi));
    assert_eq!(r.unwrap_err(), ErrorCode::InvalidReverseProperty);
}

#[test]
fn reverse_container_unrecognized_is_invalid_container_mapping() {
    let mut p = processor();
    let r = merge_default(&mut p, &Context::new(), &reverse_with_container(JsonValue::Number));
    assert_eq!(r.unwrap_err(), ErrorCode::InvalidContainerMapping);
}

#[test]
fn reverse_absolute_iri_installs_definition() {
    let mut p = processor();
    let local = reverse_entry("knows", vec![("@reverse", s("http://example.com/knows"))]);
    let r = merge_default(&mut p, &Context::new(), &local).unwrap();
    let def = match r.get_term_definition("knows").unwrap() {
        Nullable::Value(d) => fields(d),
        Nullable::Null => panic!("explicit null"),
    };
    assert_eq!(def.0, "http://example.com/knows");
    assert!(def.1);
}

#[test]
fn reverse_blank_node_installs_definition() {
    let mut p = processor();
    let local = reverse_entry("knows", vec![("@reverse", s("_:b0"))]);
    let r = merge_default(&mut p, &Context::new(), &local).unwrap();
    let def = match r.get_term_definition("knows").unwrap() {
        Nullable::Value(d) => fields(d),
        Nullable::Null => panic!("explicit null"),
    };
    assert_eq!(def.0, "_:b0");
}

#[test]
fn reverse_expansion_to_no_value_fails() {
    let mut loader = FixedLoader::new();
    let mut expander = FixedExpander::new();
    expander.add("ex:gone".to_string(), Nullable::Null);
    let mut p = Processor::new(loader, expander, 10);
    let local = reverse_entry("knows", vec![("@reverse", s("ex:gone"))]);
    let r = merge_default(&mut p, &Context::new(), &local);
    assert_eq!(r.unwrap_err(), ErrorCode::InvalidIriMapping);
}

#[test]
fn reverse_relative_expansion_fails() {
    let mut expander = FixedExpander::new();
    expander.add(
        "rel".to_string(),
        Nullable::Value("not-an-absolute-identifier".to_string()),
    );
    let mut p = Processor::new(FixedLoader::new(), expander, 10);
    let local = reverse_entry("knows", vec![("@reverse", s("rel"))]);
    let r = merge_default(&mut p, &Context::new(), &local);
    assert_eq!(r.unwrap_err(), ErrorCode::InvalidIriMapping);
}

#[test]
fn reverse_non_string_fails() {
    let mut p = processor();
    let local = reverse_entry("knows", vec![("@reverse", JsonValue::Number)]);
    let r = merge_default(&mut p, &Context::new(), &local);
    assert_eq!(r.unwrap_err(), ErrorCode::InvalidIriMapping);
}

#[test]
fn reverse_keyword_shaped_is_silently_skipped() {
    let mut p = processor();
    let local = reverse_entry("knows", vec![("@reverse", s("@future"))]);
    let r = merge_default(&mut p, &Context::new(), &local).unwrap();
    assert!(r.get_term_definition("knows").is_none());
}

#[test]
fn null_on_protected_context_fails_without_override() {
    let mut p = processor();
    let r = merge_default(&mut p, &protected_context(), &JsonValue::Null);
    assert_eq!(r.unwrap_err(), ErrorCode::InvalidContextNullification);
}

#[test]
fn null_with_override_resets_to_empty() {
    let mut p = processor();
    let r = join_value(
        &mut p,
        &protected_context(),
        &JsonValue::Null,
        BASE,
        OptionalParams::new().override_protected(true),
    )
    .unwrap();
    assert!(r.get_term_definition("guarded").is_none());
    assert!(!r.has_previous_context());
}

#[test]
fn null_without_propagate_chains_previous_context() {
    let mut p = processor();
    let r = join_value(
        &mut p,
        &Context::new(),
        &JsonValue::Null,
        BASE,
        OptionalParams::new().propagate(false),
    )
    .unwrap();
    assert!(r.has_previous_context());
}

#[test]
fn propagate_false_entry_is_honored() {
    let mut p = processor();
    let local = obj(vec![("@propagate", JsonValue::Bool(false))]);
    let active = {
        let mut c = Context::new();
        let prev = Context::new();
        c.set_previous(prev);
        c
    };
    let r = merge_default(&mut p, &active, &local).unwrap();
    assert!(r.has_previous_context());
}

#[test]
fn non_boolean_propagate_is_ignored() {
    let mut p = processor();
    let local = obj(vec![("@propagate", s("yes"))]);
    let r = merge_default(&mut p, &Context::new(), &local);
    assert!(r.is_ok());
}

fn doc(iri: &str, content: JsonValue) -> RemoteDocument {
    RemoteDocument::new(iri.to_string(), content).expect("valid identifier")
}

#[test]
fn remote_context_is_fetched_and_merged() {
    let mut loader = FixedLoader::new();
    loader.add_document(doc(
        "http://example.com/ctx",
        obj(vec![(
            "@context",
            reverse_entry("knows", vec![("@reverse", s("http://example.com/knows"))]),
        )]),
    ));
    let mut p = Processor::new(loader, FixedExpander::new(), 10);
    let r = merge_default(&mut p, &Context::new(), &s("http://example.com/ctx")).unwrap();
    assert!(r.get_term_definition("knows").is_some());
}

#[test]
fn same_remote_context_is_loaded_once() {
    // The loader hands each document out a single time: were the second entry
    // fetched instead of served from the cache, the merge would fail.
    let mut loader = FixedLoader::new();
    loader.add_document(doc("http://example.com/ctx", obj(vec![("@context", obj(vec![]))])));
    let mut p = Processor::new(loader, FixedExpander::new(), 10);
    let local = JsonValue::Array(vec![s("http://example.com/ctx"), s("http://example.com/ctx")]);
    let r = merge_default(&mut p, &Context::new(), &local);
    assert!(r.is_ok());
}

#[test]
fn remote_chain_over_limit_overflows() {
    let mut loader = FixedLoader::new();
    loader.add_document(doc("http://example.com/a", obj(vec![("@context", obj(vec![]))])));
    loader.add_document(doc("http://example.com/b", obj(vec![("@context", obj(vec![]))])));
    let mut p = Processor::new(loader, FixedExpander::new(), 2);
    let local = JsonValue::Array(vec![
        s("http://example.com/a"),
        s("http://example.com/b"),
        s("http://example.com/c"),
    ]);
    let r = merge_default(&mut p, &Context::new(), &local);
    assert_eq!(r.unwrap_err(), ErrorCode::ContextOverflow);
}

#[test]
fn missing_remote_document_fails_loading() {
    let mut p = processor();
    let r = merge_default(&mut p, &Context::new(), &s("http://example.com/missing"));
    assert_eq!(r.unwrap_err(), ErrorCode::LoadingRemoteContextFailed);
}

#[test]
fn remote_document_without_context_member_is_invalid() {
    let mut loader = FixedLoader::new();
    loader.add_document(doc("http://example.com/ctx", obj(vec![("other", s("x"))])));
    let mut p = Processor::new(loader, FixedExpander::new(), 10);
    let r = merge_default(&mut p, &Context::new(), &s("http://example.com/ctx"));
    assert_eq!(r.unwrap_err(), ErrorCode::InvalidRemoteContext);
}

#[test]
fn malformed_remote_reference_is_uncategorized() {
    let mut p = processor();
    let r = merge_default(&mut p, &Context::new(), &s("ht tp://broken"));
    assert_eq!(r.unwrap_err(), ErrorCode::Uncategorized);
}

#[test]
fn invalid_base_is_uncategorized() {
    let mut p = processor();
    let r = join_value(
        &mut p,
        &Context::new(),
        &obj(vec![]),
        "no base",
        OptionalParams::new(),
    );
    assert_eq!(r.unwrap_err(), ErrorCode::Uncategorized);
}

#[test]
fn relative_remote_reference_resolves_against_base() {
    let mut loader = FixedLoader::new();
    loader.add_document(doc("http://example.com/ctx", obj(vec![("@context", obj(vec![]))])));
    let mut p = Processor::new(loader, FixedExpander::new(), 10);
    let r = merge_default(&mut p, &Context::new(), &s("ctx"));
    assert!(r.is_ok());
}

#[test]
fn number_entry_is_invalid_local_context() {
    let mut p = processor();
    let r = merge_default(&mut p, &Context::new(), &JsonValue::Number);
    assert_eq!(r.unwrap_err(), ErrorCode::InvalidLocalContext);
}

#[test]
fn boolean_entry_is_invalid_local_context() {
    let mut p = processor();
    let local = JsonValue::Array(vec![JsonValue::Bool(true)]);
    let r = merge_default(&mut p, &Context::new(), &local);
    assert_eq!(r.unwrap_err(), ErrorCode::InvalidLocalContext);
}

#[test]
fn empty_object_is_a_noop() {
    let mut p = processor();
    let local = reverse_entry("knows", vec![("@reverse", s("http://example.com/knows"))]);
    let active = merge_default(&mut p, &Context::new(), &local).unwrap();
    let merged = merge_default(&mut p, &active, &obj(vec![])).unwrap();
    let before = match active.get_term_definition("knows").unwrap() {
        Nullable::Value(d) => fields(d),
        Nullable::Null => panic!(),
    };
    let after = match merged.get_term_definition("knows").unwrap() {
        Nullable::Value(d) => fields(d),
        Nullable::Null => panic!(),
    };
    assert_eq!(before, after);
}

#[test]
fn array_merge_equals_fold() {
    let a = reverse_entry("x", vec![("@reverse", s("http://example.com/a"))]);
    let b = reverse_entry("y", vec![("@reverse", s("http://example.com/b"))]);
    let mut p = processor();
    let together = merge_default(
        &mut p,
        &Context::new(),
        &JsonValue::Array(vec![
            reverse_entry("x", vec![("@reverse", s("http://example.com/a"))]),
            reverse_entry("y", vec![("@reverse", s("http://example.com/b"))]),
        ]),
    )
    .unwrap();
    let first = merge_default(&mut p, &Context::new(), &a).unwrap();
    let folded = merge_default(&mut p, &first, &b).unwrap();
    for term in ["x", "y"] {
        let lhs = match together.get_term_definition(term).unwrap() {
            Nullable::Value(d) => fields(d),
            Nullable::Null => panic!(),
        };
        let rhs = match folded.get_term_definition(term).unwrap() {
            Nullable::Value(d) => fields(d),
            Nullable::Null => panic!(),
        };
        assert_eq!(lhs, rhs);
    }
}

#[test]
fn keyword_form_shapes() {
    assert!(has_form_of_keyword("@type"));
    assert!(has_form_of_keyword("@future"));
    assert!(!has_form_of_keyword("@"));
    assert!(!has_form_of_keyword("@foo1"));
    assert!(!has_form_of_keyword("type"));
}

#[test]
fn identifier_classification() {
    assert!(is_absolute_ref_or_blank_node_ident("_:b0"));
    assert!(is_absolute_ref_or_blank_node_ident("http://example.com/x"));
    assert!(!is_absolute_ref_or_blank_node_ident("relative/path"));
    assert!(is_iri_str("http://example.com/x"));
    assert!(!is_iri_str("no scheme here"));
}

#[test]
fn reference_resolution_joins_paths() {
    let r = resolve_reference("b", "http://example.com/a/").unwrap();
    assert_eq!(r, "http://example.com/a/b");
    assert!(resolve_reference("ht tp://x", "http://example.com/").is_none());
}

#[test]
fn defined_map_records_latest_flag() {
    let mut dm = ld_context::context::DefinedMap::new();
    assert_eq!(dm.get("knows"), None);
    dm.set("knows".to_string(), false);
    assert_eq!(dm.get("knows"), Some(false));
    dm.set("knows".to_string(), true);
    assert_eq!(dm.get("knows"), Some(true));
    assert_eq!(dm.get("other"), None);
}

#[test]
fn container_parsing_shapes() {
    let parsed = ld_context::definition::parse_container(&s("@language")).unwrap();
    match parsed {
        Nullable::Value(c) => assert_eq!(c.get_single_item(), Some(ContainerItem::LanguageKw)),
        Nullable::Null => panic!("not null"),
    }
    let parsed = ld_context::definition::parse_container(&JsonValue::Null).unwrap();
    assert!(matches!(parsed, Nullable::Null));
    let arr = JsonValue::Array(vec![s("@graph"), s("@id")]);
    let parsed = ld_context::definition::parse_container(&arr).unwrap();
    match parsed {
        Nullable::Value(c) => {
            assert_eq!(c.items().as_slice(), &[ContainerItem::GraphKw, ContainerItem::IdKw]);
            assert_eq!(c.get_single_item(), None);
        },
        Nullable::Null => panic!("not null"),
    }
    let bad = ld_context::definition::parse_container(&JsonValue::Bool(true));
    assert_eq!(bad.unwrap_err(), ErrorCode::InvalidContainerMapping);
    let bad = ld_context::definition::parse_container(&JsonValue::Array(vec![s("@sets")]));
    assert_eq!(bad.unwrap_err(), ErrorCode::InvalidContainerMapping);
}

#[test]
fn context_member_extraction() {
    let doc = obj(vec![("@context", obj(vec![]))]);
    assert!(extract_context(&doc).is_ok());
    let doc2 = obj(vec![("other", s("x"))]);
    assert_eq!(
        extract_context(&doc2).unwrap_err(),
        ErrorCode::InvalidRemoteContext
    );
    assert_eq!(
        extract_context(&s("nope")).unwrap_err(),
        ErrorCode::InvalidRemoteContext
    );
}
