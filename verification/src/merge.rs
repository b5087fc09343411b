//! The context-merge algorithm: combining an active context with a local
//! context value, dereferencing remote references with per-call caching and
//! overflow protection.

use vstd::prelude::*;

use crate::context::{Context, CtxView};
use crate::definition::BuilderView;
use crate::error::ErrorCode;
use crate::iri::{is_iri, is_iri_reference, keyword_form, resolved};
use crate::json::{
    assoc_lookup, lemma_jview_seq_index, lemma_jview_seq_len, lemma_members_view_skip_step,
    members_view, obj_get, Json, JsonValue,
};
use crate::processor::{DocumentCache, ExpandIri, LoadRemoteDocument, Processor, RemoteDocument};
use crate::reverse::{run_for_reverse, spec_run_for_reverse, ReverseOutcome};

verus! {

/// Optional parameters for one merge call.
pub ghost struct ParamsView {
    pub remote_contexts: Seq<String>,
    pub override_protected: bool,
    pub propagate: bool,
}

/// Optional parameters for the context-merge algorithm.
#[derive(Debug)]
pub struct OptionalParams {
    remote_contexts: Vec<String>,
    override_protected: bool,
    propagate: bool,
}

impl View for OptionalParams {
    type V = ParamsView;

    closed spec fn view(&self) -> ParamsView {
        ParamsView {
            remote_contexts: self.remote_contexts@,
            override_protected: self.override_protected,
            propagate: self.propagate,
        }
    }
}

impl OptionalParams {
    /// The defaults: no visited remote contexts, no protected override, and
    /// propagation on.
    pub fn new() -> (r: OptionalParams)
        ensures
            r@ == (ParamsView {
                remote_contexts: Seq::<String>::empty(),
                override_protected: false,
                propagate: true,
            }),
    {
        let r = OptionalParams {
            remote_contexts: Vec::new(),
            override_protected: false,
            propagate: true,
        };
        proof {
            assert(r.remote_contexts@ =~= Seq::<String>::empty());
        }
        r
    }

    /// Sets the "override protected" flag.
    pub fn override_protected(self, override_protected: bool) -> (r: OptionalParams)
        ensures
            r@ == (ParamsView { override_protected, ..self@ }),
    {
        OptionalParams { override_protected, ..self }
    }

    /// Sets the "propagate" flag.
    pub fn propagate(self, propagate: bool) -> (r: OptionalParams)
        ensures
            r@ == (ParamsView { propagate, ..self@ }),
    {
        OptionalParams { propagate, ..self }
    }
}

impl Default for OptionalParams {
    fn default() -> (r: OptionalParams)
        ensures
            r@ == (ParamsView {
                remote_contexts: Seq::<String>::empty(),
                override_protected: false,
                propagate: true,
            }),
    {
        OptionalParams::new()
    }
}

/// Saturating difference, the measure of remaining remote-context headroom.
pub open spec fn nat_minus(a: nat, b: nat) -> nat {
    if a >= b {
        (a - b) as nat
    } else {
        0
    }
}

/// A local context value as a sequence of entries: a scalar is a one-element
/// sequence; an array contributes its elements in order.
pub open spec fn entries_of(v: Json) -> Seq<Json> {
    match v {
        Json::Arr(items) => items,
        _ => seq![v],
    }
}

/// The propagate flag an entry value establishes: a local context object
/// carrying a boolean `@propagate` overrides the inherited flag; a non-boolean
/// value is deliberately ignored.
pub open spec fn effective_propagate(v: Json, inherited: bool) -> bool {
    match v {
        Json::Obj(ms) => match assoc_lookup(ms, "@propagate"@) {
            Some(Json::Bool(b)) => b,
            _ => inherited,
        },
        _ => inherited,
    }
}

/// A null entry: forbidden while the pre-merge active context holds protected
/// terms and the override flag is off; otherwise the running result is reset
/// to an empty context, chaining the replaced result when propagation is off.
pub open spec fn spec_null_entry(
    active0: CtxView,
    result: CtxView,
    override_protected: bool,
    propagate: bool,
) -> Result<CtxView, ErrorCode> {
    if !override_protected && active0.has_protected() {
        Err(ErrorCode::InvalidContextNullification)
    } else if !propagate {
        Ok(CtxView::empty().with_previous(result))
    } else {
        Ok(CtxView::empty())
    }
}

/// One member of a local context object: keyword-shaped keys are no terms, a
/// value object holding `@reverse` runs the reverse branch (with the term
/// recorded as in progress first), and anything else is left to the forward
/// definition pass.
pub open spec fn spec_member_step<E: ExpandIri>(
    e: E,
    result: CtxView,
    obj: Json,
    base: Seq<char>,
    k: Seq<char>,
    v: Json,
    defined: Map<Seq<char>, bool>,
) -> ReverseOutcome {
    if keyword_form(k) {
        ReverseOutcome { result: Ok(()), active: result, defined }
    } else {
        match v {
            Json::Obj(vms) => match assoc_lookup(vms, "@reverse"@) {
                Some(rev) => spec_run_for_reverse(
                    e,
                    result,
                    obj,
                    base,
                    k,
                    defined.insert(k, false),
                    vms,
                    rev,
                    BuilderView::init(),
                ),
                None => ReverseOutcome { result: Ok(()), active: result, defined },
            },
            _ => ReverseOutcome { result: Ok(()), active: result, defined },
        }
    }
}

/// An object entry: its members are processed strictly in order, sharing one
/// defined-map; the first failure aborts.
pub open spec fn spec_object_entry<E: ExpandIri>(
    e: E,
    result: CtxView,
    remaining: Seq<(Seq<char>, Json)>,
    obj: Json,
    base: Seq<char>,
    defined: Map<Seq<char>, bool>,
) -> Result<CtxView, ErrorCode>
    decreases remaining.len(),
{
    if remaining.len() == 0 {
        Ok(result)
    } else {
        let out = spec_member_step(e, result, obj, base, remaining[0].0, remaining[0].1, defined);
        match out.result {
            Err(er) => Err(er),
            Ok(u) => spec_object_entry(
                e,
                out.active,
                remaining.drop_first(),
                obj,
                base,
                out.defined,
            ),
        }
    }
}

/// The entry loop of the merge algorithm over inline entries. Remote (string)
/// entries depend on the loader and are not described by this function; the
/// merge contract therefore pins the result only for local contexts without
/// them.
pub open spec fn spec_entries<E: ExpandIri>(
    e: E,
    active0: CtxView,
    result: CtxView,
    entries: Seq<Json>,
    base: Seq<char>,
    override_protected: bool,
    propagate: bool,
) -> Result<CtxView, ErrorCode>
    decreases entries.len(),
{
    if entries.len() == 0 {
        Ok(result)
    } else {
        let step = match entries[0] {
            Json::Null => spec_null_entry(active0, result, override_protected, propagate),
            Json::Obj(ms) => spec_object_entry(e, result, ms, entries[0], base, Map::empty()),
            Json::Text(s) => arbitrary(),
            _ => Err(ErrorCode::InvalidLocalContext),
        };
        match step {
            Err(er) => Err(er),
            Ok(r2) => spec_entries(
                e,
                active0,
                r2,
                entries.drop_first(),
                base,
                override_protected,
                propagate,
            ),
        }
    }
}

/// The merge algorithm on a local context without remote references, as a
/// function of the expander's behaviour.
pub open spec fn spec_merge<E: ExpandIri>(
    e: E,
    active: CtxView,
    local: Json,
    base: Seq<char>,
    override_protected: bool,
    propagate0: bool,
) -> Result<CtxView, ErrorCode> {
    let propagate = effective_propagate(local, propagate0);
    let start = if !propagate && active.has_previous() {
        active.with_previous(active)
    } else {
        active
    };
    spec_entries(e, active, start, entries_of(local), base, override_protected, propagate)
}

/// No entry of the local context is a remote (string) reference.
pub open spec fn no_remote(local: Json) -> bool {
    forall|i: int|
        0 <= i < entries_of(local).len() ==> !((#[trigger] entries_of(local)[i]) is Text)
}

/// The entries of a local context value, as references: a scalar is a
/// one-element sequence.
fn to_ref_array<'a>(local_context: &'a JsonValue) -> (r: Vec<&'a JsonValue>)
    ensures
        r@.len() == entries_of(local_context@).len(),
        forall|i: int| 0 <= i < r@.len() ==> (#[trigger] r@[i])@ == entries_of(local_context@)[i],
{
    match local_context {
        JsonValue::Array(items) => {
            proof {
                lemma_jview_seq_len(items@);
            }
            let mut out: Vec<&JsonValue> = Vec::new();
            let mut i: usize = 0;
            while i < items.len()
                invariant
                    0 <= i <= items@.len(),
                    out@.len() == i,
                    local_context@ == Json::Arr(crate::json::jview_seq(items@)),
                    crate::json::jview_seq(items@).len() == items@.len(),
                    forall|j: int| 0 <= j < i ==> (#[trigger] out@[j])@ == entries_of(
                        local_context@,
                    )[j],
                decreases items@.len() - i,
            {
                proof {
                    lemma_jview_seq_index(items@, i as int);
                }
                out.push(&items[i]);
                i = i + 1;
            }
            out
        },
        _ => {
            let mut out: Vec<&JsonValue> = Vec::new();
            out.push(local_context);
            proof {
                assert(entries_of(local_context@) =~= seq![local_context@]);
            }
            out
        },
    }
}

/// Processes a single `null` entry: resets the running result.
pub fn process_single_null(
    active_context: &Context,
    override_protected: bool,
    propagate: bool,
    result: Context,
) -> (r: Result<Context, ErrorCode>)
    ensures
        (match r {
            Ok(c) => Ok(c@),
            Err(e) => Err::<CtxView, ErrorCode>(e),
        }) == spec_null_entry(active_context@, result@, override_protected, propagate),
{
    if !override_protected && active_context.has_protected_term_definition() {
        return Err(ErrorCode::InvalidContextNullification);
    }
    let mut new_context = Context::new();
    if !propagate {
        new_context.set_previous(result);
    }
    Ok(new_context)
}

/// The `@context` member a fetched document must carry: absence, or a
/// non-object document, is an invalid remote context.
pub open spec fn spec_extract_context(doc: Json) -> Result<Json, ErrorCode> {
    match doc {
        Json::Obj(ms) => match assoc_lookup(ms, "@context"@) {
            Some(c) => Ok(c),
            None => Err(ErrorCode::InvalidRemoteContext),
        },
        _ => Err(ErrorCode::InvalidRemoteContext),
    }
}

/// Extracts the `@context` member of a fetched document.
pub fn extract_context(doc: &JsonValue) -> (r: Result<&JsonValue, ErrorCode>)
    ensures
        match r {
            Ok(c) => spec_extract_context(doc@) == Ok::<Json, ErrorCode>(c@),
            Err(e) => spec_extract_context(doc@) == Err::<Json, ErrorCode>(e),
        },
{
    match doc {
        JsonValue::Object(ms) => match obj_get(ms, "@context") {
            Some(cv) => Ok(cv),
            None => Err(ErrorCode::InvalidRemoteContext),
        },
        _ => Err(ErrorCode::InvalidRemoteContext),
    }
}

/// Prefixes compose.
proof fn lemma_prefix_trans<T>(a: Seq<T>, b: Seq<T>, c: Seq<T>)
    requires
        a.is_prefix_of(b),
        b.is_prefix_of(c),
    ensures
        a.is_prefix_of(c),
{
    assert(a =~= c.subrange(0, a.len() as int));
}

/// A sequence is a prefix of anything it starts.
proof fn lemma_prefix_concat<T>(a: Seq<T>, b: Seq<T>)
    ensures
        a.is_prefix_of(a + b),
{
    assert(a =~= (a + b).subrange(0, a.len() as int));
}

/// The suffix past `a` splits at any intermediate prefix `b`.
proof fn lemma_skip_chain<T>(a: Seq<T>, b: Seq<T>, c: Seq<T>)
    requires
        a.is_prefix_of(b),
        b.is_prefix_of(c),
    ensures
        c.skip(a.len() as int) == b.skip(a.len() as int) + c.skip(b.len() as int),
{
    assert(b =~= c.subrange(0, b.len() as int));
    assert(c.skip(a.len() as int) =~= b.skip(a.len() as int) + c.skip(b.len() as int));
}

/// Processes a single string entry: resolves it against the base, guards the
/// remote-context count, fetches the document (through the per-call cache),
/// and recurses into its `@context` member with the document's own identifier
/// as the new base.
pub fn process_single_string<L: LoadRemoteDocument, E: ExpandIri>(
    processor: &mut Processor<L, E>,
    visited: &mut Vec<String>,
    override_protected: bool,
    propagate: bool,
    cache: &mut DocumentCache,
    result: Context,
    context_str: &str,
    base: &str,
) -> (r: Result<Context, ErrorCode>)
    requires
        is_iri(base@),
        old(cache).wf(),
    ensures
        final(cache).wf(),
        old(cache).keys().is_prefix_of(final(cache).keys()),
        forall|k: Seq<char>| #[trigger] old(cache).doc_map().contains_key(k) ==> final(cache).doc_map().contains_key(k) && final(cache).doc_map()[k] == old(cache).doc_map()[k],
        final(processor).spec_limit() == old(processor).spec_limit(),
        final(processor).spec_expander() == old(processor).spec_expander(),
        old(processor).spec_loader().requests().is_prefix_of(
            final(processor).spec_loader().requests(),
        ),
        old(processor).spec_loader().responses().is_prefix_of(
            final(processor).spec_loader().responses(),
        ),
        r is Ok ==> final(processor).spec_loader().requests() == old(
            processor,
        ).spec_loader().requests() + final(cache).keys().skip(old(cache).keys().len() as int),
        final(processor).spec_loader().requests().len() <= old(
            processor,
        ).spec_loader().requests().len() + final(cache).spec_len() - old(cache).spec_len() + 1,
        r is Ok ==> forall|j: int|
            old(processor).spec_loader().responses().len() <= j < final(processor).spec_loader().responses().len() ==> (#[trigger] final(processor).spec_loader().responses()[j]) is Some,
        (exists|j: int|
            old(processor).spec_loader().responses().len() <= j < final(processor).spec_loader().responses().len() && (#[trigger] final(processor).spec_loader().responses()[j]) is None) ==> r == Err::<Context, ErrorCode>(
            ErrorCode::LoadingRemoteContextFailed,
        ),
        !is_iri_reference(context_str@) ==> r == Err::<Context, ErrorCode>(ErrorCode::Uncategorized)
            && *final(processor) == *old(processor) && *final(cache) == *old(cache) && final(visited)@
            == old(visited)@,
        is_iri_reference(context_str@) && old(visited)@.len() >= old(processor).spec_limit() ==> r
            == Err::<Context, ErrorCode>(ErrorCode::ContextOverflow) && *final(processor) == *old(processor) && *final(cache) == *old(cache) && final(visited)@ == old(visited)@,
        r is Ok ==> old(visited)@.len() < old(processor).spec_limit(),
        old(visited)@.is_prefix_of(final(visited)@),
        final(visited)@.len() <= old(visited)@.len() + 1,
        r is Ok ==> final(visited)@.len() == old(visited)@.len() + 1 && final(visited)@.last()@
            == resolved(context_str@, base@),
        r matches Ok(c) ==> ({
            let key = resolved(context_str@, base@);
            &&& final(cache).doc_map().contains_key(key)
            &&& is_iri(final(cache).doc_map()[key].iri)
            &&& (spec_extract_context(final(cache).doc_map()[key].content) matches Ok(ctx) && (
            no_remote(ctx) ==> Ok::<CtxView, ErrorCode>(c@) == spec_merge(
                old(processor).spec_expander(),
                result@,
                ctx,
                final(cache).doc_map()[key].iri,
                override_protected,
                propagate,
            )))
        }),
        is_iri_reference(context_str@) && old(visited)@.len() < old(processor).spec_limit()
            && final(cache).doc_map().contains_key(resolved(context_str@, base@))
            && spec_extract_context(
            final(cache).doc_map()[resolved(context_str@, base@)].content,
        ) is Err ==> r == Err::<Context, ErrorCode>(ErrorCode::InvalidRemoteContext),
    decreases nat_minus(processor.spec_limit(), visited@.len()), 0int,
{
    proof {
        crate::processor::lemma_processor_views(processor);
        assert(old(cache).keys().is_prefix_of(old(cache).keys()));
        assert(old(processor).spec_loader().requests().is_prefix_of(
            old(processor).spec_loader().requests(),
        ));
        assert(old(processor).spec_loader().responses().is_prefix_of(
            old(processor).spec_loader().responses(),
        ));
        assert(old(visited)@.is_prefix_of(old(visited)@));
    }
    let ghost req0 = processor.spec_loader().requests();
    let ghost resp0 = processor.spec_loader().responses();
    let ghost keys0 = cache.keys();
    let ghost cache0 = *cache;
    // Resolve the reference against the entry's base.
    let resolved_iri: String = match crate::iri::resolve_reference(context_str, base) {
        Some(s) => s,
        None => {
            return Err(ErrorCode::Uncategorized);
        },
    };
    let ghost key = resolved_iri@;
    // The cycle/overflow guard: entering one more remote context must stay
    // under the configured limit.
    if visited.len() >= processor.remote_context_limit() {
        return Err(ErrorCode::ContextOverflow);
    }
    // Record the identifier as visited on this path. The record is appended
    // even for an identifier already on the path: a repeated reference is
    // exactly what a cycle produces, so every re-entry must raise the count
    // for the guard above to terminate it.
    visited.push(resolved_iri.clone());
    // Fetch through the per-call cache: a context already dereferenced in
    // this call is never fetched again.
    let doc: RemoteDocument = match cache.get(resolved_iri.as_str()) {
        Some(d) => d,
        None => {
            match processor.loader.load(resolved_iri.as_str()) {
                Ok(d) => {
                    let kept = d.duplicate();
                    cache.insert(resolved_iri, d);
                    kept
                },
                Err(_) => {
                    proof {
                        crate::processor::lemma_processor_views(processor);
                        assert(processor.spec_loader().responses() == resp0.push(
                            None::<crate::processor::DocView>,
                        ));
                        assert(processor.spec_loader().responses()[resp0.len() as int] is None);
                        assert(req0.is_prefix_of(req0.push(key)));
                        assert(resp0.is_prefix_of(processor.spec_loader().responses()));
                    }
                    return Err(ErrorCode::LoadingRemoteContextFailed);
                },
            }
        },
    };
    proof {
        crate::processor::lemma_processor_views(processor);
        assert(cache.doc_map().contains_key(key) && cache.doc_map()[key] == doc.dview());
        assert(cache.keys() == keys0 || cache.keys() == keys0.push(key));
        assert(keys0.is_prefix_of(cache.keys()));
        assert(processor.spec_loader().responses() == resp0 || processor.spec_loader().responses()
            == resp0.push(Some(doc.dview())));
        assert forall|j: int|
            resp0.len() <= j < processor.spec_loader().responses().len() implies (
        #[trigger] processor.spec_loader().responses()[j]) is Some by {}
        assert forall|k2: Seq<char>| #[trigger] cache0.doc_map().contains_key(
            k2,
        ) implies cache.doc_map().contains_key(k2) && cache.doc_map()[k2]
            == cache0.doc_map()[k2] by {}
        assert(req0.is_prefix_of(processor.spec_loader().requests()));
        assert(resp0.is_prefix_of(processor.spec_loader().responses()));
        assert(processor.spec_loader().requests() == req0 + cache.keys().skip(
            keys0.len() as int,
        )) by {
            if cache.keys() == keys0 {
                assert(cache.keys().skip(keys0.len() as int) =~= Seq::<Seq<char>>::empty());
                assert(req0 + Seq::<Seq<char>>::empty() =~= req0);
            } else {
                assert(cache.keys().skip(keys0.len() as int) =~= seq![key]);
                assert(req0 + seq![key] =~= req0.push(key));
            }
        }
    }
    let ghost req_mid = processor.spec_loader().requests();
    let ghost resp_mid = processor.spec_loader().responses();
    let ghost keys_mid = cache.keys();
    let ghost cache_mid = *cache;
    // The fetched document must have an extractable `@context` member.
    let context_value: &JsonValue = match extract_context(doc.document()) {
        Ok(cv) => cv,
        Err(e) => {
            return Err(e);
        },
    };
    // Recurse with the document's own identifier as the new base and a cloned
    // visited set: identifiers entered deeper stay in the clone, so sibling
    // entries do not inflate each other's counts.
    let new_base: &String = doc.iri();
    let mut cloned_visited = visited.clone();
    proof {
        assert(cloned_visited@ =~= visited@);
    }
    let ghost v_now = visited@;
    let rec = join_value_impl(
        processor,
        &result,
        context_value,
        new_base.as_str(),
        &mut cloned_visited,
        override_protected,
        propagate,
        cache,
    );
    proof {
        assert(visited@ == v_now);
        lemma_prefix_trans(keys0, keys_mid, cache.keys());
        lemma_prefix_trans(req0, req_mid, processor.spec_loader().requests());
        lemma_prefix_trans(resp0, resp_mid, processor.spec_loader().responses());
        assert forall|k2: Seq<char>| #[trigger] cache0.doc_map().contains_key(
            k2,
        ) implies cache.doc_map().contains_key(k2) && cache.doc_map()[k2]
            == cache0.doc_map()[k2] by {
            assert(cache_mid.doc_map().contains_key(k2));
        }
        assert(cache_mid.doc_map().contains_key(key));
        assert(cache.doc_map().contains_key(key) && cache.doc_map()[key] == doc.dview());
        if rec is Ok {
            assert(processor.spec_loader().requests() == req_mid + cache.keys().skip(
                keys_mid.len() as int,
            ));
            assert(processor.spec_loader().requests() == req0 + cache.keys().skip(
                keys0.len() as int,
            )) by {
                if keys_mid == keys0 {
                    assert(req_mid == req0);
                    assert(cache.keys().skip(keys_mid.len() as int) =~= cache.keys().skip(
                        keys0.len() as int,
                    ));
                } else {
                    assert(keys_mid == keys0.push(key));
                    assert(req_mid == req0.push(key));
                    assert(keys_mid.is_prefix_of(cache.keys()));
                    assert(cache.keys()[keys0.len() as int] == key);
                    assert(cache.keys().skip(keys0.len() as int) =~= seq![key] + cache.keys().skip(
                        keys_mid.len() as int,
                    ));
                    assert(req0.push(key) + cache.keys().skip(keys_mid.len() as int) =~= req0 + (
                    seq![key] + cache.keys().skip(keys_mid.len() as int)));
                }
            }
            assert forall|j: int|
                resp0.len() <= j < processor.spec_loader().responses().len() implies (
            #[trigger] processor.spec_loader().responses()[j]) is Some by {
                if j < resp_mid.len() {
                    assert(processor.spec_loader().responses()[j] == resp_mid[j]);
                    assert(resp_mid == resp0 || resp_mid == resp0.push(Some(doc.dview())));
                }
            }
        }
        if exists|j: int|
            resp0.len() <= j < processor.spec_loader().responses().len() && (#[trigger] processor
                .spec_loader().responses()[j]) is None {
            let j = choose|j: int|
                resp0.len() <= j < processor.spec_loader().responses().len() && (
                #[trigger] processor.spec_loader().responses()[j]) is None;
            if j < resp_mid.len() {
                assert(processor.spec_loader().responses()[j] == resp_mid[j]);
                assert(resp_mid == resp0 || resp_mid == resp0.push(Some(doc.dview())));
                assert(false);
            }
            assert(rec == Err::<Context, ErrorCode>(ErrorCode::LoadingRemoteContextFailed));
        }
    }
    rec
}

/// Processes a single object entry: dispatches each member to term-definition
/// creation, sharing one defined-map across the object's members.
pub fn process_single_object<L: LoadRemoteDocument, E: ExpandIri>(
    processor: &Processor<L, E>,
    result: Context,
    obj: &JsonValue,
    members: &Vec<(String, JsonValue)>,
    base: &str,
) -> (r: Result<Context, ErrorCode>)
    requires
        obj@ == Json::Obj(members_view(members@)),
    ensures
        ({
            let sp = spec_object_entry(
                processor.spec_expander(),
                result@,
                members_view(members@),
                obj@,
                base@,
                Map::<Seq<char>, bool>::empty(),
            );
            match r {
                Ok(c) => sp == Ok::<CtxView, ErrorCode>(c@),
                Err(e) => sp == Err::<CtxView, ErrorCode>(e),
            }
        }),
{
    let ghost e = processor.spec_expander();
    let ghost full = members_view(members@);
    let ghost r0 = result@;
    proof {
        assert(members@.skip(0) =~= members@);
    }
    let mut active = result;
    let mut defined = crate::context::DefinedMap::new();
    let mut i: usize = 0;
    while i < members.len()
        invariant
            0 <= i <= members@.len(),
            full == members_view(members@),
            obj@ == Json::Obj(full),
            e == processor.spec_expander(),
            r0 == result@,
            spec_object_entry(e, r0, full, obj@, base@, Map::<Seq<char>, bool>::empty())
                == spec_object_entry(
                e,
                active@,
                members_view(members@.skip(i as int)),
                obj@,
                base@,
                defined@,
            ),
        decreases members@.len() - i,
    {
        proof {
            lemma_members_view_skip_step(members@, i as int);
        }
        let ghost rem = members_view(members@.skip(i as int));
        let ghost a_pre = active@;
        let ghost d_pre = defined@;
        let k = &members[i].0;
        let v = &members[i].1;
        if !crate::iri::has_form_of_keyword(k.as_str()) {
            if let JsonValue::Object(vms) = v {
                if let Some(rev) = obj_get(vms, "@reverse") {
                    defined.set(k.clone(), false);
                    let builder = crate::definition::DefinitionBuilder::new();
                    match run_for_reverse(
                        processor,
                        &mut active,
                        obj,
                        base,
                        k.as_str(),
                        &mut defined,
                        vms,
                        rev,
                        builder,
                    ) {
                        Ok(u) => {
                            proof {
                                assert(spec_member_step(
                                    e, a_pre, obj@, base@, rem[0].0, rem[0].1, d_pre,
                                ).active == active@);
                            }
                        },
                        Err(e2) => {
                            proof {
                                assert(spec_member_step(
                                    e, a_pre, obj@, base@, rem[0].0, rem[0].1, d_pre,
                                ).result == Err::<(), ErrorCode>(e2));
                                assert(spec_object_entry(e, a_pre, rem, obj@, base@, d_pre)
                                    == Err::<CtxView, ErrorCode>(e2));
                            }
                            return Err(e2);
                        },
                    }
                }
            }
        }
        i = i + 1;
    }
    proof {
        assert(members_view(members@.skip(i as int)) =~= Seq::<(Seq<char>, Json)>::empty());
    }
    Ok(active)
}

/// The recursive worker of the merge algorithm.
pub fn join_value_impl<L: LoadRemoteDocument, E: ExpandIri>(
    processor: &mut Processor<L, E>,
    active_context: &Context,
    local_context: &JsonValue,
    base: &str,
    visited: &mut Vec<String>,
    override_protected: bool,
    propagate: bool,
    cache: &mut DocumentCache,
) -> (r: Result<Context, ErrorCode>)
    requires
        is_iri(base@),
        old(cache).wf(),
    ensures
        final(cache).wf(),
        old(cache).keys().is_prefix_of(final(cache).keys()),
        forall|k: Seq<char>| #[trigger] old(cache).doc_map().contains_key(k) ==> final(cache).doc_map().contains_key(k) && final(cache).doc_map()[k] == old(cache).doc_map()[k],
        final(processor).spec_limit() == old(processor).spec_limit(),
        final(processor).spec_expander() == old(processor).spec_expander(),
        old(processor).spec_loader().requests().is_prefix_of(
            final(processor).spec_loader().requests(),
        ),
        old(processor).spec_loader().responses().is_prefix_of(
            final(processor).spec_loader().responses(),
        ),
        r is Ok ==> final(processor).spec_loader().requests() == old(
            processor,
        ).spec_loader().requests() + final(cache).keys().skip(old(cache).keys().len() as int),
        final(processor).spec_loader().requests().len() <= old(
            processor,
        ).spec_loader().requests().len() + final(cache).spec_len() - old(cache).spec_len() + 1,
        r is Ok ==> forall|j: int|
            old(processor).spec_loader().responses().len() <= j < final(processor).spec_loader().responses().len() ==> (#[trigger] final(processor).spec_loader().responses()[j]) is Some,
        (exists|j: int|
            old(processor).spec_loader().responses().len() <= j < final(processor).spec_loader().responses().len() && (#[trigger] final(processor).spec_loader().responses()[j]) is None) ==> r == Err::<Context, ErrorCode>(
            ErrorCode::LoadingRemoteContextFailed,
        ),
        old(visited)@.is_prefix_of(final(visited)@),
        no_remote(local_context@) ==> *final(processor) == *old(processor) && *final(cache)
            == *old(cache) && final(visited)@ == old(visited)@,
        no_remote(local_context@) ==> (match r {
            Ok(c) => Ok(c@),
            Err(e) => Err::<CtxView, ErrorCode>(e),
        }) == spec_merge(
            old(processor).spec_expander(),
            active_context@,
            local_context@,
            base@,
            override_protected,
            propagate,
        ),
    decreases nat_minus(processor.spec_limit(), visited@.len()), 1int,
{
    let ghost e = processor.spec_expander();
    let ghost limit = processor.spec_limit();
    let ghost p0 = *processor;
    let ghost c0 = *cache;
    let ghost v0 = visited@;
    let ghost req0 = processor.spec_loader().requests();
    let ghost resp0 = processor.spec_loader().responses();
    let ghost keys0 = cache.keys();
    proof {
        crate::processor::lemma_processor_views(processor);
        assert(keys0.is_prefix_of(keys0));
        assert(req0.is_prefix_of(req0));
        assert(resp0.is_prefix_of(resp0));
        assert(v0.is_prefix_of(v0));
        assert(req0 + cache.keys().skip(keys0.len() as int) =~= req0);
    }
    // Step 1: the running result starts as a copy of the active context.
    let mut result = active_context.duplicate();
    // Step 2: a boolean `@propagate` member of the local context value
    // overrides the inherited flag; other shapes are ignored.
    let propagate_eff: bool = match local_context {
        JsonValue::Object(members) => match obj_get(members, "@propagate") {
            Some(v) => match v {
                JsonValue::Bool(b) => *b,
                _ => propagate,
            },
            None => propagate,
        },
        _ => propagate,
    };
    proof {
        assert(propagate_eff == effective_propagate(local_context@, propagate));
    }
    // Step 3: when propagation is off and the running result already chains a
    // previous context, snapshot the pre-merge active context instead.
    if !propagate_eff && result.has_previous_context() {
        let snapshot = active_context.duplicate();
        result.set_previous(snapshot);
    }
    let ghost start = result@;
    // Step 4: normalize to a sequence of entries.
    let entries = to_ref_array(local_context);
    let ghost full_entries = entries_of(local_context@);
    proof {
        assert(full_entries.skip(0) =~= full_entries);
    }
    // Step 5: process the entries strictly in order.
    let mut i: usize = 0;
    while i < entries.len()
        invariant
            0 <= i <= entries@.len(),
            entries@.len() == full_entries.len(),
            full_entries == entries_of(local_context@),
            forall|j: int| 0 <= j < entries@.len() ==> (#[trigger] entries@[j])@ == full_entries[j],
            is_iri(base@),
            cache.wf(),
            p0 == *old(processor),
            c0 == *old(cache),
            v0 == old(visited)@,
            keys0 == old(cache).keys(),
            req0 == old(processor).spec_loader().requests(),
            resp0 == old(processor).spec_loader().responses(),
            keys0.is_prefix_of(cache.keys()),
            forall|k: Seq<char>| #[trigger] c0.doc_map().contains_key(k)
                ==> cache.doc_map().contains_key(k) && cache.doc_map()[k] == c0.doc_map()[k],
            processor.spec_limit() == limit,
            limit == old(processor).spec_limit(),
            processor.spec_expander() == e,
            e == old(processor).spec_expander(),
            req0.is_prefix_of(processor.spec_loader().requests()),
            resp0.is_prefix_of(processor.spec_loader().responses()),
            processor.spec_loader().requests() == req0 + cache.keys().skip(keys0.len() as int),
            forall|j: int|
                resp0.len() <= j < processor.spec_loader().responses().len() ==> (
                #[trigger] processor.spec_loader().responses()[j]) is Some,
            v0.is_prefix_of(visited@),
            no_remote(local_context@) ==> *processor == p0 && *cache == c0 && visited@ == v0,
            no_remote(local_context@) ==> spec_merge(
                e,
                active_context@,
                local_context@,
                base@,
                override_protected,
                propagate,
            ) == spec_entries(
                e,
                active_context@,
                result@,
                full_entries.skip(i as int),
                base@,
                override_protected,
                propagate_eff,
            ),
        decreases entries@.len() - i,
    {
        proof {
            assert(full_entries.skip(i as int).len() > 0);
            assert(full_entries.skip(i as int)[0] == full_entries[i as int]);
            assert(full_entries.skip(i as int).drop_first() =~= full_entries.skip(i as int + 1));
        }
        let entry: &JsonValue = entries[i];
        match entry {
            JsonValue::Null => {
                result = match process_single_null(
                    active_context,
                    override_protected,
                    propagate_eff,
                    result,
                ) {
                    Ok(c) => c,
                    Err(er) => {
                        return Err(er);
                    },
                };
            },
            JsonValue::String(s) => {
                proof {
                    assert(entries_of(local_context@)[i as int] is Text);
                    assert(!no_remote(local_context@));
                }
                let ghost req_b = processor.spec_loader().requests();
                let ghost resp_b = processor.spec_loader().responses();
                let ghost keys_b = cache.keys();
                let ghost cache_b = *cache;
                let ghost vis_b = visited@;
                result = match process_single_string(
                    processor,
                    visited,
                    override_protected,
                    propagate_eff,
                    cache,
                    result,
                    s.as_str(),
                    base,
                ) {
                    Ok(c) => {
                        proof {
                            lemma_prefix_trans(keys0, keys_b, cache.keys());
                            lemma_prefix_trans(req0, req_b, processor.spec_loader().requests());
                            lemma_prefix_trans(resp0, resp_b, processor.spec_loader().responses());
                            lemma_prefix_trans(v0, vis_b, visited@);
                            lemma_skip_chain(keys0, keys_b, cache.keys());
                            assert forall|k: Seq<char>| #[trigger] c0.doc_map().contains_key(
                                k,
                            ) implies cache.doc_map().contains_key(k) && cache.doc_map()[k]
                                == c0.doc_map()[k] by {
                                assert(cache_b.doc_map().contains_key(k));
                            }
                            assert(processor.spec_loader().requests() == (req0 + keys_b.skip(
                                keys0.len() as int,
                            )) + cache.keys().skip(keys_b.len() as int));
                            assert((req0 + keys_b.skip(keys0.len() as int)) + cache.keys().skip(
                                keys_b.len() as int,
                            ) =~= req0 + (keys_b.skip(keys0.len() as int) + cache.keys().skip(
                                keys_b.len() as int,
                            )));
                            assert forall|j: int|
                                resp0.len() <= j < processor.spec_loader().responses().len() implies (
                            #[trigger] processor.spec_loader().responses()[j]) is Some by {
                                if j < resp_b.len() {
                                    assert(resp_b =~= processor.spec_loader().responses().subrange(
                                        0,
                                        resp_b.len() as int,
                                    ));
                                    assert(processor.spec_loader().responses()[j] == resp_b[j]);
                                }
                            }
                        }
                        c
                    },
                    Err(er) => {
                        proof {
                            lemma_prefix_trans(keys0, keys_b, cache.keys());
                            lemma_prefix_trans(req0, req_b, processor.spec_loader().requests());
                            lemma_prefix_trans(resp0, resp_b, processor.spec_loader().responses());
                            lemma_prefix_trans(v0, vis_b, visited@);
                            assert forall|k: Seq<char>| #[trigger] c0.doc_map().contains_key(
                                k,
                            ) implies cache.doc_map().contains_key(k) && cache.doc_map()[k]
                                == c0.doc_map()[k] by {
                                assert(cache_b.doc_map().contains_key(k));
                            }
                            assert(keys_b.len() <= cache.keys().len()) by {
                                assert(keys_b =~= cache.keys().subrange(0, keys_b.len() as int));
                            }
                            if exists|j: int|
                                resp0.len() <= j < processor.spec_loader().responses().len() && (
                                #[trigger] processor.spec_loader().responses()[j]) is None {
                                let j = choose|j: int|
                                    resp0.len() <= j < processor.spec_loader().responses().len()
                                        && (#[trigger] processor.spec_loader().responses()[j])
                                            is None;
                                if j < resp_b.len() {
                                    assert(resp_b =~= processor.spec_loader().responses().subrange(
                                        0,
                                        resp_b.len() as int,
                                    ));
                                    assert(processor.spec_loader().responses()[j] == resp_b[j]);
                                    assert(false);
                                }
                                assert(er == ErrorCode::LoadingRemoteContextFailed);
                            }
                        }
                        return Err(er);
                    },
                };
            },
            JsonValue::Object(members) => {
                result = match process_single_object(
                    &*processor,
                    result,
                    entry,
                    members,
                    base,
                ) {
                    Ok(c) => c,
                    Err(er) => {
                        return Err(er);
                    },
                };
            },
            _ => {
                return Err(ErrorCode::InvalidLocalContext);
            },
        }
        i = i + 1;
    }
    proof {
        assert(full_entries.skip(i as int) =~= Seq::<Json>::empty());
    }
    // Step 6: the running result is the new active context.
    Ok(result)
}

/// Runs the context-merge algorithm and returns the new active context; the
/// top-level entry point, with a fresh fetch cache.
pub fn join_value<L: LoadRemoteDocument, E: ExpandIri>(
    processor: &mut Processor<L, E>,
    active_context: &Context,
    local_context: &JsonValue,
    base: &str,
    optional: OptionalParams,
) -> (r: Result<Context, ErrorCode>)
    ensures
        final(processor).spec_limit() == old(processor).spec_limit(),
        final(processor).spec_expander() == old(processor).spec_expander(),
        old(processor).spec_loader().requests().is_prefix_of(
            final(processor).spec_loader().requests(),
        ),
        no_remote(local_context@) ==> *final(processor) == *old(processor),
        !is_iri(base@) ==> r == Err::<Context, ErrorCode>(ErrorCode::Uncategorized) && *final(processor) == *old(processor),
        r is Ok ==> forall|i: int, j: int|
            old(processor).spec_loader().requests().len() <= i < j < final(processor).spec_loader().requests().len() ==> (#[trigger] final(processor).spec_loader().requests()[i]) != (#[trigger] final(processor).spec_loader().requests()[j]),
        r is Ok ==> forall|j: int|
            old(processor).spec_loader().responses().len() <= j < final(processor).spec_loader().responses().len() ==> (#[trigger] final(processor).spec_loader().responses()[j]) is Some,
        is_iri(base@) && no_remote(local_context@) ==> (match r {
            Ok(c) => Ok(c@),
            Err(e) => Err::<CtxView, ErrorCode>(e),
        }) == spec_merge(
            old(processor).spec_expander(),
            active_context@,
            local_context@,
            base@,
            optional@.override_protected,
            optional@.propagate,
        ),
{
    if !crate::iri::is_iri_str(base) {
        proof {
            assert(old(processor).spec_loader().requests().is_prefix_of(
                old(processor).spec_loader().requests(),
            ));
        }
        return Err(ErrorCode::Uncategorized);
    }
    let ghost req0 = processor.spec_loader().requests();
    let OptionalParams { remote_contexts, override_protected, propagate } = optional;
    let mut visited = remote_contexts;
    let mut cache = DocumentCache::new();
    let r = join_value_impl(
        processor,
        active_context,
        local_context,
        base,
        &mut visited,
        override_protected,
        propagate,
        &mut cache,
    );
    proof {
        if r is Ok {
            assert(cache.keys().skip(0) =~= cache.keys());
            assert(processor.spec_loader().requests() == req0 + cache.keys());
            assert forall|i: int, j: int|
                req0.len() <= i < j < processor.spec_loader().requests().len() implies (
            #[trigger] processor.spec_loader().requests()[i]) != (#[trigger] processor
                .spec_loader().requests()[j]) by {
                assert(processor.spec_loader().requests()[i] == cache.keys()[i - req0.len()]);
                assert(processor.spec_loader().requests()[j] == cache.keys()[j - req0.len()]);
            }
        }
    }
    r
}

} // verus!

verus! {

/// A local-context entry that is inline and carries no `@propagate` member:
/// `null`, or an object without one.
pub open spec fn plain_entry(v: Json) -> bool {
    match v {
        Json::Null => true,
        Json::Obj(ms) => assoc_lookup(ms, "@propagate"@) is None,
        _ => false,
    }
}

/// Merging a null local context resets the active context: it yields an empty
/// context whose previous context is the old one exactly when propagation is
/// off, and fails with `InvalidContextNullification` exactly when the old
/// context holds a protected term and the override flag is off. Stated for
/// contexts that do not already chain a previous context; one that does gets
/// its chain replaced by the pre-merge snapshot first, so the chained value is
/// not the original.
pub proof fn lemma_null_context_reset<E: ExpandIri>(
    e: E,
    active: CtxView,
    base: Seq<char>,
    override_protected: bool,
    propagate: bool,
)
    requires
        active.wf(),
        !active.has_previous(),
    ensures
        ({
            let r = spec_merge(e, active, Json::Null, base, override_protected, propagate);
            &&& ((!override_protected && active.has_protected()) <==> r == Err::<
                CtxView,
                ErrorCode,
            >(ErrorCode::InvalidContextNullification))
            &&& (override_protected || !active.has_protected()) ==> (r matches Ok(c) && {
                &&& c.terms() == Seq::<(Seq<char>, Option<crate::definition::TdView>)>::empty()
                &&& (!propagate ==> c.has_previous() && c.previous() == active)
                &&& (propagate ==> !c.has_previous())
            })
        }),
{
    let local = Json::Null;
    let entries = entries_of(local);
    assert(entries =~= seq![local]);
    assert(effective_propagate(local, propagate) == propagate);
    let start = active;
    assert(entries[0] == Json::Null);
    assert(entries.drop_first() =~= Seq::<Json>::empty());
    let step = spec_null_entry(active, active, override_protected, propagate);
    if override_protected || !active.has_protected() {
        let c = step->Ok_0;
        assert(spec_entries(e, active, c, entries.drop_first(), base, override_protected, propagate)
            == Ok::<CtxView, ErrorCode>(c));
        if !propagate {
            assert(c == CtxView::empty().with_previous(active));
            assert(c.frames =~= seq![Seq::<(Seq<char>, Option<crate::definition::TdView>)>::empty()]
                + active.frames);
            assert(c.terms() == Seq::<(Seq<char>, Option<crate::definition::TdView>)>::empty());
            assert(c.previous().frames =~= active.frames);
            assert(c.previous() == active);
        } else {
            assert(c == CtxView::empty());
        }
    }
}

/// Merging an object with no members (so no recognized entries and no
/// `@propagate`) yields a context with the same term definitions; with
/// propagation on it is the active context unchanged.
pub proof fn lemma_empty_object_noop<E: ExpandIri>(
    e: E,
    active: CtxView,
    base: Seq<char>,
    override_protected: bool,
    propagate: bool,
)
    requires
        active.wf(),
    ensures
        ({
            let r = spec_merge(
                e,
                active,
                Json::Obj(Seq::empty()),
                base,
                override_protected,
                propagate,
            );
            &&& r matches Ok(c) && c.terms() == active.terms()
            &&& propagate ==> r == Ok::<CtxView, ErrorCode>(active)
        }),
{
    let local = Json::Obj(Seq::empty());
    assert(effective_propagate(local, propagate) == propagate);
    let entries = entries_of(local);
    assert(entries =~= seq![local]);
    let start = if !propagate && active.has_previous() {
        active.with_previous(active)
    } else {
        active
    };
    assert(spec_object_entry(
        e,
        start,
        Seq::<(Seq<char>, Json)>::empty(),
        local,
        base,
        Map::<Seq<char>, bool>::empty(),
    ) == Ok::<CtxView, ErrorCode>(start));
    assert(entries.drop_first() =~= Seq::<Json>::empty());
    assert(spec_entries(e, active, start, entries.drop_first(), base, override_protected, propagate)
        == Ok::<CtxView, ErrorCode>(start));
    if !propagate && active.has_previous() {
        assert(start.frames =~= seq![active.frames[0]] + active.frames);
        assert(start.terms() == active.terms());
    }
}

/// Processing a two-element array equals folding the merge over its elements
/// in order. Stated for inline entries (null or objects) that carry no
/// `@propagate`, under propagation: an entry's own `@propagate` and the
/// visited-set sharing of remote entries are per-call state that the fold
/// resets. A null second element needs the override flag, because the fold's
/// second call consults its own (new) pre-merge context in the nullification
/// guard.
pub proof fn lemma_array_merge_folds<E: ExpandIri>(
    e: E,
    active: CtxView,
    a: Json,
    b: Json,
    base: Seq<char>,
    override_protected: bool,
)
    requires
        active.wf(),
        plain_entry(a),
        plain_entry(b),
        b is Null ==> override_protected,
    ensures
        spec_merge(e, active, Json::Arr(seq![a, b]), base, override_protected, true) == (
        match spec_merge(e, active, a, base, override_protected, true) {
            Ok(c) => spec_merge(e, c, b, base, override_protected, true),
            Err(er) => Err(er),
        }),
{
    let pair = seq![a, b];
    assert(pair[0] == a);
    assert(pair.drop_first() =~= seq![b]);
    assert(seq![b][0] == b);
    assert(seq![b].drop_first() =~= Seq::<Json>::empty());
    let local = Json::Arr(pair);
    assert(effective_propagate(local, true));
    assert(effective_propagate(a, true));
    assert(effective_propagate(b, true));
    assert(entries_of(local) == pair);
    assert(entries_of(a) =~= seq![a]);
    assert(entries_of(b) =~= seq![b]);
    let step_a = match a {
        Json::Null => spec_null_entry(active, active, override_protected, true),
        Json::Obj(ms) => spec_object_entry(
            e,
            active,
            ms,
            a,
            base,
            Map::<Seq<char>, bool>::empty(),
        ),
        _ => Err(ErrorCode::InvalidLocalContext),
    };
    assert(seq![a][0] == a);
    assert(seq![a].drop_first() =~= Seq::<Json>::empty());
    match step_a {
        Err(er) => {
            assert(spec_merge(e, active, local, base, override_protected, true) == Err::<
                CtxView,
                ErrorCode,
            >(er));
            assert(spec_merge(e, active, a, base, override_protected, true) == Err::<
                CtxView,
                ErrorCode,
            >(er));
        },
        Ok(c) => {
            assert(spec_entries(e, active, c, entries_of(a).drop_first(), base,
                override_protected, true) == Ok::<CtxView, ErrorCode>(c));
            assert(spec_merge(e, active, a, base, override_protected, true) == Ok::<
                CtxView,
                ErrorCode,
            >(c));
            let step_b_lhs = match b {
                Json::Null => spec_null_entry(active, c, override_protected, true),
                Json::Obj(ms) => spec_object_entry(
                    e,
                    c,
                    ms,
                    b,
                    base,
                    Map::<Seq<char>, bool>::empty(),
                ),
                _ => Err(ErrorCode::InvalidLocalContext),
            };
            let step_b_rhs = match b {
                Json::Null => spec_null_entry(c, c, override_protected, true),
                Json::Obj(ms) => spec_object_entry(
                    e,
                    c,
                    ms,
                    b,
                    base,
                    Map::<Seq<char>, bool>::empty(),
                ),
                _ => Err(ErrorCode::InvalidLocalContext),
            };
            assert(step_b_lhs == step_b_rhs) by {
                if b is Null {
                    assert(override_protected);
                }
            }
            match step_b_lhs {
                Err(er2) => {
                    assert(spec_entries(e, active, c, pair.drop_first(), base, override_protected,
                        true) == Err::<CtxView, ErrorCode>(er2));
                    assert(spec_merge(e, active, local, base, override_protected, true) == Err::<
                        CtxView,
                        ErrorCode,
                    >(er2));
                    assert(spec_merge(e, c, b, base, override_protected, true) == Err::<
                        CtxView,
                        ErrorCode,
                    >(er2));
                },
                Ok(c2) => {
                    assert(spec_entries(e, active, c2, seq![b].drop_first(), base,
                        override_protected, true) == Ok::<CtxView, ErrorCode>(c2));
                    assert(spec_entries(e, active, c, pair.drop_first(), base, override_protected,
                        true) == Ok::<CtxView, ErrorCode>(c2));
                    assert(spec_merge(e, active, local, base, override_protected, true) == Ok::<
                        CtxView,
                        ErrorCode,
                    >(c2));
                    assert(spec_entries(e, c, c2, entries_of(b).drop_first(), base,
                        override_protected, true) == Ok::<CtxView, ErrorCode>(c2));
                    assert(spec_merge(e, c, b, base, override_protected, true) == Ok::<
                        CtxView,
                        ErrorCode,
                    >(c2));
                },
            }
        },
    }
}

} // verus!
