//! The processing environment: the remote-document loader, the identifier
//! expander, the per-call document cache, and the processor that bundles them
//! with the configured remote-context limit.

use vstd::prelude::*;

use crate::context::{Context, CtxView, DefinedMap};
use crate::error::ErrorCode;
use crate::iri::is_iri;
use crate::json::{eq_str, Json, JsonValue, Nullable};

verus! {

/// The mirror of a fetched document: its own identifier and its content.
pub ghost struct DocView {
    pub iri: Seq<char>,
    pub content: Json,
}

/// A document fetched by reference: its own identifier and its parsed content.
#[derive(Debug)]
pub struct RemoteDocument {
    iri: String,
    content: JsonValue,
}

impl RemoteDocument {
    /// A document's own identifier is always a full identifier.
    #[verifier::type_invariant]
    closed spec fn type_inv(&self) -> bool {
        is_iri(self.iri@)
    }

    /// The identifier the document lives under.
    pub closed spec fn spec_iri(&self) -> Seq<char> {
        self.iri@
    }

    /// The document's content.
    pub closed spec fn spec_content(&self) -> Json {
        self.content@
    }

    /// The document as a mathematical value.
    pub open spec fn dview(&self) -> DocView {
        DocView { iri: self.spec_iri(), content: self.spec_content() }
    }

    /// Wraps a fetched document; the identifier must be a full identifier.
    pub fn new(iri: String, content: JsonValue) -> (r: Option<RemoteDocument>)
        ensures
            r is Some <==> is_iri(iri@),
            r matches Some(d) ==> d.spec_iri() == iri@ && d.spec_content() == content@,
    {
        if crate::iri::is_iri_str(iri.as_str()) {
            Some(RemoteDocument { iri, content })
        } else {
            None
        }
    }

    /// The document's own identifier.
    pub fn iri(&self) -> (r: &String)
        ensures
            r@ == self.spec_iri(),
            is_iri(r@),
    {
        proof {
            use_type_invariant(self);
        }
        &self.iri
    }

    /// The document's content.
    pub fn document(&self) -> (r: &JsonValue)
        ensures
            r@ == self.spec_content(),
    {
        &self.content
    }

    /// A value-equal copy.
    pub fn duplicate(&self) -> (r: RemoteDocument)
        ensures
            r.spec_iri() == self.spec_iri(),
            r.spec_content() == self.spec_content(),
    {
        proof {
            use_type_invariant(self);
        }
        RemoteDocument { iri: self.iri.clone(), content: self.content.duplicate() }
    }
}

/// Retrieval of remote context documents. Implementations alone decide
/// success: transport, parsing and deadlines are theirs; the contract only
/// makes each call record what was asked and what came back, which is what
/// the caching guarantees of the merge algorithm are stated over.
pub trait LoadRemoteDocument: Sized {
    /// The identifiers handed to `load` so far, in call order.
    spec fn requests(&self) -> Seq<Seq<char>>;

    /// What each `load` call returned so far: the document's value on
    /// success, nothing on failure.
    spec fn responses(&self) -> Seq<Option<DocView>>;

    /// Retrieves the document under an absolute identifier, requesting a
    /// context resource (implementations should send profile and request
    /// profile `context`).
    fn load(&mut self, iri: &str) -> (r: Result<RemoteDocument, String>)
        ensures
            final(self).requests() == old(self).requests().push(iri@),
            final(self).responses() == old(self).responses().push(
                match r {
                    Ok(d) => Some(d.dview()),
                    Err(_) => None,
                },
            ),
    ;
}

/// The arguments of one identifier expansion, as mathematical values.
pub ghost struct ExpandInput {
    pub active: CtxView,
    pub local: Json,
    pub base: Seq<char>,
    pub defined: Map<Seq<char>, bool>,
    pub value: Seq<char>,
    pub vocab: bool,
}

/// The outcome of one identifier expansion: the result and the states the
/// expander leaves behind.
pub ghost struct ExpandOutcome {
    pub result: Result<Option<Seq<char>>, ErrorCode>,
    pub active: CtxView,
    pub defined: Map<Seq<char>, bool>,
}

/// Expansion of a short term or compact identifier to an absolute form:
/// a function of the active context, the local context in progress, the
/// defined-map and the value.
pub trait ExpandIri: Sized {
    /// The single outcome this expander produces for one expansion request.
    spec fn expansion(&self, input: ExpandInput) -> ExpandOutcome;

    /// Expands `value`, possibly installing dependent term definitions into
    /// `active` and updating `defined`.
    fn expand(
        &self,
        active: &mut Context,
        local: &JsonValue,
        base: &str,
        defined: &mut DefinedMap,
        value: &str,
        vocab: bool,
    ) -> (r: Result<Option<String>, ErrorCode>)
        ensures
            ({
                let out = self.expansion(ExpandInput {
                    active: old(active)@,
                    local: local@,
                    base: base@,
                    defined: old(defined)@,
                    value: value@,
                    vocab,
                });
                &&& final(active)@ == out.active
                &&& final(defined)@ == out.defined
                &&& match (r, out.result) {
                    (Ok(None), Ok(None)) => true,
                    (Ok(Some(s)), Ok(Some(t))) => s@ == t,
                    (Err(e), Err(f)) => e == f,
                    _ => false,
                }
            }),
    ;
}

/// The processing environment for one sequence of merge calls.
pub struct Processor<L, E> {
    pub(crate) loader: L,
    pub(crate) expander: E,
    pub(crate) max_remote_contexts: usize,
}

impl<L: LoadRemoteDocument, E: ExpandIri> Processor<L, E> {
    /// The loader, for stating how often it was invoked.
    pub closed spec fn spec_loader(&self) -> L {
        self.loader
    }

    /// The expander this processor consults.
    pub closed spec fn spec_expander(&self) -> E {
        self.expander
    }

    /// The configured maximum number of remote contexts per recursion path.
    pub closed spec fn spec_limit(&self) -> nat {
        self.max_remote_contexts as nat
    }

    /// Bundles a loader and an expander with a remote-context limit.
    pub fn new(loader: L, expander: E, max_remote_contexts: usize) -> (r: Processor<L, E>)
        ensures
            r.spec_loader() == loader,
            r.spec_expander() == expander,
            r.spec_limit() == max_remote_contexts as nat,
    {
        Processor { loader, expander, max_remote_contexts }
    }

    /// The configured maximum number of remote contexts.
    pub fn remote_context_limit(&self) -> (n: usize)
        ensures
            n as nat == self.spec_limit(),
    {
        self.max_remote_contexts
    }
}

/// Inside the crate, the processor's parts are its fields.
pub(crate) proof fn lemma_processor_views<L: LoadRemoteDocument, E: ExpandIri>(p: &Processor<L, E>)
    ensures
        p.spec_expander() == p.expander,
        p.spec_loader() == p.loader,
        p.spec_limit() == p.max_remote_contexts as nat,
{
}

/// The identifiers of the cached documents.
pub open spec fn keys_view(s: Seq<(String, RemoteDocument)>) -> Seq<Seq<char>>
    decreases s,
{
    if s.len() == 0 {
        Seq::empty()
    } else {
        seq![s[0].0@] + keys_view(s.drop_first())
    }
}

pub proof fn lemma_keys_view_all(s: Seq<(String, RemoteDocument)>)
    ensures
        keys_view(s).len() == s.len(),
        forall|i: int| 0 <= i < s.len() ==> keys_view(s)[i] == s[i].0@,
    decreases s.len(),
{
    if s.len() > 0 {
        lemma_keys_view_all(s.drop_first());
        assert forall|i: int| 0 <= i < s.len() implies keys_view(s)[i] == s[i].0@ by {
            if i > 0 {
                assert(keys_view(s)[i] == keys_view(s.drop_first())[i - 1]);
                assert(s.drop_first()[i - 1] == s[i]);
            }
        }
    }
}

/// The documents a cache's entries denote, by the identifier they were
/// fetched under.
pub open spec fn docs_view(s: Seq<(String, RemoteDocument)>) -> Map<Seq<char>, DocView>
    decreases s.len(),
{
    if s.len() == 0 {
        Map::empty()
    } else {
        docs_view(s.drop_last()).insert(s.last().0@, s.last().1.dview())
    }
}

/// With no later entry for the same identifier, the map holds exactly that
/// entry's document.
pub proof fn lemma_docs_view_at(s: Seq<(String, RemoteDocument)>, i: int)
    requires
        0 <= i < s.len(),
        forall|j: int| i < j < s.len() ==> s[j].0@ != s[i].0@,
    ensures
        docs_view(s).contains_key(s[i].0@),
        docs_view(s)[s[i].0@] == s[i].1.dview(),
    decreases s.len(),
{
    if i < s.len() - 1 {
        assert(s.drop_last()[i] == s[i]);
        lemma_docs_view_at(s.drop_last(), i);
    }
}

/// An identifier no entry carries is not in the map.
pub proof fn lemma_docs_view_absent(s: Seq<(String, RemoteDocument)>, k: Seq<char>)
    requires
        forall|i: int| 0 <= i < s.len() ==> s[i].0@ != k,
    ensures
        !docs_view(s).contains_key(k),
    decreases s.len(),
{
    if s.len() > 0 {
        assert(forall|i: int| 0 <= i < s.drop_last().len() ==> s.drop_last()[i] == s[i]);
        lemma_docs_view_absent(s.drop_last(), k);
    }
}

/// The per-call fetch cache: each remote context is dereferenced at most once
/// per top-level merge invocation.
pub struct DocumentCache {
    entries: Vec<(String, RemoteDocument)>,
}

impl DocumentCache {
    /// The identifiers cached so far, in insertion order.
    pub closed spec fn keys(&self) -> Seq<Seq<char>> {
        keys_view(self.entries@)
    }

    /// Whether a document is cached under `key`.
    pub open spec fn contains(&self, key: Seq<char>) -> bool {
        self.keys().contains(key)
    }

    /// The cached documents, by the identifier they were fetched under.
    pub closed spec fn doc_map(&self) -> Map<Seq<char>, DocView> {
        docs_view(self.entries@)
    }

    /// How many documents are cached: with distinct keys, the number of
    /// distinct identifiers dereferenced.
    pub open spec fn spec_len(&self) -> nat {
        self.keys().len()
    }

    /// The cached identifiers are distinct.
    pub open spec fn wf(&self) -> bool {
        forall|i: int, j: int|
            0 <= i < j < self.keys().len() ==> self.keys()[i] != self.keys()[j]
    }

    /// An empty cache.
    pub fn new() -> (r: DocumentCache)
        ensures
            r.wf(),
            r.keys() == Seq::<Seq<char>>::empty(),
            r.spec_len() == 0,
            forall|k: Seq<char>| !r.contains(k),
    {
        let r = DocumentCache { entries: Vec::new() };
        proof {
            lemma_keys_view_all(r.entries@);
            assert(r.keys() =~= Seq::<Seq<char>>::empty());
        }
        r
    }

    /// The cached document under `iri`, as a value-equal copy.
    pub fn get(&self, iri: &str) -> (r: Option<RemoteDocument>)
        requires
            self.wf(),
        ensures
            r is Some <==> self.contains(iri@),
            r matches Some(d) ==> self.doc_map().contains_key(iri@) && d.dview()
                == self.doc_map()[iri@],
            r is None ==> !self.doc_map().contains_key(iri@),
    {
        proof {
            lemma_keys_view_all(self.entries@);
        }
        let mut i: usize = 0;
        while i < self.entries.len()
            invariant
                0 <= i <= self.entries@.len(),
                self.keys().len() == self.entries@.len(),
                forall|j: int| 0 <= j < self.entries@.len() ==> self.keys()[j]
                    == self.entries@[j].0@,
                forall|j: int| 0 <= j < i ==> self.keys()[j] != iri@,
                self.wf(),
            decreases self.entries@.len() - i,
        {
            if eq_str(self.entries[i].0.as_str(), iri) {
                proof {
                    assert(self.keys()[i as int] == iri@);
                    assert(self.keys().contains(iri@));
                    assert forall|j: int|
                        i < j < self.entries@.len() implies self.entries@[j].0@
                        != self.entries@[i as int].0@ by {
                        assert(self.keys()[j] == self.entries@[j].0@);
                    }
                    lemma_docs_view_at(self.entries@, i as int);
                }
                return Some(self.entries[i].1.duplicate());
            }
            i = i + 1;
        }
        proof {
            assert(!self.keys().contains(iri@));
            assert forall|j: int| 0 <= j < self.entries@.len() implies self.entries@[j].0@
                != iri@ by {
                assert(self.keys()[j] == self.entries@[j].0@);
            }
            lemma_docs_view_absent(self.entries@, iri@);
        }
        None
    }

    /// Caches a freshly fetched document; nothing is ever evicted or
    /// overwritten within one call.
    pub fn insert(&mut self, iri: String, doc: RemoteDocument)
        requires
            !old(self).contains(iri@),
        ensures
            final(self).keys() == old(self).keys().push(iri@),
            final(self).doc_map() == old(self).doc_map().insert(iri@, doc.dview()),
            final(self).spec_len() == old(self).spec_len() + 1,
            old(self).wf() ==> final(self).wf(),
            forall|k: Seq<char>| final(self).contains(k) <==> (old(self).contains(k) || k
                == iri@),
    {
        let ghost t0 = self.entries@;
        let ghost key = iri@;
        let ghost dv = doc.dview();
        proof {
            lemma_keys_view_all(t0);
        }
        self.entries.push((iri, doc));
        proof {
            assert(self.entries@.drop_last() =~= t0);
            assert(self.doc_map() == docs_view(t0).insert(key, dv));
            lemma_keys_view_all(self.entries@);
            let oldkeys = keys_view(t0);
            let newkeys = self.keys();
            assert(newkeys =~= oldkeys.push(key));
            assert forall|k: Seq<char>| #[trigger] self.contains(k) implies (old(self).contains(k)
                || k == key) by {
                let i = choose|i: int| 0 <= i < newkeys.len() && newkeys[i] == k;
                if i < oldkeys.len() {
                    assert(oldkeys[i] == k);
                }
            }
            assert forall|k: Seq<char>| old(self).contains(k) || k == key implies #[trigger] self
                .contains(k) by {
                if old(self).contains(k) {
                    let i = choose|i: int| 0 <= i < oldkeys.len() && oldkeys[i] == k;
                    assert(newkeys[i] == k);
                } else {
                    assert(newkeys[oldkeys.len() as int] == k);
                }
            }
            if old(self).wf() {
                assert forall|i: int, j: int|
                    0 <= i < j < newkeys.len() implies newkeys[i] != newkeys[j] by {
                    if j < oldkeys.len() {
                    } else {
                        assert(newkeys[j] == key);
                        assert(oldkeys[i] == newkeys[i]);
                        assert(oldkeys.contains(newkeys[i]) || !(oldkeys[i] == newkeys[i]));
                        if oldkeys[i] == key {
                            assert(oldkeys.contains(key));
                        }
                    }
                }
            }
        }
    }
}

/// A loader backed by a fixed table of documents; a `load` hands out the
/// first stored document whose own identifier matches, removing it, so each
/// document is served once. Intended for drivers that already hold the
/// documents, and for exercising the merge algorithm without transport.
pub struct FixedLoader {
    docs: Vec<RemoteDocument>,
    asked: Ghost<Seq<Seq<char>>>,
    answered: Ghost<Seq<Option<DocView>>>,
}

impl FixedLoader {
    /// The stored documents, in insertion order.
    pub closed spec fn spec_docs(&self) -> Seq<RemoteDocument> {
        self.docs@
    }

    /// An empty loader.
    pub fn new() -> (r: FixedLoader)
        ensures
            r.requests() == Seq::<Seq<char>>::empty(),
            r.responses() == Seq::<Option<DocView>>::empty(),
            r.spec_docs() == Seq::<RemoteDocument>::empty(),
    {
        let r = FixedLoader {
            docs: Vec::new(),
            asked: Ghost(Seq::empty()),
            answered: Ghost(Seq::empty()),
        };
        proof {
            assert(r.docs@ =~= Seq::<RemoteDocument>::empty());
        }
        r
    }

    /// Adds one document to the table.
    pub fn add_document(&mut self, doc: RemoteDocument)
        ensures
            final(self).spec_docs() == old(self).spec_docs().push(doc),
            final(self).requests() == old(self).requests(),
            final(self).responses() == old(self).responses(),
    {
        self.docs.push(doc);
    }
}

impl LoadRemoteDocument for FixedLoader {
    closed spec fn requests(&self) -> Seq<Seq<char>> {
        self.asked@
    }

    closed spec fn responses(&self) -> Seq<Option<DocView>> {
        self.answered@
    }

    fn load(&mut self, iri: &str) -> (r: Result<RemoteDocument, String>) {
        self.asked = Ghost(self.asked@.push(iri@));
        let mut i: usize = 0;
        while i < self.docs.len()
            invariant
                0 <= i <= self.docs@.len(),
                self.asked@ == old(self).asked@.push(iri@),
                self.answered@ == old(self).answered@,
            decreases self.docs@.len() - i,
        {
            if eq_str(self.docs[i].iri().as_str(), iri) {
                let d = self.docs.remove(i);
                let ghost dv = d.dview();
                self.answered = Ghost(self.answered@.push(Some(dv)));
                return Ok(d);
            }
            i = i + 1;
        }
        self.answered = Ghost(self.answered@.push(None));
        Err(String::new())
    }
}

/// The table of a `FixedExpander`: what each value expands to.
pub open spec fn tbl_view(s: Seq<(String, Nullable<String>)>) -> Seq<(Seq<char>, Option<Seq<char>>)>
    decreases s,
{
    if s.len() == 0 {
        Seq::empty()
    } else {
        seq![
            (
                s[0].0@,
                match s[0].1 {
                    Nullable::Null => None,
                    Nullable::Value(t) => Some(t@),
                },
            ),
        ] + tbl_view(s.drop_first())
    }
}

pub proof fn lemma_tbl_view_skip_step(s: Seq<(String, Nullable<String>)>, i: int)
    requires
        0 <= i < s.len(),
    ensures
        tbl_view(s.skip(i)).len() > 0,
        tbl_view(s.skip(i))[0] == (
            s[i].0@,
            match s[i].1 {
                Nullable::Null => None,
                Nullable::Value(t) => Some(t@),
            },
        ),
        tbl_view(s.skip(i)).drop_first() == tbl_view(s.skip(i + 1)),
{
    assert(s.skip(i).len() == s.len() - i);
    assert(s.skip(i)[0] == s[i]);
    assert(tbl_view(s.skip(i)) == seq![
        (
            s.skip(i)[0].0@,
            match s.skip(i)[0].1 {
                Nullable::Null => None,
                Nullable::Value(t) => Some(t@),
            },
        ),
    ] + tbl_view(s.skip(i).drop_first()));
    assert(s.skip(i).drop_first() =~= s.skip(i + 1));
    assert(tbl_view(s.skip(i)).drop_first() =~= tbl_view(s.skip(i).drop_first()));
}

/// An expander backed by a fixed lookup table: a value in the table expands to
/// the stored answer (`Null` standing for "no value"); any other value stands
/// for itself. It never touches the active context or the defined-map.
pub struct FixedExpander {
    table: Vec<(String, Nullable<String>)>,
}

impl FixedExpander {
    /// An expander under which every value stands for itself.
    pub fn new() -> (r: FixedExpander)
        ensures
            tbl_view(r.spec_table()) == Seq::<(Seq<char>, Option<Seq<char>>)>::empty(),
    {
        let r = FixedExpander { table: Vec::new() };
        r
    }

    /// The table, for stating what this expander answers.
    pub closed spec fn spec_table(&self) -> Seq<(String, Nullable<String>)> {
        self.table@
    }

    /// Records that `value` expands to `answer`.
    pub fn add(&mut self, value: String, answer: Nullable<String>)
        ensures
            final(self).spec_table() == old(self).spec_table().push((value, answer)),
    {
        self.table.push((value, answer));
    }
}

impl ExpandIri for FixedExpander {
    open spec fn expansion(&self, input: ExpandInput) -> ExpandOutcome {
        ExpandOutcome {
            result: match crate::json::assoc_lookup(tbl_view(self.spec_table()), input.value) {
                Some(ans) => Ok(ans),
                None => Ok(Some(input.value)),
            },
            active: input.active,
            defined: input.defined,
        }
    }

    fn expand(
        &self,
        active: &mut Context,
        local: &JsonValue,
        base: &str,
        defined: &mut DefinedMap,
        value: &str,
        vocab: bool,
    ) -> (r: Result<Option<String>, ErrorCode>) {
        let ghost full = tbl_view(self.table@);
        proof {
            assert(self.table@.skip(0) =~= self.table@);
        }
        let mut i: usize = 0;
        while i < self.table.len()
            invariant
                0 <= i <= self.table@.len(),
                full == tbl_view(self.table@),
                crate::json::assoc_lookup(full, value@) == crate::json::assoc_lookup(
                    tbl_view(self.table@.skip(i as int)),
                    value@,
                ),
            decreases self.table@.len() - i,
        {
            proof {
                lemma_tbl_view_skip_step(self.table@, i as int);
            }
            if eq_str(self.table[i].0.as_str(), value) {
                return match &self.table[i].1 {
                    Nullable::Null => Ok(None),
                    Nullable::Value(t) => Ok(Some(t.clone())),
                };
            }
            i = i + 1;
        }
        proof {
            assert(tbl_view(self.table@.skip(i as int)) =~= Seq::<(Seq<char>, Option<
                Seq<char>>)>::empty());
        }
        Ok(Some(value.to_owned()))
    }
}

} // verus!
