//! The active context and the defined-map shared by term-definition creation.

use vstd::prelude::*;

use crate::definition::{ntview, TdView, TermDefinition};
use crate::json::{eq_str, Nullable};

verus! {

/// One frame of term slots: term name to definition-or-explicit-null, in
/// insertion order; a later slot for the same name shadows an earlier one.
pub type TermFrame = Seq<(Seq<char>, Option<TdView>)>;

/// The mirror of an active context: its own term slots first, then the term
/// slots of each previous context along the restore chain.
pub ghost struct CtxView {
    pub frames: Seq<TermFrame>,
}

/// The slot installed under `key`: the latest one wins.
pub open spec fn term_lookup(s: TermFrame, key: Seq<char>) -> Option<Option<TdView>>
    decreases s.len(),
{
    if s.len() == 0 {
        None
    } else if s.last().0 == key {
        Some(s.last().1)
    } else {
        term_lookup(s.drop_last(), key)
    }
}

impl CtxView {
    /// Every context has at least its own frame.
    pub open spec fn wf(self) -> bool {
        self.frames.len() >= 1
    }

    /// A freshly initialized context.
    pub open spec fn empty() -> CtxView {
        CtxView { frames: seq![Seq::empty()] }
    }

    /// This context's own term slots.
    pub open spec fn terms(self) -> TermFrame {
        self.frames[0]
    }

    /// Whether a previous context is chained for scope restore.
    pub open spec fn has_previous(self) -> bool {
        self.frames.len() > 1
    }

    /// The chained previous context.
    pub open spec fn previous(self) -> CtxView {
        CtxView { frames: self.frames.drop_first() }
    }

    /// This context with its previous-context chain replaced by `prev`.
    pub open spec fn with_previous(self, prev: CtxView) -> CtxView {
        CtxView { frames: seq![self.frames[0]] + prev.frames }
    }

    /// Whether any of this context's own slots holds a protected definition.
    pub open spec fn has_protected(self) -> bool {
        exists|i: int|
            0 <= i < self.terms().len() && (#[trigger] self.terms()[i].1 matches Some(td)
                && td.protected)
    }

    /// This context with one more slot installed under `key`.
    pub open spec fn push_term(self, key: Seq<char>, d: Option<TdView>) -> CtxView {
        CtxView { frames: self.frames.update(0, self.frames[0].push((key, d))) }
    }

    /// The definition slot under `key` in this context's own frame.
    pub open spec fn lookup(self, key: Seq<char>) -> Option<Option<TdView>> {
        term_lookup(self.frames[0], key)
    }
}

/// The mirror of a vector of term slots.
pub open spec fn terms_view(s: Seq<(String, Nullable<TermDefinition>)>) -> TermFrame
    decreases s,
{
    if s.len() == 0 {
        Seq::empty()
    } else {
        seq![(s[0].0@, ntview(s[0].1))] + terms_view(s.drop_first())
    }
}

pub proof fn lemma_terms_view_all(s: Seq<(String, Nullable<TermDefinition>)>)
    ensures
        terms_view(s).len() == s.len(),
        forall|i: int| 0 <= i < s.len() ==> terms_view(s)[i] == (s[i].0@, ntview(s[i].1)),
    decreases s.len(),
{
    if s.len() > 0 {
        lemma_terms_view_all(s.drop_first());
        assert forall|i: int| 0 <= i < s.len() implies terms_view(s)[i] == (
            s[i].0@,
            ntview(s[i].1),
        ) by {
            if i > 0 {
                assert(terms_view(s)[i] == terms_view(s.drop_first())[i - 1]);
                assert(s.drop_first()[i - 1] == s[i]);
            }
        }
    }
}

pub proof fn lemma_terms_view_push(s: Seq<(String, Nullable<TermDefinition>)>, p: (String, Nullable<TermDefinition>))
    ensures
        terms_view(s.push(p)) == terms_view(s).push((p.0@, ntview(p.1))),
    decreases s.len(),
{
    if s.len() == 0 {
        assert(s.push(p).drop_first() =~= Seq::<(String, Nullable<TermDefinition>)>::empty());
        assert(s.push(p)[0] == p);
        assert(s.push(p).len() == 1);
        assert(terms_view(s.push(p)) == seq![(s.push(p)[0].0@, ntview(s.push(p)[0].1))]
            + terms_view(s.push(p).drop_first()));
        assert(terms_view(s) =~= Seq::<(Seq<char>, Option<TdView>)>::empty());
        assert(terms_view(s.push(p)) =~= terms_view(s).push((p.0@, ntview(p.1))));
    } else {
        assert(s.push(p).drop_first() =~= s.drop_first().push(p));
        lemma_terms_view_push(s.drop_first(), p);
        assert(s.push(p)[0] == s[0]);
        assert(terms_view(s.push(p)) =~= terms_view(s).push((p.0@, ntview(p.1))));
    }
}

/// The active context: an insertion-ordered mapping from term to definition
/// slot, plus an optional previous context used to restore a non-propagating
/// scope.
#[derive(Debug)]
pub struct Context {
    terms: Vec<(String, Nullable<TermDefinition>)>,
    previous_context: Option<Box<Context>>,
}

impl View for Context {
    type V = CtxView;

    closed spec fn view(&self) -> CtxView
        decreases self,
    {
        match self.previous_context {
            None => CtxView { frames: seq![terms_view(self.terms@)] },
            Some(b) => CtxView { frames: seq![terms_view(self.terms@)] + (*b)@.frames },
        }
    }
}

/// Every context value carries at least its own frame.
pub proof fn lemma_ctx_wf(c: Context)
    ensures
        c@.wf(),
    decreases c,
{
    match c.previous_context {
        Some(b) => lemma_ctx_wf(*b),
        None => {},
    }
}

impl Context {
    /// A freshly initialized, empty active context.
    pub fn new() -> (r: Context)
        ensures
            r@ == CtxView::empty(),
    {
        let r = Context { terms: Vec::new(), previous_context: None };
        proof {
            assert(r@.frames =~= CtxView::empty().frames);
        }
        r
    }

    /// Whether a previous context is chained for scope restore.
    pub fn has_previous_context(&self) -> (r: bool)
        ensures
            r == self@.has_previous(),
    {
        proof {
            if self.previous_context is Some {
                lemma_ctx_wf(*self.previous_context->0);
            }
        }
        self.previous_context.is_some()
    }

    /// Whether any of this context's own slots holds a protected definition.
    pub fn has_protected_term_definition(&self) -> (r: bool)
        ensures
            r == self@.has_protected(),
    {
        proof {
            lemma_terms_view_all(self.terms@);
        }
        let ghost frame = self@.terms();
        let mut i: usize = 0;
        while i < self.terms.len()
            invariant
                0 <= i <= self.terms@.len(),
                frame == self@.terms(),
                frame == terms_view(self.terms@),
                frame.len() == self.terms@.len(),
                forall|j: int| 0 <= j < self.terms@.len() ==> frame[j] == (
                    self.terms@[j].0@,
                    ntview(self.terms@[j].1),
                ),
                forall|j: int| 0 <= j < i ==> !(#[trigger] frame[j].1 matches Some(td)
                    && td.protected),
            decreases self.terms@.len() - i,
        {
            if let Nullable::Value(td) = &self.terms[i].1 {
                if td.is_protected() {
                    proof {
                        assert(frame[i as int].1 matches Some(t) && t.protected);
                    }
                    return true;
                }
            }
            i = i + 1;
        }
        false
    }

    /// Installs one more slot under `term`, shadowing any earlier slot for it.
    pub fn insert_term_definition(&mut self, term: String, definition: Nullable<TermDefinition>)
        ensures
            final(self)@ == old(self)@.push_term(term@, ntview(definition)),
    {
        let ghost t0 = self.terms@;
        let ghost pr = (term, definition);
        self.terms.push((term, definition));
        proof {
            lemma_terms_view_push(t0, pr);
            assert(self@.frames =~= old(self)@.push_term(pr.0@, ntview(pr.1)).frames);
        }
    }

    /// The definition slot under `term`, if one was installed.
    pub fn get_term_definition(&self, term: &str) -> (r: Option<&Nullable<TermDefinition>>)
        ensures
            match r {
                Some(n) => self@.lookup(term@) == Some(ntview(*n)),
                None => self@.lookup(term@) is None,
            },
    {
        proof {
            lemma_terms_view_all(self.terms@);
            assert(terms_view(self.terms@).take(self.terms@.len() as int) =~= terms_view(
                self.terms@,
            ));
        }
        let ghost frame = terms_view(self.terms@);
        let mut i: usize = self.terms.len();
        while i > 0
            invariant
                0 <= i <= self.terms@.len(),
                frame == terms_view(self.terms@),
                frame == self@.terms(),
                frame.len() == self.terms@.len(),
                forall|j: int| 0 <= j < self.terms@.len() ==> frame[j] == (
                    self.terms@[j].0@,
                    ntview(self.terms@[j].1),
                ),
                term_lookup(frame, term@) == term_lookup(frame.take(i as int), term@),
            decreases i,
        {
            i = i - 1;
            proof {
                assert(frame.take(i as int + 1).drop_last() =~= frame.take(i as int));
                assert(frame.take(i as int + 1).last() == frame[i as int]);
            }
            if eq_str(self.terms[i].0.as_str(), term) {
                return Some(&self.terms[i].1);
            }
        }
        proof {
            assert(frame.take(0) =~= Seq::<(Seq<char>, Option<TdView>)>::empty());
        }
        None
    }

    /// Chains `prev` as this context's previous context, replacing any
    /// earlier chain.
    pub fn set_previous(&mut self, prev: Context)
        ensures
            final(self)@ == old(self)@.with_previous(prev@),
    {
        self.previous_context = Some(Box::new(prev));
        proof {
            assert(self@.frames =~= old(self)@.with_previous(
                (*self.previous_context->0)@,
            ).frames);
        }
    }

    /// A value-equal copy: merging never mutates a context still visible to
    /// an outer scope.
    pub fn duplicate(&self) -> (r: Context)
        ensures
            r@ == self@,
        decreases self,
    {
        let mut terms: Vec<(String, Nullable<TermDefinition>)> = Vec::new();
        let mut i: usize = 0;
        while i < self.terms.len()
            invariant
                0 <= i <= self.terms@.len(),
                terms@.len() == i,
                forall|j: int| 0 <= j < i ==> (#[trigger] terms@[j]).0@ == self.terms@[j].0@
                    && ntview(terms@[j].1) == ntview(self.terms@[j].1),
            decreases self.terms@.len() - i,
        {
            let key = self.terms[i].0.clone();
            let def = match &self.terms[i].1 {
                Nullable::Null => Nullable::Null,
                Nullable::Value(td) => Nullable::Value(td.duplicate()),
            };
            terms.push((key, def));
            i = i + 1;
        }
        proof {
            lemma_terms_view_all(terms@);
            lemma_terms_view_all(self.terms@);
            assert(terms_view(terms@) =~= terms_view(self.terms@));
        }
        let previous_context = match &self.previous_context {
            None => None,
            Some(b) => Some(Box::new(b.duplicate())),
        };
        let r = Context { terms, previous_context };
        proof {
            assert(r@.frames =~= self@.frames);
        }
        r
    }
}

/// The defined-map: which term definitions are in progress (`false`) or
/// complete (`true`) while one local context object is processed.
#[derive(Debug)]
pub struct DefinedMap {
    entries: Vec<(String, bool)>,
}

/// The mapping a defined-map's history denotes: the latest entry for a term
/// wins.
pub open spec fn dm_view(s: Seq<(String, bool)>) -> Map<Seq<char>, bool>
    decreases s.len(),
{
    if s.len() == 0 {
        Map::empty()
    } else {
        dm_view(s.drop_last()).insert(s.last().0@, s.last().1)
    }
}

impl View for DefinedMap {
    type V = Map<Seq<char>, bool>;

    closed spec fn view(&self) -> Map<Seq<char>, bool> {
        dm_view(self.entries@)
    }
}

/// A map lookup as an option.
pub open spec fn map_get(m: Map<Seq<char>, bool>, key: Seq<char>) -> Option<bool> {
    if m.contains_key(key) {
        Some(m[key])
    } else {
        None
    }
}

impl DefinedMap {
    /// An empty defined-map.
    pub fn new() -> (r: DefinedMap)
        ensures
            r@ == Map::<Seq<char>, bool>::empty(),
    {
        DefinedMap { entries: Vec::new() }
    }

    /// Records that `term`'s definition is in progress (`false`) or complete
    /// (`true`).
    pub fn set(&mut self, term: String, done: bool)
        ensures
            final(self)@ == old(self)@.insert(term@, done),
    {
        let ghost t0 = self.entries@;
        let ghost pr = (term, done);
        self.entries.push((term, done));
        proof {
            assert(self.entries@.drop_last() =~= t0);
        }
    }

    /// The recorded flag for `term`, if any.
    pub fn get(&self, term: &str) -> (r: Option<bool>)
        ensures
            r == map_get(self@, term@),
    {
        proof {
            assert(self.entries@.take(self.entries@.len() as int) =~= self.entries@);
        }
        let mut i: usize = self.entries.len();
        while i > 0
            invariant
                0 <= i <= self.entries@.len(),
                map_get(self@, term@) == map_get(dm_view(self.entries@.take(i as int)), term@),
                self@ == dm_view(self.entries@),
            decreases i,
        {
            i = i - 1;
            proof {
                assert(self.entries@.take(i as int + 1).drop_last() =~= self.entries@.take(
                    i as int,
                ));
                assert(self.entries@.take(i as int + 1).last() == self.entries@[i as int]);
            }
            if eq_str(self.entries[i].0.as_str(), term) {
                return Some(self.entries[i].1);
            }
        }
        None
    }
}

} // verus!
