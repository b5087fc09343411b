//! Term definitions, their staged builder, and container mappings.

use vstd::prelude::*;

use crate::error::ErrorCode;
use crate::json::{eq_str, Json, JsonValue, Nullable};

verus! {

/// One recognized container keyword.
#[derive(Clone, Copy, Debug, PartialEq, Eq, Structural)]
pub enum ContainerItem {
    SetKw,
    IndexKw,
    ListKw,
    LanguageKw,
    TypeKw,
    IdKw,
    GraphKw,
}

/// A parsed `@container` value: a small ordered collection of keywords, kept
/// verbatim in parse order.
#[derive(Debug)]
pub struct Container {
    items: Vec<ContainerItem>,
}

impl View for Container {
    type V = Seq<ContainerItem>;

    closed spec fn view(&self) -> Seq<ContainerItem> {
        self.items@
    }
}

impl Container {
    /// The lone item of a singleton container.
    pub fn get_single_item(&self) -> (r: Option<ContainerItem>)
        ensures
            r == (if self@.len() == 1 {
                Some(self@[0])
            } else {
                None::<ContainerItem>
            }),
    {
        if self.items.len() == 1 {
            Some(self.items[0])
        } else {
            None
        }
    }

    /// The items, in parse order.
    pub fn items(&self) -> (r: &Vec<ContainerItem>)
        ensures
            r@ == self@,
    {
        &self.items
    }

    /// A value-equal copy.
    pub fn duplicate(&self) -> (r: Container)
        ensures
            r@ == self@,
    {
        let items = self.items.clone();
        proof {
            assert(items@ =~= self.items@);
        }
        Container { items }
    }
}

/// The mirror of a possibly-null container slot: `None` stands for the null
/// mapping as well as for an absent one.
pub open spec fn cnview(c: Nullable<Container>) -> Option<Seq<ContainerItem>> {
    match c {
        Nullable::Null => None,
        Nullable::Value(ct) => Some(ct@),
    }
}

/// The container keyword a string denotes, if any.
pub open spec fn spec_container_keyword(s: Seq<char>) -> Option<ContainerItem> {
    if s == "@set"@ {
        Some(ContainerItem::SetKw)
    } else if s == "@index"@ {
        Some(ContainerItem::IndexKw)
    } else if s == "@list"@ {
        Some(ContainerItem::ListKw)
    } else if s == "@language"@ {
        Some(ContainerItem::LanguageKw)
    } else if s == "@type"@ {
        Some(ContainerItem::TypeKw)
    } else if s == "@id"@ {
        Some(ContainerItem::IdKw)
    } else if s == "@graph"@ {
        Some(ContainerItem::GraphKw)
    } else {
        None
    }
}

/// Parses the elements of an `@container` array: each must be a recognized
/// keyword string.
pub open spec fn spec_parse_items(items: Seq<Json>) -> Result<Seq<ContainerItem>, ErrorCode>
    decreases items.len(),
{
    if items.len() == 0 {
        Ok(Seq::empty())
    } else {
        match items[0] {
            Json::Text(s) => match spec_container_keyword(s) {
                Some(it) => match spec_parse_items(items.drop_first()) {
                    Ok(rest) => Ok(seq![it] + rest),
                    Err(e) => Err(e),
                },
                None => Err(ErrorCode::InvalidContainerMapping),
            },
            _ => Err(ErrorCode::InvalidContainerMapping),
        }
    }
}

/// Parses a wire-level `@container` value: null, one keyword string, or an
/// array of keyword strings; anything else is `InvalidContainerMapping`.
pub open spec fn spec_parse_container(v: Json) -> Result<Option<Seq<ContainerItem>>, ErrorCode> {
    match v {
        Json::Null => Ok(None),
        Json::Text(s) => match spec_container_keyword(s) {
            Some(it) => Ok(Some(seq![it])),
            None => Err(ErrorCode::InvalidContainerMapping),
        },
        Json::Arr(items) => match spec_parse_items(items) {
            Ok(its) => Ok(Some(its)),
            Err(e) => Err(e),
        },
        _ => Err(ErrorCode::InvalidContainerMapping),
    }
}

/// The container keyword a string denotes, if any.
pub fn container_keyword(s: &str) -> (r: Option<ContainerItem>)
    ensures
        r == spec_container_keyword(s@),
{
    if eq_str(s, "@set") {
        Some(ContainerItem::SetKw)
    } else if eq_str(s, "@index") {
        Some(ContainerItem::IndexKw)
    } else if eq_str(s, "@list") {
        Some(ContainerItem::ListKw)
    } else if eq_str(s, "@language") {
        Some(ContainerItem::LanguageKw)
    } else if eq_str(s, "@type") {
        Some(ContainerItem::TypeKw)
    } else if eq_str(s, "@id") {
        Some(ContainerItem::IdKw)
    } else if eq_str(s, "@graph") {
        Some(ContainerItem::GraphKw)
    } else {
        None
    }
}

/// Parses a wire-level `@container` value.
pub fn parse_container(v: &JsonValue) -> (r: Result<Nullable<Container>, ErrorCode>)
    ensures
        match r {
            Ok(c) => spec_parse_container(v@) == Ok::<_, ErrorCode>(cnview(c)),
            Err(e) => spec_parse_container(v@) == Err::<Option<Seq<ContainerItem>>, _>(e),
        },
{
    match v {
        JsonValue::Null => Ok(Nullable::Null),
        JsonValue::String(s) => match container_keyword(s.as_str()) {
            Some(it) => {
                let items = vec![it];
                proof {
                    assert(items@ =~= seq![it]);
                }
                Ok(Nullable::Value(Container { items }))
            },
            None => Err(ErrorCode::InvalidContainerMapping),
        },
        JsonValue::Array(elems) => {
            let ghost full = crate::json::jview_seq(elems@);
            proof {
                assert(elems@.skip(0) =~= elems@);
                assert(v@ == Json::Arr(full));
            }
            let mut items: Vec<ContainerItem> = Vec::new();
            let mut i: usize = 0;
            while i < elems.len()
                invariant
                    0 <= i <= elems@.len(),
                    full == crate::json::jview_seq(elems@),
                    v@ == Json::Arr(full),
                    spec_parse_items(full) == match spec_parse_items(
                        crate::json::jview_seq(elems@.skip(i as int)),
                    ) {
                        Ok(rest) => Ok::<_, ErrorCode>(items@ + rest),
                        Err(e) => Err(e),
                    },
                decreases elems@.len() - i,
            {
                proof {
                    crate::json::lemma_jview_seq_skip_step(elems@, i as int);
                }
                let ghost rem = crate::json::jview_seq(elems@.skip(i as int));
                let it = match &elems[i] {
                    JsonValue::String(s) => match container_keyword(s.as_str()) {
                        Some(it) => it,
                        None => {
                            proof {
                                assert(rem[0] == Json::Text(s@));
                                assert(spec_parse_items(rem) == Err::<Seq<ContainerItem>,
                                    ErrorCode>(ErrorCode::InvalidContainerMapping));
                                assert(spec_parse_items(full) == Err::<Seq<ContainerItem>,
                                    ErrorCode>(ErrorCode::InvalidContainerMapping));
                                assert(spec_parse_container(v@) == Err::<Option<
                                    Seq<ContainerItem>>, ErrorCode>(
                                    ErrorCode::InvalidContainerMapping));
                            }
                            return Err(ErrorCode::InvalidContainerMapping);
                        },
                    },
                    _ => {
                        proof {
                            assert(!(rem[0] is Text));
                            assert(spec_parse_items(rem) == Err::<Seq<ContainerItem>, ErrorCode>(
                                ErrorCode::InvalidContainerMapping));
                        }
                        return Err(ErrorCode::InvalidContainerMapping);
                    },
                };
                let ghost items_before = items@;
                items.push(it);
                proof {
                    assert(forall|rest: Seq<ContainerItem>|
                        items_before + (seq![it] + rest) =~= items@ + rest);
                }
                i = i + 1;
            }
            proof {
                assert(crate::json::jview_seq(elems@.skip(i as int)) =~= Seq::<Json>::empty());
                assert(items@ + Seq::<ContainerItem>::empty() =~= items@);
            }
            Ok(Nullable::Value(Container { items }))
        },
        _ => Err(ErrorCode::InvalidContainerMapping),
    }
}

/// The mirror of a finished term definition.
pub ghost struct TdView {
    pub iri: Seq<char>,
    pub reverse: bool,
    pub container: Option<Seq<ContainerItem>>,
    pub protected: bool,
}

/// An immutable term definition: the resolved meaning of one term.
#[derive(Debug)]
pub struct TermDefinition {
    iri: String,
    reverse: bool,
    container: Nullable<Container>,
    protected: bool,
}

impl View for TermDefinition {
    type V = TdView;

    closed spec fn view(&self) -> TdView {
        TdView {
            iri: self.iri@,
            reverse: self.reverse,
            container: cnview(self.container),
            protected: self.protected,
        }
    }
}

impl TermDefinition {
    /// The identifier mapping.
    pub fn iri(&self) -> (r: &String)
        ensures
            r@ == self@.iri,
    {
        &self.iri
    }

    /// Whether the relationship is interpreted in the inverse direction.
    pub fn is_reverse(&self) -> (r: bool)
        ensures
            r == self@.reverse,
    {
        self.reverse
    }

    /// Whether the definition is protected against redefinition.
    pub fn is_protected(&self) -> (r: bool)
        ensures
            r == self@.protected,
    {
        self.protected
    }

    /// The container mapping.
    pub fn container(&self) -> (r: &Nullable<Container>)
        ensures
            cnview(*r) == self@.container,
    {
        &self.container
    }

    /// A value-equal copy.
    pub fn duplicate(&self) -> (r: TermDefinition)
        ensures
            r@ == self@,
    {
        let container = match &self.container {
            Nullable::Null => Nullable::Null,
            Nullable::Value(c) => Nullable::Value(c.duplicate()),
        };
        TermDefinition {
            iri: self.iri.clone(),
            reverse: self.reverse,
            container,
            protected: self.protected,
        }
    }
}

/// The mirror of a term slot: `None` stands for a term explicitly mapped to
/// "no definition".
pub open spec fn ntview(n: Nullable<TermDefinition>) -> Option<TdView> {
    match n {
        Nullable::Null => None,
        Nullable::Value(td) => Some(td@),
    }
}

/// The mirror of a builder's accumulated state.
pub ghost struct BuilderView {
    pub iri: Option<Seq<char>>,
    pub reverse: bool,
    pub container: Option<Seq<ContainerItem>>,
    pub protected: bool,
}

impl BuilderView {
    /// The state of a freshly created builder.
    pub open spec fn init() -> BuilderView {
        BuilderView { iri: None, reverse: false, container: None, protected: false }
    }
}

/// A staged accumulator for exactly one term definition; `build` is the sole
/// path to a finished `TermDefinition`.
#[derive(Debug)]
pub struct DefinitionBuilder {
    iri: Option<String>,
    reverse: bool,
    container: Nullable<Container>,
    protected: bool,
}

impl View for DefinitionBuilder {
    type V = BuilderView;

    closed spec fn view(&self) -> BuilderView {
        BuilderView {
            iri: match self.iri {
                Some(s) => Some(s@),
                None => None,
            },
            reverse: self.reverse,
            container: cnview(self.container),
            protected: self.protected,
        }
    }
}

impl DefinitionBuilder {
    /// A fresh builder with nothing accumulated.
    pub fn new() -> (r: DefinitionBuilder)
        ensures
            r@ == BuilderView::init(),
    {
        DefinitionBuilder { iri: None, reverse: false, container: Nullable::Null, protected: false }
    }

    /// Sets the identifier mapping.
    pub fn set_iri(&mut self, iri: String)
        ensures
            final(self)@ == (BuilderView { iri: Some(iri@), ..old(self)@ }),
    {
        self.iri = Some(iri);
    }

    /// Sets the reverse flag.
    pub fn set_reverse(&mut self, reverse: bool)
        ensures
            final(self)@ == (BuilderView { reverse, ..old(self)@ }),
    {
        self.reverse = reverse;
    }

    /// Stores a parsed container mapping verbatim.
    pub fn set_container(&mut self, container: Nullable<Container>)
        ensures
            final(self)@ == (BuilderView { container: cnview(container), ..old(self)@ }),
    {
        self.container = container;
    }

    /// Sets the protected flag.
    pub fn set_protected(&mut self, protected: bool)
        ensures
            final(self)@ == (BuilderView { protected, ..old(self)@ }),
    {
        self.protected = protected;
    }

    /// Commits the accumulated state into an immutable definition.
    pub fn build(self) -> (r: TermDefinition)
        requires
            self@.iri is Some,
        ensures
            r@ == (TdView {
                iri: self@.iri->0,
                reverse: self@.reverse,
                container: self@.container,
                protected: self@.protected,
            }),
    {
        let iri = match self.iri {
            Some(s) => s,
            None => {
                proof {
                    assert(false);
                }
                String::new()
            },
        };
        TermDefinition {
            iri,
            reverse: self.reverse,
            container: self.container,
            protected: self.protected,
        }
    }
}

} // verus!

