//! The tree-structured interchange values that context processing consumes,
//! with a mathematical mirror used by the contracts.

use vstd::prelude::*;

verus! {

/// A slot that is either explicitly "no value" or a value: distinct from an
/// absent key.
#[derive(Debug)]
pub enum Nullable<T> {
    Null,
    Value(T),
}

/// One tree-structured interchange value. Numeric values are carried but never
/// inspected by context processing, so they are modelled without their
/// magnitude.
#[derive(Debug)]
pub enum JsonValue {
    Null,
    Bool(bool),
    Number,
    String(String),
    Array(Vec<JsonValue>),
    Object(Vec<(String, JsonValue)>),
}

/// The mathematical mirror of `JsonValue`.
pub ghost enum Json {
    Null,
    Bool(bool),
    Number,
    Text(Seq<char>),
    Arr(Seq<Json>),
    Obj(Seq<(Seq<char>, Json)>),
}

/// The mirror of a sequence of values.
pub open spec fn jview_seq(s: Seq<JsonValue>) -> Seq<Json>
    decreases s,
{
    if s.len() == 0 {
        Seq::empty()
    } else {
        seq![s[0].jview()] + jview_seq(s.drop_first())
    }
}

/// The mirror of an object's members.
pub open spec fn members_view(s: Seq<(String, JsonValue)>) -> Seq<(Seq<char>, Json)>
    decreases s,
{
    if s.len() == 0 {
        Seq::empty()
    } else {
        seq![(s[0].0@, s[0].1.jview())] + members_view(s.drop_first())
    }
}

impl JsonValue {
    /// The mathematical value this tree stands for.
    pub open spec fn jview(self) -> Json
        decreases self,
    {
        match self {
            JsonValue::Null => Json::Null,
            JsonValue::Bool(b) => Json::Bool(b),
            JsonValue::Number => Json::Number,
            JsonValue::String(s) => Json::Text(s@),
            JsonValue::Array(items) => Json::Arr(jview_seq(items@)),
            JsonValue::Object(members) => Json::Obj(members_view(members@)),
        }
    }
}

impl JsonValue {
    /// A value-equal copy.
    #[verifier::loop_isolation(false)]
    pub fn duplicate(&self) -> (r: JsonValue)
        ensures
            r@ == self@,
        decreases self,
    {
        match self {
            JsonValue::Null => JsonValue::Null,
            JsonValue::Bool(b) => JsonValue::Bool(*b),
            JsonValue::Number => JsonValue::Number,
            JsonValue::String(s) => JsonValue::String(s.clone()),
            JsonValue::Array(items) => {
                let mut out: Vec<JsonValue> = Vec::new();
                let mut i: usize = 0;
                while i < items.len()
                    invariant
                        0 <= i <= items@.len(),
                        out@.len() == i,
                        forall|j: int| 0 <= j < i ==> (#[trigger] out@[j])@ == items@[j]@,
                    decreases items@.len() - i,
                {
                    let c = items[i].duplicate();
                    out.push(c);
                    i = i + 1;
                }
                proof {
                    lemma_jview_seq_len(out@);
                    lemma_jview_seq_len(items@);
                    assert forall|j: int| 0 <= j < items@.len() implies jview_seq(out@)[j]
                        == jview_seq(items@)[j] by {
                        lemma_jview_seq_index(out@, j);
                        lemma_jview_seq_index(items@, j);
                    }
                    assert(jview_seq(out@) =~= jview_seq(items@));
                }
                JsonValue::Array(out)
            },
            JsonValue::Object(members) => {
                let mut out: Vec<(String, JsonValue)> = Vec::new();
                let mut i: usize = 0;
                while i < members.len()
                    invariant
                        0 <= i <= members@.len(),
                        out@.len() == i,
                        forall|j: int| 0 <= j < i ==> (#[trigger] out@[j]).0@ == members@[j].0@
                            && out@[j].1@ == members@[j].1@,
                    decreases members@.len() - i,
                {
                    let k = members[i].0.clone();
                    let v = members[i].1.duplicate();
                    out.push((k, v));
                    i = i + 1;
                }
                proof {
                    lemma_members_view_len(out@);
                    lemma_members_view_len(members@);
                    assert forall|j: int| 0 <= j < members@.len() implies members_view(out@)[j]
                        == members_view(members@)[j] by {
                        lemma_members_view_index(out@, j);
                        lemma_members_view_index(members@, j);
                    }
                    assert(members_view(out@) =~= members_view(members@));
                }
                JsonValue::Object(out)
            },
        }
    }
}

impl View for JsonValue {
    type V = Json;

    open spec fn view(&self) -> Json {
        self.jview()
    }
}

pub proof fn lemma_jview_seq_index(s: Seq<JsonValue>, i: int)
    requires
        0 <= i < s.len(),
    ensures
        jview_seq(s).len() == s.len(),
        jview_seq(s)[i] == s[i].jview(),
    decreases s.len(),
{
    if i > 0 {
        lemma_jview_seq_index(s.drop_first(), i - 1);
    } else {
        lemma_jview_seq_len(s);
    }
}

pub proof fn lemma_jview_seq_len(s: Seq<JsonValue>)
    ensures
        jview_seq(s).len() == s.len(),
    decreases s.len(),
{
    if s.len() > 0 {
        lemma_jview_seq_len(s.drop_first());
    }
}

pub proof fn lemma_members_view_len(s: Seq<(String, JsonValue)>)
    ensures
        members_view(s).len() == s.len(),
    decreases s.len(),
{
    if s.len() > 0 {
        lemma_members_view_len(s.drop_first());
    }
}

pub proof fn lemma_members_view_index(s: Seq<(String, JsonValue)>, i: int)
    requires
        0 <= i < s.len(),
    ensures
        members_view(s).len() == s.len(),
        members_view(s)[i] == (s[i].0@, s[i].1.jview()),
    decreases s.len(),
{
    if i > 0 {
        lemma_members_view_index(s.drop_first(), i - 1);
    } else {
        lemma_members_view_len(s);
    }
}

/// The value under `key` in an object's members: the first match.
pub open spec fn assoc_lookup<T>(s: Seq<(Seq<char>, T)>, key: Seq<char>) -> Option<T>
    decreases s.len(),
{
    if s.len() == 0 {
        None
    } else if s[0].0 == key {
        Some(s[0].1)
    } else {
        assoc_lookup(s.drop_first(), key)
    }
}

/// Two strings hold the same characters.
pub fn eq_str(a: &str, b: &str) -> (r: bool)
    ensures
        r == (a@ == b@),
{
    let ao: String = a.to_owned();
    let bo: String = b.to_owned();
    ao == bo
}

/// Looks `key` up among an object's members.
pub fn obj_get<'a>(members: &'a Vec<(String, JsonValue)>, key: &str) -> (r: Option<&'a JsonValue>)
    ensures
        match r {
            Some(v) => assoc_lookup(members_view(members@), key@) == Some(v@),
            None => assoc_lookup(members_view(members@), key@) is None,
        },
{
    let ghost full = members_view(members@);
    proof {
        assert(members@.skip(0) =~= members@);
    }
    let mut i: usize = 0;
    while i < members.len()
        invariant
            0 <= i <= members@.len(),
            full == members_view(members@),
            assoc_lookup(full, key@) == assoc_lookup(members_view(members@.skip(i as int)), key@),
        decreases members@.len() - i,
    {
        proof {
            lemma_members_view_skip_step(members@, i as int);
        }
        if eq_str(members[i].0.as_str(), key) {
            return Some(&members[i].1);
        }
        i = i + 1;
    }
    proof {
        assert(members@.skip(i as int).len() == 0);
    }
    None
}

/// Unfolding of `members_view` over a suffix: the suffix's view starts with
/// the element at its head.
pub proof fn lemma_members_view_skip_step(s: Seq<(String, JsonValue)>, i: int)
    requires
        0 <= i < s.len(),
    ensures
        members_view(s.skip(i)).len() == s.len() - i,
        members_view(s.skip(i))[0] == (s[i].0@, s[i].1.jview()),
        members_view(s.skip(i)).drop_first() == members_view(s.skip(i + 1)),
{
    lemma_members_view_len(s.skip(i));
    lemma_members_view_index(s.skip(i), 0);
    assert(s.skip(i)[0] == s[i]);
    assert(s.skip(i).drop_first() =~= s.skip(i + 1));
    assert(members_view(s.skip(i)).drop_first() =~= members_view(s.skip(i).drop_first()));
}

/// Unfolding of `jview_seq` over a suffix: the suffix's view starts with the
/// element at its head.
pub proof fn lemma_jview_seq_skip_step(s: Seq<JsonValue>, i: int)
    requires
        0 <= i < s.len(),
    ensures
        jview_seq(s.skip(i)).len() == s.len() - i,
        jview_seq(s.skip(i))[0] == s[i].jview(),
        jview_seq(s.skip(i)).drop_first() == jview_seq(s.skip(i + 1)),
{
    lemma_jview_seq_len(s.skip(i));
    lemma_jview_seq_index(s.skip(i), 0);
    assert(s.skip(i)[0] == s[i]);
    assert(s.skip(i).drop_first() =~= s.skip(i + 1));
    assert(jview_seq(s.skip(i)).drop_first() =~= jview_seq(s.skip(i).drop_first()));
}

/// Whether the object's members contain `key`.
pub fn obj_contains_key(members: &Vec<(String, JsonValue)>, key: &str) -> (r: bool)
    ensures
        r == (assoc_lookup(members_view(members@), key@) is Some),
{
    let r = obj_get(members, key);
    r.is_some()
}

} // verus!
