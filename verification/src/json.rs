//! The JSON value type and its mathematical model.

use vstd::prelude::*;

verus! {

/// A parsed JSON document: a recursive sum type over the six JSON kinds.
///
/// Numbers are held by their canonical decimal text, as produced at the parse
/// boundary; the viewer only ever displays them, so the text form is the whole
/// of what the logic reads. Objects keep their entries as an ordered sequence
/// of key/value pairs, preserving insertion order.
#[derive(PartialEq, Eq, Debug)]
pub enum JsonValue {
    Null,
    Bool(bool),
    Number(String),
    Text(String),
    Array(Vec<JsonValue>),
    Object(Vec<(String, JsonValue)>),
}

/// The mathematical model of a [`JsonValue`]: the same tree over `Seq` and
/// `Seq<char>`. All contracts in this crate speak of values through this model.
#[verifier::ext_equal]
pub enum JsonModel {
    Null,
    Bool(bool),
    Number(Seq<char>),
    Text(Seq<char>),
    Array(Seq<JsonModel>),
    Object(Seq<(Seq<char>, JsonModel)>),
}

impl JsonValue {
    /// The model of this value: the same tree, deeply abstracted.
    pub open spec fn model(self) -> JsonModel
        decreases self,
    {
        if self is Array {
            JsonModel::Array(Self::model_seq(self->Array_0@))
        } else if self is Object {
            JsonModel::Object(Self::model_entries(self->Object_0@))
        } else {
            match self {
                JsonValue::Null => JsonModel::Null,
                JsonValue::Bool(b) => JsonModel::Bool(b),
                JsonValue::Number(s) => JsonModel::Number(s@),
                JsonValue::Text(s) => JsonModel::Text(s@),
                _ => JsonModel::Null,
            }
        }
    }

    /// The models of a sequence of values, element by element.
    pub open spec fn model_seq(s: Seq<JsonValue>) -> Seq<JsonModel>
        decreases s,
    {
        if s.len() == 0 {
            Seq::empty()
        } else {
            Self::model_seq(s.subrange(0, s.len() - 1)).push(s[s.len() - 1].model())
        }
    }

    /// The models of a sequence of object entries, entry by entry.
    pub open spec fn model_entries(s: Seq<(String, JsonValue)>) -> Seq<(Seq<char>, JsonModel)>
        decreases s,
    {
        if s.len() == 0 {
            Seq::empty()
        } else {
            Self::model_entries(s.subrange(0, s.len() - 1))
                .push((s[s.len() - 1].0@, s[s.len() - 1].1.model()))
        }
    }

    /// `model_seq` maps the model over the sequence pointwise.
    pub proof fn lemma_model_seq(s: Seq<JsonValue>)
        ensures
            Self::model_seq(s).len() == s.len(),
            forall|i: int| 0 <= i < s.len() ==> Self::model_seq(s)[i] == #[trigger] s[i].model(),
        decreases s.len(),
    {
        if s.len() > 0 {
            Self::lemma_model_seq(s.subrange(0, s.len() - 1));
            assert forall|i: int| 0 <= i < s.len() implies Self::model_seq(s)[i]
                == #[trigger] s[i].model() by {
                if i < s.len() - 1 {
                    assert(s.subrange(0, s.len() - 1)[i] == s[i]);
                }
            }
        }
    }

    /// Appending one value appends its model.
    pub proof fn lemma_model_seq_push(s: Seq<JsonValue>, x: JsonValue)
        ensures
            Self::model_seq(s.push(x)) == Self::model_seq(s).push(x.model()),
    {
        assert(s.push(x).subrange(0, s.len() as int) =~= s);
        assert(s.push(x)[s.len() as int] == x);
        assert(Self::model_seq(s.push(x)) == Self::model_seq(s).push(x.model()));
    }

    /// `model_entries` maps key view and value model pointwise.
    pub proof fn lemma_model_entries(s: Seq<(String, JsonValue)>)
        ensures
            Self::model_entries(s).len() == s.len(),
            forall|i: int| 0 <= i < s.len() ==> Self::model_entries(s)[i]
                == (#[trigger] s[i].0@, s[i].1.model()),
        decreases s.len(),
    {
        if s.len() > 0 {
            Self::lemma_model_entries(s.subrange(0, s.len() - 1));
            assert forall|i: int| 0 <= i < s.len() implies Self::model_entries(s)[i]
                == (#[trigger] s[i].0@, s[i].1.model()) by {
                if i < s.len() - 1 {
                    assert(s.subrange(0, s.len() - 1)[i] == s[i]);
                }
            }
        }
    }
}

impl View for JsonValue {
    type V = JsonModel;

    open spec fn view(&self) -> JsonModel {
        self.model()
    }
}

impl Clone for JsonValue {
    /// A clone has the same model as the original.
    fn clone(&self) -> (res: Self)
        ensures
            res@ == self@,
        decreases *self,
    {
        match self {
            JsonValue::Null => JsonValue::Null,
            JsonValue::Bool(b) => JsonValue::Bool(*b),
            JsonValue::Number(s) => JsonValue::Number(s.clone()),
            JsonValue::Text(s) => JsonValue::Text(s.clone()),
            JsonValue::Array(a) => {
                let mut out: Vec<JsonValue> = Vec::new();
                let mut i: usize = 0;
                while i < a.len()
                    invariant
                        i <= a.len(),
                        *self is Array,
                        self->Array_0 == *a,
                        out@.len() == i as nat,
                        forall|j: int| 0 <= j < i ==> out@[j]@ == a@[j]@,
                    decreases a.len() - i,
                {
                    proof {
                        assert(decreases_to!(*self => self->Array_0));
                        assert(decreases_to!(self->Array_0@ => self->Array_0@[i as int]));
                    }
                    out.push(a[i].clone());
                    i = i + 1;
                }
                let res = JsonValue::Array(out);
                proof {
                    JsonValue::lemma_model_seq(out@);
                    JsonValue::lemma_model_seq(a@);
                    assert forall|j: int| 0 <= j < a@.len() implies JsonValue::model_seq(out@)[j]
                        == JsonValue::model_seq(a@)[j] by {
                        assert(out@[j]@ == a@[j]@);
                    }
                    assert(JsonValue::model_seq(out@) =~= JsonValue::model_seq(a@));
                }
                res
            }
            JsonValue::Object(o) => {
                let mut out: Vec<(String, JsonValue)> = Vec::new();
                let mut i: usize = 0;
                while i < o.len()
                    invariant
                        i <= o.len(),
                        *self is Object,
                        self->Object_0 == *o,
                        out@.len() == i as nat,
                        forall|j: int| 0 <= j < i ==> out@[j].0@ == o@[j].0@
                            && out@[j].1@ == o@[j].1@,
                    decreases o.len() - i,
                {
                    proof {
                        assert(decreases_to!(*self => self->Object_0));
                        assert(decreases_to!(self->Object_0@ => self->Object_0@[i as int]));
                        assert(decreases_to!(self->Object_0@[i as int]
                            => self->Object_0@[i as int].1));
                    }
                    let entry = &o[i];
                    out.push((entry.0.clone(), entry.1.clone()));
                    i = i + 1;
                }
                let res = JsonValue::Object(out);
                proof {
                    JsonValue::lemma_model_entries(out@);
                    JsonValue::lemma_model_entries(o@);
                    assert forall|j: int| 0 <= j < o@.len() implies
                        JsonValue::model_entries(out@)[j] == JsonValue::model_entries(o@)[j] by {
                        assert(out@[j].0@ == o@[j].0@ && out@[j].1@ == o@[j].1@);
                    }
                    assert(JsonValue::model_entries(out@) =~= JsonValue::model_entries(o@));
                }
                res
            }
        }
    }
}

} // verus!
