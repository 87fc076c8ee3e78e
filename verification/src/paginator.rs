//! The paginator: decides how many pages a document needs and splits it
//! into bounded pages without losing structural meaning.

use vstd::prelude::*;
use crate::json::{JsonModel, JsonValue};

verus! {

/// A document is split into pages only when its probe size exceeds this bound.
pub const PAGE_THRESHOLD: usize = 10;

/// The page-size probe. A length-1 array or size-1 object whose sole
/// element is itself a container is sized by that inner container; any other
/// array or object is sized directly; a scalar counts as 1.
pub open spec fn page_size_model(m: JsonModel) -> nat {
    match m {
        JsonModel::Array(a) => {
            if a.len() == 1 && a[0] is Array {
                a[0]->Array_0.len()
            } else if a.len() == 1 && a[0] is Object {
                a[0]->Object_0.len()
            } else {
                a.len()
            }
        }
        JsonModel::Object(o) => {
            if o.len() == 1 && o[0].1 is Array {
                o[0].1->Array_0.len()
            } else if o.len() == 1 && o[0].1 is Object {
                o[0].1->Object_0.len()
            } else {
                o.len()
            }
        }
        _ => 1,
    }
}

/// The page-size probe, also the page count while pagination is active.
pub fn get_page_size(value: &JsonValue) -> (r: usize)
    ensures
        r as nat == page_size_model(value@),
{
    match value {
        JsonValue::Array(a) => {
            proof {
                JsonValue::lemma_model_seq(a@);
                assert(value@ is Array);
                assert(value@->Array_0 == JsonValue::model_seq(a@));
                assert(value@->Array_0.len() == a@.len());
            }
            if a.len() == 1 {
                proof {
                    assert(value@->Array_0[0] == a@[0].model());
                }
                match &a[0] {
                    JsonValue::Array(inner) => {
                        proof {
                            JsonValue::lemma_model_seq(inner@);
                            assert(a@[0].model() is Array);
                            assert(a@[0].model()->Array_0.len() == inner@.len());
                            assert(page_size_model(value@) == inner@.len());
                        }
                        inner.len()
                    }
                    JsonValue::Object(inner) => {
                        proof {
                            JsonValue::lemma_model_entries(inner@);
                        }
                        inner.len()
                    }
                    _ => a.len(),
                }
            } else {
                a.len()
            }
        }
        JsonValue::Object(o) => {
            proof {
                JsonValue::lemma_model_entries(o@);
            }
            if o.len() == 1 {
                match &o[0].1 {
                    JsonValue::Array(inner) => {
                        proof {
                            JsonValue::lemma_model_seq(inner@);
                        }
                        inner.len()
                    }
                    JsonValue::Object(inner) => {
                        proof {
                            JsonValue::lemma_model_entries(inner@);
                        }
                        inner.len()
                    }
                    _ => o.len(),
                }
            } else {
                o.len()
            }
        }
        _ => 1,
    }
}

/// One single-entry object per entry, in order.
pub open spec fn wrap_entries(o: Seq<(Seq<char>, JsonModel)>) -> Seq<JsonModel> {
    Seq::new(o.len(), |k: int| JsonModel::Object(seq![o[k]]))
}

/// Object entries batched into pages of at most `t` single-entry objects,
/// flushed in order; a final partial batch becomes the last page.
pub open spec fn object_pages(o: Seq<(Seq<char>, JsonModel)>, t: nat) -> Seq<JsonModel>
    decreases o.len(),
    when 1 <= t
{
    if o.len() == 0 {
        Seq::empty()
    } else if o.len() <= t {
        seq![JsonModel::Array(wrap_entries(o))]
    } else {
        seq![JsonModel::Array(wrap_entries(o.subrange(0, t as int)))]
            + object_pages(o.subrange(t as int, o.len() as int), t)
    }
}

/// The pages of a document under threshold `t`.
///
/// A singleton-array wrapper paginates over its inner array, one singleton
/// array per inner element; any other array yields one raw page per element.
/// A single-entry object whose value is an array paginates over that array,
/// one single-entry object per inner element reusing the outer key; any other
/// object is batched by `t`. A scalar yields no pages (the probe keeps
/// pagination inactive for scalars, so this case is never shown).
pub open spec fn paginate_model(m: JsonModel, t: nat) -> Seq<JsonModel> {
    match m {
        JsonModel::Array(a) => {
            if a.len() == 1 && a[0] is Array {
                Seq::new(a[0]->Array_0.len(), |i: int| JsonModel::Array(seq![a[0]->Array_0[i]]))
            } else {
                a
            }
        }
        JsonModel::Object(o) => {
            if o.len() == 1 && o[0].1 is Array {
                Seq::new(
                    o[0].1->Array_0.len(),
                    |i: int| JsonModel::Object(seq![(o[0].0, o[0].1->Array_0[i])]),
                )
            } else {
                object_pages(o, t)
            }
        }
        _ => Seq::empty(),
    }
}


/// The pages the viewer shows: the partitioned pages while the probe exceeds
/// the threshold, else the whole document as the single page.
pub open spec fn document_pages_model(m: JsonModel) -> Seq<JsonModel> {
    if page_size_model(m) > PAGE_THRESHOLD as nat {
        paginate_model(m, PAGE_THRESHOLD as nat)
    } else {
        seq![m]
    }
}

/// While the probe stays at or under the threshold, pagination is inactive:
/// the document itself is the one and only page.
pub proof fn lemma_pagination_inactive(m: JsonModel)
    requires
        page_size_model(m) <= PAGE_THRESHOLD as nat,
    ensures
        document_pages_model(m) == seq![m],
{
}

/// An array that is not a singleton wrapper yields one raw page per element,
/// in order.
pub proof fn lemma_paginate_plain_array(m: JsonModel, t: nat)
    requires
        m is Array,
        m->Array_0.len() > PAGE_THRESHOLD as nat,
    ensures
        paginate_model(m, t).len() == m->Array_0.len(),
        forall|i: int| 0 <= i < m->Array_0.len() ==> paginate_model(m, t)[i] == m->Array_0[i],
{
}

/// A singleton-array wrapper over an inner array of length over the threshold
/// probes to the inner length and yields one singleton-array page per inner
/// element, in order.
pub proof fn lemma_paginate_wrapped_array(m: JsonModel, t: nat)
    requires
        m is Array,
        m->Array_0.len() == 1,
        m->Array_0[0] is Array,
        m->Array_0[0]->Array_0.len() > PAGE_THRESHOLD as nat,
    ensures
        page_size_model(m) == m->Array_0[0]->Array_0.len(),
        paginate_model(m, t).len() == m->Array_0[0]->Array_0.len(),
        forall|i: int| 0 <= i < m->Array_0[0]->Array_0.len() ==> paginate_model(m, t)[i]
            == JsonModel::Array(seq![m->Array_0[0]->Array_0[i]]),
{
}

/// Object batching under the fixed threshold: an object of `s` entries splits
/// into `ceil(s / t)` pages; page `j` is the array of single-entry objects for
/// the entries from `j * t` up to but excluding `min((j + 1) * t, s)`, so every
/// page except possibly the last holds exactly `t` entries, in original key
/// order, and the last holds the remainder.
pub proof fn lemma_object_batches(o: Seq<(Seq<char>, JsonModel)>)
    ensures
        object_pages(o, PAGE_THRESHOLD as nat).len()
            == (o.len() + PAGE_THRESHOLD - 1) as int / (PAGE_THRESHOLD as int),
        forall|j: int| 0 <= j < object_pages(o, PAGE_THRESHOLD as nat).len()
            ==> object_pages(o, PAGE_THRESHOLD as nat)[j] == JsonModel::Array(
            wrap_entries(o.subrange(j * (PAGE_THRESHOLD as int),
                if (j + 1) * (PAGE_THRESHOLD as int) <= o.len() {
                    (j + 1) * (PAGE_THRESHOLD as int)
                } else {
                    o.len() as int
                }))),
    decreases o.len(),
{
    let t = PAGE_THRESHOLD as int;
    if o.len() == 0 {
    } else if o.len() <= PAGE_THRESHOLD as nat {
        assert(o.subrange(0, o.len() as int) =~= o);
    } else {
        let rest = o.subrange(t, o.len() as int);
        lemma_object_batches(rest);
        assert forall|j: int| 1 <= j < object_pages(o, PAGE_THRESHOLD as nat).len()
            implies object_pages(o, PAGE_THRESHOLD as nat)[j] == JsonModel::Array(
            wrap_entries(o.subrange(j * t,
                if (j + 1) * t <= o.len() { (j + 1) * t } else { o.len() as int }))) by {
            let hi_rest = if j * t <= rest.len() { j * t } else { rest.len() as int };
            assert(object_pages(o, PAGE_THRESHOLD as nat)[j]
                == object_pages(rest, PAGE_THRESHOLD as nat)[j - 1]);
            assert(rest.subrange((j - 1) * t, hi_rest)
                =~= o.subrange(j * t, if (j + 1) * t <= o.len() {
                    (j + 1) * t
                } else {
                    o.len() as int
                }));
        }
        assert(o.subrange(0, t) =~= o.subrange(0 * t, 1 * t));
    }
}

/// An object with more than one entry splits into `ceil(s / t)` batched pages
/// under the fixed threshold `t`.
pub proof fn lemma_paginate_object(m: JsonModel)
    requires
        m is Object,
        m->Object_0.len() > 1,
    ensures
        paginate_model(m, PAGE_THRESHOLD as nat) == object_pages(m->Object_0,
            PAGE_THRESHOLD as nat),
        paginate_model(m, PAGE_THRESHOLD as nat).len()
            == (m->Object_0.len() + PAGE_THRESHOLD - 1) as int / (PAGE_THRESHOLD as int),
{
    lemma_object_batches(m->Object_0);
}

/// Clamped backward navigation: a no-op at page 0.
pub fn prev_page(current: usize) -> (r: usize)
    ensures
        r as int == if current == 0 { 0int } else { current - 1 },
{
    if current == 0 {
        current
    } else {
        current - 1
    }
}

/// Clamped forward navigation: a no-op at the last page index.
pub fn next_page(current: usize, page_count: usize) -> (r: usize)
    ensures
        r as int == if page_count > 0 && current < page_count - 1 {
            current + 1
        } else {
            current as int
        },
{
    if page_count > 0 && current < page_count - 1 {
        current + 1
    } else {
        current
    }
}

/// The pages the viewer shows, matching [`document_pages_model`].
pub fn document_pages(value: &JsonValue) -> (r: Vec<JsonValue>)
    ensures
        JsonValue::model_seq(r@) == document_pages_model(value@),
{
    if get_page_size(value) > PAGE_THRESHOLD {
        page_json(value, PAGE_THRESHOLD)
    } else {
        let mut v: Vec<JsonValue> = Vec::new();
        v.push(value.clone());
        proof {
            JsonValue::lemma_model_seq(v@);
            assert(JsonValue::model_seq(v@) =~= seq![value@]);
        }
        v
    }
}

/// Splits a document into pages, matching [`paginate_model`].
pub fn page_json(value: &JsonValue, threshold: usize) -> (r: Vec<JsonValue>)
    requires
        1 <= threshold,
    ensures
        JsonValue::model_seq(r@) == paginate_model(value@, threshold as nat),
{
    let ghost t = threshold as nat;
    let ghost spec_pages = paginate_model(value@, t);
    let mut pages: Vec<JsonValue> = Vec::new();
    match value {
        JsonValue::Array(a) => {
            proof {
                JsonValue::lemma_model_seq(a@);
            }
            if a.len() == 1 {
                proof {
                    assert(value@->Array_0[0] == a@[0].model());
                }
                if let JsonValue::Array(inner) = &a[0] {
                    proof {
                        JsonValue::lemma_model_seq(inner@);
                        assert(a@[0].model()->Array_0 == JsonValue::model_seq(inner@));
                        assert(spec_pages.len() == inner@.len());
                    }
                    let mut i: usize = 0;
                    while i < inner.len()
                        invariant
                            i <= inner.len(),
                            *value is Array,
                            value->Array_0 == *a,
                            a@.len() == 1,
                            a@[0] is Array,
                            a@[0]->Array_0 == *inner,
                            spec_pages == paginate_model(value@, t),
                            spec_pages.len() == inner@.len(),
                            forall|j: int| 0 <= j < inner@.len() ==> spec_pages[j]
                                == JsonModel::Array(seq![#[trigger] inner@[j].model()]),
                            JsonValue::model_seq(pages@) =~= spec_pages.subrange(0, i as int),
                        decreases inner.len() - i,
                    {
                        proof {
                            assert(decreases_to!(*value => value->Array_0));
                            assert(decreases_to!(value->Array_0@ => value->Array_0@[0]));
                        }
                        let mut single: Vec<JsonValue> = Vec::new();
                        single.push(inner[i].clone());
                        let page = JsonValue::Array(single);
                        proof {
                            JsonValue::lemma_model_seq(page->Array_0@);
                            assert(JsonValue::model_seq(page->Array_0@)
                                =~= seq![inner@[i as int].model()]);
                            assert(page@ =~= spec_pages[i as int]);
                            JsonValue::lemma_model_seq_push(pages@, page);
                        }
                        pages.push(page);
                        i = i + 1;
                        proof {
                            assert(JsonValue::model_seq(pages@)
                                =~= spec_pages.subrange(0, i as int));
                        }
                    }
                    proof {
                        assert(JsonValue::model_seq(pages@) =~= spec_pages);
                    }
                    return pages;
                }
            }
            proof {
                assert(spec_pages == JsonValue::model_seq(a@));
            }
            let mut i: usize = 0;
            while i < a.len()
                invariant
                    i <= a.len(),
                    *value is Array,
                    value->Array_0 == *a,
                    spec_pages == JsonValue::model_seq(a@),
                    spec_pages == paginate_model(value@, t),
                    spec_pages.len() == a@.len(),
                    JsonValue::model_seq(pages@) =~= spec_pages.subrange(0, i as int),
                decreases a.len() - i,
            {
                proof {
                    assert(decreases_to!(*value => value->Array_0));
                    assert(decreases_to!(value->Array_0@ => value->Array_0@[i as int]));
                }
                let element = a[i].clone();
                proof {
                    JsonValue::lemma_model_seq(a@);
                    assert(element@ == spec_pages[i as int]);
                    JsonValue::lemma_model_seq_push(pages@, element);
                }
                pages.push(element);
                i = i + 1;
                proof {
                    assert(JsonValue::model_seq(pages@) =~= spec_pages.subrange(0, i as int));
                }
            }
            proof {
                assert(JsonValue::model_seq(pages@) =~= spec_pages);
            }
        }
        JsonValue::Object(o) => {
            proof {
                JsonValue::lemma_model_entries(o@);
            }
            if o.len() == 1 {
                proof {
                    assert(value@->Object_0[0] == (o@[0].0@, o@[0].1.model()));
                }
                if let JsonValue::Array(inner) = &o[0].1 {
                    proof {
                        JsonValue::lemma_model_seq(inner@);
                        assert(o@[0].1.model()->Array_0 == JsonValue::model_seq(inner@));
                        assert(spec_pages.len() == inner@.len());
                    }
                    let ghost key = o@[0].0@;
                    let mut i: usize = 0;
                    while i < inner.len()
                        invariant
                            i <= inner.len(),
                            *value is Object,
                            value->Object_0 == *o,
                            o@.len() == 1,
                            o@[0].1 is Array,
                            o@[0].1->Array_0 == *inner,
                            key == o@[0].0@,
                            spec_pages == paginate_model(value@, t),
                            spec_pages.len() == inner@.len(),
                            forall|j: int| 0 <= j < inner@.len() ==> spec_pages[j]
                                == JsonModel::Object(
                                    seq![(key, #[trigger] inner@[j].model())]),
                            JsonValue::model_seq(pages@) =~= spec_pages.subrange(0, i as int),
                        decreases inner.len() - i,
                    {
                        proof {
                            assert(decreases_to!(*value => value->Object_0));
                            assert(decreases_to!(value->Object_0@ => value->Object_0@[0]));
                            assert(decreases_to!(value->Object_0@[0]
                                => value->Object_0@[0].1));
                        }
                        let mut entries: Vec<(String, JsonValue)> = Vec::new();
                        entries.push((o[0].0.clone(), inner[i].clone()));
                        let page = JsonValue::Object(entries);
                        proof {
                            JsonValue::lemma_model_entries(page->Object_0@);
                            assert(JsonValue::model_entries(page->Object_0@)
                                =~= seq![(key, inner@[i as int].model())]);
                            assert(page@ =~= spec_pages[i as int]);
                            JsonValue::lemma_model_seq_push(pages@, page);
                        }
                        pages.push(page);
                        i = i + 1;
                        proof {
                            assert(JsonValue::model_seq(pages@)
                                =~= spec_pages.subrange(0, i as int));
                        }
                    }
                    proof {
                        assert(JsonValue::model_seq(pages@) =~= spec_pages);
                    }
                    return pages;
                }
            }
            let ghost ems = value@->Object_0;
            proof {
                assert(ems == JsonValue::model_entries(o@));
                assert(ems.len() == o@.len());
                assert(spec_pages == object_pages(ems, t));
                assert(ems.subrange(0, ems.len() as int) =~= ems);
            }
            let mut buf: Vec<JsonValue> = Vec::new();
            let mut i: usize = 0;
            while i < o.len()
                invariant
                    i <= o.len(),
                    1 <= threshold,
                    t == threshold as nat,
                    *value is Object,
                    value->Object_0 == *o,
                    ems == JsonValue::model_entries(o@),
                    ems.len() == o@.len(),
                    forall|j: int| 0 <= j < o@.len() ==> ems[j]
                        == (#[trigger] o@[j].0@, o@[j].1.model()),
                    buf@.len() <= i,
                    buf@.len() < t,
                    JsonValue::model_seq(buf@) =~= wrap_entries(
                        ems.subrange(i - buf@.len(), i as int)),
                    JsonValue::model_seq(pages@) + object_pages(
                        ems.subrange(i - buf@.len(), ems.len() as int), t)
                        =~= object_pages(ems, t),
                decreases o.len() - i,
            {
                proof {
                    assert(decreases_to!(*value => value->Object_0));
                    assert(decreases_to!(value->Object_0@ => value->Object_0@[i as int]));
                    assert(decreases_to!(value->Object_0@[i as int]
                        => value->Object_0@[i as int].1));
                }
                let ghost f = i - buf@.len();
                let mut entries: Vec<(String, JsonValue)> = Vec::new();
                entries.push((o[i].0.clone(), o[i].1.clone()));
                let wrapped = JsonValue::Object(entries);
                proof {
                    JsonValue::lemma_model_entries(wrapped->Object_0@);
                    assert(JsonValue::model_entries(wrapped->Object_0@)
                        =~= seq![ems[i as int]]);
                    assert(wrapped@ =~= JsonModel::Object(seq![ems[i as int]]));
                    JsonValue::lemma_model_seq_push(buf@, wrapped);
                }
                buf.push(wrapped);
                i = i + 1;
                proof {
                    assert(JsonValue::model_seq(buf@)
                        =~= wrap_entries(ems.subrange(f, i as int)));
                }
                if buf.len() == threshold {
                    let ghost rest = ems.subrange(f, ems.len() as int);
                    proof {
                        assert(rest.len() >= t);
                        if rest.len() <= t {
                            assert(i as int == ems.len());
                            assert(rest =~= ems.subrange(f, i as int));
                            assert(object_pages(rest, t)
                                =~= seq![JsonModel::Array(JsonValue::model_seq(buf@))]);
                        } else {
                            assert(rest.subrange(0, t as int)
                                =~= ems.subrange(f, i as int));
                            assert(rest.subrange(t as int, rest.len() as int)
                                =~= ems.subrange(i as int, ems.len() as int));
                            assert(object_pages(rest, t)
                                =~= seq![JsonModel::Array(JsonValue::model_seq(buf@))]
                                    + object_pages(ems.subrange(i as int,
                                        ems.len() as int), t));
                        }
                        JsonValue::lemma_model_seq_push(pages@, JsonValue::Array(buf));
                    }
                    pages.push(JsonValue::Array(buf));
                    buf = Vec::new();
                    proof {
                        assert(JsonValue::model_seq(buf@)
                            =~= wrap_entries(ems.subrange(i as int, i as int)));
                        assert(JsonValue::model_seq(pages@) + object_pages(
                            ems.subrange(i as int, ems.len() as int), t)
                            =~= object_pages(ems, t));
                    }
                }
            }
            if buf.len() > 0 {
                let ghost f = i - buf@.len();
                let ghost rest = ems.subrange(f, ems.len() as int);
                proof {
                    assert(rest =~= ems.subrange(f, i as int));
                    assert(object_pages(rest, t)
                        =~= seq![JsonModel::Array(JsonValue::model_seq(buf@))]);
                    JsonValue::lemma_model_seq_push(pages@, JsonValue::Array(buf));
                }
                pages.push(JsonValue::Array(buf));
            } else {
                proof {
                    assert(ems.subrange(i as int, ems.len() as int).len() == 0);
                    assert(object_pages(ems.subrange(i as int, ems.len() as int), t)
                        =~= Seq::<JsonModel>::empty());
                }
            }
            proof {
                assert(JsonValue::model_seq(pages@) =~= object_pages(ems, t));
            }
        }
        _ => {
            proof {
                assert(JsonValue::model_seq(pages@) =~= spec_pages);
            }
        }
    }
    pages
}

} // verus!
