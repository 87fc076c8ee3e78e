//! The tree renderer: a pure function from a JSON value to a nested tree of
//! display nodes, with the formatting fixed by value kind. The host UI only
//! mounts the returned tree; styling hooks ride along as class names.

use vstd::prelude::*;
use vstd::string::StringExecFns;
use crate::json::{JsonModel, JsonValue};
use crate::paginator::{paginate_model, page_json, PAGE_THRESHOLD};
use crate::state::FileDetails;
use crate::text::{dec_str, usize_to_string};

verus! {

/// One node of the rendered tree: a text leaf or a group of children, each
/// carrying its styling-hook class name.
#[derive(PartialEq, Eq, Debug)]
pub enum DisplayNode {
    /// Class name and literal text.
    Text(String, String),
    /// Class name and ordered children.
    Group(String, Vec<DisplayNode>),
}

/// The mathematical model of a [`DisplayNode`].
#[verifier::ext_equal]
pub enum NodeModel {
    Text(Seq<char>, Seq<char>),
    Group(Seq<char>, Seq<NodeModel>),
}

impl DisplayNode {
    /// The model of this node: the same tree, deeply abstracted.
    pub open spec fn model(self) -> NodeModel
        decreases self,
    {
        if self is Group {
            NodeModel::Group(self->Group_0@, Self::model_seq(self->Group_1@))
        } else {
            match self {
                DisplayNode::Text(class, text) => NodeModel::Text(class@, text@),
                _ => NodeModel::Text(Seq::empty(), Seq::empty()),
            }
        }
    }

    /// The models of a sequence of nodes, element by element.
    pub open spec fn model_seq(s: Seq<DisplayNode>) -> Seq<NodeModel>
        decreases s,
    {
        if s.len() == 0 {
            Seq::empty()
        } else {
            Self::model_seq(s.subrange(0, s.len() - 1)).push(s[s.len() - 1].model())
        }
    }

    /// `model_seq` maps the model over the sequence pointwise.
    pub proof fn lemma_model_seq(s: Seq<DisplayNode>)
        ensures
            Self::model_seq(s).len() == s.len(),
            forall|i: int| 0 <= i < s.len() ==> Self::model_seq(s)[i] == #[trigger] s[i].model(),
        decreases s.len(),
    {
        if s.len() > 0 {
            Self::lemma_model_seq(s.subrange(0, s.len() - 1));
            assert forall|i: int| 0 <= i < s.len() implies Self::model_seq(s)[i]
                == #[trigger] s[i].model() by {
                if i < s.len() - 1 {
                    assert(s.subrange(0, s.len() - 1)[i] == s[i]);
                }
            }
        }
    }

    /// Appending one node appends its model.
    pub proof fn lemma_model_seq_push(s: Seq<DisplayNode>, x: DisplayNode)
        ensures
            Self::model_seq(s.push(x)) == Self::model_seq(s).push(x.model()),
    {
        assert(s.push(x).subrange(0, s.len() as int) =~= s);
        assert(s.push(x)[s.len() as int] == x);
        assert(Self::model_seq(s.push(x)) == Self::model_seq(s).push(x.model()));
    }
}

impl View for DisplayNode {
    type V = NodeModel;

    open spec fn view(&self) -> NodeModel {
        self.model()
    }
}

/// The canonical text of a scalar value.
pub open spec fn scalar_text(m: JsonModel) -> Seq<char> {
    match m {
        JsonModel::Null => "null"@,
        JsonModel::Bool(b) => if b {
            "true"@
        } else {
            "false"@
        },
        JsonModel::Number(s) => s,
        _ => Seq::empty(),
    }
}

/// The rendering of one value in nested position: strings are quoted, arrays
/// list their elements behind zero-based index labels between bracket
/// markers, objects list their properties, scalars show their canonical text.
pub open spec fn render_value_model(m: JsonModel) -> NodeModel
    decreases m, 0int,
{
    if m is Text {
        NodeModel::Text("json-string"@, "\""@ + m->Text_0 + "\""@)
    } else if m is Array {
        NodeModel::Group(
            "json-array"@,
            seq![NodeModel::Text("f-brackets"@, "["@)] + render_items(m->Array_0)
                + seq![NodeModel::Text("l-brackets"@, "]"@)],
        )
    } else if m is Object {
        NodeModel::Group("json-object"@, render_entries(m->Object_0))
    } else {
        NodeModel::Text(""@, scalar_text(m))
    }
}

/// The rendering of array element `i`: its index label, then its value.
pub open spec fn render_item_model(i: nat, m: JsonModel) -> NodeModel
    decreases m, 1int,
{
    NodeModel::Group(
        "json-array-item"@,
        seq![
            NodeModel::Text("json-array-item-idx"@, dec_str(i) + ": "@),
            NodeModel::Group("json-array-item-value"@, seq![render_value_model(m)]),
        ],
    )
}

/// The renderings of all array elements, in order.
pub open spec fn render_items(a: Seq<JsonModel>) -> Seq<NodeModel>
    decreases a, 2int,
{
    if a.len() == 0 {
        Seq::empty()
    } else {
        render_items(a.subrange(0, a.len() - 1)).push(
            render_item_model((a.len() - 1) as nat, a[a.len() - 1]),
        )
    }
}

/// The rendering of one object property: key, separator, then value.
pub open spec fn render_property_model(k: Seq<char>, v: JsonModel) -> NodeModel
    decreases v, 1int,
{
    NodeModel::Group(
        "json-property"@,
        seq![
            NodeModel::Text("json-key"@, k),
            NodeModel::Text("json-separator"@, ": "@),
            render_value_model(v),
        ],
    )
}

/// The renderings of all object properties, in order.
pub open spec fn render_entries(o: Seq<(Seq<char>, JsonModel)>) -> Seq<NodeModel>
    decreases o, 2int,
{
    if o.len() == 0 {
        Seq::empty()
    } else {
        render_entries(o.subrange(0, o.len() - 1)).push(
            render_property_model(o[o.len() - 1].0, o[o.len() - 1].1),
        )
    }
}

/// `render_items` maps `render_item_model` pointwise.
pub proof fn lemma_render_items(a: Seq<JsonModel>)
    ensures
        render_items(a).len() == a.len(),
        forall|i: int| 0 <= i < a.len() ==> render_items(a)[i]
            == render_item_model(i as nat, #[trigger] a[i]),
    decreases a.len(),
{
    if a.len() > 0 {
        lemma_render_items(a.subrange(0, a.len() - 1));
        assert forall|i: int| 0 <= i < a.len() implies render_items(a)[i]
            == render_item_model(i as nat, #[trigger] a[i]) by {
            if i < a.len() - 1 {
                assert(a.subrange(0, a.len() - 1)[i] == a[i]);
            }
        }
    }
}

/// `render_entries` maps `render_property_model` pointwise.
pub proof fn lemma_render_entries(o: Seq<(Seq<char>, JsonModel)>)
    ensures
        render_entries(o).len() == o.len(),
        forall|i: int| 0 <= i < o.len() ==> render_entries(o)[i]
            == render_property_model((#[trigger] o[i]).0, o[i].1),
    decreases o.len(),
{
    if o.len() > 0 {
        lemma_render_entries(o.subrange(0, o.len() - 1));
        assert forall|i: int| 0 <= i < o.len() implies render_entries(o)[i]
            == render_property_model((#[trigger] o[i]).0, o[i].1) by {
            if i < o.len() - 1 {
                assert(o.subrange(0, o.len() - 1)[i] == o[i]);
            }
        }
    }
}

/// A text leaf.
fn text_node(class: &str, text: String) -> (r: DisplayNode)
    ensures
        r@ == NodeModel::Text(class@, text@),
{
    DisplayNode::Text(String::from_str(class), text)
}

/// Renders one property row, matching [`render_property_model`].
pub fn view_json_property(key: &str, value: &JsonValue) -> (r: DisplayNode)
    ensures
        r@ == render_property_model(key@, value@),
    decreases *value, 1int,
{
    let mut children: Vec<DisplayNode> = Vec::new();
    children.push(text_node("json-key", String::from_str(key)));
    children.push(text_node("json-separator", String::from_str(": ")));
    children.push(view_json_value(value));
    let r = DisplayNode::Group(String::from_str("json-property"), children);
    proof {
        DisplayNode::lemma_model_seq(children@);
        assert(children@[0].model() == NodeModel::Text("json-key"@, key@));
        assert(children@[1].model() == NodeModel::Text("json-separator"@, ": "@));
        assert(children@[2].model() == render_value_model(value@));
        assert(DisplayNode::model_seq(children@)
            =~= render_property_model(key@, value@)->Group_1);
    }
    r
}

/// Renders one value in nested position, matching [`render_value_model`].
pub fn view_json_value(value: &JsonValue) -> (r: DisplayNode)
    ensures
        r@ == render_value_model(value@),
    decreases *value, 0int,
{
    match value {
        JsonValue::Text(s) => {
            let quoted = String::from_str("\"").concat(s.as_str()).concat("\"");
            proof {
                assert(quoted@ =~= "\""@ + s@ + "\""@);
            }
            text_node("json-string", quoted)
        }
        JsonValue::Array(a) => {
            let ghost ms = value@->Array_0;
            proof {
                JsonValue::lemma_model_seq(a@);
                lemma_render_items(ms);
            }
            let mut children: Vec<DisplayNode> = Vec::new();
            children.push(text_node("f-brackets", String::from_str("[")));
            proof {
                DisplayNode::lemma_model_seq(children@);
                assert(children@[0].model() == NodeModel::Text("f-brackets"@, "["@));
                assert(render_items(ms).subrange(0, 0) =~= Seq::<NodeModel>::empty());
                assert(DisplayNode::model_seq(children@) =~= seq![
                    NodeModel::Text("f-brackets"@, "["@)]
                    + render_items(ms).subrange(0, 0));
            }
            let mut i: usize = 0;
            while i < a.len()
                invariant
                    i <= a.len(),
                    *value is Array,
                    value->Array_0 == *a,
                    ms == JsonValue::model_seq(a@),
                    ms.len() == a@.len(),
                    forall|j: int| 0 <= j < a@.len() ==> ms[j] == #[trigger] a@[j].model(),
                    render_items(ms).len() == ms.len(),
                    forall|j: int| 0 <= j < ms.len() ==> render_items(ms)[j]
                        == render_item_model(j as nat, #[trigger] ms[j]),
                    DisplayNode::model_seq(children@) =~= seq![
                        NodeModel::Text("f-brackets"@, "["@)]
                        + render_items(ms).subrange(0, i as int),
                decreases a.len() - i,
            {
                proof {
                    assert(decreases_to!(*value => value->Array_0));
                    assert(decreases_to!(value->Array_0@ => value->Array_0@[i as int]));
                }
                let idx_label = usize_to_string(i).concat(": ");
                let child = view_json_value(&a[i]);
                let mut value_wrap: Vec<DisplayNode> = Vec::new();
                value_wrap.push(child);
                proof {
                    DisplayNode::lemma_model_seq(value_wrap@);
                    assert(DisplayNode::model_seq(value_wrap@)
                        =~= seq![render_value_model(ms[i as int])]);
                }
                let value_group = DisplayNode::Group(
                    String::from_str("json-array-item-value"),
                    value_wrap,
                );
                let mut pair: Vec<DisplayNode> = Vec::new();
                pair.push(text_node("json-array-item-idx", idx_label));
                pair.push(value_group);
                let item = DisplayNode::Group(String::from_str("json-array-item"), pair);
                proof {
                    DisplayNode::lemma_model_seq(pair@);
                    assert(pair@[0].model() == NodeModel::Text("json-array-item-idx"@,
                        dec_str(i as nat) + ": "@));
                    assert(pair@[1].model() == NodeModel::Group("json-array-item-value"@,
                        DisplayNode::model_seq(value_wrap@)));
                    assert(DisplayNode::model_seq(pair@)
                        =~= render_item_model(i as nat, ms[i as int])->Group_1);
                    assert(item@ =~= render_item_model(i as nat, ms[i as int]));
                    DisplayNode::lemma_model_seq_push(children@, item);
                }
                children.push(item);
                i = i + 1;
                proof {
                    assert(DisplayNode::model_seq(children@) =~= seq![
                        NodeModel::Text("f-brackets"@, "["@)]
                        + render_items(ms).subrange(0, i as int));
                }
            }
            let closing = text_node("l-brackets", String::from_str("]"));
            proof {
                DisplayNode::lemma_model_seq_push(children@, closing);
                assert(render_items(ms).subrange(0, ms.len() as int) =~= render_items(ms));
            }
            children.push(closing);
            let r = DisplayNode::Group(String::from_str("json-array"), children);
            proof {
                assert(DisplayNode::model_seq(children@)
                    =~= render_value_model(value@)->Group_1);
            }
            r
        }
        JsonValue::Object(o) => {
            let ghost ms = value@->Object_0;
            proof {
                JsonValue::lemma_model_entries(o@);
                lemma_render_entries(ms);
            }
            let mut children: Vec<DisplayNode> = Vec::new();
            let mut i: usize = 0;
            while i < o.len()
                invariant
                    i <= o.len(),
                    *value is Object,
                    value->Object_0 == *o,
                    ms == JsonValue::model_entries(o@),
                    ms.len() == o@.len(),
                    forall|j: int| 0 <= j < o@.len() ==> ms[j]
                        == (#[trigger] o@[j].0@, o@[j].1.model()),
                    render_entries(ms).len() == ms.len(),
                    forall|j: int| 0 <= j < ms.len() ==> render_entries(ms)[j]
                        == render_property_model((#[trigger] ms[j]).0, ms[j].1),
                    DisplayNode::model_seq(children@)
                        =~= render_entries(ms).subrange(0, i as int),
                decreases o.len() - i,
            {
                proof {
                    assert(decreases_to!(*value => value->Object_0));
                    assert(decreases_to!(value->Object_0@ => value->Object_0@[i as int]));
                    assert(decreases_to!(value->Object_0@[i as int]
                        => value->Object_0@[i as int].1));
                }
                let entry = &o[i];
                let prop = view_json_property(entry.0.as_str(), &entry.1);
                proof {
                    DisplayNode::lemma_model_seq_push(children@, prop);
                }
                children.push(prop);
                i = i + 1;
                proof {
                    assert(DisplayNode::model_seq(children@)
                        =~= render_entries(ms).subrange(0, i as int));
                }
            }
            proof {
                assert(render_entries(ms).subrange(0, ms.len() as int) =~= render_entries(ms));
            }
            let r = DisplayNode::Group(String::from_str("json-object"), children);
            proof {
                assert(DisplayNode::model_seq(children@)
                    =~= render_value_model(value@)->Group_1);
            }
            r
        }
        JsonValue::Null => text_node("", String::from_str("null")),
        JsonValue::Bool(b) => {
            if *b {
                text_node("", String::from_str("true"))
            } else {
                text_node("", String::from_str("false"))
            }
        }
        JsonValue::Number(s) => text_node("", s.clone()),
    }
}

/// The rendering of a value in document-root position: only strings differ
/// from nested position, shown unquoted.
pub open spec fn render_root_model(m: JsonModel) -> NodeModel {
    if m is Text {
        NodeModel::Text("json-string"@, m->Text_0)
    } else {
        render_value_model(m)
    }
}

/// The full rendering of one loaded file at one page: title, the rendered
/// page content, and, while pagination is active, a caption reporting
/// `page + 1` of the probe size.
pub open spec fn view_file_model(name: Seq<char>, m: JsonModel, page: int, page_size: nat)
    -> NodeModel {
    let paged = page_size > PAGE_THRESHOLD as nat;
    let pages = if paged {
        paginate_model(m, PAGE_THRESHOLD as nat)
    } else {
        seq![m]
    };
    let head = seq![
        NodeModel::Text("json-title"@, name),
        NodeModel::Group("json-content lazy"@, seq![render_root_model(pages[page])]),
    ];
    NodeModel::Group(
        "json"@,
        if paged {
            head + seq![NodeModel::Group("json-pagination-stats"@, seq![
                NodeModel::Text(""@, "Page "@ + dec_str((page + 1) as nat) + " of "@
                    + dec_str(page_size))])]
        } else {
            head
        },
    )
}

/// Renders one loaded file at one page, matching [`view_file_model`].
///
/// `page_size` is the probe size the surrounding view computed; pagination is
/// shown while it exceeds the threshold, and `page` must then address one of
/// the partitioned pages.
pub fn view_file(file: &FileDetails, page: usize, page_size: usize) -> (r: DisplayNode)
    requires
        page < if page_size > PAGE_THRESHOLD {
            paginate_model(file.data@, PAGE_THRESHOLD as nat).len()
        } else {
            1
        },
    ensures
        r@ == view_file_model(file.name@, file.data@, page as int, page_size as nat),
{
    let content_paged = page_size > PAGE_THRESHOLD;
    let content_vec: Vec<JsonValue> = if content_paged {
        page_json(&file.data, PAGE_THRESHOLD)
    } else {
        let mut v: Vec<JsonValue> = Vec::new();
        v.push(file.data.clone());
        v
    };
    proof {
        JsonValue::lemma_model_seq(content_vec@);
        if !content_paged {
            assert(JsonValue::model_seq(content_vec@) =~= seq![file.data@]);
        }
    }
    let total = content_vec.len();
    proof {
        assert(page < total);
    }
    let page_value = &content_vec[page];
    let ghost pages = if content_paged {
        paginate_model(file.data@, PAGE_THRESHOLD as nat)
    } else {
        seq![file.data@]
    };
    proof {
        assert(pages[page as int] == content_vec@[page as int].model());
    }
    let highlighted = match page_value {
        JsonValue::Text(s) => text_node("json-string", s.clone()),
        _ => view_json_value(page_value),
    };
    proof {
        assert(highlighted@ == render_root_model(pages[page as int]));
    }
    let ghost highlighted_model = highlighted@;
    let mut inner: Vec<DisplayNode> = Vec::new();
    inner.push(text_node("json-title", String::from_str(file.name.as_str())));
    let mut content_wrap: Vec<DisplayNode> = Vec::new();
    content_wrap.push(highlighted);
    proof {
        DisplayNode::lemma_model_seq(content_wrap@);
        assert(DisplayNode::model_seq(content_wrap@) =~= seq![highlighted_model]);
    }
    let content_group = DisplayNode::Group(String::from_str("json-content lazy"), content_wrap);
    proof {
        assert(content_group@ =~= NodeModel::Group("json-content lazy"@,
            seq![render_root_model(pages[page as int])]));
    }
    inner.push(content_group);
    if content_paged {
        let caption = String::from_str("Page ").concat(usize_to_string(page + 1).as_str())
            .concat(" of ").concat(usize_to_string(page_size).as_str());
        proof {
            assert(caption@ =~= "Page "@ + dec_str((page + 1) as nat) + " of "@
                + dec_str(page_size as nat));
        }
        let mut caption_wrap: Vec<DisplayNode> = Vec::new();
        let caption_text = text_node("", caption);
        caption_wrap.push(caption_text);
        proof {
            DisplayNode::lemma_model_seq(caption_wrap@);
            assert(DisplayNode::model_seq(caption_wrap@) =~= seq![caption_text@]);
        }
        let caption_group = DisplayNode::Group(String::from_str("json-pagination-stats"),
            caption_wrap);
        proof {
            assert(caption_group@ =~= NodeModel::Group("json-pagination-stats"@, seq![
                NodeModel::Text(""@, "Page "@ + dec_str((page + 1) as nat) + " of "@
                    + dec_str(page_size as nat))]));
        }
        inner.push(caption_group);
    }
    let r = DisplayNode::Group(String::from_str("json"), inner);
    proof {
        let spec_node = view_file_model(file.name@, file.data@, page as int,
            page_size as nat);
        DisplayNode::lemma_model_seq(inner@);
        assert(inner@[0].model() == NodeModel::Text("json-title"@, file.name@));
        assert(inner@[1].model() =~= spec_node->Group_1[1]);
        if content_paged {
            assert(inner@[2].model() =~= spec_node->Group_1[2]);
        }
        assert(DisplayNode::model_seq(inner@) =~= spec_node->Group_1);
    }
    r
}

} // verus!
