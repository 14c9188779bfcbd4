//! The generic tree transcoder: one native event rendered as markup text
//! becomes one record, under fixed merge rules (attributes as '@'-prefixed
//! fields, repeated child tags grouped into arrays, text leaves collapsed
//! to strings).
use vstd::prelude::*;

use crate::record::{Json, JsonV, jview, jvals, pairs_view, null_v};
use crate::text::{at_key, at_key_v, contains_string, str_eq, strs_v};

verus! {

broadcast use vstd::std_specs::vec::group_vec_axioms;

/// One element of the parsed markup document: its tag name, its attributes
/// and element children in document order, and its leading text content.
#[derive(Debug)]
pub struct XmlNode {
    pub tag: String,
    pub attrs: Vec<(String, String)>,
    pub children: Vec<XmlNode>,
    pub text: Option<String>,
}

/// The text content of a node, empty when the node has none.
pub open spec fn text_v(n: XmlNode) -> Seq<char> {
    match n.text {
        Some(s) => s@,
        None => Seq::empty(),
    }
}

#[verifier::external_type_specification]
#[verifier::external_body]
pub struct ExRoNode<'a, 'input: 'a>(roxmltree::Node<'a, 'input>);

/// What parsing a markup document yields: the root element's tree, or
/// nothing when the document is malformed. The parse depends on the
/// document's characters alone.
pub uninterp spec fn parsed_event(s: Seq<char>) -> Option<XmlNode>;

/// Relies on roxmltree::Document::parse: parsing is a function of the
/// document text alone, and a malformed document is rejected.
#[verifier::external_body]
pub fn parse_xml(xml: &str) -> (r: Option<XmlNode>)
    ensures
        r == parsed_event(xml@),
{
    let doc = match roxmltree::Document::parse(xml) {
        Ok(d) => d,
        Err(_) => return None,
    };
    Some(node_to_tree(doc.root_element()))
}

/// Conversion half of `parse_xml`, reached only from its body. Relies on
/// roxmltree's node accessors: per element, its tag name, its attributes
/// in document order, its element children in document order, and its
/// text content.
#[verifier::external_body]
fn node_to_tree(n: roxmltree::Node<'_, '_>) -> XmlNode {
    let mut attrs = Vec::new();
    for a in n.attributes() {
        attrs.push((a.name().to_owned(), a.value().to_owned()));
    }
    let mut children = Vec::new();
    for c in n.children() {
        if c.is_element() {
            children.push(node_to_tree(c));
        }
    }
    let (tag, text) = (n.tag_name().name().to_owned(), n.text().map(|t| t.to_owned()));
    XmlNode { tag, attrs, children, text }
}

/// What trimming Unicode whitespace from both ends of a text yields; a
/// function of the characters alone.
pub uninterp spec fn trimmed(s: Seq<char>) -> Seq<char>;

/// Relies on str::trim: removes leading and trailing whitespace, so an
/// empty text stays empty.
#[verifier::external_body]
pub fn trim_str(s: &str) -> (r: &str)
    ensures
        r@ == trimmed(s@),
        s@.len() == 0 ==> r@.len() == 0,
{
    s.trim()
}

/// The attribute fields of a node: each name prefixed with '@', values as
/// strings, document order kept.
pub open spec fn attr_pairs(attrs: Seq<(String, String)>) -> Seq<(Seq<char>, JsonV)> {
    Seq::new(
        attrs.len(),
        |i: int|
            if 0 <= i < attrs.len() {
                (at_key_v(attrs[i].0@), JsonV::Text(attrs[i].1@))
            } else {
                (Seq::empty(), null_v())
            },
    )
}

/// The distinct tag names among `cs`, in order of first occurrence.
pub open spec fn first_tags(cs: Seq<XmlNode>) -> Seq<Seq<char>>
    decreases cs.len(),
{
    if cs.len() == 0 {
        Seq::empty()
    } else {
        let pre = first_tags(cs.drop_last());
        if pre.contains(cs.last().tag@) {
            pre
        } else {
            pre.push(cs.last().tag@)
        }
    }
}

/// The transcoded sub-trees of the children of `cs` whose tag is `t`, in
/// document order.
pub open spec fn jsons_with_tag(cs: Seq<XmlNode>, t: Seq<char>) -> Seq<JsonV>
    decreases cs, 0int,
{
    if cs.len() == 0 {
        Seq::empty()
    } else {
        jsons_with_tag(cs.drop_last(), t) + if cs.last().tag@ == t {
            seq![json_of_node(cs.last())]
        } else {
            Seq::empty()
        }
    }
}

/// The value of one child group: the bare sub-tree when the tag occurs
/// once, an array of the sub-trees in document order when it repeats.
pub open spec fn group_value(cs: Seq<XmlNode>, t: Seq<char>) -> JsonV
    decreases cs, 1int,
{
    let g = jsons_with_tag(cs, t);
    if g.len() == 1 {
        g[0]
    } else {
        JsonV::Arr(g)
    }
}

/// The child-element fields of a node: one field per distinct tag, in
/// order of first occurrence.
pub open spec fn group_pairs(cs: Seq<XmlNode>) -> Seq<(Seq<char>, JsonV)>
    decreases cs, 2int,
{
    let tags = first_tags(cs);
    Seq::new(
        tags.len(),
        |i: int|
            if 0 <= i < tags.len() {
                (tags[i], group_value(cs, tags[i]))
            } else {
                (Seq::empty(), null_v())
            },
    )
}

/// The record of one element: a leaf with non-empty trimmed text collapses
/// to that text (attributes discarded); otherwise an object of the
/// attribute fields followed by the grouped child fields.
pub open spec fn json_of_node(n: XmlNode) -> JsonV
    decreases n, 3int,
{
    if n.children@.len() == 0 && trimmed(text_v(n)).len() != 0 {
        JsonV::Text(trimmed(text_v(n)))
    } else {
        JsonV::Obj(attr_pairs(n.attrs@) + group_pairs(n.children@))
    }
}

/// The element a document's record is taken from: the first element
/// child of the root element when there is one, otherwise the root
/// element itself. The native format encloses each event in a wrapper
/// element, which this unwraps.
pub open spec fn top_node(root: XmlNode) -> XmlNode {
    if root.children@.len() > 0 {
        root.children@[0]
    } else {
        root
    }
}

/// The record a markup document transcodes to, when it parses: the
/// record of its top-level element, the enclosing wrapper unwrapped.
pub open spec fn record_of(s: Seq<char>) -> Option<JsonV> {
    match parsed_event(s) {
        Some(root) => Some(json_of_node(top_node(root))),
        None => None,
    }
}

proof fn lemma_first_tags_step(cs: Seq<XmlNode>, i: int)
    requires
        0 <= i < cs.len(),
    ensures
        first_tags(cs.take(i + 1)) == if first_tags(cs.take(i)).contains(cs[i].tag@) {
            first_tags(cs.take(i))
        } else {
            first_tags(cs.take(i)).push(cs[i].tag@)
        },
{
    assert(cs.take(i + 1).drop_last() =~= cs.take(i));
    assert(cs.take(i + 1).last() == cs[i]);
}

proof fn lemma_jsons_with_tag_step(cs: Seq<XmlNode>, t: Seq<char>, i: int)
    requires
        0 <= i < cs.len(),
    ensures
        jsons_with_tag(cs.take(i + 1), t) == jsons_with_tag(cs.take(i), t) + if cs[i].tag@ == t {
            seq![json_of_node(cs[i])]
        } else {
            Seq::<JsonV>::empty()
        },
{
    assert(cs.take(i + 1).drop_last() =~= cs.take(i));
    assert(cs.take(i + 1).last() == cs[i]);
}

/// Transcodes one element into a record, per the merge rules of
/// `json_of_node`.
pub fn transcode(n: &XmlNode) -> (r: Json)
    ensures
        jview(r) == json_of_node(*n),
    decreases *n,
{
    let ghost cs = n.children@;
    if n.children.len() == 0 {
        let t = match &n.text {
            Some(s) => trim_str(s.as_str()),
            None => trim_str(""),
        };
        proof {
            reveal_strlit("");
            if n.text is None {
                assert(""@ =~= text_v(*n));
            }
            assert(t@ == trimmed(text_v(*n)));
        }
        if !t.is_empty() {
            return Json::Text(t.to_owned());
        }
    }
    let mut pairs: Vec<(String, Json)> = Vec::new();
    let mut i: usize = 0;
    while i < n.attrs.len()
        invariant
            i <= n.attrs@.len(),
            pairs@.len() == i,
            forall|j: int|
                0 <= j < i ==> #[trigger] pairs_view(pairs@)[j] == attr_pairs(n.attrs@)[j],
        decreases n.attrs@.len() - i,
    {
        let a = &n.attrs[i];
        let ghost prev = pairs@;
        pairs.push((at_key(a.0.as_str()), Json::Text(a.1.clone())));
        proof {
            assert forall|j: int| 0 <= j < i + 1 implies #[trigger] pairs_view(pairs@)[j]
                == attr_pairs(n.attrs@)[j] by {
                if j < i {
                    assert(pairs@[j] == prev[j]);
                    assert(pairs_view(prev)[j] == attr_pairs(n.attrs@)[j]);
                }
            }
        }
        i = i + 1;
    }
    let ghost alen = n.attrs@.len() as int;
    let mut keys: Vec<String> = Vec::new();
    let mut i: usize = 0;
    while i < n.children.len()
        invariant
            i <= cs.len(),
            cs == n.children@,
            strs_v(keys@) == first_tags(cs.take(i as int)),
        decreases cs.len() - i,
    {
        let tag = &n.children[i].tag;
        proof {
            lemma_first_tags_step(cs, i as int);
        }
        if !contains_string(&keys, tag) {
            keys.push(tag.clone());
            proof {
                assert(strs_v(keys@) =~= first_tags(cs.take(i + 1)));
            }
        } else {
            proof {
                assert(strs_v(keys@) =~= first_tags(cs.take(i + 1)));
            }
        }
        i = i + 1;
    }
    proof {
        assert(cs.take(cs.len() as int) =~= cs);
    }
    let mut k: usize = 0;
    while k < keys.len()
        invariant
            k <= keys@.len(),
            cs == n.children@,
            strs_v(keys@) == first_tags(cs),
            pairs@.len() == alen + k,
            alen == n.attrs@.len(),
            forall|j: int|
                0 <= j < alen ==> #[trigger] pairs_view(pairs@)[j] == attr_pairs(n.attrs@)[j],
            forall|j: int|
                alen <= j < alen + k ==> #[trigger] pairs_view(pairs@)[j] == group_pairs(cs)[j
                    - alen],
        decreases keys@.len() - k,
    {
        let key = &keys[k];
        proof {
            assert(key@ == strs_v(keys@)[k as int]);
        }
        let mut group: Vec<Json> = Vec::new();
        let mut i: usize = 0;
        while i < n.children.len()
            invariant
                i <= cs.len(),
                cs == n.children@,
                jvals(group@) == jsons_with_tag(cs.take(i as int), key@),
            decreases cs.len() - i,
        {
            let c = &n.children[i];
            proof {
                lemma_jsons_with_tag_step(cs, key@, i as int);
            }
            if str_eq(c.tag.as_str(), key.as_str()) {
                let sub = transcode(c);
                group.push(sub);
                proof {
                    assert(jvals(group@) =~= jsons_with_tag(cs.take(i + 1), key@));
                }
            } else {
                proof {
                    assert(jvals(group@) =~= jsons_with_tag(cs.take(i + 1), key@));
                }
            }
            i = i + 1;
        }
        proof {
            assert(cs.take(cs.len() as int) =~= cs);
        }
        let ghost old_pairs = pairs@;
        if group.len() == 1 {
            let mut group = group;
            let ghost g = group@;
            let v = group.pop().unwrap();
            proof {
                assert(jview(v) == jvals(g)[0]);
                assert(jview(v) == group_value(cs, key@));
            }
            pairs.push((key.clone(), v));
        } else {
            proof {
                assert(JsonV::Arr(jvals(group@)) == group_value(cs, key@));
            }
            pairs.push((key.clone(), Json::Arr(group)));
        }
        proof {
            assert(forall|j: int|
                0 <= j < old_pairs.len() ==> #[trigger] pairs_view(pairs@)[j] == pairs_view(
                    old_pairs,
                )[j]);
            assert(pairs_view(pairs@)[alen + k] == group_pairs(cs)[k as int]);
        }
        k = k + 1;
    }
    proof {
        assert(pairs_view(pairs@) =~= attr_pairs(n.attrs@) + group_pairs(cs));
    }
    Json::Obj(pairs)
}

/// Parses one rendered event and transcodes it: the record of the first
/// element child of the root element when one exists, otherwise of the
/// root element itself; nothing when the markup is malformed, in which
/// case the event is dropped.
pub fn parse_to_json(xml: &str) -> (r: Option<Json>)
    ensures
        (r is Some) == (record_of(xml@) is Some),
        r matches Some(j) ==> record_of(xml@) == Some(jview(j)),
{
    let root = match parse_xml(xml) {
        Some(n) => n,
        None => {
            return None;
        },
    };
    let top = if root.children.len() > 0 {
        let mut root = root;
        root.children.remove(0)
    } else {
        root
    };
    Some(transcode(&top))
}


/// Transcoding the same markup twice yields structurally equal records:
/// the record is a function of the document text alone, so repeated
/// transcodings agree field for field, array grouping included.
pub proof fn lemma_transcoding_deterministic(a: Seq<char>, b: Seq<char>)
    requires
        a == b,
    ensures
        record_of(a) == record_of(b),
{
}

/// Two element children sharing one tag name become, under that tag, an
/// array of their two sub-trees in document order.
pub proof fn lemma_repeated_tag_groups_to_array(n: XmlNode)
    requires
        n.children@.len() == 2,
        n.children@[0].tag@ == n.children@[1].tag@,
    ensures
        json_of_node(n) == JsonV::Obj(
            attr_pairs(n.attrs@) + seq![
                (
                    n.children@[0].tag@,
                    JsonV::Arr(
                        seq![json_of_node(n.children@[0]), json_of_node(n.children@[1])],
                    ),
                ),
            ],
        ),
{
    let cs = n.children@;
    let t = cs[0].tag@;
    let e = Seq::<XmlNode>::empty();
    assert(first_tags(e) =~= Seq::<Seq<char>>::empty());
    assert(jsons_with_tag(e, t) =~= Seq::<JsonV>::empty());
    let one = cs.drop_last();
    assert(one =~= seq![cs[0]]);
    assert(one.drop_last() =~= e);
    assert(first_tags(one) =~= seq![t]);
    assert(first_tags(one).contains(t)) by {
        assert(first_tags(one)[0] == t);
    }
    assert(first_tags(cs) =~= seq![t]);
    assert(jsons_with_tag(one, t) =~= seq![json_of_node(cs[0])]);
    assert(jsons_with_tag(cs, t) =~= seq![json_of_node(cs[0]), json_of_node(cs[1])]);
    assert(group_value(cs, t) == JsonV::Arr(
        seq![json_of_node(cs[0]), json_of_node(cs[1])],
    ));
    assert(group_pairs(cs) =~= seq![(t, group_value(cs, t))]);
}

/// A single child of a tag stands bare under that tag: no one-element
/// array is wrapped around its sub-tree.
pub proof fn lemma_single_tag_stays_bare(n: XmlNode)
    requires
        n.children@.len() == 1,
    ensures
        json_of_node(n) == JsonV::Obj(
            attr_pairs(n.attrs@) + seq![(n.children@[0].tag@, json_of_node(n.children@[0]))],
        ),
{
    let cs = n.children@;
    let t = cs[0].tag@;
    let e = Seq::<XmlNode>::empty();
    assert(first_tags(e) =~= Seq::<Seq<char>>::empty());
    assert(jsons_with_tag(e, t) =~= Seq::<JsonV>::empty());
    assert(cs.drop_last() =~= e);
    assert(first_tags(cs) =~= seq![t]);
    assert(jsons_with_tag(cs, t) =~= seq![json_of_node(cs[0])]);
    assert(group_value(cs, t) == json_of_node(cs[0]));
    assert(group_pairs(cs) =~= seq![(t, group_value(cs, t))]);
}

} // verus!
