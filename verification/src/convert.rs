//! Conversion between the markup tree and the served protocol's typed
//! message elements, in both directions, together with the data-URL
//! encoding of inline media bytes.
//!
//! The tree-to-elements direction flattens the tree breadth-first: nodes
//! are taken from the front of a queue, their children are pushed to the
//! back, and each node becomes exactly one element in pop order. This
//! reordering of nested content relative to document order is a load-bearing
//! design choice of the upstream bridge, not an accident.

use vstd::prelude::*;
use base64::Engine;
use crate::element::{
    lemma_view_forest_props, ser_elem, ser_tag, size_elem, size_forest,
    view_attr, view_elem, view_forest, view_tag, Attr, AttrModel, ElemModel, Element, Root,
    TagElement, TagModel,
};
use crate::kritor::{
    view_kritor, view_kritor_seq, KritorElement, KritorModel, MediaData, MediaModel,
};
use crate::parser::{find_key, lemma_find_key_props};
use crate::text::{dec_body, dec_str_of, dec_val, is_u64_string, lemma_dec_round_trip, parse_u64, u64_to_dec};

verus! {

/// Why a single element or event could not be mapped between the two
/// representations.
#[derive(Clone, Copy, Debug, PartialEq, Eq, Structural)]
pub enum ConvError {
    /// A `face` tag without a numeric `id` attribute.
    MissingFaceId,
    /// A forwarded-message tag without an `id` attribute.
    MissingForwardId,
    /// An At element addressed to nobody: no numeric id and not
    /// mention-everyone.
    MissingUin,
    /// A media element without a payload.
    MissingData,
    /// An element kind with no upstream equivalent.
    UnsupportedElement,
}

/// The human-readable reason an element conversion failed with.
pub open spec fn spec_conv_error_text(e: ConvError) -> Seq<char> {
    match e {
        ConvError::MissingFaceId => "face element requires a numeric id"@,
        ConvError::MissingForwardId => "forward message element requires an id"@,
        ConvError::MissingUin => "Missing uin"@,
        ConvError::MissingData => "Missing data"@,
        ConvError::UnsupportedElement => "including elements unsupported by satori."@,
    }
}

impl ConvError {
    pub fn message(&self) -> (r: &'static str)
        ensures
            r@ == spec_conv_error_text(*self),
    {
        match self {
            ConvError::MissingFaceId => "face element requires a numeric id",
            ConvError::MissingForwardId => "forward message element requires an id",
            ConvError::MissingUin => "Missing uin",
            ConvError::MissingData => "Missing data",
            ConvError::UnsupportedElement => "including elements unsupported by satori.",
        }
    }
}

// ---------------------------------------------------------------------------
// Attribute lookup
// ---------------------------------------------------------------------------

/// The value of the attribute named `key`, if present (first occurrence;
/// keys are unique in trees this library builds).
pub open spec fn attr_lookup(attrs: Seq<AttrModel>, key: Seq<char>) -> Option<Seq<char>> {
    match find_key(attrs, key) {
        Some(i) => Some(attrs[i].value),
        None => None,
    }
}

fn lookup_attr(attrs: &Vec<Attr>, key: &str) -> (r: Option<String>)
    ensures
        match r {
            Some(v) => attr_lookup(attrs@.map_values(|x: Attr| view_attr(x)), key@) == Some(v@),
            None => attr_lookup(attrs@.map_values(|x: Attr| view_attr(x)), key@) is None,
        },
{
    let ghost ms = attrs@.map_values(|x: Attr| view_attr(x));
    let key_string = String::from_str(key);
    let mut k: usize = 0;
    while k < attrs.len()
        invariant
            k <= attrs@.len(),
            ms == attrs@.map_values(|x: Attr| view_attr(x)),
            key_string@ == key@,
            forall|j: int| 0 <= j < k ==> ms[j].key != key@,
        decreases attrs@.len() - k,
    {
        let hit = attrs[k].key == key_string;
        proof {
            assert(ms[k as int] == view_attr(attrs@[k as int]));
        }
        if hit {
            proof {
                lemma_find_key_props(ms, key@);
                assert(find_key(ms, key@) == Some(k as int));
            }
            return Some(attrs[k].value.clone());
        }
        k = k + 1;
    }
    proof {
        lemma_find_key_props(ms, key@);
    }
    None
}

// ---------------------------------------------------------------------------
// Data-URL encoding of inline media bytes
// ---------------------------------------------------------------------------

/// What the MIME sniffer answers for a byte string: a function of the bytes
/// alone.
pub uninterp spec fn mime_of(data: Seq<u8>) -> Option<Seq<char>>;

/// The standard base64 encoding (with padding) of a byte string.
pub uninterp spec fn base64_of(data: Seq<u8>) -> Seq<char>;

/// A `data:` URL for a byte string: the sniffed MIME type (or the generic
/// fallback) followed by the base64 encoding of the bytes.
pub open spec fn data_url_of(data: Seq<u8>) -> Seq<char> {
    "data:"@ + (match mime_of(data) {
        Some(m) => m,
        None => "application/octet-stream"@,
    }) + ";base64,"@ + base64_of(data)
}

/// Relies on infer::get and infer::Type::mime_type: the sniffed type is
/// looked up in a static table of signature matchers, so it depends on the
/// bytes alone.
#[verifier::external_body]
fn sniff_mime(data: &[u8]) -> (r: Option<String>)
    ensures
        match r {
            Some(m) => mime_of(data@) == Some(m@),
            None => mime_of(data@) is None,
        },
{
    infer::get(data).map(|t| t.mime_type().to_string())
}

/// Relies on base64's BASE64_STANDARD engine: the standard alphabet with
/// padding; the output depends on the bytes alone. The engine's only
/// failure is an overflow computing the encoded size, which would need a
/// slice of over three quarters of the address space; a slice is never
/// longer than `isize::MAX` bytes, so that branch is unreachable.
#[verifier::external_body]
fn base64_encode(data: &[u8]) -> (r: String)
    ensures
        r@ == base64_of(data@),
{
    base64::prelude::BASE64_STANDARD.encode(data)
}

/// Encode bytes as a `data:` URL, sniffing the MIME type from the content
/// and falling back to `application/octet-stream`.
pub fn encode_data_url(data: &[u8]) -> (r: String)
    ensures
        r@ == data_url_of(data@),
{
    let mut out = String::from_str("data:");
    match sniff_mime(data) {
        Some(m) => out.append(m.as_str()),
        None => out.append("application/octet-stream"),
    }
    out.append(";base64,");
    let enc = base64_encode(data);
    out.append(enc.as_str());
    out
}

// ---------------------------------------------------------------------------
// Tree to served elements, as a specification
// ---------------------------------------------------------------------------

/// The numeric value of an attribute string, if it parses as a `u64`.
pub open spec fn numeric_of(v: Seq<char>) -> Option<u64> {
    if is_u64_string(v) {
        Some(dec_val(dec_body(v)) as u64)
    } else {
        None
    }
}

/// The numeric value of an attribute string, if it parses as a `u32`.
pub open spec fn face_id_of(v: Seq<char>) -> Option<u32> {
    if is_u64_string(v) && dec_val(dec_body(v)) <= u32::MAX {
        Some(dec_val(dec_body(v)) as u32)
    } else {
        None
    }
}

/// A node with its children emptied (but kept present): the shape in which
/// the breadth-first flattening hands each node to the per-node mapping.
pub open spec fn drained(m: ElemModel) -> ElemModel {
    match m {
        ElemModel::Plain(t) => ElemModel::Plain(t),
        ElemModel::Tag(tag) => ElemModel::Tag(
            TagModel {
                name: tag.name,
                attrs: tag.attrs,
                children: match tag.children {
                    Some(_) => Some(Seq::<ElemModel>::empty()),
                    None => None,
                },
            },
        ),
    }
}

pub open spec fn children_of(m: ElemModel) -> Seq<ElemModel> {
    match m {
        ElemModel::Plain(_) => Seq::empty(),
        ElemModel::Tag(tag) => match tag.children {
            Some(cs) => cs,
            None => Seq::empty(),
        },
    }
}

/// The per-node mapping by tag name. Unmapped tag names (and plain leaves
/// reached through the queue) become Text elements holding the node's own
/// re-serialized markup: a lossy passthrough, never a silent drop.
pub open spec fn node_to_kritor(m: ElemModel) -> Result<KritorModel, ConvError> {
    match m {
        ElemModel::Plain(t) => Ok(KritorModel::Text { text: t }),
        ElemModel::Tag(tag) => {
            if tag.name == "at"@ {
                Ok(
                    KritorModel::At {
                        uin: match attr_lookup(tag.attrs, "id"@) {
                            Some(v) => numeric_of(v),
                            None => None,
                        },
                        mention_all: attr_lookup(tag.attrs, "type"@) == Some("all"@),
                    },
                )
            } else if tag.name == "face"@ {
                match attr_lookup(tag.attrs, "id"@) {
                    Some(v) => match face_id_of(v) {
                        Some(id) => Ok(KritorModel::Face { id }),
                        None => Err(ConvError::MissingFaceId),
                    },
                    None => Err(ConvError::MissingFaceId),
                }
            } else if tag.name == "img"@ {
                Ok(
                    KritorModel::Image {
                        data: match attr_lookup(tag.attrs, "src"@) {
                            Some(v) => Some(MediaModel::FileUrl(v)),
                            None => None,
                        },
                    },
                )
            } else if tag.name == "audio"@ {
                Ok(
                    KritorModel::Voice {
                        data: match attr_lookup(tag.attrs, "src"@) {
                            Some(v) => Some(MediaModel::FileUrl(v)),
                            None => None,
                        },
                    },
                )
            } else if tag.name == "video"@ {
                Ok(
                    KritorModel::Video {
                        data: match attr_lookup(tag.attrs, "src"@) {
                            Some(v) => Some(MediaModel::FileUrl(v)),
                            None => None,
                        },
                    },
                )
            } else if tag.name == "file"@ {
                Ok(
                    KritorModel::File {
                        url: attr_lookup(tag.attrs, "src"@),
                        name: attr_lookup(tag.attrs, "title"@),
                    },
                )
            } else if tag.name == "message"@ && attr_lookup(tag.attrs, "forward"@) == Some(
                "true"@,
            ) {
                match attr_lookup(tag.attrs, "id"@) {
                    Some(v) => Ok(KritorModel::Forward { uniseq: v }),
                    None => Err(ConvError::MissingForwardId),
                }
            } else {
                Ok(KritorModel::Text { text: ser_elem(m) })
            }
        },
    }
}

/// Breadth-first conversion of a queue of nodes: the head is converted
/// (with its children emptied), its children go to the back of the queue,
/// and its element comes first in the output.
pub open spec fn bfs_convert(queue: Seq<ElemModel>) -> Result<Seq<KritorModel>, ConvError>
    decreases size_forest(queue),
    via bfs_convert_dec
{
    if queue.len() == 0 {
        Ok(Seq::empty())
    } else {
        match node_to_kritor(drained(queue[0])) {
            Err(e) => Err(e),
            Ok(k) => match bfs_convert(queue.drop_first() + children_of(queue[0])) {
                Ok(rest) => Ok(seq![k] + rest),
                Err(e) => Err(e),
            },
        }
    }
}

pub proof fn lemma_size_forest_concat(a: Seq<ElemModel>, b: Seq<ElemModel>)
    ensures
        size_forest(a + b) == size_forest(a) + size_forest(b),
    decreases a.len(),
{
    if a.len() == 0 {
        assert(a + b =~= b);
    } else {
        lemma_size_forest_concat(a.drop_first(), b);
        assert((a + b).drop_first() =~= a.drop_first() + b);
        assert((a + b)[0] == a[0]);
    }
}

pub proof fn lemma_bfs_step_size(queue: Seq<ElemModel>)
    requires
        queue.len() > 0,
    ensures
        size_forest(queue.drop_first() + children_of(queue[0])) == size_forest(queue) - 1,
{
    lemma_size_forest_concat(queue.drop_first(), children_of(queue[0]));
    assert(size_forest(queue) == size_elem(queue[0]) + size_forest(queue.drop_first()));
    assert(size_elem(queue[0]) == 1 + size_forest(children_of(queue[0])));
}

#[via_fn]
proof fn bfs_convert_dec(queue: Seq<ElemModel>) {
    if queue.len() > 0 {
        lemma_bfs_step_size(queue);
    }
}

/// The whole tree-to-elements conversion: a plain root becomes one Text
/// element; a tag root's children seed the breadth-first queue.
pub open spec fn spec_to_kritor(root: ElemModel) -> Result<Seq<KritorModel>, ConvError> {
    match root {
        ElemModel::Plain(t) => Ok(seq![KritorModel::Text { text: t }]),
        ElemModel::Tag(tag) => bfs_convert(children_of(root)),
    }
}

/// Breadth-first order, as a law: when the head of the queue converts, the
/// conversion of the whole queue starts with the head's element, followed by
/// the conversion of the rest of the queue with the head's children at the
/// back.
pub proof fn lemma_bfs_order(queue: Seq<ElemModel>)
    requires
        queue.len() > 0,
        node_to_kritor(drained(queue[0])) is Ok,
        bfs_convert(queue) is Ok,
    ensures
        bfs_convert(queue.drop_first() + children_of(queue[0])) is Ok,
        bfs_convert(queue)->Ok_0 == seq![node_to_kritor(drained(queue[0]))->Ok_0]
            + bfs_convert(queue.drop_first() + children_of(queue[0]))->Ok_0,
{
}

// ---------------------------------------------------------------------------
// Tree to served elements, executable
// ---------------------------------------------------------------------------

/// Convert one (already drained) node into exactly one element.
fn exec_node_to_kritor(node: Element) -> (r: Result<KritorElement, ConvError>)
    ensures
        match r {
            Ok(k) => node_to_kritor(view_elem(node)) == Ok::<KritorModel, ConvError>(
                view_kritor(k),
            ),
            Err(e) => node_to_kritor(view_elem(node)) == Err::<KritorModel, ConvError>(e),
        },
{
    match node {
        Element::Plain(text) => Ok(KritorElement::Text { text }),
        Element::Tag(tag) => {
            let ghost tm = view_tag(tag);
            if tag.name == String::from_str("at") {
                let uin = match lookup_attr(&tag.attributes, "id") {
                    Some(v) => parse_u64(v.as_str()),
                    None => None,
                };
                let mention_all = match lookup_attr(&tag.attributes, "type") {
                    Some(v) => v == String::from_str("all"),
                    None => false,
                };
                Ok(KritorElement::At { uin, mention_all })
            } else if tag.name == String::from_str("face") {
                match lookup_attr(&tag.attributes, "id") {
                    Some(v) => match parse_u64(v.as_str()) {
                        Some(n) => {
                            if n <= u32::MAX as u64 {
                                Ok(KritorElement::Face { id: n as u32 })
                            } else {
                                Err(ConvError::MissingFaceId)
                            }
                        },
                        None => Err(ConvError::MissingFaceId),
                    },
                    None => Err(ConvError::MissingFaceId),
                }
            } else if tag.name == String::from_str("img") {
                let data = match lookup_attr(&tag.attributes, "src") {
                    Some(v) => Some(MediaData::FileUrl(v)),
                    None => None,
                };
                Ok(KritorElement::Image { data })
            } else if tag.name == String::from_str("audio") {
                let data = match lookup_attr(&tag.attributes, "src") {
                    Some(v) => Some(MediaData::FileUrl(v)),
                    None => None,
                };
                Ok(KritorElement::Voice { data })
            } else if tag.name == String::from_str("video") {
                let data = match lookup_attr(&tag.attributes, "src") {
                    Some(v) => Some(MediaData::FileUrl(v)),
                    None => None,
                };
                Ok(KritorElement::Video { data })
            } else if tag.name == String::from_str("file") {
                Ok(
                    KritorElement::File {
                        url: lookup_attr(&tag.attributes, "src"),
                        name: lookup_attr(&tag.attributes, "title"),
                    },
                )
            } else {
                let is_forward = tag.name == String::from_str("message") && (match lookup_attr(
                    &tag.attributes,
                    "forward",
                ) {
                    Some(v) => v == String::from_str("true"),
                    None => false,
                });
                if is_forward {
                    match lookup_attr(&tag.attributes, "id") {
                        Some(v) => Ok(KritorElement::Forward { uniseq: v }),
                        None => Err(ConvError::MissingForwardId),
                    }
                } else {
                    let text = tag.serialize();
                    proof {
                        assert(ser_elem(ElemModel::Tag(tm)) == ser_tag(tm));
                    }
                    Ok(KritorElement::Text { text })
                }
            }
        },
    }
}

impl Root {
    /// Flatten the tree breadth-first into served elements, one element per
    /// node in queue-pop order.
    pub fn try_into_kritor_elements(self) -> (r: Result<Vec<KritorElement>, ConvError>)
        ensures
            match r {
                Ok(v) => spec_to_kritor(view_elem(self.root_element)) == Ok::<
                    Seq<KritorModel>,
                    ConvError,
                >(view_kritor_seq(v@)),
                Err(e) => spec_to_kritor(view_elem(self.root_element)) == Err::<
                    Seq<KritorModel>,
                    ConvError,
                >(e),
            },
    {
        let ghost root_model = view_elem(self.root_element);
        match self.root_element {
            Element::Plain(text) => {
                let mut v: Vec<KritorElement> = Vec::new();
                v.push(KritorElement::Text { text });
                proof {
                    assert(view_kritor_seq(v@) =~= seq![
                        KritorModel::Text { text: root_model->Plain_0 },
                    ]);
                }
                Ok(v)
            },
            Element::Tag(tag) => {
                let mut queue: Vec<Element> = match tag.children {
                    Some(cs) => cs,
                    None => Vec::new(),
                };
                proof {
                    assert(view_forest(Seq::<Element>::empty()) =~= Seq::<ElemModel>::empty());
                    assert(view_forest(queue@) == children_of(root_model));
                }
                let mut result: Vec<KritorElement> = Vec::new();
                proof {
                    assert(view_kritor_seq(result@) =~= Seq::<KritorModel>::empty());
                }
                #[verifier::loop_isolation(false)]
                while queue.len() > 0
                    invariant
                        spec_to_kritor(root_model) == bfs_convert(children_of(root_model)),
                        match bfs_convert(view_forest(queue@)) {
                            Ok(rest) => spec_to_kritor(root_model) == Ok::<
                                Seq<KritorModel>,
                                ConvError,
                            >(view_kritor_seq(result@) + rest),
                            Err(e) => spec_to_kritor(root_model) == Err::<
                                Seq<KritorModel>,
                                ConvError,
                            >(e),
                        },
                    decreases size_forest(view_forest(queue@)),
                {
                    let ghost q0 = view_forest(queue@);
                    proof {
                        lemma_view_forest_props(queue@);
                    }
                    let mut node = queue.remove(0);
                    proof {
                        lemma_view_forest_props(queue@);
                        assert(view_forest(queue@) =~= q0.drop_first());
                        assert(view_elem(node) == q0[0]);
                    }
                    let ghost m0 = view_elem(node);
                    // Drain the node's children into the back of the queue.
                    let cs_opt = match &mut node {
                        Element::Tag(t) => t.children.take(),
                        Element::Plain(_) => None,
                    };
                    match cs_opt {
                        Some(mut cs) => {
                            proof {
                                assert(children_of(m0) == view_forest(cs@));
                            }
                            match &mut node {
                                Element::Tag(t) => {
                                    t.children = Some(Vec::new());
                                },
                                Element::Plain(_) => {},
                            }
                            proof {
                                assert(view_forest(Seq::<Element>::empty()) =~= Seq::<
                                    ElemModel,
                                >::empty());
                                assert(view_elem(node) == drained(m0));
                            }
                            let ghost qa = queue@;
                            let ghost qcs = cs@;
                            queue.append(&mut cs);
                            proof {
                                lemma_view_forest_concat(qa, qcs);
                                assert(queue@ == qa + qcs);
                            }
                        },
                        None => {
                            proof {
                                assert(children_of(m0) =~= Seq::<ElemModel>::empty());
                                assert(view_elem(node) == drained(m0));
                                assert(view_forest(queue@) =~= q0.drop_first() + children_of(m0));
                            }
                        },
                    }
                    proof {
                        assert(view_forest(queue@) == q0.drop_first() + children_of(q0[0]));
                        lemma_bfs_step_size(q0);
                    }
                    match exec_node_to_kritor(node) {
                        Ok(k) => {
                            let ghost res0 = view_kritor_seq(result@);
                            result.push(k);
                            proof {
                                assert(view_kritor_seq(result@) =~= res0.push(view_kritor(k)));
                                match bfs_convert(view_forest(queue@)) {
                                    Ok(rest) => {
                                        assert(res0.push(view_kritor(k)) + rest =~= res0 + (seq![
                                            view_kritor(k),
                                        ] + rest));
                                    },
                                    Err(_) => {},
                                }
                            }
                        },
                        Err(e) => {
                            return Err(e);
                        },
                    }
                }
                proof {
                    assert(view_forest(queue@).len() == 0) by {
                        lemma_view_forest_props(queue@);
                    }
                    assert(view_forest(queue@) =~= Seq::<ElemModel>::empty());
                    assert(view_kritor_seq(result@) + Seq::<KritorModel>::empty()
                        =~= view_kritor_seq(result@));
                }
                Ok(result)
            },
        }
    }
}

/// The view of a concatenation of element lists is the concatenation of
/// the views.
pub proof fn lemma_view_forest_concat(a: Seq<Element>, b: Seq<Element>)
    ensures
        view_forest(a + b) =~= view_forest(a) + view_forest(b),
{
    lemma_view_forest_props(a);
    lemma_view_forest_props(b);
    lemma_view_forest_props(a + b);
    assert forall|i: int| 0 <= i < a.len() + b.len() implies view_forest(a + b)[i] == (
    view_forest(a) + view_forest(b))[i] by {
        if i < a.len() {
            assert((a + b)[i] == a[i]);
        } else {
            assert((a + b)[i] == b[i - a.len()]);
        }
    }
}

// ---------------------------------------------------------------------------
// Served elements to tree
// ---------------------------------------------------------------------------

/// How one served element maps back to a markup node. Element kinds with no
/// upstream equivalent fail: on the outbound path the caller must be told.
pub open spec fn kritor_to_elem(k: KritorModel) -> Result<ElemModel, ConvError> {
    match k {
        KritorModel::Text { text } => Ok(ElemModel::Plain(text)),
        KritorModel::At { uin, mention_all } => {
            if mention_all {
                Ok(simple_tag("at"@, seq![AttrModel { key: "type"@, value: "all"@ }]))
            } else {
                match uin {
                    Some(u) => Ok(
                        simple_tag(
                            "at"@,
                            seq![AttrModel { key: "id"@, value: dec_str_of(u as nat) }],
                        ),
                    ),
                    None => Err(ConvError::MissingUin),
                }
            }
        },
        KritorModel::Face { id } => Ok(
            simple_tag("face"@, seq![AttrModel { key: "id"@, value: dec_str_of(id as nat) }]),
        ),
        KritorModel::Image { data } => media_tag("img"@, data),
        KritorModel::Voice { data } => media_tag("audio"@, data),
        KritorModel::Video { data } => media_tag("video"@, data),
        KritorModel::File { .. } => Err(ConvError::UnsupportedElement),
        KritorModel::Forward { .. } => Err(ConvError::UnsupportedElement),
    }
}

pub open spec fn simple_tag(name: Seq<char>, attrs: Seq<AttrModel>) -> ElemModel {
    ElemModel::Tag(TagModel { name, attrs, children: None })
}

/// The `src` attribute of a media tag: a remote URL passes through, a local
/// path becomes a `file://` URL, inline bytes become a `data:` URL.
pub open spec fn media_tag(name: Seq<char>, data: Option<MediaModel>) -> Result<
    ElemModel,
    ConvError,
> {
    match data {
        None => Err(ConvError::MissingData),
        Some(MediaModel::FileUrl(u)) => Ok(
            simple_tag(name, seq![AttrModel { key: "src"@, value: u }]),
        ),
        Some(MediaModel::FilePath(p)) => Ok(
            simple_tag(name, seq![AttrModel { key: "src"@, value: "file://"@ + p }]),
        ),
        Some(MediaModel::FileBytes(b)) => Ok(
            simple_tag(name, seq![AttrModel { key: "src"@, value: data_url_of(b) }]),
        ),
    }
}

/// The element-sequence direction: each element becomes exactly one child,
/// in order; the first failure aborts the conversion.
pub open spec fn convert_all(ks: Seq<KritorModel>) -> Result<Seq<ElemModel>, ConvError>
    decreases ks.len(),
{
    if ks.len() == 0 {
        Ok(Seq::empty())
    } else {
        match kritor_to_elem(ks[0]) {
            Err(e) => Err(e),
            Ok(m) => match convert_all(ks.drop_first()) {
                Ok(rest) => Ok(seq![m] + rest),
                Err(e) => Err(e),
            },
        }
    }
}

/// The whole elements-to-tree conversion: a synthetic root whose children
/// are the converted elements, one-to-one.
pub open spec fn spec_from_kritor(ks: Seq<KritorModel>) -> Result<TagModel, ConvError> {
    match convert_all(ks) {
        Ok(children) => Ok(
            TagModel {
                name: Seq::<char>::empty(),
                attrs: Seq::<AttrModel>::empty(),
                children: Some(children),
            },
        ),
        Err(e) => Err(e),
    }
}

fn singleton_attr(key: &str, value: String) -> (r: Vec<Attr>)
    ensures
        r@.map_values(|x: Attr| view_attr(x)) =~= seq![AttrModel { key: key@, value: value@ }],
{
    let mut v: Vec<Attr> = Vec::new();
    v.push(Attr { key: String::from_str(key), value });
    v
}

fn make_simple_tag(name: &str, attrs: Vec<Attr>) -> (r: Element)
    ensures
        view_elem(r) == ElemModel::Tag(
            TagModel {
                name: name@,
                attrs: attrs@.map_values(|x: Attr| view_attr(x)),
                children: None,
            },
        ),
{
    Element::Tag(TagElement { name: String::from_str(name), attributes: attrs, children: None })
}

/// Convert one served element back into a markup node.
fn exec_kritor_to_elem(k: KritorElement) -> (r: Result<Element, ConvError>)
    ensures
        match r {
            Ok(el) => kritor_to_elem(view_kritor(k)) == Ok::<ElemModel, ConvError>(view_elem(el)),
            Err(e) => kritor_to_elem(view_kritor(k)) == Err::<ElemModel, ConvError>(e),
        },
{
    match k {
        KritorElement::Text { text } => Ok(Element::Plain(text)),
        KritorElement::At { uin, mention_all } => {
            if mention_all {
                Ok(make_simple_tag("at", singleton_attr("type", String::from_str("all"))))
            } else {
                match uin {
                    Some(u) => Ok(make_simple_tag("at", singleton_attr("id", u64_to_dec(u)))),
                    None => Err(ConvError::MissingUin),
                }
            }
        },
        KritorElement::Face { id } => Ok(
            make_simple_tag("face", singleton_attr("id", u64_to_dec(id as u64))),
        ),
        KritorElement::Image { data } => exec_media_tag("img", data),
        KritorElement::Voice { data } => exec_media_tag("audio", data),
        KritorElement::Video { data } => exec_media_tag("video", data),
        KritorElement::File { .. } => Err(ConvError::UnsupportedElement),
        KritorElement::Forward { .. } => Err(ConvError::UnsupportedElement),
    }
}

fn exec_media_tag(name: &str, data: Option<MediaData>) -> (r: Result<Element, ConvError>)
    ensures
        match r {
            Ok(el) => media_tag(name@, crate::kritor::view_opt_media(data)) == Ok::<
                ElemModel,
                ConvError,
            >(view_elem(el)),
            Err(e) => media_tag(name@, crate::kritor::view_opt_media(data)) == Err::<
                ElemModel,
                ConvError,
            >(e),
        },
{
    match data {
        None => Err(ConvError::MissingData),
        Some(MediaData::FileUrl(u)) => Ok(make_simple_tag(name, singleton_attr("src", u))),
        Some(MediaData::FilePath(p)) => {
            let mut url = String::from_str("file://");
            url.append(p.as_str());
            Ok(make_simple_tag(name, singleton_attr("src", url)))
        },
        Some(MediaData::FileBytes(b)) => {
            let url = encode_data_url(b.as_slice());
            Ok(make_simple_tag(name, singleton_attr("src", url)))
        },
    }
}

impl Root {
    /// Rebuild a markup tree from served elements, one child per element.
    pub fn try_from_kritor_elements(value: Vec<KritorElement>) -> (r: Result<Self, ConvError>)
        ensures
            match r {
                Ok(root) => spec_from_kritor(view_kritor_seq(value@)) is Ok && view_elem(
                    root.root_element,
                ) == ElemModel::Tag(spec_from_kritor(view_kritor_seq(value@))->Ok_0),
                Err(e) => spec_from_kritor(view_kritor_seq(value@)) == Err::<TagModel, ConvError>(
                    e,
                ),
            },
    {
        let ghost all = view_kritor_seq(value@);
        let mut rest = value;
        let mut children: Vec<Element> = Vec::new();
        proof {
            assert(view_forest(Seq::<Element>::empty()) =~= Seq::<ElemModel>::empty());
            assert(view_kritor_seq(rest@) =~= all);
        }
        #[verifier::loop_isolation(false)]
        while rest.len() > 0
            invariant
                match convert_all(view_kritor_seq(rest@)) {
                    Ok(tail) => convert_all(all) == Ok::<Seq<ElemModel>, ConvError>(
                        view_forest(children@) + tail,
                    ),
                    Err(e) => convert_all(all) == Err::<Seq<ElemModel>, ConvError>(e),
                },
            decreases rest@.len(),
        {
            let ghost ks = view_kritor_seq(rest@);
            let e = rest.remove(0);
            proof {
                assert(view_kritor(e) == ks[0]);
                assert(view_kritor_seq(rest@) =~= ks.drop_first());
            }
            match exec_kritor_to_elem(e) {
                Ok(el) => {
                    let ghost cs0 = view_forest(children@);
                    let ghost old_children = children@;
                    children.push(el);
                    proof {
                        crate::element::lemma_view_forest_push(old_children, el);
                        assert(view_forest(children@) =~= cs0.push(view_elem(el)));
                        match convert_all(view_kritor_seq(rest@)) {
                            Ok(tail) => {
                                assert(cs0.push(view_elem(el)) + tail =~= cs0 + (seq![
                                    view_elem(el),
                                ] + tail));
                            },
                            Err(_) => {},
                        }
                    }
                },
                Err(e) => {
                    return Err(e);
                },
            }
        }
        proof {
            assert(view_kritor_seq(rest@) =~= Seq::<KritorModel>::empty());
            assert(convert_all(Seq::<KritorModel>::empty()) == Ok::<Seq<ElemModel>, ConvError>(
                Seq::<ElemModel>::empty(),
            ));
            assert(view_forest(children@) + Seq::<ElemModel>::empty() =~= view_forest(children@));
        }
        let root_element = Element::Tag(
            TagElement { name: String::new(), attributes: Vec::new(), children: Some(children) },
        );
        proof {
            assert(root_element->Tag_0.attributes@.map_values(|a: Attr| view_attr(a)) =~= Seq::<
                AttrModel,
            >::empty());
        }
        Ok(Root { root_element })
    }
}


/// A numeric id survives the trip through the markup representation: the
/// decimal string written for `u` on the outbound path reads back as `u`
/// on the inbound path.
pub proof fn lemma_numeric_round_trip(u: u64)
    ensures
        numeric_of(dec_str_of(u as nat)) == Some(u),
{
    lemma_dec_round_trip(u as nat);
    let s = dec_str_of(u as nat);
    assert(s[0] != '+');
    assert(dec_body(s) == s);
}

} // verus!
