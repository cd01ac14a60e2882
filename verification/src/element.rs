//! The message-content tree: plain text leaves and named tag nodes, with the
//! exact serializer into the upstream markup representation.

use vstd::prelude::*;

verus! {

/// One `key="value"` attribute of a tag. Attribute keys are unique within a
/// node in every tree this library builds.
#[derive(Debug)]
pub struct Attr {
    pub key: String,
    pub value: String,
}

/// A node of the message-content tree.
#[derive(Debug)]
pub enum Element {
    Tag(TagElement),
    Plain(String),
}

/// A named tag node. An empty attribute list stands for a tag without
/// attributes. The *absence* of `children` is meaningful: it marks a
/// self-closing tag `<x/>`, while `Some` of an empty list marks a paired
/// empty tag `<x></x>`; the two serialize differently.
#[derive(Debug)]
pub struct TagElement {
    pub name: String,
    pub attributes: Vec<Attr>,
    pub children: Option<Vec<Element>>,
}

/// The result of parsing: a synthetic root tag with an empty name whose
/// children are the top-level sequence. The root's own name and brackets are
/// never serialized.
#[derive(Debug)]
pub struct Root {
    pub root_element: Element,
}

// ---------------------------------------------------------------------------
// Mathematical model of the tree
// ---------------------------------------------------------------------------

#[verifier::ext_equal]
pub struct AttrModel {
    pub key: Seq<char>,
    pub value: Seq<char>,
}

#[verifier::ext_equal]
pub enum ElemModel {
    Tag(TagModel),
    Plain(Seq<char>),
}

#[verifier::ext_equal]
pub struct TagModel {
    pub name: Seq<char>,
    pub attrs: Seq<AttrModel>,
    pub children: Option<Seq<ElemModel>>,
}

pub open spec fn view_attr(a: Attr) -> AttrModel {
    AttrModel { key: a.key@, value: a.value@ }
}

pub open spec fn view_tag(tag: TagElement) -> TagModel
    decreases tag,
{
    TagModel {
        name: tag.name@,
        attrs: tag.attributes@.map_values(|a: Attr| view_attr(a)),
        children: match tag.children {
            None => None,
            Some(cs) => Some(view_forest(cs@)),
        },
    }
}

pub open spec fn view_elem(e: Element) -> ElemModel
    decreases e,
{
    match e {
        Element::Plain(t) => ElemModel::Plain(t@),
        Element::Tag(tag) => ElemModel::Tag(view_tag(tag)),
    }
}

pub open spec fn view_forest(cs: Seq<Element>) -> Seq<ElemModel>
    decreases cs,
{
    if cs.len() == 0 {
        Seq::empty()
    } else {
        seq![view_elem(cs[0])] + view_forest(cs.drop_first())
    }
}

/// Number of nodes in a tree; the termination measure for executable
/// recursion over the tree.
pub open spec fn size_elem(m: ElemModel) -> nat
    decreases m,
{
    match m {
        ElemModel::Plain(_) => 1,
        ElemModel::Tag(tag) => 1 + (match tag.children {
            None => 0nat,
            Some(cs) => size_forest(cs),
        }),
    }
}

pub open spec fn size_forest(cs: Seq<ElemModel>) -> nat
    decreases cs,
{
    if cs.len() == 0 {
        0
    } else {
        size_elem(cs[0]) + size_forest(cs.drop_first())
    }
}

pub proof fn lemma_size_elem_pos(m: ElemModel)
    ensures
        size_elem(m) >= 1,
{
}

pub proof fn lemma_size_forest_index(cs: Seq<ElemModel>, i: int)
    requires
        0 <= i < cs.len(),
    ensures
        size_forest(cs) >= size_elem(cs[i]),
        size_elem(cs[i]) >= 1,
    decreases cs.len(),
{
    lemma_size_elem_pos(cs[i]);
    if i > 0 {
        lemma_size_forest_index(cs.drop_first(), i - 1);
        assert(cs.drop_first()[i - 1] == cs[i]);
    }
}

// ---------------------------------------------------------------------------
// Serialization, as a specification
// ---------------------------------------------------------------------------

pub open spec fn ser_attrs(attrs: Seq<AttrModel>) -> Seq<char>
    decreases attrs.len(),
{
    if attrs.len() == 0 {
        Seq::empty()
    } else {
        " "@ + attrs[0].key + "=\""@ + attrs[0].value + "\""@ + ser_attrs(attrs.drop_first())
    }
}

pub open spec fn ser_elem(m: ElemModel) -> Seq<char>
    decreases m, 1nat,
{
    match m {
        ElemModel::Plain(t) => t,
        ElemModel::Tag(tag) => ser_tag(tag),
    }
}

/// Serialization of a tag node. A tag with an empty name (the synthetic root)
/// emits no angle brackets of its own; its attributes and children are still
/// emitted.
pub open spec fn ser_tag(tag: TagModel) -> Seq<char>
    decreases tag, 2nat,
{
    let head = if tag.name.len() > 0 {
        "<"@ + tag.name + ser_attrs(tag.attrs)
    } else {
        ser_attrs(tag.attrs)
    };
    match tag.children {
        None => if tag.name.len() > 0 {
            head + "/>"@
        } else {
            head
        },
        Some(cs) => {
            let mid = ser_forest(cs);
            if tag.name.len() > 0 {
                head + ">"@ + mid + "</"@ + tag.name + ">"@
            } else {
                head + mid
            }
        },
    }
}

pub open spec fn ser_forest(cs: Seq<ElemModel>) -> Seq<char>
    decreases cs,
{
    if cs.len() == 0 {
        Seq::empty()
    } else {
        ser_elem(cs[0]) + ser_forest(cs.drop_first())
    }
}

// ---------------------------------------------------------------------------
// Constructors and accessors
// ---------------------------------------------------------------------------

impl Element {
    /// The synthetic root shape: a tag with an empty name and no children.
    pub fn empty_tag() -> (r: Self)
        ensures
            view_elem(r) == ElemModel::Tag(TagModel {
                name: Seq::<char>::empty(),
                attrs: Seq::<AttrModel>::empty(),
                children: None,
            }),
    {
        Self::with_tag_name(String::new())
    }

    pub fn with_tag_name(name: String) -> (r: Self)
        ensures
            view_elem(r) == ElemModel::Tag(TagModel {
                name: name@,
                attrs: Seq::<AttrModel>::empty(),
                children: None,
            }),
    {
        let r = Self::Tag(TagElement { name, attributes: Vec::new(), children: None });
        proof {
            let tag = r->Tag_0;
            assert(tag.attributes@.map_values(|a: Attr| view_attr(a)) =~= Seq::<
                AttrModel,
            >::empty());
        }
        r
    }

    pub fn new_plain(text: String) -> (r: Self)
        ensures
            view_elem(r) == ElemModel::Plain(text@),
    {
        Self::Plain(text)
    }

    pub fn is_plain(&self) -> (r: bool)
        ensures
            r == (*self is Plain),
    {
        matches!(self, Self::Plain(_))
    }

    pub fn text(&self) -> (r: Option<&String>)
        ensures
            match r {
                Some(s) => *self is Plain && *s == self->Plain_0,
                None => *self is Tag,
            },
    {
        if let Self::Plain(s) = self {
            Some(s)
        } else {
            None
        }
    }

    pub fn text_mut(&mut self) -> (r: Option<&mut String>)
        ensures
            match r {
                Some(s) => {
                    &&& *old(self) is Plain
                    &&& *s == old(self)->Plain_0
                    &&& *final(self) == Element::Plain(*final(s))
                },
                None => {
                    &&& *old(self) is Tag
                    &&& *final(self) == *old(self)
                },
            },
    {
        if let Self::Plain(s) = self {
            Some(s)
        } else {
            None
        }
    }

    pub fn tag(&self) -> (r: Option<&TagElement>)
        ensures
            match r {
                Some(t) => *self is Tag && *t == self->Tag_0,
                None => *self is Plain,
            },
    {
        if let Self::Tag(e) = self {
            Some(e)
        } else {
            None
        }
    }

    pub fn tag_mut(&mut self) -> (r: Option<&mut TagElement>)
        ensures
            match r {
                Some(t) => {
                    &&& *old(self) is Tag
                    &&& *t == old(self)->Tag_0
                    &&& *final(self) == Element::Tag(*final(t))
                },
                None => {
                    &&& *old(self) is Plain
                    &&& *final(self) == *old(self)
                },
            },
    {
        if let Self::Tag(e) = self {
            Some(e)
        } else {
            None
        }
    }

    pub fn from_tag(value: TagElement) -> (r: Self)
        ensures
            r == Element::Tag(value),
    {
        Self::Tag(value)
    }
}

impl TagElement {
    /// The children list, created empty first if the tag had none.
    pub fn children_mut(&mut self) -> (r: &mut Vec<Element>)
        ensures
            r@ == (match old(self).children {
                Some(cs) => cs@,
                None => Seq::<Element>::empty(),
            }),
            final(self).children == Some(*final(r)),
            final(self).name == old(self).name,
            final(self).attributes == old(self).attributes,
    {
        if self.children.is_none() {
            self.children = Some(Vec::new());
        }
        self.children.as_mut().unwrap()
    }

    pub fn attributes_mut(&mut self) -> (r: &mut Vec<Attr>)
        ensures
            *r == old(self).attributes,
            final(self).attributes == *final(r),
            final(self).name == old(self).name,
            final(self).children == old(self).children,
    {
        &mut self.attributes
    }
}

// ---------------------------------------------------------------------------
// The executable serializer
// ---------------------------------------------------------------------------

impl Element {
    /// Serialize an element into the upstream markup representation.
    pub fn serialize(&self) -> (r: String)
        ensures
            r@ == ser_elem(view_elem(*self)),
        decreases size_elem(view_elem(*self)), 1nat,
    {
        match self {
            Element::Plain(t) => {
                let mut out = String::new();
                out.append(t.as_str());
                out
            },
            Element::Tag(tag) => tag.serialize(),
        }
    }
}

impl TagElement {
    pub fn serialize(&self) -> (r: String)
        ensures
            r@ == ser_tag(view_tag(*self)),
        decreases size_elem(ElemModel::Tag(view_tag(*self))), 0nat,
    {
        let has_name = self.name.as_str().unicode_len() > 0;
        let mut out = String::new();
        if has_name {
            out.append("<");
            out.append(self.name.as_str());
        }
        let ghost all_attrs = self.attributes@.map_values(|a: Attr| view_attr(a));
        let ghost head = if self.name@.len() > 0 {
            "<"@ + self.name@ + ser_attrs(all_attrs)
        } else {
            ser_attrs(all_attrs)
        };
        let mut i: usize = 0;
        while i < self.attributes.len()
            invariant
                i <= self.attributes@.len(),
                all_attrs == self.attributes@.map_values(|a: Attr| view_attr(a)),
                out@ == (if self.name@.len() > 0 {
                    "<"@ + self.name@
                } else {
                    Seq::<char>::empty()
                }) + ser_attrs(all_attrs.take(i as int)),
            decreases self.attributes@.len() - i,
        {
            out.append(" ");
            out.append(self.attributes[i].key.as_str());
            out.append("=\"");
            out.append(self.attributes[i].value.as_str());
            out.append("\"");
            proof {
                lemma_ser_attrs_snoc(all_attrs, i as int);
            }
            i = i + 1;
        }
        proof {
            assert(all_attrs.take(all_attrs.len() as int) =~= all_attrs);
            assert(out@ == head);
        }
        match &self.children {
            None => {
                if has_name {
                    out.append("/>");
                }
            },
            Some(cs) => {
                if has_name {
                    out.append(">");
                }
                let ghost cms = view_forest(cs@);
                proof {
                    assert(cms.take(0) =~= Seq::<ElemModel>::empty());
                    assert(view_tag(*self).children == Some(cms));
                    lemma_view_forest_props(cs@);
                }
                let mut j: usize = 0;
                while j < cs.len()
                    invariant
                        j <= cs@.len(),
                        cms == view_forest(cs@),
                        size_elem(ElemModel::Tag(view_tag(*self))) == 1 + size_forest(cms),
                        cms.len() == cs@.len(),
                        forall|k: int| 0 <= k < cs@.len() ==> cms[k] == view_elem(cs@[k]),
                        out@ == (if self.name@.len() > 0 {
                            head + ">"@
                        } else {
                            head
                        }) + ser_forest(cms.take(j as int)),
                    decreases cs@.len() - j,
                {
                    proof {
                        lemma_size_forest_index(cms, j as int);
                    }
                    let piece = cs[j].serialize();
                    out.append(piece.as_str());
                    proof {
                        lemma_ser_forest_snoc(cms, j as int);
                    }
                    j = j + 1;
                }
                proof {
                    assert(cms.take(cms.len() as int) =~= cms);
                }
                if has_name {
                    out.append("</");
                    out.append(self.name.as_str());
                    out.append(">");
                }
            },
        }
        out
    }
}

// ---------------------------------------------------------------------------
// Lemmas about the serialization and view functions
// ---------------------------------------------------------------------------

pub proof fn lemma_ser_attrs_snoc(attrs: Seq<AttrModel>, i: int)
    requires
        0 <= i < attrs.len(),
    ensures
        ser_attrs(attrs.take(i + 1)) == ser_attrs(attrs.take(i)) + (" "@ + attrs[i].key + "=\""@
            + attrs[i].value + "\""@),
    decreases i,
{
    let a = attrs.take(i + 1);
    let b = attrs.take(i);
    if i == 0 {
        assert(a.drop_first() =~= Seq::<AttrModel>::empty());
        assert(ser_attrs(a.drop_first()) == Seq::<char>::empty());
        assert(ser_attrs(b) == Seq::<char>::empty());
        assert(ser_attrs(a) =~= ser_attrs(b) + (" "@ + attrs[0].key + "=\""@ + attrs[0].value
            + "\""@));
    } else {
        lemma_ser_attrs_snoc(attrs.drop_first(), i - 1);
        assert(a.drop_first() =~= attrs.drop_first().take(i));
        assert(b.drop_first() =~= attrs.drop_first().take(i - 1));
        assert(attrs.drop_first()[i - 1] == attrs[i]);
        assert(ser_attrs(a) =~= ser_attrs(b) + (" "@ + attrs[i].key + "=\""@ + attrs[i].value
            + "\""@));
    }
}

pub proof fn lemma_view_forest_props(cs: Seq<Element>)
    ensures
        view_forest(cs).len() == cs.len(),
        forall|k: int| 0 <= k < cs.len() ==> view_forest(cs)[k] == view_elem(cs[k]),
    decreases cs.len(),
{
    if cs.len() > 0 {
        lemma_view_forest_props(cs.drop_first());
        assert forall|k: int| 0 <= k < cs.len() implies view_forest(cs)[k] == view_elem(
            cs[k],
        ) by {
            if k > 0 {
                assert(cs.drop_first()[k - 1] == cs[k]);
            }
        }
    }
}

pub proof fn lemma_view_forest_push(cs: Seq<Element>, e: Element)
    ensures
        view_forest(cs.push(e)) =~= view_forest(cs).push(view_elem(e)),
{
    lemma_view_forest_props(cs.push(e));
    lemma_view_forest_props(cs);
    assert forall|k: int| 0 <= k < cs.len() + 1 implies view_forest(cs.push(e))[k] == view_forest(
        cs,
    ).push(view_elem(e))[k] by {
        if k < cs.len() {
            assert(cs.push(e)[k] == cs[k]);
        } else {
            assert(cs.push(e)[k] == e);
        }
    }
}

pub proof fn lemma_ser_forest_snoc(cs: Seq<ElemModel>, i: int)
    requires
        0 <= i < cs.len(),
    ensures
        ser_forest(cs.take(i + 1)) == ser_forest(cs.take(i)) + ser_elem(cs[i]),
    decreases i,
{
    let a = cs.take(i + 1);
    let b = cs.take(i);
    if i == 0 {
        assert(a.drop_first() =~= Seq::<ElemModel>::empty());
        assert(b =~= Seq::<ElemModel>::empty());
        assert(ser_forest(a.drop_first()) == Seq::<char>::empty());
        assert(ser_forest(b) == Seq::<char>::empty());
        assert(ser_forest(a) == ser_elem(a[0]) + ser_forest(a.drop_first()));
        assert(ser_forest(a) =~= ser_forest(b) + ser_elem(cs[0]));
    } else {
        lemma_ser_forest_snoc(cs.drop_first(), i - 1);
        assert(a.drop_first() =~= cs.drop_first().take(i));
        assert(b.drop_first() =~= cs.drop_first().take(i - 1));
        assert(cs.drop_first()[i - 1] == cs[i]);
        assert(ser_forest(a) =~= ser_forest(b) + ser_elem(cs[i]));
    }
}

} // verus!
