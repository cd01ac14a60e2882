//! Cursor-based parser for the upstream tag markup. The parser scans the
//! input by Unicode scalar positions with an explicit stack of open
//! elements, seeded with the synthetic root. Its whole behaviour is given by
//! the specification function [`spec_parse`], which the executable parser
//! computes exactly.

use vstd::prelude::*;
use crate::element::{
    lemma_view_forest_push, view_attr, view_elem, view_forest, view_tag, Attr, AttrModel,
    ElemModel, Element, Root, TagElement, TagModel,
};

verus! {

/// Parsing fails only when tags are left open at the end of the input.
#[derive(Clone, Copy, Debug, PartialEq, Eq, Structural)]
pub enum ParseError {
    UnterminatedTag,
}

impl ParseError {
    pub fn message(&self) -> (r: &'static str)
        ensures
            r@ == "Unexpected end of input, tags are not closed properly."@,
    {
        "Unexpected end of input, tags are not closed properly."
    }
}

// ---------------------------------------------------------------------------
// Character classes and scanning, as specifications
// ---------------------------------------------------------------------------

pub open spec fn is_ascii_ws(c: char) -> bool {
    c == ' ' || c == '\t' || c == '\n' || c == '\r' || c == '\u{c}'
}

pub open spec fn is_quote(c: char) -> bool {
    c == '"' || c == '\''
}

/// Index of the first occurrence of `c` at or after `pos`, if any.
pub open spec fn find_char_from(s: Seq<char>, pos: int, c: char) -> Option<int>
    decreases s.len() - pos,
{
    if pos < 0 || pos >= s.len() {
        None
    } else if s[pos] == c {
        Some(pos)
    } else {
        find_char_from(s, pos + 1, c)
    }
}

pub proof fn lemma_find_char_props(s: Seq<char>, pos: int, c: char)
    requires
        0 <= pos,
    ensures
        match find_char_from(s, pos, c) {
            Some(i) => pos <= i < s.len() && s[i] == c && (forall|j: int|
                pos <= j < i ==> s[j] != c),
            None => forall|j: int| pos <= j < s.len() ==> s[j] != c,
        },
    decreases s.len() - pos,
{
    if pos < s.len() && s[pos] != c {
        lemma_find_char_props(s, pos + 1, c);
    }
}

/// First position at or after `pos` that does not hold ASCII whitespace
/// (or the end of the input).
pub open spec fn skip_ws(s: Seq<char>, pos: int) -> int
    decreases s.len() - pos,
{
    if 0 <= pos < s.len() && is_ascii_ws(s[pos]) {
        skip_ws(s, pos + 1)
    } else {
        pos
    }
}

pub proof fn lemma_skip_ws_props(s: Seq<char>, pos: int)
    requires
        0 <= pos,
    ensures
        pos <= skip_ws(s, pos),
        skip_ws(s, pos) <= s.len() || skip_ws(s, pos) == pos,
        skip_ws(s, pos) < s.len() ==> !is_ascii_ws(s[skip_ws(s, pos)]),
        forall|j: int| pos <= j < skip_ws(s, pos) ==> is_ascii_ws(s[j]),
    decreases s.len() - pos,
{
    if 0 <= pos < s.len() && is_ascii_ws(s[pos]) {
        lemma_skip_ws_props(s, pos + 1);
    }
}

/// First position at or after `pos` that holds ASCII whitespace (or the end
/// of the input): the end of a token starting at `pos`.
pub open spec fn token_end(s: Seq<char>, pos: int) -> int
    decreases s.len() - pos,
{
    if 0 <= pos < s.len() && !is_ascii_ws(s[pos]) {
        token_end(s, pos + 1)
    } else {
        pos
    }
}

pub proof fn lemma_token_end_props(s: Seq<char>, pos: int)
    requires
        0 <= pos,
    ensures
        pos <= token_end(s, pos),
        token_end(s, pos) <= s.len() || token_end(s, pos) == pos,
        token_end(s, pos) < s.len() ==> is_ascii_ws(s[token_end(s, pos)]),
        forall|j: int| pos <= j < token_end(s, pos) ==> !is_ascii_ws(s[j]),
    decreases s.len() - pos,
{
    if 0 <= pos < s.len() && !is_ascii_ws(s[pos]) {
        lemma_token_end_props(s, pos + 1);
    }
}

/// The ASCII-whitespace-separated tokens of `s`, from position `pos` on.
pub open spec fn tokens_from(s: Seq<char>, pos: int) -> Seq<Seq<char>>
    decreases s.len() - pos,
    via tokens_from_dec
{
    if pos < 0 || pos >= s.len() {
        Seq::empty()
    } else if is_ascii_ws(s[pos]) {
        tokens_from(s, pos + 1)
    } else {
        let e = token_end(s, pos);
        seq![s.subrange(pos, e)] + tokens_from(s, e)
    }
}

#[via_fn]
proof fn tokens_from_dec(s: Seq<char>, pos: int) {
    if 0 <= pos < s.len() && !is_ascii_ws(s[pos]) {
        lemma_token_end_props(s, pos);
        assert(token_end(s, pos) == token_end(s, pos + 1));
    }
}

pub open spec fn tokens(s: Seq<char>) -> Seq<Seq<char>> {
    tokens_from(s, 0)
}

/// Skipping whitespace does not change the token list.
pub proof fn lemma_tokens_skip_ws(s: Seq<char>, pos: int)
    requires
        0 <= pos,
    ensures
        tokens_from(s, pos) == tokens_from(s, skip_ws(s, pos)),
    decreases s.len() - pos,
{
    if 0 <= pos < s.len() && is_ascii_ws(s[pos]) {
        lemma_tokens_skip_ws(s, pos + 1);
    }
}

// ---------------------------------------------------------------------------
// Attribute tokens
// ---------------------------------------------------------------------------

/// Strip one layer of quotes from an attribute value: if the raw value both
/// begins and ends with a quote character (`"` or `'`), the two end
/// characters are removed.
pub open spec fn strip_value(v: Seq<char>) -> Seq<char> {
    if v.len() >= 2 && is_quote(v[0]) && is_quote(v[v.len() - 1]) {
        v.subrange(1, v.len() - 1)
    } else {
        v
    }
}

/// An attribute token `key=value` splits at the first `=`; a token without
/// `=` is a key with an empty value.
pub open spec fn attr_of_token(t: Seq<char>) -> AttrModel {
    match find_char_from(t, 0, '=') {
        Some(eq) => AttrModel {
            key: t.subrange(0, eq),
            value: strip_value(t.subrange(eq + 1, t.len() as int)),
        },
        None => AttrModel { key: t, value: Seq::empty() },
    }
}

/// Position of `key` in an attribute list, if present.
pub open spec fn find_key(attrs: Seq<AttrModel>, key: Seq<char>) -> Option<int>
    decreases attrs.len(),
{
    if attrs.len() == 0 {
        None
    } else if attrs[0].key == key {
        Some(0)
    } else {
        match find_key(attrs.drop_first(), key) {
            Some(i) => Some(i + 1),
            None => None,
        }
    }
}

pub proof fn lemma_find_key_props(attrs: Seq<AttrModel>, key: Seq<char>)
    ensures
        match find_key(attrs, key) {
            Some(i) => 0 <= i < attrs.len() && attrs[i].key == key && (forall|j: int|
                0 <= j < i ==> attrs[j].key != key),
            None => forall|j: int| 0 <= j < attrs.len() ==> attrs[j].key != key,
        },
    decreases attrs.len(),
{
    if attrs.len() > 0 && attrs[0].key != key {
        lemma_find_key_props(attrs.drop_first(), key);
        match find_key(attrs.drop_first(), key) {
            Some(i) => {
                assert(attrs.drop_first()[i] == attrs[i + 1]);
                assert forall|j: int| 0 <= j < i + 1 implies attrs[j].key != key by {
                    if j > 0 {
                        assert(attrs.drop_first()[j - 1] == attrs[j]);
                    }
                }
            },
            None => {
                assert forall|j: int| 0 <= j < attrs.len() implies attrs[j].key != key by {
                    if j > 0 {
                        assert(attrs.drop_first()[j - 1] == attrs[j]);
                    }
                }
            },
        }
    }
}

/// Add one attribute: a repeated key keeps its position and takes the new
/// value (the last occurrence wins), a new key is appended.
pub open spec fn attrs_add(attrs: Seq<AttrModel>, a: AttrModel) -> Seq<AttrModel> {
    match find_key(attrs, a.key) {
        Some(i) => attrs.update(i, a),
        None => attrs.push(a),
    }
}

pub open spec fn build_attrs_from(toks: Seq<Seq<char>>, i: int, acc: Seq<AttrModel>) -> Seq<
    AttrModel,
>
    decreases toks.len() - i,
{
    if i < 0 || i >= toks.len() {
        acc
    } else {
        build_attrs_from(toks, i + 1, attrs_add(acc, attr_of_token(toks[i])))
    }
}

pub open spec fn build_attrs(toks: Seq<Seq<char>>) -> Seq<AttrModel> {
    build_attrs_from(toks, 0, Seq::empty())
}

/// Attribute keys are unique within a node: adding an attribute keeps a
/// duplicate-free list duplicate-free, so every attribute list the parser
/// builds is duplicate-free.
pub open spec fn unique_keys(attrs: Seq<AttrModel>) -> bool {
    forall|i: int, j: int| 0 <= i < j < attrs.len() ==> attrs[i].key != attrs[j].key
}

pub proof fn lemma_attrs_add_unique(attrs: Seq<AttrModel>, a: AttrModel)
    requires
        unique_keys(attrs),
    ensures
        unique_keys(attrs_add(attrs, a)),
{
    lemma_find_key_props(attrs, a.key);
    match find_key(attrs, a.key) {
        Some(i) => {
            let r = attrs.update(i, a);
            assert forall|p: int, q: int| 0 <= p < q < r.len() implies r[p].key != r[q].key by {
                if p != i && q != i {
                    assert(r[p] == attrs[p] && r[q] == attrs[q]);
                } else if p == i {
                    assert(r[q] == attrs[q]);
                    assert(attrs[i].key == a.key);
                } else {
                    assert(r[p] == attrs[p]);
                    assert(attrs[i].key == a.key);
                }
            }
        },
        None => {
            let r = attrs.push(a);
            assert forall|p: int, q: int| 0 <= p < q < r.len() implies r[p].key != r[q].key by {
                if q < attrs.len() {
                    assert(r[p] == attrs[p] && r[q] == attrs[q]);
                } else {
                    assert(r[p] == attrs[p] && r[q] == a);
                }
            }
        },
    }
}

pub proof fn lemma_build_attrs_unique(toks: Seq<Seq<char>>, i: int, acc: Seq<AttrModel>)
    requires
        unique_keys(acc),
    ensures
        unique_keys(build_attrs_from(toks, i, acc)),
    decreases toks.len() - i,
{
    if 0 <= i < toks.len() {
        lemma_attrs_add_unique(acc, attr_of_token(toks[i]));
        lemma_build_attrs_unique(toks, i + 1, attrs_add(acc, attr_of_token(toks[i])));
    }
}

// ---------------------------------------------------------------------------
// The parsing machine, as a specification
// ---------------------------------------------------------------------------

/// Append a child to the topmost open element. A top without a children
/// list yet receives one. An empty stack is left unchanged (the executable
/// parser never lets the stack become empty).
pub open spec fn stack_append(stack: Seq<TagModel>, child: ElemModel) -> Seq<TagModel> {
    if stack.len() == 0 {
        stack
    } else {
        let top = stack.last();
        let cs = match top.children {
            Some(cs) => cs,
            None => Seq::<ElemModel>::empty(),
        };
        stack.update(
            stack.len() - 1,
            TagModel { name: top.name, attrs: top.attrs, children: Some(cs.push(child)) },
        )
    }
}

/// Close the topmost open element: pop it and append it as the last child
/// of the new top.
pub open spec fn close_top(stack: Seq<TagModel>) -> Seq<TagModel> {
    stack_append(stack.drop_last(), ElemModel::Tag(stack.last()))
}

/// The synthetic root frame the stack is seeded with.
pub open spec fn root_frame() -> TagModel {
    TagModel {
        name: Seq::<char>::empty(),
        attrs: Seq::<AttrModel>::empty(),
        children: Some(Seq::<ElemModel>::empty()),
    }
}

/// One step of the parser per recursive unfolding, from position `pos` with
/// the given stack of open elements:
/// - at `<`, scan to the matching `>`; a content starting with `/` is a
///   closing tag and pops the top exactly when its name matches (a
///   mismatched closing tag closes nothing and is skipped); otherwise the
///   content splits on ASCII whitespace into a name and attribute tokens,
///   and a trailing `/` marks the element self-closing (appended as a child)
///   as opposed to opening (pushed);
/// - elsewhere, the text run up to the next `<` (or the end) becomes a
///   plain child of the top;
/// - a `<` with no later `>` is skipped; an empty tag `<>` is skipped;
/// - at the end of input, parsing succeeds exactly when only the root
///   remains open.
pub open spec fn parse_from(s: Seq<char>, pos: int, stack: Seq<TagModel>) -> Result<
    TagModel,
    ParseError,
>
    decreases s.len() - pos,
    via parse_from_dec
{
    if pos < 0 || pos >= s.len() {
        if stack.len() == 1 {
            Ok(stack[0])
        } else {
            Err(ParseError::UnterminatedTag)
        }
    } else if s[pos] == '<' {
        let inner = pos + 1;
        if inner >= s.len() {
            parse_from(s, inner, stack)
        } else {
            let closing = s[inner] == '/';
            let cstart = if closing {
                inner + 1
            } else {
                inner
            };
            match find_char_from(s, cstart, '>') {
                None => parse_from(s, cstart, stack),
                Some(gt) => {
                    let content = s.subrange(cstart, gt);
                    if closing {
                        if stack.len() >= 2 && stack.last().name == content {
                            parse_from(s, gt + 1, close_top(stack))
                        } else {
                            parse_from(s, gt + 1, stack)
                        }
                    } else {
                        let self_closing = content.len() > 0 && content.last() == '/';
                        let body = if self_closing {
                            content.drop_last()
                        } else {
                            content
                        };
                        let toks = tokens(body);
                        if toks.len() == 0 {
                            parse_from(s, gt + 1, stack)
                        } else {
                            let attrs = build_attrs(toks.drop_first());
                            if self_closing {
                                parse_from(
                                    s,
                                    gt + 1,
                                    stack_append(
                                        stack,
                                        ElemModel::Tag(
                                            TagModel { name: toks[0], attrs, children: None },
                                        ),
                                    ),
                                )
                            } else {
                                parse_from(
                                    s,
                                    gt + 1,
                                    stack.push(
                                        TagModel {
                                            name: toks[0],
                                            attrs,
                                            children: Some(Seq::<ElemModel>::empty()),
                                        },
                                    ),
                                )
                            }
                        }
                    }
                },
            }
        }
    } else {
        match find_char_from(s, pos, '<') {
            Some(lt) => parse_from(s, lt, stack_append(stack, ElemModel::Plain(s.subrange(pos, lt)))),
            None => parse_from(
                s,
                s.len() as int,
                stack_append(stack, ElemModel::Plain(s.subrange(pos, s.len() as int))),
            ),
        }
    }
}

#[via_fn]
proof fn parse_from_dec(s: Seq<char>, pos: int, stack: Seq<TagModel>) {
    if 0 <= pos < s.len() {
        if s[pos] == '<' {
            let inner = pos + 1;
            if inner < s.len() {
                let closing = s[inner] == '/';
                let cstart = if closing {
                    inner + 1
                } else {
                    inner
                };
                lemma_find_char_props(s, cstart, '>');
            }
        } else {
            lemma_find_char_props(s, pos, '<');
        }
    }
}

/// The whole parse of an input string: run the machine from the start with
/// the synthetic root as the only open element.
pub open spec fn spec_parse(s: Seq<char>) -> Result<TagModel, ParseError> {
    parse_from(s, 0, seq![root_frame()])
}

// ---------------------------------------------------------------------------
// Executable scanning helpers
// ---------------------------------------------------------------------------

fn exec_is_ws(c: char) -> (r: bool)
    ensures
        r == is_ascii_ws(c),
{
    c == ' ' || c == '\t' || c == '\n' || c == '\r' || c == '\u{c}'
}

fn exec_find_char(s: &str, from: usize, c: char) -> (r: Option<usize>)
    ensures
        match r {
            Some(i) => find_char_from(s@, from as int, c) == Some(i as int) && from <= i
                < s@.len(),
            None => find_char_from(s@, from as int, c) is None,
        },
{
    let n = s.unicode_len();
    let mut i: usize = from;
    if i > n {
        proof {
            lemma_find_char_props(s@, from as int, c);
        }
        return None;
    }
    while i < n
        invariant
            from <= i <= n,
            n == s@.len(),
            find_char_from(s@, from as int, c) == find_char_from(s@, i as int, c),
        decreases n - i,
    {
        if s.get_char(i) == c {
            proof {
                lemma_find_char_props(s@, i as int, c);
            }
            return Some(i);
        }
        i = i + 1;
    }
    None
}

fn exec_skip_ws(s: &str, from: usize) -> (r: usize)
    requires
        from <= s@.len(),
    ensures
        r == skip_ws(s@, from as int),
        from <= r <= s@.len(),
{
    let n = s.unicode_len();
    let mut i: usize = from;
    while i < n && exec_is_ws(s.get_char(i))
        invariant
            from <= i <= n,
            n == s@.len(),
            skip_ws(s@, from as int) == skip_ws(s@, i as int),
        decreases n - i,
    {
        i = i + 1;
    }
    i
}

fn exec_token_end(s: &str, from: usize) -> (r: usize)
    requires
        from <= s@.len(),
    ensures
        r == token_end(s@, from as int),
        from <= r <= s@.len(),
{
    let n = s.unicode_len();
    let mut i: usize = from;
    while i < n && !exec_is_ws(s.get_char(i))
        invariant
            from <= i <= n,
            n == s@.len(),
            token_end(s@, from as int) == token_end(s@, i as int),
        decreases n - i,
    {
        i = i + 1;
    }
    i
}

/// Split a tag's content on ASCII whitespace.
fn tokenize(s: &str) -> (r: Vec<String>)
    ensures
        r@.map_values(|t: String| t@) == tokens(s@),
{
    let n = s.unicode_len();
    let mut out: Vec<String> = Vec::new();
    let mut i: usize = 0;
    proof {
        assert(out@.map_values(|t: String| t@) =~= Seq::<Seq<char>>::empty());
    }
    while i < n
        invariant
            i <= n,
            n == s@.len(),
            tokens(s@) == out@.map_values(|t: String| t@) + tokens_from(s@, i as int),
        decreases n - i,
    {
        let ghost prev = out@.map_values(|t: String| t@);
        let j = exec_skip_ws(s, i);
        proof {
            lemma_tokens_skip_ws(s@, i as int);
            lemma_skip_ws_props(s@, i as int);
        }
        if j >= n {
            i = j;
        } else {
            let e = exec_token_end(s, j);
            proof {
                lemma_token_end_props(s@, j as int);
            }
            let tok = String::from_str(s.substring_char(j, e));
            out.push(tok);
            proof {
                assert(out@.map_values(|t: String| t@) =~= prev.push(s@.subrange(j as int, e as int)));
                assert(tokens_from(s@, j as int) == seq![s@.subrange(j as int, e as int)]
                    + tokens_from(s@, e as int));
                assert(prev.push(s@.subrange(j as int, e as int)) + tokens_from(s@, e as int)
                    =~= prev + tokens_from(s@, j as int));
            }
            i = e;
        }
    }
    proof {
        assert(tokens_from(s@, i as int) == Seq::<Seq<char>>::empty());
        assert(out@.map_values(|t: String| t@) + Seq::<Seq<char>>::empty() =~= out@.map_values(
            |t: String| t@,
        ));
    }
    out
}

fn exec_is_quote(c: char) -> (r: bool)
    ensures
        r == is_quote(c),
{
    c == '"' || c == '\''
}

/// Turn one whitespace-free token into an attribute.
fn attr_from_token(tok: &str) -> (r: Attr)
    ensures
        view_attr(r) == attr_of_token(tok@),
{
    let n = tok.unicode_len();
    match exec_find_char(tok, 0, '=') {
        Some(eq) => {
            let key = String::from_str(tok.substring_char(0, eq));
            let raw = tok.substring_char(eq + 1, n);
            let rn = raw.unicode_len();
            let value = if rn >= 2 && exec_is_quote(raw.get_char(0)) && exec_is_quote(
                raw.get_char(rn - 1),
            ) {
                String::from_str(raw.substring_char(1, rn - 1))
            } else {
                String::from_str(raw)
            };
            Attr { key, value }
        },
        None => Attr { key: String::from_str(tok), value: String::new() },
    }
}

/// Add one attribute to a list, keeping keys unique: a repeated key keeps
/// its position and takes the new value.
fn add_attr(attrs: &mut Vec<Attr>, a: Attr)
    ensures
        final(attrs)@.map_values(|x: Attr| view_attr(x)) == attrs_add(
            old(attrs)@.map_values(|x: Attr| view_attr(x)),
            view_attr(a),
        ),
{
    let ghost ms = old(attrs)@.map_values(|x: Attr| view_attr(x));
    let ghost am = view_attr(a);
    let mut k: usize = 0;
    proof {
        lemma_find_key_props(ms, am.key);
    }
    while k < attrs.len()
        invariant
            k <= attrs@.len(),
            attrs@ == old(attrs)@,
            ms == attrs@.map_values(|x: Attr| view_attr(x)),
            am == view_attr(a),
            forall|j: int| 0 <= j < k ==> ms[j].key != am.key,
        decreases attrs@.len() - k,
    {
        let hit = attrs[k].key == a.key;
        proof {
            assert(ms[k as int] == view_attr(attrs@[k as int]));
            assert(hit == (ms[k as int].key == am.key));
        }
        if hit {
            proof {
                lemma_find_key_props(ms, am.key);
                assert(find_key(ms, am.key) == Some(k as int));
            }
            attrs.remove(k);
            attrs.insert(k, a);
            proof {
                assert(attrs@.map_values(|x: Attr| view_attr(x)) =~= ms.update(k as int, am));
            }
            return ;
        }
        k = k + 1;
    }
    proof {
        lemma_find_key_props(ms, am.key);
        assert(find_key(ms, am.key) is None);
    }
    attrs.push(a);
    proof {
        assert(attrs@.map_values(|x: Attr| view_attr(x)) =~= ms.push(am));
    }
}

// ---------------------------------------------------------------------------
// The executable parser
// ---------------------------------------------------------------------------

/// Model of the stack of open elements. Only tag nodes are ever on the
/// stack; a plain node would map to the root frame's shape.
pub open spec fn frame_of(e: Element) -> TagModel {
    match e {
        Element::Tag(t) => view_tag(t),
        Element::Plain(_) => root_frame(),
    }
}

pub open spec fn view_stack(st: Seq<Element>) -> Seq<TagModel> {
    st.map_values(|e: Element| frame_of(e))
}

pub open spec fn stack_all_tags(st: Seq<Element>) -> bool {
    forall|i: int| 0 <= i < st.len() ==> st[i] is Tag
}

/// Append a child to the topmost open element of the executable stack.
fn exec_stack_append(stack: &mut Vec<Element>, child: Element)
    requires
        old(stack)@.len() >= 1,
        stack_all_tags(old(stack)@),
    ensures
        final(stack)@.len() == old(stack)@.len(),
        stack_all_tags(final(stack)@),
        view_stack(final(stack)@) == stack_append(view_stack(old(stack)@), view_elem(child)),
{
    let ghost st0 = view_stack(old(stack)@);
    let ghost cm = view_elem(child);
    let top = stack.pop().unwrap();
    match top {
        Element::Tag(mut t) => {
            let ghost tm = view_tag(t);
            match &mut t.children {
                Some(cs) => {
                    let ghost cs0 = cs@;
                    cs.push(child);
                    proof {
                        lemma_view_forest_push(cs0, child);
                    }
                },
                None => {
                    let mut cs: Vec<Element> = Vec::new();
                    cs.push(child);
                    proof {
                        assert(view_forest(Seq::<Element>::empty()) =~= Seq::<ElemModel>::empty());
                        lemma_view_forest_push(Seq::<Element>::empty(), child);
                    }
                    t.children = Some(cs);
                },
            }
            proof {
                let old_cs = match tm.children {
                    Some(cs) => cs,
                    None => Seq::<ElemModel>::empty(),
                };
                assert(view_tag(t) == TagModel {
                    name: tm.name,
                    attrs: tm.attrs,
                    children: Some(old_cs.push(cm)),
                });
            }
            stack.push(Element::Tag(t));
            proof {
                assert(view_stack(stack@) =~= stack_append(st0, cm));
            }
        },
        Element::Plain(s) => {
            // unreachable: the stack holds tag nodes only
            stack.push(Element::Plain(s));
            proof {
                assert(false);
            }
        },
    }
}

/// The parser state: the input, a cursor over its Unicode scalar positions,
/// and the stack of open elements.
pub struct Parser<'a> {
    pub input: &'a str,
    pub pos: usize,
    pub stack: Vec<Element>,
}

impl<'a> Parser<'a> {
    pub fn new(input: &'a str) -> (r: Self)
        ensures
            r.input@ == input@,
            r.pos == 0,
            r.stack@.len() == 0,
    {
        Self { input, pos: 0, stack: Vec::new() }
    }

    /// Parse the whole input. The result is exactly what the specification
    /// machine [`spec_parse`] gives on the input: `Ok` holds the synthetic
    /// root with the top-level nodes as its children, and parsing fails if
    /// and only if some opened tag is never closed.
    pub fn parse(&mut self) -> (r: Result<Root, ParseError>)
        requires
            old(self).pos == 0,
            old(self).stack@.len() == 0,
        ensures
            match r {
                Ok(root) => spec_parse(old(self).input@) is Ok && view_elem(root.root_element)
                    == ElemModel::Tag(spec_parse(old(self).input@)->Ok_0),
                Err(e) => spec_parse(old(self).input@) == Err::<TagModel, ParseError>(e),
            },
    {
        let ghost s = self.input@;
        self.stack.push(
            Element::Tag(
                TagElement { name: String::new(), attributes: Vec::new(), children: Some(Vec::new()) },
            ),
        );
        proof {
            assert(view_forest(Seq::<Element>::empty()) =~= Seq::<ElemModel>::empty());
            assert(self.stack@[0]->Tag_0.attributes@.map_values(|a: Attr| view_attr(a)) =~= Seq::<
                AttrModel,
            >::empty());
            assert(frame_of(self.stack@[0]) == root_frame());
            assert(view_stack(self.stack@) =~= seq![root_frame()]);
        }
        let n = self.input.unicode_len();
        while self.pos < n
            invariant
                self.input@ == s,
                n == s.len(),
                self.pos <= n,
                self.stack@.len() >= 1,
                stack_all_tags(self.stack@),
                parse_from(s, self.pos as int, view_stack(self.stack@)) == spec_parse(s),
            decreases n - self.pos,
        {
            let ghost pos0 = self.pos as int;
            let ghost st0 = view_stack(self.stack@);
            let c = self.input.get_char(self.pos);
            if c == '<' {
                let inner = self.pos + 1;
                if inner >= n {
                    self.pos = inner;
                } else {
                    let closing = self.input.get_char(inner) == '/';
                    let cstart = if closing {
                        inner + 1
                    } else {
                        inner
                    };
                    match exec_find_char(self.input, cstart, '>') {
                        None => {
                            self.pos = cstart;
                        },
                        Some(gt) => {
                            let content = self.input.substring_char(cstart, gt);
                            self.pos = gt + 1;
                            if closing {
                                let content_string = String::from_str(content);
                                let matches_top = {
                                    let top = &self.stack[self.stack.len() - 1];
                                    match top.tag() {
                                        Some(t) => t.name == content_string,
                                        None => false,
                                    }
                                };
                                proof {
                                    assert(matches_top == (st0.last().name == content@));
                                }
                                if self.stack.len() >= 2 && matches_top {
                                    let closed = self.stack.pop().unwrap();
                                    proof {
                                        assert(frame_of(closed) == st0.last());
                                        assert(view_elem(closed) == ElemModel::Tag(st0.last()));
                                        assert(view_stack(self.stack@) =~= st0.drop_last());
                                    }
                                    exec_stack_append(&mut self.stack, closed);
                                    proof {
                                        assert(view_stack(self.stack@) == close_top(st0));
                                    }
                                } else {
                                }
                            } else {
                                let cn = content.unicode_len();
                                let self_closing = cn > 0 && content.get_char(cn - 1) == '/';
                                let body = if self_closing {
                                    content.substring_char(0, cn - 1)
                                } else {
                                    content
                                };
                                proof {
                                    if self_closing {
                                        assert(body@ =~= content@.drop_last());
                                    }
                                }
                                let mut toks = tokenize(body);
                                let ghost tok_models = tokens(body@);
                                if toks.len() == 0 {
                                } else {
                                    let name = toks.remove(0);
                                    proof {
                                        assert(name@ == tok_models[0]);
                                        assert(toks@.map_values(|t: String| t@)
                                            =~= tok_models.drop_first());
                                    }
                                    let mut attrs: Vec<Attr> = Vec::new();
                                    let ghost rest = tok_models.drop_first();
                                    proof {
                                        assert(attrs@.map_values(|x: Attr| view_attr(x)) =~= Seq::<
                                            AttrModel,
                                        >::empty());
                                    }
                                    let mut k: usize = 0;
                                    while k < toks.len()
                                        invariant
                                            k <= toks@.len(),
                                            rest == toks@.map_values(|t: String| t@),
                                            build_attrs(rest) == build_attrs_from(
                                                rest,
                                                k as int,
                                                attrs@.map_values(|x: Attr| view_attr(x)),
                                            ),
                                        decreases toks@.len() - k,
                                    {
                                        let a = attr_from_token(toks[k].as_str());
                                        add_attr(&mut attrs, a);
                                        k = k + 1;
                                    }
                                    let ghost attr_models = attrs@.map_values(
                                        |x: Attr| view_attr(x),
                                    );
                                    proof {
                                        assert(attr_models == build_attrs(rest));
                                    }
                                    if self_closing {
                                        let el = Element::Tag(
                                            TagElement { name, attributes: attrs, children: None },
                                        );
                                        proof {
                                            assert(view_elem(el) == ElemModel::Tag(
                                                TagModel {
                                                    name: tok_models[0],
                                                    attrs: build_attrs(tok_models.drop_first()),
                                                    children: None,
                                                },
                                            ));
                                        }
                                        exec_stack_append(&mut self.stack, el);
                                    } else {
                                        let el = Element::Tag(
                                            TagElement {
                                                name,
                                                attributes: attrs,
                                                children: Some(Vec::new()),
                                            },
                                        );
                                        proof {
                                            assert(view_forest(Seq::<Element>::empty()) =~= Seq::<
                                                ElemModel,
                                            >::empty());
                                            assert(frame_of(el) == TagModel {
                                                name: tok_models[0],
                                                attrs: build_attrs(tok_models.drop_first()),
                                                children: Some(Seq::<ElemModel>::empty()),
                                            });
                                        }
                                        self.stack.push(el);
                                        proof {
                                            assert(view_stack(self.stack@) =~= st0.push(
                                                frame_of(el),
                                            ));
                                        }
                                    }
                                }
                            }
                        },
                    }
                }
            } else {
                match exec_find_char(self.input, self.pos, '<') {
                    Some(lt) => {
                        proof {
                            lemma_find_char_props(s, self.pos as int, '<');
                        }
                        let txt = String::from_str(self.input.substring_char(self.pos, lt));
                        self.pos = lt;
                        exec_stack_append(&mut self.stack, Element::Plain(txt));
                    },
                    None => {
                        let txt = String::from_str(self.input.substring_char(self.pos, n));
                        self.pos = n;
                        exec_stack_append(&mut self.stack, Element::Plain(txt));
                    },
                }
            }
        }
        let ghost st_end = view_stack(self.stack@);
        if self.stack.len() == 1 {
            proof {
                assert(parse_from(s, self.pos as int, st_end) == Ok::<TagModel, ParseError>(
                    st_end[0],
                ));
            }
            let e = self.stack.pop().unwrap();
            proof {
                assert(frame_of(e) == st_end[0]);
                assert(view_elem(e) == ElemModel::Tag(frame_of(e)));
            }
            Ok(Root { root_element: e })
        } else {
            Err(ParseError::UnterminatedTag)
        }
    }
}

} // verus!
