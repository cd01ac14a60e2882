//! The round-trip law: parsing the serialization of a well-formed tree
//! gives the tree back, so serializing what was parsed reproduces the
//! original markup string exactly.

use vstd::prelude::*;
use crate::element::{
    ser_attrs, ser_elem, ser_forest, ser_tag, size_elem, size_forest, AttrModel, ElemModel,
    TagModel,
};
use crate::parser::{
    attr_of_token, attrs_add, build_attrs, build_attrs_from, close_top, find_char_from, find_key,
    is_ascii_ws, is_quote, lemma_find_key_props, parse_from, root_frame, spec_parse, stack_append,
    strip_value, token_end, tokens, tokens_from, ParseError,
};

verus! {

// ---------------------------------------------------------------------------
// Well-formed trees: those whose serialization parses back exactly
// ---------------------------------------------------------------------------

/// Well-formed plain text: nonempty, and free of `<` (which would start a
/// tag).
pub open spec fn wf_text(t: Seq<char>) -> bool {
    t.len() > 0 && forall|i: int| 0 <= i < t.len() ==> t[i] != '<'
}

/// Well-formed tag name: nonempty, no whitespace (which would split it
/// from the attributes), none of the tag delimiters.
pub open spec fn wf_name(n: Seq<char>) -> bool {
    n.len() > 0 && forall|i: int|
        0 <= i < n.len() ==> !is_ascii_ws(n[i]) && n[i] != '<' && n[i] != '>' && n[i] != '/'
}

/// Well-formed attribute key: like a name, and additionally free of `=`
/// (the key-value separator) and quotes.
pub open spec fn wf_key(k: Seq<char>) -> bool {
    k.len() > 0 && forall|i: int|
        0 <= i < k.len() ==> !is_ascii_ws(k[i]) && k[i] != '<' && k[i] != '>' && k[i] != '/'
            && k[i] != '=' && !is_quote(k[i])
}

/// Simple (unescaped) attribute value: no whitespace, no tag delimiters,
/// no double quote (the serializer's wrapping character).
pub open spec fn wf_value(v: Seq<char>) -> bool {
    forall|i: int| 0 <= i < v.len() ==> !is_ascii_ws(v[i]) && v[i] != '<' && v[i] != '>' && v[i]
        != '"'
}

pub open spec fn wf_attrs(attrs: Seq<AttrModel>) -> bool {
    &&& forall|i: int|
        0 <= i < attrs.len() ==> wf_key(#[trigger] attrs[i].key) && wf_value(attrs[i].value)
    &&& forall|i: int, j: int| 0 <= i < j < attrs.len() ==> attrs[i].key != attrs[j].key
}

pub open spec fn wf_elem(m: ElemModel) -> bool
    decreases m,
{
    match m {
        ElemModel::Plain(t) => wf_text(t),
        ElemModel::Tag(tag) => wf_name(tag.name) && wf_attrs(tag.attrs) && (match tag.children {
            None => true,
            Some(cs) => wf_forest(cs),
        }),
    }
}

/// A well-formed forest: every node well-formed, and no two adjacent plain
/// nodes (the parser would merge their texts into one node).
pub open spec fn wf_forest(cs: Seq<ElemModel>) -> bool
    decreases cs,
{
    if cs.len() == 0 {
        true
    } else {
        &&& wf_elem(cs[0])
        &&& (cs.len() >= 2 && cs[0] is Plain ==> !(cs[1] is Plain))
        &&& wf_forest(cs.drop_first())
    }
}

// ---------------------------------------------------------------------------
// Scanning lemmas
// ---------------------------------------------------------------------------

/// Where a token ends, exactly: at the first whitespace, or at the end.
proof fn lemma_token_end_until(s: Seq<char>, pos: int, q: int)
    requires
        0 <= pos <= q <= s.len(),
        forall|j: int| pos <= j < q ==> !is_ascii_ws(s[j]),
        q == s.len() || is_ascii_ws(s[q]),
    ensures
        token_end(s, pos) == q,
    decreases q - pos,
{
    if pos < q {
        lemma_token_end_until(s, pos + 1, q);
    }
}

/// Where a character is found, exactly: at its known first occurrence, or
/// nowhere.
proof fn lemma_find_char_exact(s: Seq<char>, pos: int, q: int, c: char)
    requires
        0 <= pos <= q <= s.len(),
        forall|j: int| pos <= j < q ==> s[j] != c,
        q == s.len() || s[q] == c,
    ensures
        find_char_from(s, pos, c) == (if q == s.len() {
            Option::<int>::None
        } else {
            Option::<int>::Some(q)
        }),
    decreases q - pos,
{
    if pos < q {
        lemma_find_char_exact(s, pos + 1, q, c);
    }
}

/// The characters of a known subrange, one by one.
proof fn lemma_seq_at(s: Seq<char>, pos: int, w: Seq<char>)
    requires
        0 <= pos,
        pos + w.len() <= s.len(),
        s.subrange(pos, pos + w.len()) == w,
    ensures
        forall|j: int| pos <= j < pos + w.len() ==> #[trigger] s[j] == w[j - pos],
{
    assert forall|j: int| pos <= j < pos + w.len() implies #[trigger] s[j] == w[j - pos] by {
        assert(s.subrange(pos, pos + w.len())[j - pos] == s[j]);
    }
}

/// Scanning for a token's end is invariant under dropping a prefix.
proof fn lemma_token_end_shift(s: Seq<char>, k: int, pos: int)
    requires
        0 <= k <= pos,
        k <= s.len(),
    ensures
        token_end(s, pos) == k + token_end(s.skip(k), pos - k),
    decreases s.len() - pos,
{
    if k <= pos < s.len() {
        assert(s.skip(k)[pos - k] == s[pos]);
        if !is_ascii_ws(s[pos]) {
            lemma_token_end_shift(s, k, pos + 1);
        }
    } else {
    }
}

/// Tokenization is invariant under dropping a prefix.
proof fn lemma_tokens_shift(s: Seq<char>, k: int, pos: int)
    requires
        0 <= k <= pos,
        k <= s.len(),
    ensures
        tokens_from(s, pos) == tokens_from(s.skip(k), pos - k),
    decreases s.len() - pos,
{
    let t = s.skip(k);
    if pos >= s.len() {
        assert(pos - k >= t.len());
    } else {
        assert(t[pos - k] == s[pos]);
        if is_ascii_ws(s[pos]) {
            lemma_tokens_shift(s, k, pos + 1);
        } else {
            lemma_token_end_shift(s, k, pos);
            let e = token_end(s, pos);
            crate::parser::lemma_token_end_props(s, pos);
            lemma_tokens_shift(s, k, e);
            assert(s.subrange(pos, e) =~= t.subrange(pos - k, e - k));
        }
    }
}

/// A single whitespace-free word followed by nothing or by whitespace is
/// one token.
proof fn lemma_tokens_word(w: Seq<char>, rest: Seq<char>)
    requires
        w.len() > 0,
        forall|i: int| 0 <= i < w.len() ==> !is_ascii_ws(w[i]),
        rest.len() == 0 || is_ascii_ws(rest[0]),
    ensures
        tokens(w + rest) == seq![w] + tokens(rest),
    decreases 0int,
{
    let s = w + rest;
    assert(s.len() == w.len() + rest.len());
    assert(forall|j: int| 0 <= j < w.len() ==> s[j] == w[j]);
    assert(rest.len() > 0 ==> is_ascii_ws(s[w.len() as int]));
    assert(!is_ascii_ws(s[0]));
    lemma_token_end_until(s, 0, w.len() as int);
    assert(s.subrange(0, w.len() as int) =~= w);
    assert(tokens_from(s, 0) == seq![w] + tokens_from(s, w.len() as int));
    lemma_tokens_shift(s, w.len() as int, w.len() as int);
    assert(s.skip(w.len() as int) =~= rest);
    assert(tokens_from(s, w.len() as int) == tokens_from(rest, 0));
}

// ---------------------------------------------------------------------------
// Attribute tokens round-trip
// ---------------------------------------------------------------------------

/// The token an attribute serializes to (without the leading space).
pub open spec fn attr_token(a: AttrModel) -> Seq<char> {
    a.key + "=\""@ + a.value + "\""@
}

/// An attribute's token reads back as the attribute.
proof fn lemma_attr_of_token(a: AttrModel)
    requires
        wf_key(a.key),
        wf_value(a.value),
    ensures
        attr_of_token(attr_token(a)) == a,
{
    reveal_strlit("=\"");
    reveal_strlit("\"");
    let t = attr_token(a);
    let kl = a.key.len() as int;
    assert(t.len() == kl + a.value.len() + 3);
    assert(forall|j: int| 0 <= j < kl ==> t[j] == a.key[j]);
    assert(t[kl] == '=');
    assert(t[kl + 1] == '"');
    assert(forall|j: int| 0 <= j < a.value.len() ==> t[kl + 2 + j] == a.value[j]);
    assert(t[t.len() - 1] == '"');
    lemma_find_char_exact(t, 0, kl, '=');
    assert(t.subrange(0, kl) =~= a.key);
    let raw = t.subrange(kl + 1, t.len() as int);
    assert(raw.len() == a.value.len() + 2);
    assert(raw[0] == '"');
    assert(raw[raw.len() - 1] == '"');
    assert(strip_value(raw) == raw.subrange(1, raw.len() - 1));
    assert(raw.subrange(1, raw.len() - 1) =~= a.value);
}

/// The serialized attribute list tokenizes into one token per attribute.
proof fn lemma_tokens_ser_attrs(attrs: Seq<AttrModel>)
    requires
        wf_attrs(attrs),
    ensures
        tokens(ser_attrs(attrs)) == attrs.map_values(|a: AttrModel| attr_token(a)),
        ser_attrs(attrs).len() == 0 || is_ascii_ws(ser_attrs(attrs)[0]),
    decreases attrs.len(),
{
    reveal_strlit(" ");
    reveal_strlit("=\"");
    reveal_strlit("\"");
    if attrs.len() == 0 {
        assert(tokens_from(Seq::<char>::empty(), 0) == Seq::<Seq<char>>::empty());
        assert(attrs.map_values(|a: AttrModel| attr_token(a)) =~= Seq::<Seq<char>>::empty());
    } else {
        let a = attrs[0];
        let rest = attrs.drop_first();
        assert(wf_attrs(rest)) by {
            assert(forall|i: int| 0 <= i < rest.len() ==> rest[i] == attrs[i + 1]);
        }
        lemma_tokens_ser_attrs(rest);
        let s = ser_attrs(attrs);
        let body = attr_token(a) + ser_attrs(rest);
        assert(s =~= " "@ + body);
        assert(s[0] == ' ');
        assert(is_ascii_ws(s[0]));
        lemma_tokens_shift(s, 1, 1);
        assert(s.skip(1) =~= body);
        assert(tokens_from(s, 0) == tokens_from(s, 1));
        assert(tokens(s) == tokens(body));
        let tok = attr_token(a);
        assert(tok.len() > 0);
        assert(forall|i: int| 0 <= i < tok.len() ==> !is_ascii_ws(tok[i])) by {
            assert(forall|j: int| 0 <= j < a.key.len() ==> tok[j] == a.key[j]);
            assert(tok[a.key.len() as int] == '=');
            assert(tok[a.key.len() as int + 1] == '"');
            assert(forall|j: int|
                0 <= j < a.value.len() ==> tok[a.key.len() as int + 2 + j] == a.value[j]);
            assert(tok[tok.len() - 1] == '"');
        }
        lemma_tokens_word(tok, ser_attrs(rest));
        assert(tokens(body) == seq![tok] + tokens(ser_attrs(rest)));
        assert(attrs.map_values(|x: AttrModel| attr_token(x)) =~= seq![tok] + rest.map_values(
            |x: AttrModel| attr_token(x),
        ));
    }
}

/// Rebuilding the attribute list from its tokens gives the list back:
/// every key is new, so each token is appended in order.
proof fn lemma_build_attrs(attrs: Seq<AttrModel>, i: int)
    requires
        wf_attrs(attrs),
        0 <= i <= attrs.len(),
    ensures
        build_attrs_from(attrs.map_values(|a: AttrModel| attr_token(a)), i, attrs.take(i))
            == attrs,
    decreases attrs.len() - i,
{
    let toks = attrs.map_values(|a: AttrModel| attr_token(a));
    if i == attrs.len() {
        assert(attrs.take(i) =~= attrs);
    } else {
        assert(toks[i] == attr_token(attrs[i]));
        lemma_attr_of_token(attrs[i]);
        let acc = attrs.take(i);
        lemma_find_key_props(acc, attrs[i].key);
        match find_key(acc, attrs[i].key) {
            Some(j) => {
                assert(acc[j].key == attrs[i].key);
                assert(acc[j] == attrs[j]);
                assert(false);
            },
            None => {},
        }
        assert(attrs_add(acc, attrs[i]) == acc.push(attrs[i]));
        assert(acc.push(attrs[i]) =~= attrs.take(i + 1));
        lemma_build_attrs(attrs, i + 1);
    }
}

/// The content of a serialized opening tag tokenizes into the name
/// followed by the attribute tokens, and those rebuild the attributes.
proof fn lemma_tag_content(name: Seq<char>, attrs: Seq<AttrModel>)
    requires
        wf_name(name),
        wf_attrs(attrs),
    ensures
        tokens(name + ser_attrs(attrs)) == seq![name] + attrs.map_values(
            |a: AttrModel| attr_token(a),
        ),
        build_attrs(attrs.map_values(|a: AttrModel| attr_token(a))) == attrs,
{
    lemma_tokens_ser_attrs(attrs);
    lemma_tokens_word(name, ser_attrs(attrs));
    assert(attrs.take(0) =~= Seq::<AttrModel>::empty());
    lemma_build_attrs(attrs, 0);
}

// ---------------------------------------------------------------------------
// Serialized characters
// ---------------------------------------------------------------------------

/// The serialized attribute list contains no tag delimiter; when nonempty
/// it begins with a space and ends with the closing quote.
proof fn lemma_ser_attrs_chars(attrs: Seq<AttrModel>)
    requires
        wf_attrs(attrs),
    ensures
        forall|j: int|
            0 <= j < ser_attrs(attrs).len() ==> #[trigger] ser_attrs(attrs)[j] != '<'
                && ser_attrs(attrs)[j] != '>',
        attrs.len() > 0 ==> ser_attrs(attrs).len() >= 4,
        attrs.len() > 0 ==> ser_attrs(attrs)[ser_attrs(attrs).len() - 1] == '"',
        attrs.len() == 0 ==> ser_attrs(attrs).len() == 0,
    decreases attrs.len(),
{
    reveal_strlit(" ");
    reveal_strlit("=\"");
    reveal_strlit("\"");
    if attrs.len() > 0 {
        let a = attrs[0];
        let rest = attrs.drop_first();
        assert(wf_attrs(rest)) by {
            assert(forall|i: int| 0 <= i < rest.len() ==> rest[i] == attrs[i + 1]);
        }
        lemma_ser_attrs_chars(rest);
        let s = ser_attrs(attrs);
        let kl = a.key.len() as int;
        let vl = a.value.len() as int;
        let rl = ser_attrs(rest).len() as int;
        assert(s.len() == 1 + kl + 2 + vl + 1 + rl);
        assert(s[0] == ' ');
        assert(forall|j: int| 0 <= j < kl ==> s[1 + j] == a.key[j]);
        assert(s[1 + kl] == '=');
        assert(s[1 + kl + 1] == '"');
        assert(forall|j: int| 0 <= j < vl ==> s[1 + kl + 2 + j] == a.value[j]);
        assert(s[1 + kl + 2 + vl] == '"');
        assert(forall|j: int| 0 <= j < rl ==> s[1 + kl + 2 + vl + 1 + j] == ser_attrs(rest)[j]);
        assert forall|j: int| 0 <= j < s.len() implies #[trigger] s[j] != '<' && s[j] != '>' by {
            if 1 <= j < 1 + kl {
                assert(s[j] == a.key[j - 1]);
            } else if 1 + kl + 2 <= j < 1 + kl + 2 + vl {
                assert(s[j] == a.value[j - (1 + kl + 2)]);
            } else if 1 + kl + 2 + vl + 1 <= j {
                assert(s[j] == ser_attrs(rest)[j - (1 + kl + 2 + vl + 1)]);
            }
        }
        if rest.len() > 0 {
            assert(s[s.len() - 1] == ser_attrs(rest)[rl - 1]);
        } else {
            assert(rl == 0);
            assert(s[s.len() - 1] == '"');
        }
    }
}

/// A well-formed tag's serialization begins with `<`.
proof fn lemma_ser_elem_starts(m: ElemModel)
    requires
        wf_elem(m),
        m is Tag,
    ensures
        ser_elem(m).len() > 0,
        ser_elem(m)[0] == '<',
{
    reveal_strlit("<");
    let tag = m->Tag_0;
    let head = "<"@ + tag.name + ser_attrs(tag.attrs);
    assert(head[0] == '<');
    match tag.children {
        None => {
            assert(ser_tag(tag)[0] == head[0]);
        },
        Some(cs) => {
            assert(ser_tag(tag)[0] == head[0]);
        },
    }
}

// ---------------------------------------------------------------------------
// Stack bookkeeping
// ---------------------------------------------------------------------------

/// Append each node of a forest, in order, as a child of the top of the
/// stack.
pub open spec fn push_all(stack: Seq<TagModel>, cs: Seq<ElemModel>) -> Seq<TagModel>
    decreases cs.len(),
{
    if cs.len() == 0 {
        stack
    } else {
        push_all(stack_append(stack, cs[0]), cs.drop_first())
    }
}

/// Appending children only grows the top frame's children list.
proof fn lemma_push_all_top(st: Seq<TagModel>, f: TagModel, cs: Seq<ElemModel>)
    requires
        f.children is Some,
    ensures
        push_all(st.push(f), cs) == st.push(
            TagModel { name: f.name, attrs: f.attrs, children: Some(f.children->0 + cs) },
        ),
    decreases cs.len(),
{
    let k = f.children->0;
    if cs.len() == 0 {
        assert(k + cs =~= k);
        assert(TagModel { name: f.name, attrs: f.attrs, children: Some(k + cs) } == f);
        assert(push_all(st.push(f), cs) == st.push(f));
    } else {
        let st1 = st.push(f);
        assert(st1.last() == f);
        let f2 = TagModel { name: f.name, attrs: f.attrs, children: Some(k.push(cs[0])) };
        assert(stack_append(st1, cs[0]) =~= st.push(f2));
        lemma_push_all_top(st, f2, cs.drop_first());
        assert(k.push(cs[0]) + cs.drop_first() =~= k + cs);
    }
}

// ---------------------------------------------------------------------------
// The main induction: running the parser over a serialized forest
// ---------------------------------------------------------------------------

/// Splitting a known subrange at a concatenation boundary.
proof fn lemma_subrange_split(s: Seq<char>, pos: int, a: Seq<char>, b: Seq<char>)
    requires
        0 <= pos,
        pos + a.len() + b.len() <= s.len(),
        s.subrange(pos, pos + a.len() + b.len()) == a + b,
    ensures
        s.subrange(pos, pos + a.len()) == a,
        s.subrange(pos + a.len(), pos + a.len() + b.len()) == b,
{
    let w = a + b;
    lemma_seq_at(s, pos, w);
    assert forall|i: int| 0 <= i < a.len() implies s.subrange(pos, pos + a.len())[i] == a[i] by {
        assert(s.subrange(pos, pos + a.len())[i] == s[pos + i]);
        assert(w[i] == a[i]);
    }
    assert(s.subrange(pos, pos + a.len()) =~= a);
    assert forall|i: int|
        0 <= i < b.len() implies s.subrange(pos + a.len(), pos + a.len() + b.len())[i] == b[i] by {
        assert(s.subrange(pos + a.len(), pos + a.len() + b.len())[i] == s[pos + a.len() + i]);
        assert(w[a.len() + i] == b[i]);
    }
    assert(s.subrange(pos + a.len(), pos + a.len() + b.len()) =~= b);
}

/// One self-closing tag `<name attrs/>`: the parser reads one tag scan and
/// appends the element as a child of the top of the stack.
#[verifier::rlimit(50)]
proof fn lemma_step_selfclosing(s: Seq<char>, pos: int, stack: Seq<TagModel>, tag: TagModel)
    requires
        stack.len() >= 1,
        tag.children is None,
        wf_elem(ElemModel::Tag(tag)),
        0 <= pos,
        pos + ser_tag(tag).len() <= s.len(),
        s.subrange(pos, pos + ser_tag(tag).len()) == ser_tag(tag),
    ensures
        parse_from(s, pos, stack) == parse_from(
            s,
            pos + ser_tag(tag).len(),
            stack_append(stack, ElemModel::Tag(tag)),
        ),
{
    reveal_strlit("<");
    reveal_strlit(">");
    reveal_strlit("/>");
    let e = ElemModel::Tag(tag);
    let se = ser_tag(tag);
    let mid = pos + se.len() as int;
    lemma_seq_at(s, pos, se);
    let name = tag.name;
    let attrs = tag.attrs;
    let nl = name.len() as int;
    let aa = ser_attrs(attrs);
    let al = aa.len() as int;
    assert(wf_name(name) && wf_attrs(attrs));
    lemma_ser_attrs_chars(attrs);
    lemma_tag_content(name, attrs);
    let head = "<"@ + name + aa;
    assert(head.len() == 1 + nl + al);
    assert(head[0] == '<');
    assert(forall|j: int| 0 <= j < nl ==> head[1 + j] == name[j]);
    assert(forall|j: int| 0 <= j < al ==> head[1 + nl + j] == aa[j]);
    assert(se == head + "/>"@);
    assert(se.len() == 1 + nl + al + 2);
    let gt = pos + 1 + nl + al + 1;
    assert(se[0] == '<');
    assert(s[pos] == '<');
    assert(se[1] == name[0]);
    assert(s[pos + 1] == se[1]);
    assert(se[1 + nl + al] == '/');
    assert(se[1 + nl + al + 1] == '>');
    assert(forall|j: int| 1 <= j < 1 + nl + al + 1 ==> se[j] != '>') by {
        assert(forall|j: int| 0 <= j < nl ==> se[1 + j] == name[j]);
        assert(forall|j: int| 0 <= j < al ==> se[1 + nl + j] == aa[j]);
    }
    assert forall|j: int| pos + 1 <= j < gt implies s[j] != '>' by {
        assert(s[j] == se[j - pos]);
    }
    assert(s[gt] == se[gt - pos]);
    assert(s[gt] == '>');
    assert(gt < s.len());
    lemma_find_char_exact(s, pos + 1, gt, '>');
    let content = s.subrange(pos + 1, gt);
    assert forall|i: int|
        0 <= i < content.len() implies content[i] == (name + aa + seq!['/'])[i] by {
        assert(content[i] == s[pos + 1 + i]);
        assert(s[pos + 1 + i] == se[1 + i]);
    }
    assert(content =~= name + aa + seq!['/']);
    assert(content[content.len() - 1] == '/');
    let body = content.drop_last();
    assert(body =~= name + aa);
    let toks = tokens(body);
    assert(toks == seq![name] + attrs.map_values(|a: AttrModel| attr_token(a)));
    assert(toks.len() >= 1);
    assert(toks[0] == name);
    assert(toks.drop_first() =~= attrs.map_values(|a: AttrModel| attr_token(a)));
    assert(build_attrs(toks.drop_first()) == attrs);
    assert(name[0] != '/');
    assert(pos + 1 < s.len());
    assert(ElemModel::Tag(TagModel { name, attrs, children: None }) == e);
    assert(parse_from(s, pos, stack) == parse_from(s, gt + 1, stack_append(stack, e)));
    assert(gt + 1 == mid);
}

/// One paired tag `<name attrs>` children `</name>`: the parser opens the
/// tag, runs over the children, and the matching closing tag pops the
/// frame back onto the top as one element.
#[verifier::rlimit(50)]
proof fn lemma_step_paired(s: Seq<char>, pos: int, stack: Seq<TagModel>, tag: TagModel)
    requires
        stack.len() >= 1,
        tag.children is Some,
        wf_elem(ElemModel::Tag(tag)),
        0 <= pos,
        pos + ser_tag(tag).len() <= s.len(),
        s.subrange(pos, pos + ser_tag(tag).len()) == ser_tag(tag),
    ensures
        parse_from(s, pos, stack) == parse_from(
            s,
            pos + ser_tag(tag).len(),
            stack_append(stack, ElemModel::Tag(tag)),
        ),
    decreases size_elem(ElemModel::Tag(tag)), 0nat,
{
    reveal_strlit("<");
    reveal_strlit(">");
    reveal_strlit("</");
    let e = ElemModel::Tag(tag);
    let se = ser_tag(tag);
    let mid = pos + se.len() as int;
    lemma_seq_at(s, pos, se);
    let name = tag.name;
    let attrs = tag.attrs;
    let nl = name.len() as int;
    let aa = ser_attrs(attrs);
    let al = aa.len() as int;
    assert(wf_name(name) && wf_attrs(attrs));
    lemma_ser_attrs_chars(attrs);
    lemma_tag_content(name, attrs);
    let head = "<"@ + name + aa;
    assert(head.len() == 1 + nl + al);
    assert(head[0] == '<');
    assert(forall|j: int| 0 <= j < nl ==> head[1 + j] == name[j]);
    assert(forall|j: int| 0 <= j < al ==> head[1 + nl + j] == aa[j]);
    let kids = tag.children->0;
    assert(wf_forest(kids));
    let m = ser_forest(kids);
    let ml = m.len() as int;
    assert(se == head + ">"@ + m + "</"@ + name + ">"@);
    assert(se.len() == 1 + nl + al + 1 + ml + 2 + nl + 1);
    let gt1 = pos + 1 + nl + al;
    let pos_kids = gt1 + 1;
    let pos_close = pos_kids + ml;
    let gt2 = pos_close + 2 + nl;
    assert(se[0] == '<');
    assert(s[pos] == '<');
    assert(se[1] == name[0]);
    assert(s[pos + 1] == se[1]);
    assert(se[1 + nl + al] == '>');
    assert(forall|j: int| 1 <= j < 1 + nl + al ==> se[j] != '>') by {
        assert(forall|j: int| 0 <= j < nl ==> se[1 + j] == name[j]);
        assert(forall|j: int| 0 <= j < al ==> se[1 + nl + j] == aa[j]);
    }
    assert forall|j: int| pos + 1 <= j < gt1 implies s[j] != '>' by {
        assert(s[j] == se[j - pos]);
    }
    assert(s[gt1] == se[gt1 - pos]);
    assert(s[gt1] == '>');
    assert(gt1 < s.len());
    lemma_find_char_exact(s, pos + 1, gt1, '>');
    let content = s.subrange(pos + 1, gt1);
    assert forall|i: int| 0 <= i < content.len() implies content[i] == (name + aa)[i] by {
        assert(content[i] == s[pos + 1 + i]);
        assert(s[pos + 1 + i] == se[1 + i]);
        assert(se[1 + i] == (name + aa)[i]);
    }
    assert(content =~= name + aa);
    assert(content.len() > 0);
    assert(content[content.len() - 1] != '/') by {
        if al == 0 {
            assert(content[content.len() - 1] == name[nl - 1]);
        } else {
            assert(content[content.len() - 1] == aa[al - 1]);
            assert(aa[al - 1] == '"');
        }
    }
    let toks = tokens(content);
    assert(toks == seq![name] + attrs.map_values(|a: AttrModel| attr_token(a)));
    assert(toks.len() >= 1);
    assert(toks[0] == name);
    assert(toks.drop_first() =~= attrs.map_values(|a: AttrModel| attr_token(a)));
    assert(build_attrs(toks.drop_first()) == attrs);
    assert(name[0] != '/');
    assert(pos + 1 < s.len());
    let f = TagModel { name, attrs, children: Some(Seq::<ElemModel>::empty()) };
    let st2 = stack.push(f);
    assert(parse_from(s, pos, stack) == parse_from(s, pos_kids, st2));
    // run the children
    assert(forall|j: int| 0 <= j < ml ==> se[1 + nl + al + 1 + j] == m[j]);
    assert forall|i: int| 0 <= i < ml implies s.subrange(pos_kids, pos_close)[i] == m[i] by {
        assert(s.subrange(pos_kids, pos_close)[i] == s[pos_kids + i]);
        assert(s[pos_kids + i] == se[pos_kids + i - pos]);
    }
    assert(s.subrange(pos_kids, pos_close) =~= m);
    assert(se[1 + nl + al + 1 + ml] == '<');
    assert(s[pos_close] == se[pos_close - pos]);
    assert(s[pos_close] == '<');
    assert(size_forest(kids) < size_elem(e));
    lemma_run_forest(s, pos_kids, st2, kids);
    let st3 = push_all(st2, kids);
    lemma_push_all_top(stack, f, kids);
    let g = TagModel { name, attrs, children: Some(kids) };
    assert(Seq::<ElemModel>::empty() + kids =~= kids);
    assert(st3 == stack.push(g));
    // the closing tag
    assert(se[1 + nl + al + 1 + ml + 1] == '/');
    assert(s[pos_close + 1] == se[pos_close + 1 - pos]);
    assert(s[pos_close + 1] == '/');
    assert(pos_close + 1 < s.len());
    assert(forall|j: int| 0 <= j < nl ==> se[1 + nl + al + 1 + ml + 2 + j] == name[j]);
    assert(se[1 + nl + al + 1 + ml + 2 + nl] == '>');
    assert(s[gt2] == se[gt2 - pos]);
    assert(s[gt2] == '>');
    assert forall|j: int| pos_close + 2 <= j < gt2 implies s[j] != '>' by {
        assert(s[j] == se[j - pos]);
        assert(se[j - pos] == name[j - pos_close - 2]);
    }
    assert(gt2 < s.len()) by {
        assert(gt2 == pos + se.len() - 1);
    }
    lemma_find_char_exact(s, pos_close + 2, gt2, '>');
    let content2 = s.subrange(pos_close + 2, gt2);
    assert forall|i: int| 0 <= i < nl implies content2[i] == name[i] by {
        assert(content2[i] == s[pos_close + 2 + i]);
        assert(s[pos_close + 2 + i] == se[pos_close + 2 + i - pos]);
    }
    assert(content2 =~= name);
    assert(st3.len() == stack.len() + 1);
    assert(st3.last() == g);
    assert(st3.last().name == content2);
    assert(parse_from(s, pos_close, st3) == parse_from(s, gt2 + 1, close_top(st3)));
    assert(st3.drop_last() =~= stack);
    assert(close_top(st3) == stack_append(stack, ElemModel::Tag(g)));
    assert(ElemModel::Tag(g) == e);
    assert(gt2 + 1 == mid);
}

/// Running the parser over the serialization of one well-formed element
/// appends exactly that element as a child of the top of the stack. For a
/// plain element, what follows its text must be the end of the input or a
/// `<`, else the text run would read further.
proof fn lemma_step_elem(s: Seq<char>, pos: int, stack: Seq<TagModel>, e: ElemModel)
    requires
        stack.len() >= 1,
        wf_elem(e),
        0 <= pos,
        pos + ser_elem(e).len() <= s.len(),
        s.subrange(pos, pos + ser_elem(e).len()) == ser_elem(e),
        e is Plain ==> pos + ser_elem(e).len() == s.len() || s[pos + ser_elem(e).len()] == '<',
    ensures
        parse_from(s, pos, stack) == parse_from(
            s,
            pos + ser_elem(e).len(),
            stack_append(stack, e),
        ),
        stack_append(stack, e).len() == stack.len(),
    decreases size_elem(e), 1nat,
{
    let se = ser_elem(e);
    let mid = pos + se.len() as int;
    match e {
        ElemModel::Plain(t) => {
            reveal_strlit("<");
            lemma_seq_at(s, pos, se);
            assert(wf_text(t));
            assert(se == t);
            assert forall|j: int| pos <= j < mid implies s[j] != '<' by {
                assert(s[j] == t[j - pos]);
            }
            assert(s[pos] != '<');
            assert(pos < s.len());
            lemma_find_char_exact(s, pos, mid, '<');
            if mid == s.len() {
                assert(s.subrange(pos, s.len() as int) =~= t);
            } else {
                assert(s.subrange(pos, mid) =~= t);
            }
        },
        ElemModel::Tag(tag) => {
            assert(se == ser_tag(tag));
            match tag.children {
                None => {
                    lemma_step_selfclosing(s, pos, stack, tag);
                },
                Some(kids) => {
                    lemma_step_paired(s, pos, stack, tag);
                },
            }
        },
    }
}

/// Running the parser from `pos` over the serialization of a well-formed
/// forest appends exactly that forest to the top of the stack and arrives
/// at the position after it — provided what follows is the end of the
/// input or another tag (as it always is inside a serialized tree).
proof fn lemma_run_forest(s: Seq<char>, pos: int, stack: Seq<TagModel>, cs: Seq<ElemModel>)
    requires
        stack.len() >= 1,
        wf_forest(cs),
        0 <= pos,
        pos + ser_forest(cs).len() <= s.len(),
        s.subrange(pos, pos + ser_forest(cs).len()) == ser_forest(cs),
        pos + ser_forest(cs).len() == s.len() || s[pos + ser_forest(cs).len()] == '<',
    ensures
        parse_from(s, pos, stack) == parse_from(
            s,
            pos + ser_forest(cs).len(),
            push_all(stack, cs),
        ),
        push_all(stack, cs).len() == stack.len(),
    decreases size_forest(cs), 2nat,
{
    if cs.len() > 0 {
        let e = cs[0];
        let rest = cs.drop_first();
        let se = ser_elem(e);
        let sr = ser_forest(rest);
        let whole = ser_forest(cs);
        assert(whole == se + sr);
        let mid = pos + se.len() as int;
        let fin = pos + whole.len() as int;
        assert(wf_elem(e));
        assert(wf_forest(rest));
        lemma_subrange_split(s, pos, se, sr);
        assert(size_forest(cs) == size_elem(e) + size_forest(rest));
        crate::element::lemma_size_elem_pos(e);
        // the boundary after the first element, when it is plain text
        if e is Plain {
            reveal_strlit("<");
            if rest.len() > 0 {
                assert(rest[0] == cs[1]);
                assert(!(rest[0] is Plain));
                lemma_ser_elem_starts(rest[0]);
                assert(sr == ser_elem(rest[0]) + ser_forest(rest.drop_first()));
                assert(sr[0] == ser_elem(rest[0])[0]);
                lemma_seq_at(s, mid, sr);
                assert(s[mid] == sr[0]);
                assert(s[mid] == '<');
            } else {
                assert(whole =~= se);
                assert(mid == fin);
            }
        }
        lemma_step_elem(s, pos, stack, e);
        let st2 = stack_append(stack, e);
        lemma_run_forest(s, mid, st2, rest);
    }
}

// ---------------------------------------------------------------------------
// The round-trip law
// ---------------------------------------------------------------------------

/// Parsing the serialization of a well-formed forest succeeds and yields
/// exactly the synthetic root holding that forest.
pub proof fn lemma_parse_of_serialized(cs: Seq<ElemModel>)
    requires
        wf_forest(cs),
    ensures
        spec_parse(ser_forest(cs)) == Ok::<TagModel, ParseError>(
            TagModel {
                name: Seq::<char>::empty(),
                attrs: Seq::<AttrModel>::empty(),
                children: Some(cs),
            },
        ),
{
    let s = ser_forest(cs);
    let st0 = seq![root_frame()];
    assert(s.subrange(0, s.len() as int) =~= s);
    lemma_run_forest(s, 0, st0, cs);
    let root = root_frame();
    assert(st0 =~= Seq::<TagModel>::empty().push(root));
    lemma_push_all_top(Seq::<TagModel>::empty(), root, cs);
    let g = TagModel {
        name: Seq::<char>::empty(),
        attrs: Seq::<AttrModel>::empty(),
        children: Some(Seq::<ElemModel>::empty() + cs),
    };
    assert(push_all(st0, cs) == Seq::<TagModel>::empty().push(g));
    assert(Seq::<ElemModel>::empty() + cs =~= cs);
    let st_end = push_all(st0, cs);
    assert(st_end.len() == 1);
    assert(parse_from(s, s.len() as int, st_end) == Ok::<TagModel, ParseError>(st_end[0]));
    assert(st_end[0] == TagModel {
        name: Seq::<char>::empty(),
        attrs: Seq::<AttrModel>::empty(),
        children: Some(cs),
    });
}

/// **Round-trip**: any well-formed markup string — the serialization of a
/// well-formed tree, with balanced self-closing/paired tags and simple
/// (unescaped) attribute values — parses successfully, and serializing the
/// parse result reproduces the string exactly.
pub proof fn lemma_round_trip(s: Seq<char>, cs: Seq<ElemModel>)
    requires
        wf_forest(cs),
        s == ser_forest(cs),
    ensures
        spec_parse(s) is Ok,
        ser_tag(spec_parse(s)->Ok_0) == s,
{
    lemma_parse_of_serialized(cs);
    let root = spec_parse(s)->Ok_0;
    assert(root.name.len() == 0);
    assert(ser_attrs(root.attrs) == Seq::<char>::empty());
    assert(ser_tag(root) == ser_attrs(root.attrs) + ser_forest(cs));
    assert(ser_attrs(root.attrs) + ser_forest(cs) =~= ser_forest(cs));
}

} // verus!
