//! Reading XML into a value tree: elements become object members named by
//! their tags, repeated tags become arrays, and text becomes strings.

use vstd::prelude::*;
use quick_xml::events::Event;
use quick_xml::reader::Reader;
use super::hierarchical::{lex_lt, walk_pos, lemma_walk_pos, xml_text, open_tag, close_tag, members_xml,
    JsonValue, JsonView, array_view, empty_object, json_view, lemma_object_view, members_view,
    new_object, obj_get, obj_locate, obj_set, object_view, text_member,
};
use crate::text::{chars_of, string_of};

verus! {

/// An XML pull parser over a byte slice.
#[verifier::external_type_specification]
#[verifier::external_body]
#[verifier::reject_recursive_types(R)]
pub struct ExXmlReader<R>(Reader<R>);

/// One event of an XML document, as far as building a tree needs it.
#[derive(Debug)]
pub enum XmlToken {
    /// An opening tag, with its name.
    Start(String),
    /// A closing tag.
    End,
    /// Text between tags, as written.
    Text(String),
    /// The end of the document.
    Eof,
    /// Anything else (empty elements, comments, declarations, references,
    /// or a syntax error).
    Other,
}

/// The mathematical form of an XML event.
pub enum TokenView {
    Start(Seq<char>),
    End,
    Text(Seq<char>),
    Eof,
    Other,
}

impl View for XmlToken {
    type V = TokenView;

    open spec fn view(&self) -> TokenView {
        match self {
            XmlToken::Start(n) => TokenView::Start(n@),
            XmlToken::End => TokenView::End,
            XmlToken::Text(t) => TokenView::Text(t@),
            XmlToken::Eof => TokenView::Eof,
            XmlToken::Other => TokenView::Other,
        }
    }
}

/// The event that a quick-xml reader, made by `Reader::from_str` from
/// `content` with text trimming on, returns on its call of `read_event`
/// numbered `n` (from 0), converted as `XmlEvents::next` converts it.
pub uninterp spec fn xml_event(content: Seq<char>, n: nat) -> TokenView;

/// A quick-xml reader over a text. Verus sees nothing inside it: what it
/// reads and how far it has read are the names `events_content` and
/// `events_read`, which only `XmlEvents::new` and `XmlEvents::next` set.
#[verifier::external_body]
pub struct XmlEvents<'a> {
    reader: Reader<&'a [u8]>,
}

/// The text that an `XmlEvents` reads.
pub uninterp spec fn events_content(e: XmlEvents<'_>) -> Seq<char>;

/// How many events an `XmlEvents` has handed out.
pub uninterp spec fn events_read(e: XmlEvents<'_>) -> nat;

impl<'a> XmlEvents<'a> {
    /// Calls `quick_xml::reader::Reader::from_str` on `content` and turns on
    /// the trimming of white space around text (`Config::trim_text(true)`):
    /// a reader over `content` that has read nothing yet.
    #[verifier::external_body]
    fn new(content: &'a str) -> (r: Self)
        ensures
            events_content(r) == content@,
            events_read(r) == 0,
    {
        let mut reader = Reader::from_str(content);
        reader.config_mut().trim_text(true);
        XmlEvents { reader }
    }

    /// Calls `Reader::read_event` once and converts the event: a start tag
    /// keeps its name and a text event its text as read. It is the event
    /// numbered by how many the reader has read before, from the text it
    /// was made from, which stays; the count goes up by one.
    #[verifier::external_body]
    fn next(&mut self) -> (t: XmlToken)
        ensures
            t@ == xml_event(events_content(*old(self)), events_read(*old(self))),
            events_content(*final(self)) == events_content(*old(self)),
            events_read(*final(self)) == events_read(*old(self)) + 1,
    {
        match self.reader.read_event() {
            Ok(Event::Start(e)) => XmlToken::Start(String::from(e.name().as_ref())),
            Ok(Event::End(_)) => XmlToken::End,
            Ok(Event::Text(e)) => XmlToken::Text(String::from(&*e)),
            Ok(Event::Eof) => XmlToken::Eof,
            _ => XmlToken::Other,
        }
    }
}

/// The events of `content` from the one numbered `n` on, up to the end of
/// the document, and at most `fuel + 1` of them.
pub open spec fn xml_token_list(content: Seq<char>, n: nat, fuel: nat) -> Seq<TokenView>
    decreases fuel,
{
    let ev = xml_event(content, n);
    if ev is Eof {
        Seq::empty()
    } else if fuel == 0 {
        seq![ev]
    } else {
        seq![ev] + xml_token_list(content, n + 1, (fuel - 1) as nat)
    }
}

/// The events of `content` up to the end of the document. Every event but
/// the last consumes input, so the reading stops after at most one more
/// event than `content` has bytes.
pub fn xml_tokens(content: &str) -> (tokens: Vec<XmlToken>)
    ensures
        tokens_view(tokens@) == xml_token_list(content@, 0, content.len() as nat),
{
    let mut events = XmlEvents::new(content);
    let bound = content.len();
    let ghost full = xml_token_list(content@, 0, bound as nat);
    let mut tokens: Vec<XmlToken> = Vec::new();
    let mut n: usize = 0;
    loop
        invariant_except_break
            n <= bound,
            events_content(events) == content@,
            events_read(events) == n,
            tokens_view(tokens@) + xml_token_list(content@, n as nat, (bound - n) as nat) == full,
        ensures
            tokens_view(tokens@) == full,
        decreases bound - n,
    {
        let ghost tv = tokens_view(tokens@);
        let t = events.next();
        match t {
            XmlToken::Eof => {
                assert(tv + Seq::<TokenView>::empty() =~= tv);
                break;
            },
            _ => {
                let ghost ev = t@;
                tokens.push(t);
                assert(tokens_view(tokens@) =~= tv.push(ev));
            },
        }
        if n >= bound {
            assert(tokens_view(tokens@) =~= tv + seq![t@]) by {
                assert(tokens_view(tokens@) =~= tv.push(xml_event(content@, n as nat)));
            }
            break;
        }
        proof {
            let rest = xml_token_list(content@, (n + 1) as nat, (bound - n - 1) as nat);
            assert(tv + (seq![xml_event(content@, n as nat)] + rest) =~= tv.push(xml_event(content@, n as nat)) + rest);
        }
        n = n + 1;
    }
    tokens
}

/// The value an element gets from its child members and its text: text
/// alone gives a string, nothing gives null, members give an object (with
/// the text, if any, as member `$text`).
pub open spec fn finish(members: Seq<(Seq<char>, JsonView)>, text: Seq<char>) -> JsonView {
    if members.len() == 0 {
        if text.len() == 0 {
            JsonView::Null
        } else {
            JsonView::Str(text)
        }
    } else if text.len() != 0 {
        JsonView::Object(obj_set(members, text_member(), JsonView::Str(text)))
    } else {
        JsonView::Object(members)
    }
}

/// The members after a child element `name` with value `v` is added: a
/// first child is a plain member, a second one with the same name turns the
/// member into an array, later ones are appended to it.
pub open spec fn add_child(members: Seq<(Seq<char>, JsonView)>, name: Seq<char>, v: JsonView) -> Seq<
    (Seq<char>, JsonView),
> {
    match obj_get(members, name) {
        Some(JsonView::Array(xs)) => obj_set(members, name, JsonView::Array(xs.push(v))),
        Some(old) => obj_set(members, name, JsonView::Array(seq![old, v])),
        None => obj_set(members, name, v),
    }
}

/// The content of an element read from position `i`, having collected
/// `members` and `text` so far: the element's value and the position after
/// its closing tag (or the end of the events).
pub open spec fn parse_elem(
    ts: Seq<TokenView>,
    i: int,
    members: Seq<(Seq<char>, JsonView)>,
    text: Seq<char>,
) -> (JsonView, int)
    decreases ts.len() - i,
{
    if i < 0 || i >= ts.len() {
        (finish(members, text), ts.len() as int)
    } else {
        match ts[i] {
            TokenView::End => (finish(members, text), i + 1),
            TokenView::Eof => (finish(members, text), ts.len() as int),
            TokenView::Text(t) => parse_elem(ts, i + 1, members, text + t),
            TokenView::Other => parse_elem(ts, i + 1, members, text),
            TokenView::Start(name) => {
                let (v, j) = parse_elem(ts, i + 1, Seq::empty(), Seq::empty());
                if i < j <= ts.len() {
                    parse_elem(ts, j, add_child(members, name, v), text)
                } else {
                    (finish(members, text), ts.len() as int)
                }
            },
        }
    }
}

proof fn lemma_parse_elem_advances(
    ts: Seq<TokenView>,
    i: int,
    members: Seq<(Seq<char>, JsonView)>,
    text: Seq<char>,
)
    requires
        0 <= i,
    ensures
        ({
            let j = parse_elem(ts, i, members, text).1;
            i < j <= ts.len() || (i >= ts.len() && j == ts.len())
        }),
    decreases ts.len() - i,
{
    if i < ts.len() {
        match ts[i] {
            TokenView::Text(t) => lemma_parse_elem_advances(ts, i + 1, members, text + t),
            TokenView::Other => lemma_parse_elem_advances(ts, i + 1, members, text),
            TokenView::Start(name) => {
                lemma_parse_elem_advances(ts, i + 1, Seq::empty(), Seq::empty());
                let (v, j) = parse_elem(ts, i + 1, Seq::empty(), Seq::empty());
                if i < j <= ts.len() {
                    lemma_parse_elem_advances(ts, j, add_child(members, name, v), text);
                }
            },
            _ => {},
        }
    }
}

/// The position of the first opening tag at or after `i`, if any.
pub open spec fn first_start(ts: Seq<TokenView>, i: int) -> int
    decreases ts.len() - i,
{
    if i < 0 || i >= ts.len() {
        ts.len() as int
    } else if ts[i] is Start {
        i
    } else {
        first_start(ts, i + 1)
    }
}

/// The tree of a sequence of events: an object whose one member is the
/// first element, or an empty object when there is none.
pub open spec fn tokens_json(ts: Seq<TokenView>) -> JsonView {
    let s = first_start(ts, 0);
    if 0 <= s < ts.len() {
        let v = parse_elem(ts, s + 1, Seq::empty(), Seq::empty()).0;
        JsonView::Object(obj_set(Seq::empty(), ts[s]->Start_0, v))
    } else {
        empty_object()
    }
}

/// The mathematical form of a list of events.
pub open spec fn tokens_view(ts: Seq<XmlToken>) -> Seq<TokenView> {
    ts.map_values(|t: XmlToken| t@)
}

/// Adds a child element to an element's members.
fn push_child(members: &mut Vec<(String, JsonValue)>, name: &String, v: JsonValue)
    ensures
        members_view(final(members)@) == add_child(members_view(old(members)@), name@, v@),
{
    let ghost mv = members_view(members@);
    let ghost vv = v@;
    let key = chars_of(name.as_str());
    proof {
        lemma_object_view(members@, members@.len() as int);
    }
    let (pos, found) = obj_locate(members, &key);
    let newv = if found {
        let (_, old) = members.remove(pos);
        match old {
            JsonValue::Array(mut xs) => {
                let ghost xsv = array_view(xs@, xs@.len() as int);
                proof {
                    super::hierarchical::lemma_array_view(xs@, xs@.len() as int);
                }
                xs.push(v);
                proof {
                    super::hierarchical::lemma_array_view(xs@, xs@.len() as int);
                    assert(array_view(xs@, xs@.len() as int) =~= xsv.push(vv));
                }
                JsonValue::Array(xs)
            },
            other => {
                let ghost ov = other@;
                let mut xs: Vec<JsonValue> = Vec::new();
                xs.push(other);
                xs.push(v);
                proof {
                    super::hierarchical::lemma_array_view(xs@, xs@.len() as int);
                    assert(array_view(xs@, xs@.len() as int) =~= seq![ov, vv]);
                }
                JsonValue::Array(xs)
            },
        }
    } else {
        v
    };
    let ghost nv = newv@;
    members.insert(pos, (name.clone(), newv));
    proof {
        let target = add_child(mv, name@, vv);
        assert(target == obj_set(mv, name@, nv));
        if found {
            assert(target == mv.update(pos as int, (name@, nv)));
        } else {
            assert(target == mv.insert(pos as int, (name@, nv)));
        }
        assert forall|j: int| 0 <= j < members@.len() implies (#[trigger] members@[j]).0@ == target[j].0
            && json_view(members@[j].1) == target[j].1 by {
            if j < pos {
            } else if j == pos {
            } else {
            }
        }
        super::hierarchical::lemma_members_view_ext(members@, target);
    }
}

/// Finishes an element from its members and text.
fn finish_elem(members: Vec<(String, JsonValue)>, text: String) -> (r: JsonValue)
    ensures
        r@ == finish(members_view(members@), text@),
{
    proof {
        lemma_object_view(members@, members@.len() as int);
    }
    if members.len() == 0 {
        if text.as_str().is_empty() {
            JsonValue::Null
        } else {
            JsonValue::Str(text)
        }
    } else if !text.as_str().is_empty() {
        let mut m = members;
        let name = string_of(chars_of("$text").as_slice());
        proof {
            reveal_strlit("$text");
            assert(name@ =~= text_member());
        }
        push_set(&mut m, &name, JsonValue::Str(text));
        JsonValue::Object(m)
    } else {
        JsonValue::Object(members)
    }
}

/// Sets member `name` to `v`.
fn push_set(members: &mut Vec<(String, JsonValue)>, name: &String, v: JsonValue)
    ensures
        members_view(final(members)@) == obj_set(members_view(old(members)@), name@, v@),
{
    let ghost mv = members_view(members@);
    let ghost vv = v@;
    let key = chars_of(name.as_str());
    proof {
        lemma_object_view(members@, members@.len() as int);
    }
    let (pos, found) = obj_locate(members, &key);
    if found {
        members.remove(pos);
    }
    members.insert(pos, (name.clone(), v));
    proof {
        let target = obj_set(mv, name@, vv);
        if found {
            assert(target == mv.update(pos as int, (name@, vv)));
        } else {
            assert(target == mv.insert(pos as int, (name@, vv)));
        }
        assert forall|j: int| 0 <= j < members@.len() implies (#[trigger] members@[j]).0@ == target[j].0
            && json_view(members@[j].1) == target[j].1 by {
            if j < pos {
            } else if j == pos {
            } else {
            }
        }
        super::hierarchical::lemma_members_view_ext(members@, target);
    }
}

/// Reads the content of an element from position `i` to its closing tag.
fn parse_element(ts: &Vec<XmlToken>, i: usize) -> (r: (JsonValue, usize))
    requires
        i <= ts@.len(),
    ensures
        (r.0@, r.1 as int) == parse_elem(tokens_view(ts@), i as int, Seq::empty(), Seq::empty()),
    decreases ts@.len() - i,
{
    let ghost tv = tokens_view(ts@);
    let mut members: Vec<(String, JsonValue)> = Vec::new();
    let mut text = String::new();
    let mut p = i;
    assert(members_view(members@) =~= Seq::<(Seq<char>, JsonView)>::empty());
    loop
        invariant
            i <= p <= ts@.len(),
            tv == tokens_view(ts@),
            parse_elem(tv, i as int, Seq::empty(), Seq::empty()) == parse_elem(
                tv,
                p as int,
                members_view(members@),
                text@,
            ),
        decreases ts@.len() - p,
    {
        if p >= ts.len() {
            let v = finish_elem(members, text);
            return (v, ts.len());
        }
        assert(tv[p as int] == ts@[p as int]@);
        match &ts[p] {
            XmlToken::End => {
                let v = finish_elem(members, text);
                return (v, p + 1);
            },
            XmlToken::Eof => {
                let v = finish_elem(members, text);
                return (v, ts.len());
            },
            XmlToken::Text(t) => {
                text.append(t.as_str());
                p = p + 1;
            },
            XmlToken::Other => {
                p = p + 1;
            },
            XmlToken::Start(name) => {
                proof {
                    lemma_parse_elem_advances(tv, p + 1, Seq::empty(), Seq::empty());
                }
                let (v, j) = parse_element(ts, p + 1);
                push_child(&mut members, name, v);
                p = j;
            },
        }
    }
}

/// The tree of a sequence of XML events.
pub fn tokens_to_json(ts: &Vec<XmlToken>) -> (r: JsonValue)
    ensures
        r@ == tokens_json(tokens_view(ts@)),
{
    let ghost tv = tokens_view(ts@);
    let mut s: usize = 0;
    while s < ts.len()
        invariant
            s <= ts@.len(),
            tv == tokens_view(ts@),
            first_start(tv, 0) == first_start(tv, s as int),
        decreases ts@.len() - s,
    {
        assert(tv[s as int] == ts@[s as int]@);
        match &ts[s] {
            XmlToken::Start(name) => {
                let (v, _) = parse_element(ts, s + 1);
                let mut root: Vec<(String, JsonValue)> = Vec::new();
                assert(members_view(root@) =~= Seq::<(Seq<char>, JsonView)>::empty());
                push_set(&mut root, name, v);
                return JsonValue::Object(root);
            },
            _ => {},
        }
        s = s + 1;
    }
    new_object()
}

/// Reads an XML document into a value tree: the root element becomes the
/// one member of an object (an empty object when there is no element).
pub fn xml_to_json(content: &str) -> (r: JsonValue)
    ensures
        r@ == tokens_json(xml_token_list(content@, 0, content.len() as nat)),
{
    let tokens = xml_tokens(content);
    tokens_to_json(&tokens)
}

/// Whether a value is a simple element's content: non-empty text, or a
/// non-empty object whose keys are in order, none of them `$text`, each
/// holding a simple element's content (no arrays, no empty elements).
pub open spec fn simple_xml(v: JsonView) -> bool
    decreases v, 1nat, 0int,
{
    match v {
        JsonView::Str(t) => t.len() > 0,
        JsonView::Object(es) => es.len() > 0 && (forall|i: int, j: int|
            0 <= i < j < es.len() ==> lex_lt(#[trigger] es[i].0, #[trigger] es[j].0)) && simple_members(
            es,
            es.len() as int,
        ),
        _ => false,
    }
}

/// Whether the first `n` members are simple elements other than `$text`.
pub open spec fn simple_members(es: Seq<(Seq<char>, JsonView)>, n: int) -> bool
    decreases es, 0nat, n,
{
    if n <= 0 || n > es.len() {
        true
    } else {
        simple_members(es, n - 1) && es[n - 1].0 != text_member() && simple_xml(es[n - 1].1)
    }
}

/// The events of an element's content: its text, or its members' elements
/// one after another.
pub open spec fn content_tokens(v: JsonView) -> Seq<TokenView>
    decreases v, 1nat, 0int,
{
    match v {
        JsonView::Str(t) => seq![TokenView::Text(t)],
        JsonView::Object(es) => members_tokens(es, es.len() as int),
        _ => Seq::empty(),
    }
}

/// The events of the elements of the first `n` members.
pub open spec fn members_tokens(es: Seq<(Seq<char>, JsonView)>, n: int) -> Seq<TokenView>
    decreases es, 0nat, n,
{
    if n <= 0 || n > es.len() {
        Seq::empty()
    } else {
        members_tokens(es, n - 1) + seq![TokenView::Start(es[n - 1].0)] + content_tokens(es[n - 1].1)
            + seq![TokenView::End]
    }
}

/// The events of a document whose root element `name` holds `v`.
pub open spec fn doc_tokens(name: Seq<char>, v: JsonView) -> Seq<TokenView> {
    seq![TokenView::Start(name)] + content_tokens(v) + seq![TokenView::End]
}

proof fn lemma_members_prefix(es: Seq<(Seq<char>, JsonView)>, m: int, n: int)
    requires
        0 <= m <= n <= es.len(),
    ensures
        members_tokens(es, m).len() <= members_tokens(es, n).len(),
        members_tokens(es, n).take(members_tokens(es, m).len() as int) == members_tokens(es, m),
    decreases n - m,
{
    if m < n {
        lemma_members_prefix(es, m, n - 1);
        let a = members_tokens(es, n - 1);
        let b = members_tokens(es, n);
        let l = members_tokens(es, m).len() as int;
        assert(b.take(a.len() as int) =~= a);
        assert(b.take(l) =~= a.take(l));
    } else {
        assert(members_tokens(es, n).take(members_tokens(es, n).len() as int) =~= members_tokens(es, n));
    }
}

proof fn lemma_simple_member(es: Seq<(Seq<char>, JsonView)>, n: int, j: int)
    requires
        simple_members(es, n),
        0 <= j < n <= es.len(),
    ensures
        es[j].0 != text_member(),
        simple_xml(es[j].1),
    decreases n,
{
    if j < n - 1 {
        lemma_simple_member(es, n - 1, j);
    }
}

/// Adding the next member of an ordered object to the members before it
/// appends it.
proof fn lemma_add_in_order(es: Seq<(Seq<char>, JsonView)>, m: int)
    requires
        0 <= m < es.len(),
        forall|i: int, j: int| 0 <= i < j < es.len() ==> lex_lt(#[trigger] es[i].0, #[trigger] es[j].0),
    ensures
        add_child(es.take(m), es[m].0, es[m].1) == es.take(m + 1),
{
    let t = es.take(m);
    let k = es[m].0;
    lemma_walk_pos(t, k);
    let w = walk_pos(t, k);
    if w < m {
        assert(t[w] == es[w]);
        assert(lex_lt(es[w].0, es[m].0));
    }
    assert(w == m);
    assert(obj_get(t, k) is None);
    assert(t.insert(m, (k, es[m].1)) =~= es.take(m + 1));
}

proof fn lemma_parse_members(ts: Seq<TokenView>, i: int, es: Seq<(Seq<char>, JsonView)>, m: int)
    requires
        0 <= m <= es.len(),
        forall|a: int, b: int| 0 <= a < b < es.len() ==> lex_lt(#[trigger] es[a].0, #[trigger] es[b].0),
        simple_members(es, es.len() as int),
        0 <= i,
        i + members_tokens(es, es.len() as int).len() + 1 <= ts.len(),
        ts.subrange(i, i + members_tokens(es, es.len() as int).len() + 1) == members_tokens(
            es,
            es.len() as int,
        ).push(TokenView::End),
    ensures
        parse_elem(ts, i, Seq::empty(), Seq::empty()) == parse_elem(
            ts,
            i + members_tokens(es, m).len(),
            es.take(m),
            Seq::empty(),
        ),
    decreases es, 0nat, m,
{
    let n = es.len() as int;
    if m == 0 {
        assert(es.take(0) =~= Seq::<(Seq<char>, JsonView)>::empty());
    } else {
        lemma_parse_members(ts, i, es, m - 1);
        lemma_members_prefix(es, m, n);
        lemma_simple_member(es, n, m - 1);
        let all = members_tokens(es, n);
        let before = members_tokens(es, m - 1);
        let mine = members_tokens(es, m);
        let k = es[m - 1].0;
        let v = es[m - 1].1;
        let ct = content_tokens(v);
        assert(mine == before + seq![TokenView::Start(k)] + ct + seq![TokenView::End]);
        assert forall|q: int| 0 <= q < mine.len() implies ts[i + q] == #[trigger] mine[q] by {
            assert(ts.subrange(i, i + all.len() + 1)[q] == ts[i + q]);
            assert(all.push(TokenView::End)[q] == all[q]);
            assert(all.take(mine.len() as int)[q] == all[q]);
        }
        let p = i + before.len();
        assert(ts[p] == mine[before.len() as int]);
        assert(ts[p] == TokenView::Start(k));
        assert(ts.subrange(p + 1, p + 1 + ct.len() + 1) =~= ct.push(TokenView::End)) by {
            assert forall|q: int| 0 <= q < ct.len() + 1 implies ts.subrange(p + 1, p + 1 + ct.len() + 1)[q]
                == ct.push(TokenView::End)[q] by {
                assert(ts[p + 1 + q] == mine[before.len() + 1 + q]);
            }
        }
        lemma_parse_content(ts, p + 1, v);
        let j = p + 1 + ct.len() + 1;
        assert(j == i + mine.len());
        assert(parse_elem(ts, p + 1, Seq::empty(), Seq::empty()) == (v, j));
        lemma_add_in_order(es, m - 1);
        assert(parse_elem(ts, p, es.take(m - 1), Seq::empty()) == parse_elem(
            ts,
            j,
            add_child(es.take(m - 1), k, v),
            Seq::empty(),
        ));
    }
}

proof fn lemma_parse_content(ts: Seq<TokenView>, i: int, v: JsonView)
    requires
        simple_xml(v),
        0 <= i,
        i + content_tokens(v).len() + 1 <= ts.len(),
        ts.subrange(i, i + content_tokens(v).len() + 1) == content_tokens(v).push(TokenView::End),
    ensures
        parse_elem(ts, i, Seq::empty(), Seq::empty()) == (v, i + content_tokens(v).len() + 1),
    decreases v, 1nat, 0int,
{
    let ct = content_tokens(v);
    let sub = ts.subrange(i, i + ct.len() + 1);
    match v {
        JsonView::Str(t) => {
            assert(sub[0] == ts[i]);
            assert(sub[1] == ts[i + 1]);
            assert(ts[i] == TokenView::Text(t));
            assert(ts[i + 1] == TokenView::End);
            assert(Seq::<char>::empty() + t =~= t);
            assert(parse_elem(ts, i + 1, Seq::empty(), t) == (finish(Seq::empty(), t), i + 2));
        },
        JsonView::Object(es) => {
            let n = es.len() as int;
            lemma_parse_members(ts, i, es, n);
            assert(sub[ct.len() as int] == ts[i + ct.len()]);
            assert(ts[i + ct.len()] == TokenView::End);
            assert(es.take(n) =~= es);
        },
        _ => {},
    }
}

/// An XML document made only of elements and text, as `simple_xml`
/// describes, reads back: the events of a root element `name` holding `v`
/// give the object `{name: v}`, and writing that object as XML gives the
/// element `<name>`, its content written as XML, and `</name>` again.
pub proof fn law_xml_round_trip(name: Seq<char>, v: JsonView)
    requires
        simple_xml(v),
        name != text_member(),
    ensures
        tokens_json(doc_tokens(name, v)) == JsonView::Object(seq![(name, v)]),
        xml_text(tokens_json(doc_tokens(name, v))) == open_tag(name) + xml_text(v) + close_tag(name),
{
    let ts = doc_tokens(name, v);
    let ct = content_tokens(v);
    assert(ts[0] == TokenView::Start(name));
    assert(first_start(ts, 0) == 0);
    assert(ts.subrange(1, 1 + ct.len() as int + 1) =~= ct.push(TokenView::End));
    lemma_parse_content(ts, 1, v);
    let es: Seq<(Seq<char>, JsonView)> = Seq::empty();
    assert(walk_pos(es, name) == 0);
    assert(es.insert(0, (name, v)) =~= seq![(name, v)]);
    let one: Seq<(Seq<char>, JsonView)> = seq![(name, v)];
    assert(members_xml(one, 0) == Seq::<char>::empty());
    assert(!(v is Array));
    assert(members_xml(one, 1) =~= open_tag(name) + xml_text(v) + close_tag(name));
}

} // verus!
