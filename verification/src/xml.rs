//! Reading an XML document into the JSON shape that context scripts receive:
//! each element becomes an object, attributes `@name` strings, character data
//! a `$text` string, and an element name met more than once in one parent a
//! list of the objects in document order.
use vstd::prelude::*;
use crate::text::{concat, owned, str_eq};
use quick_xml::events::{BytesStart, Event};
use quick_xml::reader::Reader;

verus! {

/// The value an XML document is read into.
pub enum XmlValue {
    Null,
    Str(String),
    List(Vec<XmlValue>),
    /// Keys with their values, each key once, in the order first added.
    Object(Vec<(String, XmlValue)>),
}

/// An `XmlValue` as a mathematical tree.
pub enum Tree {
    Null,
    Str(Seq<char>),
    List(Seq<Tree>),
    Obj(Seq<(Seq<char>, Tree)>),
}

impl XmlValue {
    pub open spec fn tree(self) -> Tree
        decreases self,
    {
        match self {
            XmlValue::Null => Tree::Null,
            XmlValue::Str(s) => Tree::Str(s@),
            XmlValue::List(items) => Tree::List(
                Seq::new(items.len() as nat, |i: int| if 0 <= i < items.len() { items[i].tree() } else { Tree::Null }),
            ),
            XmlValue::Object(entries) => Tree::Obj(
                Seq::new(
                    entries.len() as nat,
                    |i: int| if 0 <= i < entries.len() { (entries[i].0@, entries[i].1.tree()) } else { (seq![], Tree::Null) },
                ),
            ),
        }
    }
}

/// One event of an XML document, as the reader yields it.
pub enum XmlEvent {
    /// An opening tag: its name and attributes (name, value).
    Start { name: String, attributes: Vec<(String, String)> },
    /// A self-closing tag.
    Empty { name: String, attributes: Vec<(String, String)> },
    /// A closing tag.
    End,
    /// Character data, unescaped, or the contents of a CDATA section.
    Text(String),
    /// A declaration, comment, processing instruction or doctype.
    Other,
}

/// The entries of an object, key and tree.
pub open spec fn entries_view(e: Seq<(String, XmlValue)>) -> Seq<(Seq<char>, Tree)> {
    e.map_values(|p: (String, XmlValue)| (p.0@, p.1.tree()))
}

pub open spec fn keys(e: Seq<(Seq<char>, Tree)>) -> Seq<Seq<char>> {
    e.map_values(|p: (Seq<char>, Tree)| p.0)
}

/// Sets key `k` to `v`: an existing key keeps its place, a new one comes last.
pub open spec fn set_entry(e: Seq<(Seq<char>, Tree)>, k: Seq<char>, v: Tree) -> Seq<(Seq<char>, Tree)> {
    match keys(e).index_of_first(k) {
        Some(i) => e.update(i, (k, v)),
        None => e.push((k, v)),
    }
}

/// Adds child element `v` named `k`: the first under its name is stored as
/// it is, a second turns the entry into the list of both, later ones extend
/// that list.
pub open spec fn add_child(e: Seq<(Seq<char>, Tree)>, k: Seq<char>, v: Tree) -> Seq<(Seq<char>, Tree)> {
    match keys(e).index_of_first(k) {
        Some(i) => e.update(
            i,
            (
                k,
                match e[i].1 {
                    Tree::List(items) => Tree::List(items.push(v)),
                    old => Tree::List(seq![old, v]),
                },
            ),
        ),
        None => e.push((k, v)),
    }
}

/// Appends character data to the `$text` string (a `$text` that is not a
/// string is replaced); empty text changes nothing.
pub open spec fn add_text(e: Seq<(Seq<char>, Tree)>, t: Seq<char>) -> Seq<(Seq<char>, Tree)> {
    if t.len() == 0 {
        e
    } else {
        match keys(e).index_of_first("$text"@) {
            Some(i) => e.update(
                i,
                (
                    "$text"@,
                    match e[i].1 {
                        Tree::Str(s) => Tree::Str(s + t),
                        _ => Tree::Str(t),
                    },
                ),
            ),
            None => e.push(("$text"@, Tree::Str(t))),
        }
    }
}

pub open spec fn attrs_view(a: Seq<(String, String)>) -> Seq<(Seq<char>, Seq<char>)> {
    a.map_values(|p: (String, String)| (p.0@, p.1@))
}

/// The object of a tag's attributes: each as `@name` set to its value, in order.
pub open spec fn attribute_entries(a: Seq<(Seq<char>, Seq<char>)>) -> Seq<(Seq<char>, Tree)>
    decreases a.len(),
{
    if a.len() == 0 {
        seq![]
    } else {
        set_entry(attribute_entries(a.drop_last()), seq!['@'] + a.last().0, Tree::Str(a.last().1))
    }
}

/// The open elements while reading: name and entries, the outermost first.
pub open spec fn stack_view(s: Seq<(String, Vec<(String, XmlValue)>)>) -> Seq<(Seq<char>, Seq<(Seq<char>, Tree)>)> {
    s.map_values(|f: (String, Vec<(String, XmlValue)>)| (f.0@, entries_view(f.1@)))
}

/// The entries of the innermost open element changed by `f`.
pub open spec fn update_top(
    s: Seq<(Seq<char>, Seq<(Seq<char>, Tree)>)>,
    e: Seq<(Seq<char>, Tree)>,
) -> Seq<(Seq<char>, Seq<(Seq<char>, Tree)>)> {
    s.update(s.len() - 1, (s.last().0, e))
}

/// How one event changes the open elements. A closing tag with only the
/// document level open, and anything else with nothing open, change nothing.
pub open spec fn step(s: Seq<(Seq<char>, Seq<(Seq<char>, Tree)>)>, ev: XmlEvent) -> Seq<(Seq<char>, Seq<(Seq<char>, Tree)>)> {
    match ev {
        XmlEvent::Start { name, attributes } => s.push((name@, attribute_entries(attrs_view(attributes@)))),
        XmlEvent::End => if s.len() > 1 {
            let rest = s.drop_last();
            update_top(rest, add_child(rest.last().1, s.last().0, Tree::Obj(s.last().1)))
        } else {
            s
        },
        XmlEvent::Empty { name, attributes } => if s.len() > 0 {
            update_top(s, add_child(s.last().1, name@, Tree::Obj(attribute_entries(attrs_view(attributes@)))))
        } else {
            s
        },
        XmlEvent::Text(t) => if s.len() > 0 {
            update_top(s, add_text(s.last().1, t@))
        } else {
            s
        },
        XmlEvent::Other => s,
    }
}

/// The open elements after `events`, starting from the document level alone.
pub open spec fn stack_after(events: Seq<XmlEvent>) -> Seq<(Seq<char>, Seq<(Seq<char>, Tree)>)>
    decreases events.len(),
{
    if events.len() == 0 {
        seq![("ROOT"@, seq![])]
    } else {
        step(stack_after(events.drop_last()), events.last())
    }
}

/// The value of a document: the innermost element still open at the end
/// (the document level when every tag was closed), as an object.
pub open spec fn xml_tree(events: Seq<XmlEvent>) -> Tree {
    let s = stack_after(events);
    if s.len() > 0 {
        Tree::Obj(s.last().1)
    } else {
        Tree::Null
    }
}

proof fn lemma_object_tree(e: Vec<(String, XmlValue)>)
    ensures
        XmlValue::Object(e).tree() == Tree::Obj(entries_view(e@)),
{
    match XmlValue::Object(e).tree() {
        Tree::Obj(t) => {
            assert(t =~= entries_view(e@));
        },
        _ => {},
    }
}

proof fn lemma_list_tree(items: Vec<XmlValue>)
    ensures
        XmlValue::List(items).tree() == Tree::List(items@.map_values(|v: XmlValue| v.tree())),
{
    match XmlValue::List(items).tree() {
        Tree::List(t) => {
            assert(t =~= items@.map_values(|v: XmlValue| v.tree()));
        },
        _ => {},
    }
}

/// The first index of key `k`.
fn index_of_key(e: &Vec<(String, XmlValue)>, k: &str) -> (r: Option<usize>)
    ensures
        match r {
            Some(i) => keys(entries_view(e@)).index_of_first(k@) == Some(i as int) && i < e.len() && e@[i as int].0@
                == k@,
            None => keys(entries_view(e@)).index_of_first(k@) is None,
        },
{
    let ghost ks = keys(entries_view(e@));
    proof {
        ks.index_of_first_ensures(k@);
    }
    let mut i: usize = 0;
    while i < e.len()
        invariant
            i <= e.len(),
            ks == keys(entries_view(e@)),
            ks.len() == e.len(),
            forall|j: int| 0 <= j < i ==> ks[j] != k@,
        decreases e.len() - i,
    {
        assert(ks[i as int] == e@[i as int].0@);
        if str_eq(e[i].0.as_str(), k) {
            proof {
                ks.index_of_first_ensures(k@);
                match ks.index_of_first(k@) {
                    Some(x) => {
                        assert(x == i);
                    },
                    None => {
                        assert(ks.contains(k@));
                    },
                }
            }
            return Some(i);
        }
        i = i + 1;
    }
    proof {
        ks.index_of_first_ensures(k@);
        if ks.contains(k@) {
            let j = choose|j: int| 0 <= j < ks.len() && ks[j] == k@;
            assert(ks[j] != k@);
        }
    }
    None
}

/// Sets key `k` to `v` in an object's entries.
fn set_entry_exec(e: &mut Vec<(String, XmlValue)>, k: String, v: XmlValue)
    ensures
        entries_view(final(e)@) == set_entry(entries_view(old(e)@), k@, v.tree()),
{
    match index_of_key(e, k.as_str()) {
        Some(i) => {
            let ghost kv = k@;
            let ghost vt = v.tree();
            e.set(i, (k, v));
            proof {
                assert(entries_view(e@) =~= entries_view(old(e)@).update(i as int, (kv, vt)));
            }
        },
        None => {
            e.push((k, v));
            proof {
                assert(entries_view(e@) =~= entries_view(old(e)@).push((k@, v.tree())));
            }
        },
    }
}

/// Adds child element `v` named `k` to an object's entries.
fn add_child_exec(e: &mut Vec<(String, XmlValue)>, k: String, v: XmlValue)
    ensures
        entries_view(final(e)@) == add_child(entries_view(old(e)@), k@, v.tree()),
{
    let ghost old_view = entries_view(e@);
    let ghost vt = v.tree();
    let ghost kv = k@;
    match index_of_key(e, k.as_str()) {
        Some(i) => {
            let (key, existing) = e.remove(i);
            let ghost old_tree = existing.tree();
            assert(old_view[i as int] == (kv, old_tree));
            let merged = match existing {
                XmlValue::List(mut items) => {
                    proof {
                        lemma_list_tree(items);
                    }
                    let ghost before = items@;
                    items.push(v);
                    proof {
                        lemma_list_tree(items);
                        assert(items@.map_values(|x: XmlValue| x.tree()) =~= before.map_values(
                            |x: XmlValue| x.tree(),
                        ).push(vt));
                    }
                    XmlValue::List(items)
                },
                other => {
                    let items = vec![other, v];
                    proof {
                        lemma_list_tree(items);
                        assert(items@.map_values(|x: XmlValue| x.tree()) =~= seq![old_tree, vt]);
                    }
                    XmlValue::List(items)
                },
            };
            let ghost new_tree = merged.tree();
            e.insert(i, (k, merged));
            proof {
                assert(entries_view(e@) =~= old_view.update(i as int, (kv, new_tree)));
            }
        },
        None => {
            e.push((k, v));
            proof {
                assert(entries_view(e@) =~= old_view.push((kv, vt)));
            }
        },
    }
}

/// Appends character data to the `$text` entry.
fn add_text_exec(e: &mut Vec<(String, XmlValue)>, t: &str)
    ensures
        entries_view(final(e)@) == add_text(entries_view(old(e)@), t@),
{
    if t.is_empty() {
        return;
    }
    let ghost old_view = entries_view(e@);
    match index_of_key(e, "$text") {
        Some(i) => {
            let (key, existing) = e.remove(i);
            proof {
                reveal_strlit("$text");
                assert(old_view[i as int].0 == "$text"@);
            }
            let joined = match existing {
                XmlValue::Str(s) => concat(s.as_str(), t),
                _ => owned(t),
            };
            let ghost jv = joined@;
            e.insert(i, (key, XmlValue::Str(joined)));
            proof {
                assert(entries_view(e@) =~= old_view.update(i as int, ("$text"@, Tree::Str(jv))));
            }
        },
        None => {
            e.push((owned("$text"), XmlValue::Str(owned(t))));
            proof {
                assert(entries_view(e@) =~= old_view.push(("$text"@, Tree::Str(t@))));
            }
        },
    }
}

/// The entries for a tag's attributes.
fn attribute_entries_exec(attrs: &Vec<(String, String)>) -> (r: Vec<(String, XmlValue)>)
    ensures
        entries_view(r@) == attribute_entries(attrs_view(attrs@)),
{
    let mut r: Vec<(String, XmlValue)> = Vec::new();
    let mut j: usize = 0;
    while j < attrs.len()
        invariant
            j <= attrs.len(),
            entries_view(r@) == attribute_entries(attrs_view(attrs@).take(j as int)),
        decreases attrs.len() - j,
    {
        let key = concat("@", attrs[j].0.as_str());
        let value = owned(attrs[j].1.as_str());
        proof {
            reveal_strlit("@");
            let a = attrs_view(attrs@).take(j as int + 1);
            assert(a.drop_last() =~= attrs_view(attrs@).take(j as int));
            assert(key@ == seq!['@'] + a.last().0);
        }
        set_entry_exec(&mut r, key, XmlValue::Str(value));
        j = j + 1;
    }
    proof {
        assert(attrs_view(attrs@).take(attrs@.len() as int) =~= attrs_view(attrs@));
    }
    r
}

/// Applies one event to the open elements.
fn apply_event(stack: &mut Vec<(String, Vec<(String, XmlValue)>)>, ev: &XmlEvent)
    ensures
        stack_view(final(stack)@) == step(stack_view(old(stack)@), *ev),
{
    let ghost sv = stack_view(stack@);
    match ev {
        XmlEvent::Start { name, attributes } => {
            let entries = attribute_entries_exec(attributes);
            let ghost ev_ = entries_view(entries@);
            stack.push((owned(name.as_str()), entries));
            proof {
                assert(stack_view(stack@) =~= sv.push((name@, ev_)));
            }
        },
        XmlEvent::End => {
            if stack.len() > 1 {
                let (child_name, child_entries) = stack.pop().unwrap();
                let (parent_name, mut parent_entries) = stack.pop().unwrap();
                proof {
                    lemma_object_tree(child_entries);
                    assert(stack_view(stack@) =~= sv.drop_last().drop_last());
                }
                add_child_exec(&mut parent_entries, child_name, XmlValue::Object(child_entries));
                let ghost pe = entries_view(parent_entries@);
                stack.push((parent_name, parent_entries));
                proof {
                    let rest = sv.drop_last();
                    assert(stack_view(stack@) =~= update_top(rest, pe));
                }
            }
        },
        XmlEvent::Empty { name, attributes } => {
            if stack.len() > 0 {
                let entries = attribute_entries_exec(attributes);
                proof {
                    lemma_object_tree(entries);
                }
                let (top_name, mut top_entries) = stack.pop().unwrap();
                add_child_exec(&mut top_entries, owned(name.as_str()), XmlValue::Object(entries));
                let ghost te = entries_view(top_entries@);
                stack.push((top_name, top_entries));
                proof {
                    assert(stack_view(stack@) =~= update_top(sv, te));
                }
            }
        },
        XmlEvent::Text(t) => {
            if stack.len() > 0 {
                let (top_name, mut top_entries) = stack.pop().unwrap();
                add_text_exec(&mut top_entries, t.as_str());
                let ghost te = entries_view(top_entries@);
                stack.push((top_name, top_entries));
                proof {
                    assert(stack_view(stack@) =~= update_top(sv, te));
                }
            }
        },
        XmlEvent::Other => {},
    }
}

/// Builds the value of a document from its events, as `xml_tree` describes.
pub fn xml_events_to_value(events: &[XmlEvent]) -> (r: XmlValue)
    ensures
        r.tree() == xml_tree(events@),
{
    let mut stack: Vec<(String, Vec<(String, XmlValue)>)> = Vec::new();
    let root: Vec<(String, XmlValue)> = Vec::new();
    proof {
        assert(entries_view(root@) =~= seq![]);
    }
    stack.push((owned("ROOT"), root));
    proof {
        assert(events@.take(0).len() == 0);
        assert(stack_view(stack@) =~= stack_after(events@.take(0)));
    }
    let mut i: usize = 0;
    while i < events.len()
        invariant
            i <= events.len(),
            stack_view(stack@) == stack_after(events@.take(i as int)),
        decreases events.len() - i,
    {
        apply_event(&mut stack, &events[i]);
        proof {
            assert(events@.take(i as int + 1).drop_last() =~= events@.take(i as int));
        }
        i = i + 1;
    }
    proof {
        assert(events@.take(events@.len() as int) =~= events@);
    }
    match stack.pop() {
        Some((_, root)) => {
            proof {
                lemma_object_tree(root);
            }
            XmlValue::Object(root)
        },
        None => XmlValue::Null,
    }
}

#[verifier::external_type_specification]
#[verifier::external_body]
#[verifier::reject_recursive_types(R)]
pub struct ExXmlReader<R>(Reader<R>);

#[verifier::external_type_specification]
#[verifier::external_body]
pub struct ExBytesStart<'a>(BytesStart<'a>);

/// `quick_xml::reader::Reader::from_str`: a reader over `xml`.
#[verifier::external_body]
fn xml_reader<'a>(xml: &'a str) -> (r: Reader<&'a [u8]>) {
    Reader::from_str(xml)
}

/// `Reader::trim_text(true)`: whitespace around character data is dropped,
/// and text that is only whitespace gives no event.
#[verifier::external_body]
fn trim_xml_text<'a>(reader: &mut Reader<&'a [u8]>) {
    reader.trim_text(true);
}

/// The events that quick-xml's reader, made by `Reader::from_str` and set to
/// `trim_text(true)`, yields for `xml` before it reports the end of the input
/// or an error, converted one for one: a start or empty-element tag with its
/// name and the attributes it reads without error (bytes read as UTF-8,
/// invalid sequences replaced), an end tag, text unescaped (empty when an
/// escape is invalid), a CDATA section as it is, and any other event as
/// `Other`. They depend on the text alone, and there are finitely many: each
/// one consumes input.
pub uninterp spec fn xml_events(xml: Seq<char>) -> Seq<XmlEvent>;

/// A reader over a text, how many events have been taken from it, and the
/// tag of the last event when it was a start or empty-element tag.
struct XmlTokens<'a> {
    reader: Reader<&'a [u8]>,
    tag: Option<BytesStart<'a>>,
    source: Ghost<Seq<char>>,
    read: Ghost<nat>,
}

/// A reader over `xml` with text trimmed, before its first event.
fn open_xml<'a>(xml: &'a str) -> (t: XmlTokens<'a>)
    ensures
        t.source@ == xml@,
        t.read@ == 0,
{
    let mut reader = xml_reader(xml);
    trim_xml_text(&mut reader);
    XmlTokens { reader, tag: None, source: Ghost(xml@), read: Ghost(0) }
}

/// What kind of event was read, with the text of a text event.
enum ReadKind {
    Start,
    Empty,
    End,
    Text(String),
    Other,
    Done,
}

/// `k` is the kind of `e` (and carries its text).
spec fn kind_of(k: ReadKind, e: XmlEvent) -> bool {
    match (k, e) {
        (ReadKind::Start, XmlEvent::Start { .. }) => true,
        (ReadKind::Empty, XmlEvent::Empty { .. }) => true,
        (ReadKind::End, XmlEvent::End) => true,
        (ReadKind::Text(a), XmlEvent::Text(b)) => a == b,
        (ReadKind::Other, XmlEvent::Other) => true,
        _ => false,
    }
}

/// The event last read from `t`.
spec fn last_event(t: XmlTokens) -> XmlEvent {
    xml_events(t.source@)[t.read@ - 1]
}

/// `Reader::read_event`: reads the next event, keeping its tag for
/// `tag_name` and `tag_attributes`; the kind is that of the next entry of
/// `xml_events`, and `Done` at the end of the input or at an error, after
/// which the reader is not read again.
#[verifier::external_body]
fn read_xml_event<'a>(t: &mut XmlTokens<'a>) -> (k: ReadKind)
    requires
        old(t).read@ <= xml_events(old(t).source@).len(),
    ensures
        final(t).source == old(t).source,
        final(t).read@ == old(t).read@ + 1,
        k is Done <==> old(t).read@ == xml_events(old(t).source@).len(),
        !(k is Done) ==> kind_of(k, xml_events(old(t).source@)[old(t).read@ as int]),
{
    let (kind, tag) = match t.reader.read_event() {
        Ok(Event::Start(e)) => (ReadKind::Start, Some(e)),
        Ok(Event::Empty(e)) => (ReadKind::Empty, Some(e)),
        Ok(Event::End(_)) => (ReadKind::End, None),
        Ok(Event::Text(x)) => (ReadKind::Text(x.unescape().unwrap_or_default().into_owned()), None),
        Ok(Event::CData(c)) => (ReadKind::Text(String::from_utf8_lossy(&c).into_owned()), None),
        Ok(Event::Eof) => (ReadKind::Done, None),
        Ok(_) => (ReadKind::Other, None),
        Err(_) => (ReadKind::Done, None),
    };
    t.tag = tag;
    kind
}

/// `BytesStart::name` of the tag last read: its name as `xml_events` gives it.
#[verifier::external_body]
fn tag_name<'a>(t: &XmlTokens<'a>) -> (r: String)
    requires
        1 <= t.read@ <= xml_events(t.source@).len(),
        last_event(*t) is Start || last_event(*t) is Empty,
    ensures
        match last_event(*t) {
            XmlEvent::Start { name, .. } => r == name,
            XmlEvent::Empty { name, .. } => r == name,
            _ => true,
        },
{
    match &t.tag {
        Some(e) => String::from_utf8_lossy(e.name().as_ref()).into_owned(),
        None => String::new(),
    }
}

/// `BytesStart::attributes` of the tag last read: its attributes as
/// `xml_events` gives them.
#[verifier::external_body]
fn tag_attributes<'a>(t: &XmlTokens<'a>) -> (r: Vec<(String, String)>)
    requires
        1 <= t.read@ <= xml_events(t.source@).len(),
        last_event(*t) is Start || last_event(*t) is Empty,
    ensures
        match last_event(*t) {
            XmlEvent::Start { attributes, .. } => r == attributes,
            XmlEvent::Empty { attributes, .. } => r == attributes,
            _ => true,
        },
{
    match &t.tag {
        Some(e) => e.attributes().flatten().map(
            |a| (String::from_utf8_lossy(a.key.as_ref()).into_owned(), String::from_utf8_lossy(&a.value).into_owned()),
        ).collect(),
        None => Vec::new(),
    }
}

proof fn lemma_stack_never_empty(events: Seq<XmlEvent>)
    ensures
        stack_after(events).len() >= 1,
    decreases events.len(),
{
    if events.len() > 0 {
        lemma_stack_never_empty(events.drop_last());
    }
}

/// Reads an XML document with quick-xml (text trimmed) and builds its value
/// from the events before the end of the input or the first error: always an
/// object.
pub fn parse_xml_to_value(xml: &str) -> (r: XmlValue)
    ensures
        r.tree() == xml_tree(xml_events(xml@)),
        r.tree() is Obj,
{
    let mut t = open_xml(xml);
    let ghost all = xml_events(xml@);
    let mut events: Vec<XmlEvent> = Vec::new();
    loop
        invariant_except_break
            t.read@ <= all.len(),
            events@ == all.take(t.read@ as int),
        invariant
            t.source@ == xml@,
            all == xml_events(xml@),
        ensures
            events@ == all,
        decreases all.len() - t.read@,
    {
        let ghost k = t.read@;
        let ev = match read_xml_event(&mut t) {
            ReadKind::Start => XmlEvent::Start { name: tag_name(&t), attributes: tag_attributes(&t) },
            ReadKind::Empty => XmlEvent::Empty { name: tag_name(&t), attributes: tag_attributes(&t) },
            ReadKind::End => XmlEvent::End,
            ReadKind::Text(x) => XmlEvent::Text(x),
            ReadKind::Other => XmlEvent::Other,
            ReadKind::Done => {
                proof {
                    assert(all.take(k as int) =~= all);
                }
                break;
            },
        };
        assert(ev == all[k as int]);
        events.push(ev);
        proof {
            assert(events@ =~= all.take(k as int + 1));
        }
    }
    let r = xml_events_to_value(&events);
    proof {
        lemma_stack_never_empty(events@);
    }
    r
}

} // verus!
