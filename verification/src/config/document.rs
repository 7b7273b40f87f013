//! Documents in the KDL language: nodes with a name, values and children.

use kdl::KdlValue;
use vstd::prelude::*;
use crate::text;

verus! {

/// The plain values of a [`Value`].
#[verifier::ext_equal]
pub enum ValueView {
    Text(Seq<char>),
    Integer(i128),
    Bool(bool),
    Other,
}

/// A value in a document.
#[derive(Debug, PartialEq, Eq)]
pub enum Value {
    Text(String),
    Integer(i128),
    Bool(bool),
    /// A fraction or nothing at all.
    Other,
}

impl DeepView for Value {
    type V = ValueView;

    open spec fn deep_view(&self) -> ValueView {
        match self {
            Value::Text(s) => ValueView::Text(s@),
            Value::Integer(i) => ValueView::Integer(*i),
            Value::Bool(b) => ValueView::Bool(*b),
            Value::Other => ValueView::Other,
        }
    }
}

/// The plain values of an [`Entry`].
#[verifier::ext_equal]
pub struct EntryView {
    pub label: Option<Seq<char>>,
    pub name: Option<Seq<char>>,
    pub value: ValueView,
}

/// A value of a node: an argument, or a property where it has a name.
#[derive(Debug, PartialEq, Eq)]
pub struct Entry {
    /// The name as it is written.
    pub label: Option<String>,
    /// The name that is meant, without quotes.
    pub name: Option<String>,
    pub value: Value,
}

impl DeepView for Entry {
    type V = EntryView;

    open spec fn deep_view(&self) -> EntryView {
        EntryView {
            label: self.label.deep_view(),
            name: self.name.deep_view(),
            value: self.value.deep_view(),
        }
    }
}

/// The plain values of a [`Node`].
#[verifier::ext_equal]
pub struct NodeView {
    pub name: Seq<char>,
    pub entries: Seq<EntryView>,
    pub children: Option<Seq<NodeView>>,
}

/// A node of a document.
#[derive(Debug, PartialEq, Eq)]
pub struct Node {
    /// The name as it is written.
    pub name: String,
    pub entries: Vec<Entry>,
    /// The nodes between braces, where there are braces.
    pub children: Option<Vec<Node>>,
}

/// The plain values of a node.
pub open spec fn node_view(n: Node) -> NodeView
    decreases n,
{
    NodeView {
        name: n.name@,
        entries: n.entries.deep_view(),
        children: match n.children {
            Some(c) => Some(
                Seq::new(
                    c@.len(),
                    |i: int|
                        if 0 <= i < c@.len() {
                            node_view(c@[i])
                        } else {
                            NodeView { name: seq![], entries: seq![], children: None }
                        },
                ),
            ),
            None => None,
        },
    }
}

impl DeepView for Node {
    type V = NodeView;

    open spec fn deep_view(&self) -> NodeView {
        node_view(*self)
    }
}

/// The children of a node, as a list of nodes.
pub proof fn lemma_children(n: Node)
    ensures
        n.deep_view().children == n.children.deep_view(),
{
    if let Some(c) = n.children {
        assert(n.deep_view().children->0 =~= c.deep_view());
    }
}

// ---------------------------------------------------------------------------
// Reading the text of a document
// ---------------------------------------------------------------------------

/// A parsed document of the `kdl` crate.
#[verifier::external_type_specification]
#[verifier::external_body]
pub struct KdlDocumentItem(kdl::KdlDocument);

/// The nodes that a parsed document holds.
pub uninterp spec fn nodes_in(d: kdl::KdlDocument) -> Seq<NodeView>;

/// The nodes that a text stands for, or what is wrong with it.
pub uninterp spec fn kdl_document(s: Seq<char>) -> Result<Seq<NodeView>, Seq<char>>;

/// `kdl::KdlDocument::parse`, by way of `str::parse`: the document that a text
/// stands for, or the words of the `kdl::KdlError`. Which texts are accepted and
/// what they hold is left to the name `kdl_document`.
#[verifier::external_body]
fn parse_text(input: &str) -> (r: Result<kdl::KdlDocument, String>)
    ensures
        match r {
            Ok(d) => kdl_document(input@) == Ok::<Seq<NodeView>, Seq<char>>(nodes_in(d)),
            Err(e) => kdl_document(input@) == Err::<Seq<NodeView>, Seq<char>>(e@),
        },
{
    input.parse::<kdl::KdlDocument>().map_err(|e| e.to_string())
}

/// `kdl::KdlDocument::nodes`: the nodes of a document in their order, each with
/// its name as `Display` writes it, its entries and, where it has any, its
/// children.
#[verifier::external_body]
fn nodes_of(d: &kdl::KdlDocument) -> (r: Vec<Node>)
    ensures
        r.deep_view() == nodes_in(*d),
{
    d.nodes().iter().map(|n| Node {
        name: n.name().to_string(),
        entries: n.entries().iter().map(|e| Entry {
            label: e.name().map(|i| i.to_string()),
            name: e.name().map(|i| i.value().to_string()),
            value: match e.value() {
                KdlValue::String(s) => Value::Text(s.clone()),
                KdlValue::Integer(i) => Value::Integer(*i),
                KdlValue::Bool(b) => Value::Bool(*b),
                KdlValue::Float(_) => Value::Other,
                KdlValue::Null => Value::Other,
            },
        }).collect(),
        children: n.children().map(nodes_of),
    }).collect()
}

/// The nodes of a text, or what is wrong with it.
pub fn parse_document(input: &str) -> (r: Result<Vec<Node>, String>)
    ensures
        match r {
            Ok(v) => kdl_document(input@) == Ok::<Seq<NodeView>, Seq<char>>(v.deep_view()),
            Err(e) => kdl_document(input@) == Err::<Seq<NodeView>, Seq<char>>(e@),
        },
{
    match parse_text(input) {
        Ok(d) => Ok(nodes_of(&d)),
        Err(e) => Err(e),
    }
}

// ---------------------------------------------------------------------------
// Values of a node
// ---------------------------------------------------------------------------

/// The place of the first argument from `i` on.
pub open spec fn argument_at(es: Seq<EntryView>, i: int) -> Option<int>
    decreases es.len() - i,
{
    if i < 0 || i >= es.len() {
        None
    } else if es[i].name is None {
        Some(i)
    } else {
        argument_at(es, i + 1)
    }
}

/// The first argument of a node.
pub open spec fn argument(n: NodeView) -> Option<ValueView> {
    match argument_at(n.entries, 0) {
        Some(i) => Some(n.entries[i].value),
        None => None,
    }
}

/// The second argument of a node.
pub open spec fn second_argument(n: NodeView) -> Option<ValueView> {
    match argument_at(n.entries, 0) {
        Some(i) => match argument_at(n.entries, i + 1) {
            Some(j) => Some(n.entries[j].value),
            None => None,
        },
        None => None,
    }
}

/// The value of a property among the first `k` entries: the last one counts.
pub open spec fn property_of(es: Seq<EntryView>, key: Seq<char>, k: int) -> Option<ValueView>
    decreases k,
{
    if k <= 0 || k > es.len() {
        None
    } else if es[k - 1].name == Some(key) {
        Some(es[k - 1].value)
    } else {
        property_of(es, key, k - 1)
    }
}

/// The value of a property of a node.
pub open spec fn property(n: NodeView, key: Seq<char>) -> Option<ValueView> {
    property_of(n.entries, key, n.entries.len() as int)
}

/// A value that is a text.
pub open spec fn as_text(v: Option<ValueView>) -> Option<Seq<char>> {
    match v {
        Some(ValueView::Text(s)) => Some(s),
        _ => None,
    }
}

/// A value that is a whole number.
pub open spec fn as_int(v: Option<ValueView>) -> Option<i128> {
    match v {
        Some(ValueView::Integer(i)) => Some(i),
        _ => None,
    }
}

/// A value that is true or false.
pub open spec fn as_bool(v: Option<ValueView>) -> Option<bool> {
    match v {
        Some(ValueView::Bool(b)) => Some(b),
        _ => None,
    }
}

/// The first argument, where it is a text.
pub open spec fn first_text(n: NodeView) -> Option<Seq<char>> {
    as_text(argument(n))
}

/// The first argument as a switch; on where it is neither true nor false.
pub open spec fn switch(n: NodeView) -> bool {
    match as_bool(argument(n)) {
        Some(b) => b,
        None => true,
    }
}

/// The arguments from entry `i` on that are texts.
pub open spec fn texts_from(es: Seq<EntryView>, i: int) -> Seq<Seq<char>>
    decreases es.len() - i,
{
    if i < 0 || i >= es.len() {
        seq![]
    } else {
        match (es[i].name, es[i].value) {
            (None, ValueView::Text(s)) => seq![s] + texts_from(es, i + 1),
            _ => texts_from(es, i + 1),
        }
    }
}

/// The arguments of a node that are texts.
pub open spec fn texts(n: NodeView) -> Seq<Seq<char>> {
    texts_from(n.entries, 0)
}

/// A text, or the other one where there is none.
pub open spec fn or(t: Option<Seq<char>>, other: Seq<char>) -> Seq<char> {
    match t {
        Some(s) => s,
        None => other,
    }
}

/// A text, or the other one where there is none.
pub fn text_or(t: Option<String>, other: &str) -> (r: String)
    ensures
        r@ == or(t.deep_view(), other@),
{
    match t {
        Some(s) => s,
        None => other.to_owned(),
    }
}

impl Value {
    /// The text of the value.
    pub fn as_text(&self) -> (r: Option<String>)
        ensures
            r.deep_view() == as_text(Some(self.deep_view())),
    {
        match self {
            Value::Text(s) => Some(s.clone()),
            _ => None,
        }
    }

    /// The number that the value is.
    pub fn as_int(&self) -> (r: Option<i128>)
        ensures
            r == as_int(Some(self.deep_view())),
    {
        match self {
            Value::Integer(i) => Some(*i),
            _ => None,
        }
    }

    /// The truth value that the value is.
    pub fn as_bool(&self) -> (r: Option<bool>)
        ensures
            r == as_bool(Some(self.deep_view())),
    {
        match self {
            Value::Bool(b) => Some(*b),
            _ => None,
        }
    }
}

impl Node {
    /// The place of the first argument from `from` on.
    fn find_argument(&self, from: usize) -> (r: Option<usize>)
        ensures
            match r {
                Some(i) => i < self.entries.len() && argument_at(
                    self.entries.deep_view(),
                    from as int,
                ) == Some(i as int),
                None => argument_at(self.entries.deep_view(), from as int) is None,
            },
    {
        let ghost es = self.entries.deep_view();
        let mut i: usize = from;
        while i < self.entries.len()
            invariant
                es == self.entries.deep_view(),
                argument_at(es, from as int) == argument_at(es, i as int),
            decreases self.entries.len() - i,
        {
            assert(es[i as int] == self.entries@[i as int].deep_view());
            if self.entries[i].name.is_none() {
                return Some(i);
            }
            i = i + 1;
        }
        None
    }

    /// The first argument.
    pub fn argument(&self) -> (r: Option<&Value>)
        ensures
            match r {
                Some(v) => argument(self.deep_view()) == Some(v.deep_view()),
                None => argument(self.deep_view()) is None,
            },
    {
        match self.find_argument(0) {
            Some(i) => {
                assert(self.entries.deep_view()[i as int] == self.entries@[i as int].deep_view());
                Some(&self.entries[i].value)
            },
            None => None,
        }
    }

    /// The second argument.
    pub fn second_argument(&self) -> (r: Option<&Value>)
        ensures
            match r {
                Some(v) => second_argument(self.deep_view()) == Some(v.deep_view()),
                None => second_argument(self.deep_view()) is None,
            },
    {
        match self.find_argument(0) {
            Some(i) => match self.find_argument(i + 1) {
                Some(j) => {
                    assert(self.entries.deep_view()[j as int]
                        == self.entries@[j as int].deep_view());
                    Some(&self.entries[j].value)
                },
                None => None,
            },
            None => None,
        }
    }

    /// The value of a property.
    pub fn property(&self, key: &str) -> (r: Option<&Value>)
        ensures
            match r {
                Some(v) => property(self.deep_view(), key@) == Some(v.deep_view()),
                None => property(self.deep_view(), key@) is None,
            },
    {
        let ghost es = self.entries.deep_view();
        let mut k: usize = self.entries.len();
        while k > 0
            invariant
                k <= self.entries.len(),
                es == self.entries.deep_view(),
                property_of(es, key@, es.len() as int) == property_of(es, key@, k as int),
            decreases k,
        {
            assert(es[k - 1] == self.entries@[k - 1].deep_view());
            if let Some(name) = &self.entries[k - 1].name {
                if text::same(name.as_str(), key) {
                    return Some(&self.entries[k - 1].value);
                }
            }
            k = k - 1;
        }
        None
    }

    /// The first argument, where it is a text.
    pub fn first_text(&self) -> (r: Option<String>)
        ensures
            r.deep_view() == first_text(self.deep_view()),
    {
        match self.argument() {
            Some(v) => v.as_text(),
            None => None,
        }
    }

    /// The first argument, where it is a number.
    pub fn first_int(&self) -> (r: Option<i128>)
        ensures
            r == as_int(argument(self.deep_view())),
    {
        match self.argument() {
            Some(v) => v.as_int(),
            None => None,
        }
    }

    /// The first argument as a switch; on where it is neither true nor false.
    pub fn switch(&self) -> (r: bool)
        ensures
            r == switch(self.deep_view()),
    {
        match self.argument() {
            Some(Value::Bool(b)) => *b,
            _ => true,
        }
    }

    /// A property, where it is a text.
    pub fn text(&self, key: &str) -> (r: Option<String>)
        ensures
            r.deep_view() == as_text(property(self.deep_view(), key@)),
    {
        match self.property(key) {
            Some(v) => v.as_text(),
            None => None,
        }
    }

    /// A property, where it is a number.
    pub fn number(&self, key: &str) -> (r: Option<i128>)
        ensures
            r == as_int(property(self.deep_view(), key@)),
    {
        match self.property(key) {
            Some(v) => v.as_int(),
            None => None,
        }
    }

    /// A property that is true or false, or the other value.
    pub fn bool_or(&self, key: &str, other: bool) -> (r: bool)
        ensures
            r == (match as_bool(property(self.deep_view(), key@)) {
                Some(b) => b,
                None => other,
            }),
    {
        match self.property(key) {
            Some(Value::Bool(b)) => *b,
            _ => other,
        }
    }

    /// The arguments that are texts.
    pub fn texts(&self) -> (r: Vec<String>)
        ensures
            r.deep_view() == texts(self.deep_view()),
    {
        let ghost es = self.entries.deep_view();
        let mut out: Vec<String> = Vec::new();
        assert(out.deep_view() + texts_from(es, 0) =~= texts_from(es, 0));
        for i in 0..self.entries.len()
            invariant
                es == self.entries.deep_view(),
                out.deep_view() + texts_from(es, i as int) == texts_from(es, 0),
        {
            assert(es[i as int] == self.entries@[i as int].deep_view());
            let ghost before = out.deep_view();
            if self.entries[i].name.is_none() {
                if let Some(s) = self.entries[i].value.as_text() {
                    let ghost t = s@;
                    out.push(s);
                    assert(out.deep_view() =~= before.push(t));
                    assert(out.deep_view() + texts_from(es, i + 1) =~= before + (seq![t]
                        + texts_from(es, i + 1)));
                }
            }
        }
        assert(out.deep_view() =~= out.deep_view() + texts_from(es, es.len() as int));
        out
    }

    /// Tells whether the node has the name.
    pub fn is(&self, name: &str) -> (r: bool)
        ensures
            r == (self.deep_view().name == name@),
    {
        text::same(self.name.as_str(), name)
    }
}

// ---------------------------------------------------------------------------
// Nodes by their name
// ---------------------------------------------------------------------------

/// The nodes of a block; none where there is no block.
pub open spec fn block(n: NodeView) -> Seq<NodeView> {
    match n.children {
        Some(c) => c,
        None => seq![],
    }
}

/// The first node of the name from `i` on.
pub open spec fn first_named(ns: Seq<NodeView>, name: Seq<char>, i: int) -> Option<NodeView>
    decreases ns.len() - i,
{
    if i < 0 || i >= ns.len() {
        None
    } else if ns[i].name == name {
        Some(ns[i])
    } else {
        first_named(ns, name, i + 1)
    }
}

/// The last node of the name among the first `k`.
pub open spec fn last_named(ns: Seq<NodeView>, name: Seq<char>, k: int) -> Option<NodeView>
    decreases k,
{
    if k <= 0 || k > ns.len() {
        None
    } else if ns[k - 1].name == name {
        Some(ns[k - 1])
    } else {
        last_named(ns, name, k - 1)
    }
}

/// The last node of the name.
pub open spec fn last_of(ns: Seq<NodeView>, name: Seq<char>) -> Option<NodeView> {
    last_named(ns, name, ns.len() as int)
}

/// The first argument of the last node of the name, where it is a text.
pub open spec fn last_text(ns: Seq<NodeView>, name: Seq<char>) -> Option<Seq<char>> {
    match last_of(ns, name) {
        Some(n) => first_text(n),
        None => None,
    }
}

/// The first argument of the last node of the name, where it is a number.
pub open spec fn last_int(ns: Seq<NodeView>, name: Seq<char>) -> Option<i128> {
    match last_of(ns, name) {
        Some(n) => as_int(argument(n)),
        None => None,
    }
}

/// The last node of the name as a switch; off where there is none.
pub open spec fn last_switch(ns: Seq<NodeView>, name: Seq<char>) -> bool {
    match last_of(ns, name) {
        Some(n) => switch(n),
        None => false,
    }
}

/// The text arguments of all nodes of the name from `i` on.
pub open spec fn all_texts(ns: Seq<NodeView>, name: Seq<char>, i: int) -> Seq<Seq<char>>
    decreases ns.len() - i,
{
    if i < 0 || i >= ns.len() {
        seq![]
    } else if ns[i].name == name {
        texts(ns[i]) + all_texts(ns, name, i + 1)
    } else {
        all_texts(ns, name, i + 1)
    }
}

/// The first two text arguments of each node of the name from `i` on that has two.
pub open spec fn all_pairs(ns: Seq<NodeView>, name: Seq<char>, i: int) -> Seq<
    (Seq<char>, Seq<char>),
>
    decreases ns.len() - i,
{
    if i < 0 || i >= ns.len() {
        seq![]
    } else if ns[i].name == name && texts(ns[i]).len() >= 2 {
        seq![(texts(ns[i])[0], texts(ns[i])[1])] + all_pairs(ns, name, i + 1)
    } else {
        all_pairs(ns, name, i + 1)
    }
}

/// The nodes of a list, one by one.
pub fn refs<'a>(ns: &'a Vec<Node>) -> (r: Vec<&'a Node>)
    ensures
        r.deep_view() == ns.deep_view(),
{
    let mut out: Vec<&'a Node> = Vec::new();
    for i in 0..ns.len()
        invariant
            out@.len() == i,
            forall|k: int| 0 <= k < i ==> *(#[trigger] out@[k]) == ns@[k],
    {
        out.push(&ns[i]);
    }
    assert(out.deep_view() =~= ns.deep_view());
    out
}

/// The first node of the name.
pub fn find_first<'a>(ns: &Vec<&'a Node>, name: &str) -> (r: Option<&'a Node>)
    ensures
        match r {
            Some(n) => first_named(ns.deep_view(), name@, 0) == Some(n.deep_view()),
            None => first_named(ns.deep_view(), name@, 0) is None,
        },
{
    for i in 0..ns.len()
        invariant
            first_named(ns.deep_view(), name@, 0) == first_named(ns.deep_view(), name@, i as int),
    {
        assert(ns.deep_view()[i as int] == ns@[i as int].deep_view());
        if ns[i].is(name) {
            return Some(ns[i]);
        }
    }
    None
}

/// The last node of the name.
pub fn find_last<'a>(ns: &'a Vec<Node>, name: &str) -> (r: Option<&'a Node>)
    ensures
        match r {
            Some(n) => last_of(ns.deep_view(), name@) == Some(n.deep_view()),
            None => last_of(ns.deep_view(), name@) is None,
        },
{
    let mut k: usize = ns.len();
    while k > 0
        invariant
            k <= ns.len(),
            last_of(ns.deep_view(), name@) == last_named(ns.deep_view(), name@, k as int),
        decreases k,
    {
        assert(ns.deep_view()[k - 1] == ns@[k - 1].deep_view());
        if ns[k - 1].is(name) {
            return Some(&ns[k - 1]);
        }
        k = k - 1;
    }
    None
}

/// The first argument of the last node of the name, where it is a text.
pub fn text_of(ns: &Vec<Node>, name: &str) -> (r: Option<String>)
    ensures
        r.deep_view() == last_text(ns.deep_view(), name@),
{
    match find_last(ns, name) {
        Some(n) => n.first_text(),
        None => None,
    }
}

/// The first argument of the last node of the name, where it is a number.
pub fn int_of(ns: &Vec<Node>, name: &str) -> (r: Option<i128>)
    ensures
        r == last_int(ns.deep_view(), name@),
{
    match find_last(ns, name) {
        Some(n) => n.first_int(),
        None => None,
    }
}

/// The last node of the name as a switch; off where there is none.
pub fn switch_of(ns: &Vec<Node>, name: &str) -> (r: bool)
    ensures
        r == last_switch(ns.deep_view(), name@),
{
    match find_last(ns, name) {
        Some(n) => n.switch(),
        None => false,
    }
}

/// The text arguments of all nodes of the name.
pub fn texts_of(ns: &Vec<Node>, name: &str) -> (r: Vec<String>)
    ensures
        r.deep_view() == all_texts(ns.deep_view(), name@, 0),
{
    let ghost all = ns.deep_view();
    let mut out: Vec<String> = Vec::new();
    assert(out.deep_view() + all_texts(all, name@, 0) =~= all_texts(all, name@, 0));
    for i in 0..ns.len()
        invariant
            all == ns.deep_view(),
            out.deep_view() + all_texts(all, name@, i as int) == all_texts(all, name@, 0),
    {
        assert(all[i as int] == ns@[i as int].deep_view());
        let ghost before = out.deep_view();
        if ns[i].is(name) {
            text::extend(&mut out, ns[i].texts());
            assert(out.deep_view() + all_texts(all, name@, i + 1) =~= before + (texts(
                all[i as int],
            ) + all_texts(all, name@, i + 1)));
        }
    }
    assert(out.deep_view() =~= out.deep_view() + all_texts(all, name@, all.len() as int));
    out
}

/// The first two text arguments of each node of the name that has two.
pub fn pairs_of(ns: &Vec<Node>, name: &str) -> (r: Vec<(String, String)>)
    ensures
        r.deep_view() == all_pairs(ns.deep_view(), name@, 0),
{
    let ghost all = ns.deep_view();
    let mut out: Vec<(String, String)> = Vec::new();
    assert(out.deep_view() + all_pairs(all, name@, 0) =~= all_pairs(all, name@, 0));
    for i in 0..ns.len()
        invariant
            all == ns.deep_view(),
            out.deep_view() + all_pairs(all, name@, i as int) == all_pairs(all, name@, 0),
    {
        assert(all[i as int] == ns@[i as int].deep_view());
        let ghost before = out.deep_view();
        if ns[i].is(name) {
            let t = ns[i].texts();
            if t.len() >= 2 {
                let ghost p = (texts(all[i as int])[0], texts(all[i as int])[1]);
                assert(t@[0]@ == t.deep_view()[0] && t@[1]@ == t.deep_view()[1]);
                out.push((t[0].clone(), t[1].clone()));
                assert(out.deep_view() =~= before.push(p));
                assert(out.deep_view() + all_pairs(all, name@, i + 1) =~= before + (seq![p]
                    + all_pairs(all, name@, i + 1)));
            }
        }
    }
    assert(out.deep_view() =~= out.deep_view() + all_pairs(all, name@, all.len() as int));
    out
}

/// The last property of a name counts, and properties of other names and arguments do not
/// change it; the first argument stays the first, and texts stand in their order.
pub proof fn lemma_one_more_entry(n: NodeView, e: EntryView, key: Seq<char>)
    ensures
        ({
            let m = NodeView { entries: n.entries.push(e), ..n };
            &&& e.name == Some(key) ==> property(m, key) == Some(e.value)
            &&& e.name != Some(key) ==> property(m, key) == property(n, key)
            &&& argument(n) is Some || e.name is Some ==> argument(m) == argument(n)
            &&& argument(n) is None && e.name is None ==> argument(m) == Some(e.value)
            &&& e.name is Some || !(e.value is Text) ==> texts(m) == texts(n)
            &&& e.name is None && (e.value matches ValueView::Text(s)) ==> texts(m) == texts(
                n,
            ).push(e.value->Text_0)
        }),
{
    let es = n.entries;
    lemma_property_prefix(es, e, key, es.len() as int);
    lemma_argument_behind(es, e, 0);
    lemma_texts_behind(es, e, 0);
}

/// The properties among the first entries do not depend on what follows.
proof fn lemma_property_prefix(es: Seq<EntryView>, e: EntryView, key: Seq<char>, k: int)
    requires
        k <= es.len(),
    ensures
        property_of(es.push(e), key, k) == property_of(es, key, k),
    decreases k,
{
    if 0 < k {
        assert(es.push(e)[k - 1] == es[k - 1]);
        lemma_property_prefix(es, e, key, k - 1);
    }
}

/// The first argument with one more entry behind.
proof fn lemma_argument_behind(es: Seq<EntryView>, e: EntryView, i: int)
    requires
        0 <= i <= es.len(),
    ensures
        argument_at(es.push(e), i) == match argument_at(es, i) {
            Some(j) => Some(j),
            None => if e.name is None {
                Some(es.len() as int)
            } else {
                None
            },
        },
        argument_at(es, i) matches Some(j) ==> i <= j < es.len(),
    decreases es.len() - i,
{
    if i < es.len() {
        assert(es.push(e)[i] == es[i]);
        lemma_argument_behind(es, e, i + 1);
    } else {
        assert(argument_at(es.push(e), i + 1) is None);
    }
}

/// The texts with one more entry behind.
proof fn lemma_texts_behind(es: Seq<EntryView>, e: EntryView, i: int)
    requires
        0 <= i <= es.len(),
    ensures
        texts_from(es.push(e), i) == match (e.name, e.value) {
            (None, ValueView::Text(s)) => texts_from(es, i).push(s),
            _ => texts_from(es, i),
        },
    decreases es.len() - i,
{
    let all = es.push(e);
    if i < es.len() {
        assert(all[i] == es[i]);
        lemma_texts_behind(es, e, i + 1);
        assert(texts_from(all, i) =~= match (e.name, e.value) {
            (None, ValueView::Text(s)) => texts_from(es, i).push(s),
            _ => texts_from(es, i),
        });
    } else {
        assert(texts_from(all, i + 1) =~= seq![]);
        assert(texts_from(es, i) =~= seq![]);
        if let ValueView::Text(s) = e.value {
            assert(seq![s] + Seq::<Seq<char>>::empty() =~= Seq::<Seq<char>>::empty().push(s));
        }
    }
}

/// Of several nodes of a name the last counts.
pub proof fn lemma_last_node_counts(ns: Seq<NodeView>, n: NodeView, name: Seq<char>)
    ensures
        n.name == name ==> last_of(ns.push(n), name) == Some(n),
        n.name != name ==> last_of(ns.push(n), name) == last_of(ns, name),
{
    lemma_last_prefix(ns, n, name, ns.len() as int);
}

/// The nodes among the first do not depend on what follows.
proof fn lemma_last_prefix(ns: Seq<NodeView>, n: NodeView, name: Seq<char>, k: int)
    requires
        k <= ns.len(),
    ensures
        last_named(ns.push(n), name, k) == last_named(ns, name, k),
    decreases k,
{
    if 0 < k {
        assert(ns.push(n)[k - 1] == ns[k - 1]);
        lemma_last_prefix(ns, n, name, k - 1);
    }
}

/// A switch is on unless it is said to be off.
pub proof fn lemma_switch(n: NodeView)
    ensures
        !switch(n) <==> argument(n) == Some(ValueView::Bool(false)),
{
}

} // verus!
