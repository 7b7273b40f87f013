//! Values that the steps of a request hand on to each other.

use vstd::prelude::*;
use crate::sorted_map;
use crate::sorted_map::SortedMap;
use crate::text;

verus! {

/// The plain values of a [`Stored`].
#[verifier::ext_equal]
pub enum StoredView {
    Text(Seq<char>),
    Number(u64),
    Small(u32),
    Flag(bool),
    Bytes(Seq<u8>),
}

/// A value of one of the types that can be handed on.
#[derive(Debug, PartialEq, Eq)]
pub enum Stored {
    Text(String),
    Number(u64),
    Small(u32),
    Flag(bool),
    Bytes(Vec<u8>),
}

impl DeepView for Stored {
    type V = StoredView;

    open spec fn deep_view(&self) -> StoredView {
        match self {
            Stored::Text(t) => StoredView::Text(t.deep_view()),
            Stored::Number(n) => StoredView::Number(n.deep_view()),
            Stored::Small(n) => StoredView::Small(n.deep_view()),
            Stored::Flag(b) => StoredView::Flag(b.deep_view()),
            Stored::Bytes(v) => StoredView::Bytes(v.deep_view()),
        }
    }
}

/// The types of values that can be handed on.
pub enum StoredType {
    Text,
    Number,
    Small,
    Flag,
    Bytes,
}

/// The type of a stored value.
pub open spec fn type_of(s: StoredView) -> StoredType {
    match s {
        StoredView::Text(_) => StoredType::Text,
        StoredView::Number(_) => StoredType::Number,
        StoredView::Small(_) => StoredType::Small,
        StoredView::Flag(_) => StoredType::Flag,
        StoredView::Bytes(_) => StoredType::Bytes,
    }
}

/// The key for the one value of a type.
pub open spec fn key_of(t: StoredType) -> Seq<char> {
    match t {
        StoredType::Text => "String"@,
        StoredType::Number => "u64"@,
        StoredType::Small => "u32"@,
        StoredType::Flag => "bool"@,
        StoredType::Bytes => "Vec<u8>"@,
    }
}

/// A type whose values can be handed on.
pub trait Storable: DeepView + Sized {
    /// The value as it is stored.
    spec fn stored(v: Self::V) -> StoredView;

    /// What a stored value is as one of this type, if it is one.
    spec fn read(s: StoredView) -> Option<Self::V>;

    /// The type that this one is.
    spec fn stored_type() -> StoredType;

    /// A value that was stored is read back, and nothing else is read as it; what is
    /// of this type is read, and nothing else.
    proof fn lemma_read_back(v: Self::V, s: StoredView)
        ensures
            Self::read(Self::stored(v)) == Some(v),
            Self::read(s) == Some(v) ==> s == Self::stored(v),
            Self::read(s) is Some <==> type_of(s) == Self::stored_type(),
            type_of(Self::stored(v)) == Self::stored_type(),
    ;

    /// Stores a value.
    fn pack(self) -> (s: Stored)
        ensures
            s.deep_view() == Self::stored(self.deep_view()),
    ;

    /// The stored value as one of this type.
    fn unpack(s: &Stored) -> (r: Option<&Self>)
        ensures
            r.deep_view() == Self::read(s.deep_view()),
    ;

    /// Takes the stored value as one of this type.
    fn take(s: Stored) -> (r: Option<Self>)
        ensures
            r.deep_view() == Self::read(s.deep_view()),
    ;

    /// The stored value as one of this type, to be changed.
    fn unpack_mut(s: &mut Stored) -> (r: Option<&mut Self>)
        ensures
            match r {
                Some(v) => Self::read(old(s).deep_view()) == Some((*v).deep_view())
                    && final(s).deep_view() == Self::stored((*final(v)).deep_view()),
                None => Self::read(old(s).deep_view()) is None && final(s).deep_view() == old(s).deep_view(),
            },
    ;

    /// The key for the one value of this type.
    fn key() -> (r: String)
        ensures
            r@ == key_of(Self::stored_type()),
    ;
}

impl Storable for String {
    open spec fn stored(v: Seq<char>) -> StoredView {
        StoredView::Text(v)
    }

    open spec fn read(s: StoredView) -> Option<Seq<char>> {
        match s {
            StoredView::Text(v) => Some(v),
            _ => None,
        }
    }

    open spec fn stored_type() -> StoredType {
        StoredType::Text
    }

    proof fn lemma_read_back(v: Seq<char>, s: StoredView) {
    }

    fn pack(self) -> (s: Stored) {
        Stored::Text(self)
    }

    fn unpack(s: &Stored) -> (r: Option<&String>) {
        match s {
            Stored::Text(v) => Some(v),
            _ => None,
        }
    }

    fn take(s: Stored) -> (r: Option<String>) {
        match s {
            Stored::Text(v) => Some(v),
            _ => None,
        }
    }

    fn unpack_mut(s: &mut Stored) -> (r: Option<&mut String>) {
        match s {
            Stored::Text(v) => Some(v),
            _ => None,
        }
    }

    fn key() -> (r: String) {
        "String".to_owned()
    }
}

impl Storable for u64 {
    open spec fn stored(v: u64) -> StoredView {
        StoredView::Number(v)
    }

    open spec fn read(s: StoredView) -> Option<u64> {
        match s {
            StoredView::Number(v) => Some(v),
            _ => None,
        }
    }

    open spec fn stored_type() -> StoredType {
        StoredType::Number
    }

    proof fn lemma_read_back(v: u64, s: StoredView) {
    }

    fn pack(self) -> (s: Stored) {
        Stored::Number(self)
    }

    fn unpack(s: &Stored) -> (r: Option<&u64>) {
        match s {
            Stored::Number(v) => Some(v),
            _ => None,
        }
    }

    fn take(s: Stored) -> (r: Option<u64>) {
        match s {
            Stored::Number(v) => Some(v),
            _ => None,
        }
    }

    fn unpack_mut(s: &mut Stored) -> (r: Option<&mut u64>) {
        match s {
            Stored::Number(v) => Some(v),
            _ => None,
        }
    }

    fn key() -> (r: String) {
        "u64".to_owned()
    }
}

impl Storable for u32 {
    open spec fn stored(v: u32) -> StoredView {
        StoredView::Small(v)
    }

    open spec fn read(s: StoredView) -> Option<u32> {
        match s {
            StoredView::Small(v) => Some(v),
            _ => None,
        }
    }

    open spec fn stored_type() -> StoredType {
        StoredType::Small
    }

    proof fn lemma_read_back(v: u32, s: StoredView) {
    }

    fn pack(self) -> (s: Stored) {
        Stored::Small(self)
    }

    fn unpack(s: &Stored) -> (r: Option<&u32>) {
        match s {
            Stored::Small(v) => Some(v),
            _ => None,
        }
    }

    fn take(s: Stored) -> (r: Option<u32>) {
        match s {
            Stored::Small(v) => Some(v),
            _ => None,
        }
    }

    fn unpack_mut(s: &mut Stored) -> (r: Option<&mut u32>) {
        match s {
            Stored::Small(v) => Some(v),
            _ => None,
        }
    }

    fn key() -> (r: String) {
        "u32".to_owned()
    }
}

impl Storable for bool {
    open spec fn stored(v: bool) -> StoredView {
        StoredView::Flag(v)
    }

    open spec fn read(s: StoredView) -> Option<bool> {
        match s {
            StoredView::Flag(v) => Some(v),
            _ => None,
        }
    }

    open spec fn stored_type() -> StoredType {
        StoredType::Flag
    }

    proof fn lemma_read_back(v: bool, s: StoredView) {
    }

    fn pack(self) -> (s: Stored) {
        Stored::Flag(self)
    }

    fn unpack(s: &Stored) -> (r: Option<&bool>) {
        match s {
            Stored::Flag(v) => Some(v),
            _ => None,
        }
    }

    fn take(s: Stored) -> (r: Option<bool>) {
        match s {
            Stored::Flag(v) => Some(v),
            _ => None,
        }
    }

    fn unpack_mut(s: &mut Stored) -> (r: Option<&mut bool>) {
        match s {
            Stored::Flag(v) => Some(v),
            _ => None,
        }
    }

    fn key() -> (r: String) {
        "bool".to_owned()
    }
}

impl Storable for Vec<u8> {
    open spec fn stored(v: Seq<u8>) -> StoredView {
        StoredView::Bytes(v)
    }

    open spec fn read(s: StoredView) -> Option<Seq<u8>> {
        match s {
            StoredView::Bytes(v) => Some(v),
            _ => None,
        }
    }

    open spec fn stored_type() -> StoredType {
        StoredType::Bytes
    }

    proof fn lemma_read_back(v: Seq<u8>, s: StoredView) {
    }

    fn pack(self) -> (s: Stored) {
        Stored::Bytes(self)
    }

    fn unpack(s: &Stored) -> (r: Option<&Vec<u8>>) {
        match s {
            Stored::Bytes(v) => Some(v),
            _ => None,
        }
    }

    fn take(s: Stored) -> (r: Option<Vec<u8>>) {
        match s {
            Stored::Bytes(v) => Some(v),
            _ => None,
        }
    }

    fn unpack_mut(s: &mut Stored) -> (r: Option<&mut Vec<u8>>) {
        match s {
            Stored::Bytes(v) => Some(v),
            _ => None,
        }
    }

    fn key() -> (r: String) {
        "Vec<u8>".to_owned()
    }
}

/// The plain values of a [`Depot`].
#[verifier::ext_equal]
pub struct DepotView {
    pub named: Values,
    pub typed: Values,
}

/// The values of a request, by name or by type.
#[derive(Debug, PartialEq, Eq)]
pub struct Depot {
    named: SortedMap<String, Stored>,
    typed: SortedMap<String, Stored>,
}

/// Values under their keys.
pub type Values = Seq<(Seq<char>, StoredView)>;

impl DeepView for Depot {
    type V = DepotView;

    closed spec fn deep_view(&self) -> DepotView {
        DepotView { named: self.named.deep_view(), typed: self.typed.deep_view() }
    }
}

/// The value under a key as one of the type, if there is one and it is of the type.
pub open spec fn value_as<T: Storable>(m: Values, key: Seq<char>) -> Option<T::V> {
    match sorted_map::lookup(m, key) {
        Some(s) => T::read(s),
        None => None,
    }
}

/// No values.
pub open spec fn nothing() -> DepotView {
    DepotView { named: seq![], typed: seq![] }
}

/// The values with one more by name.
pub open spec fn with_named(d: DepotView, key: Seq<char>, s: StoredView) -> DepotView {
    DepotView { named: sorted_map::put::<String, StoredView>(d.named, key, s), ..d }
}

/// The values without that with a name.
pub open spec fn without_named(d: DepotView, key: Seq<char>) -> DepotView {
    DepotView { named: sorted_map::without(d.named, key), ..d }
}

/// The values with one more by type.
pub open spec fn with_typed(d: DepotView, s: StoredView) -> DepotView {
    DepotView {
        typed: sorted_map::put::<String, StoredView>(d.typed, key_of(type_of(s)), s),
        ..d
    }
}

/// The values without that of a type.
pub open spec fn without_typed(d: DepotView, t: StoredType) -> DepotView {
    DepotView { typed: sorted_map::without(d.typed, key_of(t)), ..d }
}

impl Default for Depot {
    fn default() -> (d: Depot)
        ensures
            d.deep_view() == nothing(),
    {
        Depot::new()
    }
}

impl Depot {
    /// No values.
    pub fn new() -> (d: Depot)
        ensures
            d.deep_view() == nothing(),
    {
        let d = Depot { named: SortedMap::new(), typed: SortedMap::new() };
        assert(d.deep_view() =~= nothing());
        d
    }

    /// Stores a value by its type, and hands the values on for more.
    pub fn inject<V: Storable>(&mut self, value: V) -> (d: &mut Depot)
        ensures
            *final(self) == *final(d),
            (*d).deep_view() == with_typed(old(self).deep_view(), V::stored(value.deep_view())),
    {
        proof {
            V::lemma_read_back(value.deep_view(), V::stored(value.deep_view()));
        }
        self.typed.insert(V::key(), value.pack());
        self
    }

    /// The value of the type.
    pub fn obtain<T: Storable>(&self) -> (r: Option<&T>)
        ensures
            r.deep_view() == value_as::<T>(self.deep_view().typed, key_of(T::stored_type())),
    {
        match self.typed.get(&T::key()) {
            Some(s) => T::unpack(s),
            None => None,
        }
    }

    /// Takes the value of the type out.
    pub fn scrape<T: Storable>(&mut self) -> (r: Option<T>)
        ensures
            r.deep_view() == value_as::<T>(
                old(self).deep_view().typed,
                key_of(T::stored_type()),
            ),
            final(self).deep_view() == without_typed(old(self).deep_view(), T::stored_type()),
    {
        match self.typed.remove(&T::key()) {
            Some(s) => T::take(s),
            None => None,
        }
    }

    /// Stores a value by name, and hands the values on for more.
    pub fn insert<V: Storable>(&mut self, key: &str, value: V) -> (d: &mut Depot)
        ensures
            *final(self) == *final(d),
            (*d).deep_view() == with_named(
                old(self).deep_view(),
                key@,
                V::stored(value.deep_view()),
            ),
    {
        self.named.insert(key.to_owned(), value.pack());
        self
    }

    /// The value with the name, where it is of the type.
    pub fn get<V: Storable>(&self, key: &str) -> (r: Option<&V>)
        ensures
            r.deep_view() == value_as::<V>(self.deep_view().named, key@),
    {
        match self.named.get(&key.to_owned()) {
            Some(s) => V::unpack(s),
            None => None,
        }
    }

    /// Takes the value with the name out. It is gone even where it is of another type.
    pub fn remove<V: Storable>(&mut self, key: &str) -> (r: Option<V>)
        ensures
            r.deep_view() == value_as::<V>(old(self).deep_view().named, key@),
            final(self).deep_view() == without_named(old(self).deep_view(), key@),
    {
        match self.named.remove(&key.to_owned()) {
            Some(s) => V::take(s),
            None => None,
        }
    }

    /// Tells whether there is a value with the name.
    ///
    /// Law: [`lemma_names_over_time`].
    pub fn contains_key(&self, key: &str) -> (r: bool)
        ensures
            r == (sorted_map::lookup(self.deep_view().named, key@) is Some),
    {
        self.named.get(&key.to_owned()).is_some()
    }

    /// Tells whether there are no values.
    pub fn is_empty(&self) -> (r: bool)
        ensures
            r == (self.deep_view().named.len() == 0 && self.deep_view().typed.len() == 0),
    {
        self.named.len() == 0 && self.typed.len() == 0
    }

    /// The value with the name, where it is of the type, to be changed.
    pub fn get_mut<V: Storable>(&mut self, key: &str) -> (r: Option<&mut V>)
        ensures
            match r {
                Some(v) => value_as::<V>(old(self).deep_view().named, key@) == Some(
                    (*v).deep_view(),
                ) && final(self).deep_view() == (DepotView {
                    named: set_at(
                        old(self).deep_view().named,
                        key@,
                        V::stored((*final(v)).deep_view()),
                    ),
                    ..old(self).deep_view()
                }),
                None => value_as::<V>(old(self).deep_view().named, key@) is None && final(self).deep_view()
                    == old(self).deep_view(),
            },
    {
        let i: usize = match self.named.find(&key.to_owned()) {
            Some(i) => i,
            None => return None,
        };
        V::unpack_mut(&mut self.named.entries[i].1)
    }
}

/// The values with another in the place of that under a key.
pub open spec fn set_at(m: Values, key: Seq<char>, s: StoredView) -> Values {
    match sorted_map::position(m, key, 0) {
        Some(i) => m.update(i, (m[i].0, s)),
        None => m,
    }
}

/// A value that was stored is there afterwards as it was, and no other key is touched.
pub proof fn lemma_stored_then_got<V: Storable>(m: Values, key: Seq<char>, v: V::V, other: Seq<char>)
    requires
        sorted_map::ascending::<String, StoredView>(m),
        other != key,
    ensures
        ({
            let n = sorted_map::put::<String, StoredView>(m, key, V::stored(v));
            &&& value_as::<V>(n, key) == Some(v)
            &&& sorted_map::lookup(n, other) == sorted_map::lookup(m, other)
        }),
{
    sorted_map::lemma_put::<String, StoredView>(m, key, V::stored(v));
    V::lemma_read_back(v, V::stored(v));
}

/// A value that was taken out is gone.
pub proof fn lemma_taken_out(m: Values, key: Seq<char>)
    requires
        sorted_map::ascending::<String, StoredView>(m),
    ensures
        sorted_map::lookup(sorted_map::without(m, key), key) is None,
{
    sorted_map::lemma_without::<String, StoredView>(m, key);
}

/// Two types have different keys.
proof fn lemma_keys_differ(a: StoredType, b: StoredType)
    requires
        a != b,
    ensures
        key_of(a) != key_of(b),
{
    reveal_strlit("String");
    reveal_strlit("u64");
    reveal_strlit("u32");
    reveal_strlit("bool");
    reveal_strlit("Vec<u8>");
    let (x, y) = (key_of(a), key_of(b));
    if x.len() == y.len() && x == y {
        assert(x[0] == y[0] && x[1] == y[1]);
    }
}

/// Values of two types do not mix: a value of the one is not read as one of the other,
/// and storing it by its type leaves the value of the other type, and all values with
/// names, as they are.
pub proof fn lemma_types_apart<A: Storable, B: Storable>(d: DepotView, v: A::V)
    requires
        sorted_map::ascending::<String, StoredView>(d.typed),
        A::stored_type() != B::stored_type(),
    ensures
        B::read(A::stored(v)) is None,
        key_of(A::stored_type()) != key_of(B::stored_type()),
        with_typed(d, A::stored(v)).named == d.named,
        value_as::<B>(with_typed(d, A::stored(v)).typed, key_of(B::stored_type())) == value_as::<
            B,
        >(d.typed, key_of(B::stored_type())),
{
    let w: B::V = arbitrary();
    A::lemma_read_back(v, A::stored(v));
    B::lemma_read_back(w, A::stored(v));
    lemma_keys_differ(A::stored_type(), B::stored_type());
    sorted_map::lemma_put::<String, StoredView>(d.typed, key_of(A::stored_type()), A::stored(v));
}

// ---------------------------------------------------------------------------
// Values over time
// ---------------------------------------------------------------------------

/// What happens to the values of a request.
pub enum DepotEvent {
    /// A value is stored by name.
    Inserted(Seq<char>, StoredView),
    /// The value with a name is taken out.
    Removed(Seq<char>),
    /// A value is stored by its type.
    Injected(StoredView),
    /// The value of a type is taken out.
    Scraped(StoredType),
}

/// The values after what has happened since there were none.
pub open spec fn after(events: Seq<DepotEvent>) -> DepotView
    decreases events.len(),
{
    if events.len() == 0 {
        nothing()
    } else {
        let d = after(events.drop_last());
        match events.last() {
            DepotEvent::Inserted(key, s) => with_named(d, key, s),
            DepotEvent::Removed(key) => without_named(d, key),
            DepotEvent::Injected(s) => with_typed(d, s),
            DepotEvent::Scraped(t) => without_typed(d, t),
        }
    }
}

/// The value that stands under a name at the end: it was stored as event `i`, and the
/// name was neither stored under nor taken out again.
pub open spec fn stands(events: Seq<DepotEvent>, key: Seq<char>, i: int) -> bool {
    &&& 0 <= i < events.len()
    &&& events[i] matches DepotEvent::Inserted(k, _) && k == key
    &&& forall|j: int|
        i < j < events.len() ==> (#[trigger] events[j]) != DepotEvent::Removed(key) && !(
        events[j] matches DepotEvent::Inserted(k, _) && k == key)
}

/// A value of a type was stored as event `i`, and the type was neither stored nor taken
/// out again.
pub open spec fn type_stands(events: Seq<DepotEvent>, t: StoredType, i: int) -> bool {
    &&& 0 <= i < events.len()
    &&& events[i] matches DepotEvent::Injected(s) && type_of(s) == t
    &&& forall|j: int|
        i < j < events.len() ==> (#[trigger] events[j]) != DepotEvent::Scraped(t) && !(
        events[j] matches DepotEvent::Injected(s) && type_of(s) == t)
}

/// Of any history, the values with names are those that were stored last under their
/// name and not taken out since, and so are the values by type.
pub proof fn lemma_values_over_time(events: Seq<DepotEvent>)
    ensures
        sorted_map::ascending::<String, StoredView>(after(events).named),
        sorted_map::ascending::<String, StoredView>(after(events).typed),
        forall|key: Seq<char>|
            (#[trigger] sorted_map::lookup(after(events).named, key)) is Some <==> exists|i: int|
                stands(events, key, i),
        forall|key: Seq<char>, i: int| #[trigger]
            stands(events, key, i) ==> sorted_map::lookup(after(events).named, key) == Some(
                events[i]->Inserted_1,
            ),
        forall|t: StoredType|
            (sorted_map::lookup(after(events).typed, #[trigger] key_of(t))) is Some <==> exists|
                i: int,
            | type_stands(events, t, i),
        forall|key: Seq<char>|
            (#[trigger] sorted_map::lookup(after(events).typed, key)) is Some ==> exists|
                t: StoredType,
            | key == key_of(t),
    decreases events.len(),
{
    if events.len() > 0 {
        let before = events.drop_last();
        let n = before.len() as int;
        let d = after(before);
        let e = events.last();
        lemma_values_over_time(before);
        match e {
            DepotEvent::Inserted(key, s) => {
                sorted_map::lemma_put::<String, StoredView>(d.named, key, s);
            },
            DepotEvent::Removed(key) => {
                sorted_map::lemma_without::<String, StoredView>(d.named, key);
            },
            DepotEvent::Injected(s) => {
                sorted_map::lemma_put::<String, StoredView>(d.typed, key_of(type_of(s)), s);
            },
            DepotEvent::Scraped(t) => {
                sorted_map::lemma_without::<String, StoredView>(d.typed, key_of(t));
            },
        }
        assert forall|key: Seq<char>, i: int| #[trigger] stands(events, key, i) implies if i < n {
            stands(before, key, i)
        } else {
            true
        } by {
            if i < n {
                assert forall|j: int| i < j < n implies (#[trigger] before[j])
                    != DepotEvent::Removed(key) && !(before[j] matches DepotEvent::Inserted(k, _)
                    && k == key) by {
                    assert(events[j] == before[j]);
                }
                assert(events[i] == before[i]);
            }
        }
        assert forall|key: Seq<char>, i: int| #[trigger] stands(before, key, i) implies stands(
            events,
            key,
            i,
        ) == (e != DepotEvent::Removed(key) && !(e matches DepotEvent::Inserted(k, _) && k
            == key)) by {
            assert(events[i] == before[i]);
            assert(events[n] == e);
            if e != DepotEvent::Removed(key) && !(e matches DepotEvent::Inserted(k, _) && k
                == key) {
                assert forall|j: int| i < j < events.len() implies (#[trigger] events[j])
                    != DepotEvent::Removed(key) && !(events[j] matches DepotEvent::Inserted(k, _)
                    && k == key) by {
                    if j < n {
                        assert(events[j] == before[j]);
                    }
                }
            }
        }
        assert forall|key: Seq<char>, i: int| #[trigger] stands(events, key, i) implies
            sorted_map::lookup(after(events).named, key) == Some(events[i]->Inserted_1) by {
            if i < n {
                assert(stands(before, key, i));
                assert(events[i] == before[i]);
                assert(events[n] == e);
            }
        }
        assert forall|key: Seq<char>|
            (#[trigger] sorted_map::lookup(after(events).named, key)) is Some <==> exists|i: int|
                stands(events, key, i) by {
            if sorted_map::lookup(after(events).named, key) is Some {
                if e matches DepotEvent::Inserted(k, _) && k == key {
                    assert(stands(events, key, n));
                } else {
                    assert(sorted_map::lookup(d.named, key) is Some);
                    let i = choose|i: int| stands(before, key, i);
                    assert(stands(events, key, i));
                }
            }
        }
        assert forall|t: StoredType|
            (sorted_map::lookup(after(events).typed, #[trigger] key_of(t))) is Some <==> exists|
                i: int,
            | type_stands(events, t, i) by {
            lemma_type_over_time(events, t);
        }
        assert forall|key: Seq<char>|
            (#[trigger] sorted_map::lookup(after(events).typed, key)) is Some implies exists|
            t: StoredType,
        | key == key_of(t) by {
            if !(e matches DepotEvent::Injected(s) && key == key_of(type_of(s))) {
                assert(sorted_map::lookup(d.typed, key) is Some);
            }
        }
    }
}

proof fn lemma_type_over_time(events: Seq<DepotEvent>, t: StoredType)
    ensures
        sorted_map::ascending::<String, StoredView>(after(events).typed),
        sorted_map::lookup(after(events).typed, key_of(t)) is Some <==> exists|i: int|
            type_stands(events, t, i),
    decreases events.len(),
{
    if events.len() > 0 {
        let before = events.drop_last();
        let n = before.len() as int;
        let d = after(before);
        let e = events.last();
        lemma_type_over_time(before, t);
        match e {
            DepotEvent::Injected(s) => {
                sorted_map::lemma_put::<String, StoredView>(d.typed, key_of(type_of(s)), s);
                if type_of(s) != t {
                    lemma_keys_differ(type_of(s), t);
                }
            },
            DepotEvent::Scraped(x) => {
                sorted_map::lemma_without::<String, StoredView>(d.typed, key_of(x));
                if x != t {
                    lemma_keys_differ(x, t);
                }
            },
            _ => {},
        }
        let mine = e == DepotEvent::Scraped(t) || (e matches DepotEvent::Injected(s) && type_of(s)
            == t);
        assert(events[n] == e);
        if exists|i: int| type_stands(events, t, i) {
            let i = choose|i: int| type_stands(events, t, i);
            if i < n {
                assert(events[i] == before[i]);
                assert forall|j: int| i < j < n implies (#[trigger] before[j])
                    != DepotEvent::Scraped(t) && !(before[j] matches DepotEvent::Injected(s)
                    && type_of(s) == t) by {
                    assert(events[j] == before[j]);
                }
                assert(type_stands(before, t, i));
            }
        }
        if !mine && exists|i: int| type_stands(before, t, i) {
            let i = choose|i: int| type_stands(before, t, i);
            assert(events[i] == before[i]);
            assert forall|j: int| i < j < events.len() implies (#[trigger] events[j])
                != DepotEvent::Scraped(t) && !(events[j] matches DepotEvent::Injected(s)
                && type_of(s) == t) by {
                if j < n {
                    assert(events[j] == before[j]);
                }
            }
            assert(type_stands(events, t, i));
        }
        if e matches DepotEvent::Injected(s) && type_of(s) == t {
            assert(type_stands(events, t, n));
        }
    }
}

/// Of any history, a name is there exactly where it was stored under after it was last
/// taken out, whatever the type of the value; and there are no values exactly where no
/// name and no type is there.
pub proof fn lemma_names_over_time(events: Seq<DepotEvent>)
    ensures
        forall|key: Seq<char>|
            (#[trigger] sorted_map::lookup(after(events).named, key)) is Some <==> exists|i: int|
                #![trigger events[i]]
                0 <= i < events.len() && (events[i] matches DepotEvent::Inserted(k, _) && k == key)
                    && forall|j: int|
                    i < j < events.len() ==> #[trigger] events[j] != DepotEvent::Removed(key),
        after(events).named.len() == 0 <==> forall|key: Seq<char>| #[trigger]
            sorted_map::lookup(after(events).named, key) is None,
        after(events).typed.len() == 0 <==> forall|t: StoredType|
            sorted_map::lookup(after(events).typed, #[trigger] key_of(t)) is None,
        (forall|i: int|
            0 <= i < events.len() ==> !((#[trigger] events[i]) is Injected))
            ==> after(events).typed.len() == 0,
{
    lemma_values_over_time(events);
    let d = after(events);
    assert forall|key: Seq<char>|
        (#[trigger] sorted_map::lookup(d.named, key)) is Some <==> exists|i: int|
            #![trigger events[i]]
            0 <= i < events.len() && (events[i] matches DepotEvent::Inserted(k, _) && k == key)
                && forall|j: int|
                i < j < events.len() ==> #[trigger] events[j] != DepotEvent::Removed(key) by {
        if sorted_map::lookup(d.named, key) is Some {
            let i = choose|i: int| stands(events, key, i);
            assert(events[i] matches DepotEvent::Inserted(k, _) && k == key);
        }
        if exists|i: int|
            #![trigger events[i]]
            0 <= i < events.len() && (events[i] matches DepotEvent::Inserted(k, _) && k == key)
                && forall|j: int|
                i < j < events.len() ==> #[trigger] events[j] != DepotEvent::Removed(key) {
            let i = choose|i: int|
                #![trigger events[i]]
                0 <= i < events.len() && (events[i] matches DepotEvent::Inserted(k, _) && k == key)
                    && forall|j: int|
                    i < j < events.len() ==> #[trigger] events[j] != DepotEvent::Removed(key);
            lemma_last_stored(events, key, i);
        }
    }
    if d.named.len() > 0 {
        sorted_map::lemma_position(d.named, d.named[0].0, 0);
        assert(sorted_map::lookup(d.named, d.named[0].0) is Some);
    }
    if d.typed.len() > 0 {
        let key = d.typed[0].0;
        sorted_map::lemma_position(d.typed, key, 0);
        assert(sorted_map::lookup(d.typed, key) is Some);
        let t = choose|t: StoredType| key == key_of(t);
        assert(sorted_map::lookup(d.typed, key_of(t)) is Some);
    }
}

/// Of the stores under a name after it was last taken out, one is the last.
proof fn lemma_last_stored(events: Seq<DepotEvent>, key: Seq<char>, i: int)
    requires
        0 <= i < events.len(),
        events[i] matches DepotEvent::Inserted(k, _) && k == key,
        forall|j: int| i < j < events.len() ==> #[trigger] events[j] != DepotEvent::Removed(key),
    ensures
        exists|n: int| stands(events, key, n),
    decreases events.len() - i,
{
    if exists|j: int|
        i < j < events.len() && (#[trigger] events[j] matches DepotEvent::Inserted(k, _) && k
            == key) {
        let j = choose|j: int|
            i < j < events.len() && (#[trigger] events[j] matches DepotEvent::Inserted(k, _) && k
                == key);
        lemma_last_stored(events, key, j);
    } else {
        assert(stands(events, key, i));
    }
}

} // verus!
