//! Copying and comparing values by their contents.

use vstd::prelude::*;
use crate::net::{IpAddr, SocketAddr};
use crate::router::matcher::RequestMatcher;
use crate::router::matcher;
use crate::sorted_map::SortedMap;
use crate::time::Duration;

verus! {

/// A value that is known by its contents.
pub trait Data: DeepView + Sized {
    /// A value with the same contents.
    fn duplicate(&self) -> (r: Self)
        ensures
            r.deep_view() == self.deep_view(),
    ;

    /// Tells whether the contents are the same.
    fn same_as(&self, other: &Self) -> (r: bool)
        ensures
            r == (self.deep_view() == other.deep_view()),
    ;
}

impl Data for String {
    fn duplicate(&self) -> (r: String) {
        self.clone()
    }

    fn same_as(&self, other: &String) -> (r: bool) {
        *self == *other
    }
}

impl Data for bool {
    fn duplicate(&self) -> (r: bool) {
        *self
    }

    fn same_as(&self, other: &bool) -> (r: bool) {
        *self == *other
    }
}

impl Data for u8 {
    fn duplicate(&self) -> (r: u8) {
        *self
    }

    fn same_as(&self, other: &u8) -> (r: bool) {
        *self == *other
    }
}

impl Data for u16 {
    fn duplicate(&self) -> (r: u16) {
        *self
    }

    fn same_as(&self, other: &u16) -> (r: bool) {
        *self == *other
    }
}

impl Data for u32 {
    fn duplicate(&self) -> (r: u32) {
        *self
    }

    fn same_as(&self, other: &u32) -> (r: bool) {
        *self == *other
    }
}

impl Data for u64 {
    fn duplicate(&self) -> (r: u64) {
        *self
    }

    fn same_as(&self, other: &u64) -> (r: bool) {
        *self == *other
    }
}

impl Data for usize {
    fn duplicate(&self) -> (r: usize) {
        *self
    }

    fn same_as(&self, other: &usize) -> (r: bool) {
        *self == *other
    }
}

impl Data for Duration {
    fn duplicate(&self) -> (r: Duration) {
        *self
    }

    fn same_as(&self, other: &Duration) -> (r: bool) {
        self.as_nanos() == other.as_nanos()
    }
}

impl Data for IpAddr {
    fn duplicate(&self) -> (r: IpAddr) {
        *self
    }

    fn same_as(&self, other: &IpAddr) -> (r: bool) {
        *self == *other
    }
}

impl Data for SocketAddr {
    fn duplicate(&self) -> (r: SocketAddr) {
        *self
    }

    fn same_as(&self, other: &SocketAddr) -> (r: bool) {
        *self == *other
    }
}

impl<T: Data> Data for Option<T> {
    fn duplicate(&self) -> (r: Option<T>) {
        match self {
            Some(t) => Some(t.duplicate()),
            None => None,
        }
    }

    fn same_as(&self, other: &Option<T>) -> (r: bool) {
        match (self, other) {
            (Some(a), Some(b)) => a.same_as(b),
            (None, None) => true,
            _ => false,
        }
    }
}

impl<T: Data> Data for Vec<T> {
    fn duplicate(&self) -> (r: Vec<T>) {
        let mut r: Vec<T> = Vec::new();
        for i in 0..self.len()
            invariant
                r@.len() == i,
                forall|j: int| 0 <= j < i ==> (#[trigger] r@[j]).deep_view() == self@[j].deep_view(),
        {
            r.push(self[i].duplicate());
        }
        assert(r.deep_view() =~= self.deep_view());
        r
    }

    fn same_as(&self, other: &Vec<T>) -> (r: bool) {
        if self.len() != other.len() {
            assert(self.deep_view().len() != other.deep_view().len());
            return false;
        }
        for i in 0..self.len()
            invariant
                self.len() == other.len(),
                forall|j: int| 0 <= j < i ==> (#[trigger] self@[j]).deep_view() == other@[j].deep_view(),
        {
            if !self[i].same_as(&other[i]) {
                assert(self.deep_view()[i as int] != other.deep_view()[i as int]);
                return false;
            }
        }
        assert(self.deep_view() =~= other.deep_view());
        true
    }
}

impl<A: Data, B: Data> Data for (A, B) {
    fn duplicate(&self) -> (r: (A, B)) {
        (self.0.duplicate(), self.1.duplicate())
    }

    fn same_as(&self, other: &(A, B)) -> (r: bool) {
        self.0.same_as(&other.0) && self.1.same_as(&other.1)
    }
}

impl<A: Data, B: Data, C: Data> Data for (A, B, C) {
    fn duplicate(&self) -> (r: (A, B, C)) {
        (self.0.duplicate(), self.1.duplicate(), self.2.duplicate())
    }

    fn same_as(&self, other: &(A, B, C)) -> (r: bool) {
        self.0.same_as(&other.0) && self.1.same_as(&other.1) && self.2.same_as(&other.2)
    }
}

impl<K: Data, V: Data> Data for SortedMap<K, V> {
    fn duplicate(&self) -> (r: SortedMap<K, V>) {
        SortedMap { entries: self.entries.duplicate() }
    }

    fn same_as(&self, other: &SortedMap<K, V>) -> (r: bool) {
        self.entries.same_as(&other.entries)
    }
}

impl<K: Data, V: Data> Clone for SortedMap<K, V> {
    fn clone(&self) -> (r: SortedMap<K, V>)
        ensures
            r.deep_view() == self.deep_view(),
    {
        self.duplicate()
    }
}

impl Data for RequestMatcher {
    fn duplicate(&self) -> (r: RequestMatcher) {
        matcher::copy_matcher(self)
    }

    fn same_as(&self, other: &RequestMatcher) -> (r: bool) {
        matcher::same_matcher(self, other)
    }
}

/// The contents of an outcome.
pub open spec fn outcome<T: DeepView, E: DeepView>(r: Result<T, E>) -> Result<T::V, E::V> {
    match r {
        Ok(t) => Ok(t.deep_view()),
        Err(e) => Err(e.deep_view()),
    }
}

} // verus!
