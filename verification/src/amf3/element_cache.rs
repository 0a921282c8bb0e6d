//! Abstraction over the AMF3 caching mechanism.
use vstd::prelude::*;
use crate::amf3::length::Length;
use crate::equality::{value_eq, value_equal};
use crate::types::{Value, copy_value, copy_vec};

verus! {

/// What a cache needs of the items it holds: a way to tell equal items apart, and a copy.
pub trait CacheItem: View + Sized {
    /// The items with contents `a` and `b` count as equal.
    spec fn same(a: Self::V, b: Self::V) -> bool;

    /// Whether this item counts as equal to `other`.
    fn same_as(&self, other: &Self) -> (r: bool)
        ensures
            r == Self::same(self@, other@);

    /// A copy of this item.
    fn duplicate(&self) -> (r: Self)
        ensures
            r@ == self@;
}

impl CacheItem for Vec<u8> {
    open spec fn same(a: Seq<u8>, b: Seq<u8>) -> bool {
        a == b
    }

    fn same_as(&self, other: &Self) -> (r: bool) {
        crate::bytes::bytes_equal(self.as_slice(), other.as_slice())
    }

    fn duplicate(&self) -> (r: Self) {
        copy_vec(self)
    }
}

impl CacheItem for Value {
    open spec fn same(a: crate::types::ValueV, b: crate::types::ValueV) -> bool {
        value_eq(a, b)
    }

    fn same_as(&self, other: &Self) -> (r: bool) {
        value_equal(self, other)
    }

    fn duplicate(&self) -> (r: Self) {
        copy_value(self)
    }
}

/// The index of the first item at or after `i` that counts as equal to `v`.
pub open spec fn first_same<T: CacheItem>(s: Seq<T::V>, v: T::V, i: int) -> Option<int>
    decreases s.len() - i,
{
    if i < 0 || i >= s.len() {
        None
    } else if T::same(s[i], v) {
        Some(i)
    } else {
        first_same::<T>(s, v, i + 1)
    }
}

/// What `first_same` finds: the first equal item from `i` on, or none.
pub proof fn lemma_first_same<T: CacheItem>(s: Seq<T::V>, v: T::V, i: int)
    requires
        0 <= i,
    ensures
        match first_same::<T>(s, v, i) {
            Some(k) => i <= k < s.len() && T::same(s[k], v) && forall|j: int| i <= j < k ==> !T::same(#[trigger] s[j], v),
            None => forall|j: int| i <= j < s.len() ==> !T::same(#[trigger] s[j], v),
        },
    decreases s.len() - i,
{
    if i < s.len() && !T::same(s[i], v) {
        lemma_first_same::<T>(s, v, i + 1);
    }
}

/// The contents of a cache after `v` is stored: unchanged if an equal item is there, else
/// with `v` added at the end.
pub open spec fn stored<T: CacheItem>(c: Seq<T::V>, v: T::V) -> Seq<T::V> {
    if first_same::<T>(c, v, 0) is Some {
        c
    } else {
        c.push(v)
    }
}

/// Once an item that equals itself is stored, it is found: the first equal item is where it
/// was before, or at the new last slot.
pub proof fn lemma_stored_found<T: CacheItem>(c: Seq<T::V>, v: T::V)
    requires
        T::same(v, v),
    ensures
        first_same::<T>(stored::<T>(c, v), v, 0) == match first_same::<T>(c, v, 0) {
            Some(i) => Some(i),
            None => Some(c.len() as int),
        },
{
    lemma_first_same::<T>(c, v, 0);
    let c1 = stored::<T>(c, v);
    lemma_first_same::<T>(c1, v, 0);
    if first_same::<T>(c, v, 0) is None {
        assert(c1[c.len() as int] == v);
        assert forall|j: int| 0 <= j < c.len() implies !T::same(#[trigger] c1[j], v) by {
            assert(c1[j] == c[j]);
        }
        match first_same::<T>(c1, v, 0) {
            Some(k) => {
                if k < c.len() {
                    assert(c1[k] == c[k]);
                }
            },
            None => {
                assert(!T::same(c1[c.len() as int], v));
            },
        }
    }
}

/// Storing an item that equals itself a second time changes nothing.
pub proof fn lemma_store_idempotent<T: CacheItem>(c: Seq<T::V>, v: T::V)
    requires
        T::same(v, v),
    ensures
        stored::<T>(stored::<T>(c, v), v) == stored::<T>(c, v),
{
    lemma_stored_found::<T>(c, v);
}

/// A table of items, each found again by its index
pub struct ElementCache<T> {
    cache: Vec<T>,
}

impl<T: CacheItem> ElementCache<T> {
    /// The contents of the items, in order.
    pub closed spec fn contents(&self) -> Seq<T::V> {
        Seq::new(self.cache@.len(), |i: int| self.cache@[i]@)
    }

    /// The index `get_index` gives for an item with contents `v`.
    pub open spec fn index_of(&self, v: T::V) -> Option<int> {
        first_same::<T>(self.contents(), v, 0)
    }

    /// Create a new, empty ElementCache
    pub fn new() -> (r: Self)
        ensures
            r.contents() == Seq::<T::V>::empty(),
    {
        let r = ElementCache { cache: Vec::new() };
        assert(r.contents() =~= Seq::<T::V>::empty());
        r
    }

    /// Check if the cache contains a given element
    pub fn has(&self, val: &T) -> (r: bool)
        ensures
            r == (exists|i: int| 0 <= i < self.contents().len() && T::same(#[trigger] self.contents()[i], val@)),
    {
        let mut i: usize = 0;
        while i < self.cache.len()
            invariant
                i <= self.cache@.len(),
                forall|j: int| 0 <= j < i ==> !T::same(#[trigger] self.contents()[j], val@),
            decreases self.cache.len() - i,
        {
            if self.cache[i].same_as(val) {
                assert(T::same(self.contents()[i as int], val@));
                return true;
            }
            i += 1;
        }
        false
    }

    /// Add the given item to the cache, if the item already exists will do nothing
    pub fn store(&mut self, val: T)
        ensures
            final(self).contents() == stored::<T>(old(self).contents(), val@),
    {
        proof { lemma_first_same::<T>(self.contents(), val@, 0); }
        if !self.has(&val) {
            let ghost c = self.contents();
            let ghost vv = val@;
            self.cache.push(val);
            assert(self.contents() =~= c.push(vv));
        }
    }

    /// Add the given item to the cache, even if an equal one is there, and give its index
    pub fn occupy(&mut self, val: T) -> (r: usize)
        ensures
            final(self).contents() == old(self).contents().push(val@),
            r == old(self).contents().len(),
    {
        let ghost c = self.contents();
        let ghost vv = val@;
        let r = self.cache.len();
        self.cache.push(val);
        assert(self.contents() =~= c.push(vv));
        r
    }

    /// Retrieve the item at the given index from the cache
    pub fn get_element(&self, index: usize) -> (r: Option<T>)
        ensures
            index < self.contents().len() ==> (r matches Some(x) && x@ == self.contents()[index as int]),
            index >= self.contents().len() ==> r is None,
    {
        if index < self.cache.len() {
            Some(self.cache[index].duplicate())
        } else {
            None
        }
    }

    /// Retrieve the index of the first item equal to the given value
    pub fn get_index(&self, val: T) -> (r: Option<usize>)
        ensures
            match self.index_of(val@) {
                Some(i) => r matches Some(x) && x == i,
                None => r is None,
            },
    {
        proof { lemma_first_same::<T>(self.contents(), val@, 0); }
        let mut i: usize = 0;
        while i < self.cache.len()
            invariant
                i <= self.cache@.len(),
                forall|j: int| 0 <= j < i ==> !T::same(#[trigger] self.contents()[j], val@),
            decreases self.cache.len() - i,
        {
            if self.cache[i].same_as(&val) {
                assert(T::same(self.contents()[i as int], val@));
                proof { lemma_first_same::<T>(self.contents(), val@, 0); }
                return Some(i);
            }
            i += 1;
        }
        None
    }

    /// Get a Length reference to an item in the cache
    /// If the item exists, will return a `Length::Reference` to the item
    /// If the item does not exist, will return the given size as `Length::Size`
    pub fn to_length(&self, val: T, length: u32) -> (r: Length)
        ensures
            match self.index_of(val@) {
                Some(i) => r matches Length::Reference(x) && x == i,
                None => r == Length::Size(length),
            },
    {
        match self.get_index(val) {
            Some(i) => Length::Reference(i),
            None => Length::Size(length),
        }
    }

    /// See #to_length, except will store the given value via #store after retrieving the index (if it does not already exist)
    pub fn to_length_store(&mut self, val: T, length: u32) -> (r: Length)
        ensures
            match old(self).index_of(val@) {
                Some(i) => r matches Length::Reference(x) && x == i,
                None => r == Length::Size(length),
            },
            final(self).contents() == stored::<T>(old(self).contents(), val@),
    {
        proof { lemma_first_same::<T>(self.contents(), val@, 0); }
        let copy = val.duplicate();
        let len = self.to_length(copy, length);
        self.store(val);
        len
    }
}

/// A vector holding a copy of each item of `val`, in order.
fn slice_to_vec<T: Copy>(val: &[T]) -> (r: Vec<T>)
    ensures
        r@ == val@,
{
    let mut v: Vec<T> = Vec::new();
    let mut i: usize = 0;
    while i < val.len()
        invariant
            i <= val.len(),
            v@ == val@.subrange(0, i as int),
        decreases val.len() - i,
    {
        v.push(val[i]);
        i += 1;
        assert(v@ =~= val@.subrange(0, i as int));
    }
    assert(val@.subrange(0, i as int) =~= val@);
    v
}

impl<T: Copy> ElementCache<Vec<T>> where Vec<T>: CacheItem<V = Seq<T>> {
    /// See #store, will convert slices of &\[T\] into Vec<T> before storing
    pub fn store_slice(&mut self, val: &[T])
        ensures
            final(self).contents() == stored::<Vec<T>>(old(self).contents(), val@),
    {
        self.store(slice_to_vec(val));
    }

    /// See #get_index, will convert slices of &\[T\] into Vec<T> before retrieving
    pub fn get_slice_index(&self, val: &[T]) -> (r: Option<usize>)
        ensures
            match self.index_of(val@) {
                Some(i) => r matches Some(x) && x == i,
                None => r is None,
            },
    {
        self.get_index(slice_to_vec(val))
    }
}

impl<T: CacheItem> Default for ElementCache<T> {
    /// Create a new ElementCache
    fn default() -> (r: Self)
        ensures
            r.contents() == Seq::<T::V>::empty(),
    {
        ElementCache::new()
    }
}

} // verus!
