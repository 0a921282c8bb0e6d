//! Building AMF0 element trees, with each cached value written once and referred to after.
use vstd::prelude::*;
use crate::types::{
    AMFVersion, ECMAArrayObjectValue, Element, ElementV, Lso, ObjectId, ObjectValue, Reference,
    Value, ValueV, elements_view, values_view,
};

verus! {

/// An identifier for a cacheable element
#[derive(Debug, Clone, Copy, PartialEq, Eq, PartialOrd, Ord, Hash, Structural)]
pub struct CacheKey(pub usize);

impl CacheKey {
    /// Create a `CacheKey` from the address of an element to be serialized
    pub fn from_ptr(p: usize) -> (r: CacheKey)
        ensures
            r == CacheKey(p),
    {
        CacheKey(p)
    }
}

/// The reference cached for `key`, the first entry for it.
pub open spec fn lookup_key(cache: Seq<(CacheKey, Reference)>, key: CacheKey) -> Option<Reference>
    decreases cache.len(),
{
    if cache.len() == 0 {
        None
    } else if cache[0].0 == key {
        Some(cache[0].1)
    } else {
        lookup_key(cache.drop_first(), key)
    }
}

/// The reference counter after one more reference is made.
pub open spec fn next_ref(n: u16) -> u16 {
    n.wrapping_add(1)
}

/// The reference for `key`: the cached one (`true`), or a new one numbered `ref_num` that is
/// then cached (`false`).
fn ref_for(ref_num: &mut u16, cache: &mut Vec<(CacheKey, Reference)>, key: CacheKey) -> (r: (bool, Reference))
    ensures
        match lookup_key(old(cache)@, key) {
            Some(x) => r == (true, x) && *final(ref_num) == *old(ref_num) && final(cache)@ == old(cache)@,
            None => r == (false, Reference(*old(ref_num))) && *final(ref_num) == next_ref(*old(ref_num))
                && final(cache)@ == old(cache)@.push((key, Reference(*old(ref_num)))),
        },
{
    let ghost c = cache@;
    let mut i: usize = 0;
    assert(c.subrange(0, c.len() as int) =~= c);
    while i < cache.len()
        invariant
            i <= cache@.len(),
            c == cache@,
            lookup_key(c, key) == lookup_key(c.subrange(i as int, c.len() as int), key),
        decreases cache.len() - i,
    {
        proof {
            assert(c.subrange(i as int, c.len() as int).drop_first() =~= c.subrange(i + 1, c.len() as int));
        }
        if cache[i].0 == key {
            return (true, cache[i].1);
        }
        i += 1;
    }
    let r = Reference(*ref_num);
    *ref_num = ref_num.wrapping_add(1);
    cache.push((key, r));
    (false, r)
}

/// The element a cached value adds: a reference to it if `key` was cached, else the value.
pub open spec fn cached_element(cache: Seq<(CacheKey, Reference)>, key: CacheKey, name: Seq<char>, v: ValueV) -> ElementV {
    match lookup_key(cache, key) {
        Some(r) => ElementV { name, value: ValueV::Reference(r.0) },
        None => ElementV { name, value: v },
    }
}

/// The reference counter and cache after a cached value is added under `key`.
pub open spec fn cached_state(ref_num: u16, cache: Seq<(CacheKey, Reference)>, key: CacheKey) -> (u16, Seq<(CacheKey, Reference)>) {
    match lookup_key(cache, key) {
        Some(_) => (ref_num, cache),
        None => (next_ref(ref_num), cache.push((key, Reference(ref_num)))),
    }
}

/// Looking up a key in a cache with an entry added at the end finds the earlier entry for
/// it, or else the added one.
proof fn lemma_lookup_push(cache: Seq<(CacheKey, Reference)>, key: CacheKey, e: (CacheKey, Reference))
    ensures
        lookup_key(cache.push(e), key) == (match lookup_key(cache, key) {
            Some(r) => Some(r),
            None => if e.0 == key { Some(e.1) } else { None },
        }),
    decreases cache.len(),
{
    if cache.len() > 0 {
        assert(cache.push(e).drop_first() =~= cache.drop_first().push(e));
        assert(cache.push(e)[0] == cache[0]);
        lemma_lookup_push(cache.drop_first(), key, e);
    } else {
        assert(cache.push(e).drop_first() =~= Seq::<(CacheKey, Reference)>::empty());
        assert(cache.push(e)[0] == e);
        assert(lookup_key(Seq::<(CacheKey, Reference)>::empty(), key) is None);
    }
}

/// A value cached under `key` is referred to afterwards: once a value has been added under
/// `key`, any later value added under the same key becomes a reference to the number the
/// first one got.
pub proof fn lemma_cached_then_referenced(
    ref_num: u16,
    cache: Seq<(CacheKey, Reference)>,
    key: CacheKey,
    name: Seq<char>,
    v: ValueV,
)
    ensures
        cached_element(cached_state(ref_num, cache, key).1, key, name, v) == (ElementV {
            name,
            value: ValueV::Reference(
                match lookup_key(cache, key) {
                    Some(r) => r.0,
                    None => ref_num,
                },
            ),
        }),
{
    lemma_lookup_push(cache, key, (key, Reference(ref_num)));
}

/// Every reference handed out so far, as recorded in the cache, is below the counter `n`.
pub open spec fn refs_below(cache: Seq<(CacheKey, Reference)>, n: u16) -> bool {
    forall|i: int| 0 <= i < cache.len() ==> (#[trigger] cache[i]).1.0 < n
}

/// A key found in the cache names a reference handed out before.
proof fn lemma_lookup_in(cache: Seq<(CacheKey, Reference)>, key: CacheKey)
    ensures
        lookup_key(cache, key) matches Some(r) ==> exists|i: int| 0 <= i < cache.len() && #[trigger] cache[i] == (key, r),
    decreases cache.len(),
{
    if cache.len() > 0 && cache[0].0 != key {
        lemma_lookup_in(cache.drop_first(), key);
        if let Some(r) = lookup_key(cache, key) {
            let i = choose|i: int| 0 <= i < cache.drop_first().len() && #[trigger] cache.drop_first()[i] == (key, r);
            assert(cache[i + 1] == cache.drop_first()[i]);
        }
    } else if cache.len() > 0 {
        assert(cache[0] == (key, cache[0].1));
    }
}

/// Reference numbers stay fresh: while every reference handed out is below the counter and the
/// counter has not reached its last value, a value under a key not cached gets a reference
/// unlike every one handed out before, a value under a cached key gets the reference handed
/// out for that key, and afterwards every reference handed out is still below the counter.
pub proof fn lemma_fresh_reference(ref_num: u16, cache: Seq<(CacheKey, Reference)>, key: CacheKey)
    requires
        refs_below(cache, ref_num),
        ref_num < 0xffff,
    ensures
        lookup_key(cache, key) is None ==> forall|i: int| 0 <= i < cache.len() ==> (#[trigger] cache[i]).1 != Reference(ref_num),
        lookup_key(cache, key) matches Some(r) ==> exists|i: int| 0 <= i < cache.len() && #[trigger] cache[i] == (key, r),
        refs_below(cached_state(ref_num, cache, key).1, cached_state(ref_num, cache, key).0),
{
    lemma_lookup_in(cache, key);
    if lookup_key(cache, key) is None {
        let c2 = cache.push((key, Reference(ref_num)));
        let n2 = next_ref(ref_num);
        assert(n2 == ref_num + 1);
        assert forall|i: int| 0 <= i < c2.len() implies (#[trigger] c2[i]).1.0 < n2 by {
            if i < cache.len() {
                assert(c2[i] == cache[i]);
            }
        }
    }
}

/// The reference counter and cache after values are added under the keys `ks` in turn,
/// starting from the counter `n` and the cache `c`: what any run of the writers' adds of cached
/// values and creations of nested writers leaves, as each of them either leaves the counter
/// and cache as they were or applies `cached_state` with its key.
pub open spec fn after_keys(n: u16, c: Seq<(CacheKey, Reference)>, ks: Seq<CacheKey>) -> (u16, Seq<(CacheKey, Reference)>)
    decreases ks.len(),
{
    if ks.len() == 0 {
        (n, c)
    } else {
        after_keys(cached_state(n, c, ks[0]).0, cached_state(n, c, ks[0]).1, ks.drop_first())
    }
}

/// Adding under the keys `a` and then `b` is adding under `a + b`.
proof fn lemma_after_keys_split(n: u16, c: Seq<(CacheKey, Reference)>, a: Seq<CacheKey>, b: Seq<CacheKey>)
    ensures
        after_keys(n, c, a + b) == after_keys(after_keys(n, c, a).0, after_keys(n, c, a).1, b),
    decreases a.len(),
{
    if a.len() > 0 {
        assert((a + b).drop_first() =~= a.drop_first() + b);
        assert((a + b)[0] == a[0]);
        lemma_after_keys_split(cached_state(n, c, a[0]).0, cached_state(n, c, a[0]).1, a.drop_first(), b);
    } else {
        assert(a + b =~= b);
    }
}

/// Reference numbers over a writer's history: from a counter and cache in which every
/// reference handed out is below the counter, after values are added under the keys `ks` in
/// turn, with no more of them than the counter has numbers left, every reference handed out is
/// still below the counter, so that the next new reference differs from all of them; a key is
/// cached exactly when it was cached before or used since; and a key cached before keeps the
/// reference it had.
pub proof fn lemma_keys_history(n: u16, c: Seq<(CacheKey, Reference)>, ks: Seq<CacheKey>, k: CacheKey)
    requires
        refs_below(c, n),
        n + ks.len() <= 0xffff,
    ensures
        refs_below(after_keys(n, c, ks).1, after_keys(n, c, ks).0),
        n <= after_keys(n, c, ks).0 <= n + ks.len(),
        forall|i: int| 0 <= i < after_keys(n, c, ks).1.len() ==> (#[trigger] after_keys(n, c, ks).1[i]).1 != Reference(after_keys(n, c, ks).0),
        lookup_key(c, k) is Some ==> lookup_key(after_keys(n, c, ks).1, k) == lookup_key(c, k),
        lookup_key(after_keys(n, c, ks).1, k) is None <==> (lookup_key(c, k) is None && !ks.contains(k)),
    decreases ks.len(),
{
    if ks.len() > 0 {
        let k0 = ks[0];
        let (n1, c1) = cached_state(n, c, k0);
        lemma_fresh_reference(n, c, k0);
        lemma_lookup_push(c, k, (k0, Reference(n)));
        lemma_keys_history(n1, c1, ks.drop_first(), k);
        if ks.contains(k) && ks[0] != k {
            let j = choose|j: int| 0 <= j < ks.len() && ks[j] == k;
            assert(ks.drop_first()[j - 1] == k);
        }
        if ks.drop_first().contains(k) {
            let j = choose|j: int| 0 <= j < ks.drop_first().len() && ks.drop_first()[j] == k;
            assert(ks[j + 1] == k);
        }
        if ks[0] == k {
            assert(ks.contains(k));
        }
    }
}

/// A key's first use fixes its reference for the rest of the history: if `k` was not cached
/// and `ks[j]` is its first use, then after all of `ks` the key has the reference numbered with
/// the counter as it stood at that use.
pub proof fn lemma_first_use(n: u16, c: Seq<(CacheKey, Reference)>, ks: Seq<CacheKey>, k: CacheKey, j: int)
    requires
        refs_below(c, n),
        n + ks.len() <= 0xffff,
        lookup_key(c, k) is None,
        0 <= j < ks.len(),
        ks[j] == k,
        !ks.take(j).contains(k),
    ensures
        lookup_key(after_keys(n, c, ks).1, k) == Some(Reference(after_keys(n, c, ks.take(j)).0)),
{
    let pre = ks.take(j);
    let rest = ks.skip(j);
    assert(ks =~= pre + rest);
    lemma_after_keys_split(n, c, pre, rest);
    lemma_keys_history(n, c, pre, k);
    let (nj, cj) = after_keys(n, c, pre);
    let (n2, c2) = cached_state(nj, cj, k);
    lemma_lookup_push(cj, k, (k, Reference(nj)));
    lemma_fresh_reference(nj, cj, k);
    assert(rest[0] == k);
    assert(after_keys(nj, cj, rest) == after_keys(n2, c2, rest.drop_first()));
    lemma_keys_history(n2, c2, rest.drop_first(), k);
}

/// Add the value `v` named `name` to `elements`, or a reference to it if `key` is cached.
fn add_cached(ref_num: &mut u16, cache: &mut Vec<(CacheKey, Reference)>, elements: &mut Vec<Element>, key: CacheKey, name: &str, v: Value)
    ensures
        elements_view(final(elements)@) == elements_view(old(elements)@).push(cached_element(old(cache)@, key, name@, v@)),
        (*final(ref_num), final(cache)@) == cached_state(*old(ref_num), old(cache)@, key),
{
    let (hit, r) = ref_for(ref_num, cache, key);
    let ghost ev = elements_view(elements@);
    let el = if hit {
        Element { name: name.to_owned(), value: Value::Reference(r) }
    } else {
        Element { name: name.to_owned(), value: v }
    };
    elements.push(el);
    assert(elements_view(elements@) =~= ev.push(cached_element(old(cache)@, key, name@, v@)));
}

/// Add the value `v` named `name` to `elements`.
fn add_plain(elements: &mut Vec<Element>, name: &str, v: Value)
    ensures
        elements_view(final(elements)@) == elements_view(old(elements)@).push(ElementV { name: name@, value: v@ }),
{
    let ghost ev = elements_view(elements@);
    elements.push(Element { name: name.to_owned(), value: v });
    assert(elements_view(elements@) =~= ev.push(ElementV { name: name@, value: v@ }));
}

/// Add the value `v` to `values`, or a reference to it if `key` is cached.
fn add_cached_value(ref_num: &mut u16, cache: &mut Vec<(CacheKey, Reference)>, values: &mut Vec<Value>, key: CacheKey, v: Value)
    ensures
        values_view(final(values)@) == values_view(old(values)@).push(cached_element(old(cache)@, key, Seq::empty(), v@).value),
        (*final(ref_num), final(cache)@) == cached_state(*old(ref_num), old(cache)@, key),
{
    let (hit, r) = ref_for(ref_num, cache, key);
    let ghost vv = values_view(values@);
    let x = if hit { Value::Reference(r) } else { v };
    values.push(x);
    assert(values_view(values@) =~= vv.push(cached_element(old(cache)@, key, Seq::empty(), v@).value));
}

/// Add the value `v` to `values`.
fn add_value(values: &mut Vec<Value>, v: Value)
    ensures
        values_view(final(values)@) == values_view(old(values)@).push(v@),
{
    let ghost vv = values_view(values@);
    values.push(v);
    assert(values_view(values@) =~= vv.push(v@));
}

/// The operations that the root writer and the writers of nested objects and arrays share.
/// Each writer adds elements of its own; the root writer holds the reference counter and the
/// cache of keys, which every writer below it shares.
pub trait ObjWriter {
    /// The elements this writer has added so far
    spec fn written(&self) -> Seq<ElementV>;

    /// The element this writer adds for a value `v` named `name`
    spec fn entry(&self, name: Seq<char>, v: ValueV) -> ElementV;

    /// The reference counter new references are numbered with
    spec fn counter(&self) -> u16;

    /// The cache of keys and the references they got
    spec fn refs(&self) -> Seq<(CacheKey, Reference)>;

    /// The elements of the writers that hold this one: none for the root writer
    spec fn above(&self) -> Seq<ElementV>;

    /// The elements of the root writer
    spec fn root_elements(&self) -> Seq<ElementV>;

    /// Add an element to this object
    fn add_element(&mut self, name: &str, v: Value)
        ensures
            final(self).written() == old(self).written().push(old(self).entry(name@, v@)),
            final(self).counter() == old(self).counter(),
            final(self).refs() == old(self).refs(),
            final(self).above() == old(self).above();

    /// Add an element to this object, or a reference to it if `key` is cached
    fn add_cached_element(&mut self, key: CacheKey, name: &str, v: Value)
        ensures
            final(self).written() == old(self).written().push(
                old(self).entry(name@, cached_element(old(self).refs(), key, name@, v@).value),
            ),
            (final(self).counter(), final(self).refs()) == cached_state(old(self).counter(), old(self).refs(), key),
            final(self).above() == old(self).above();

    /// Write a string
    fn string(&mut self, name: &str, s: &str)
        ensures
            final(self).written() == old(self).written().push(old(self).entry(name@, ValueV::String(s@))),
            final(self).counter() == old(self).counter(),
            final(self).refs() == old(self).refs(),
            final(self).above() == old(self).above(),
    {
        self.add_element(name, Value::String(s.to_owned()));
    }

    /// Write a number, given by the bits of a double
    fn number(&mut self, name: &str, bits: u64)
        ensures
            final(self).written() == old(self).written().push(old(self).entry(name@, ValueV::Number(bits))),
            final(self).counter() == old(self).counter(),
            final(self).refs() == old(self).refs(),
            final(self).above() == old(self).above(),
    {
        self.add_element(name, Value::Number(bits));
    }

    /// Write a reference to a value written before
    fn reference(&mut self, name: &str, v: Reference)
        ensures
            final(self).written() == old(self).written().push(old(self).entry(name@, ValueV::Reference(v.0))),
            final(self).counter() == old(self).counter(),
            final(self).refs() == old(self).refs(),
            final(self).above() == old(self).above(),
    {
        self.add_element(name, Value::Reference(v));
    }

    /// Write an undefined
    fn undefined(&mut self, name: &str)
        ensures
            final(self).written() == old(self).written().push(old(self).entry(name@, ValueV::Undefined)),
            final(self).counter() == old(self).counter(),
            final(self).refs() == old(self).refs(),
            final(self).above() == old(self).above(),
    {
        self.add_element(name, Value::Undefined);
    }

    /// Write a null
    fn null(&mut self, name: &str)
        ensures
            final(self).written() == old(self).written().push(old(self).entry(name@, ValueV::Null)),
            final(self).counter() == old(self).counter(),
            final(self).refs() == old(self).refs(),
            final(self).above() == old(self).above(),
    {
        self.add_element(name, Value::Null);
    }

    /// Write a boolean
    fn bool(&mut self, name: &str, v: bool)
        ensures
            final(self).written() == old(self).written().push(old(self).entry(name@, ValueV::Bool(v))),
            final(self).counter() == old(self).counter(),
            final(self).refs() == old(self).refs(),
            final(self).above() == old(self).above(),
    {
        self.add_element(name, Value::Bool(v));
    }

    /// Write a date, cached under `key`
    fn date(&mut self, key: CacheKey, name: &str, ms: u64, tz: Option<u16>)
        ensures
            final(self).written() == old(self).written().push(
                old(self).entry(name@, cached_element(old(self).refs(), key, name@, ValueV::Date { time: ms, timezone_or_utc: tz }).value),
            ),
            (final(self).counter(), final(self).refs()) == cached_state(old(self).counter(), old(self).refs(), key),
            final(self).above() == old(self).above(),
    {
        self.add_cached_element(key, name, Value::Date { time: ms, timezone_or_utc: tz });
    }

    /// Write an XML document, cached under `key`
    fn xml(&mut self, key: CacheKey, name: &str, content: &str, string: bool)
        ensures
            final(self).written() == old(self).written().push(
                old(self).entry(name@, cached_element(old(self).refs(), key, name@, ValueV::XML { value: content@, is_string: string }).value),
            ),
            (final(self).counter(), final(self).refs()) == cached_state(old(self).counter(), old(self).refs(), key),
            final(self).above() == old(self).above(),
    {
        self.add_cached_element(key, name, Value::XML { value: content.to_owned(), is_string: string });
    }

    /// Create a writer that can serialize an object cached under `key`. If a value with the same
    /// key has been written already, `None` and the reference it got; else a writer and a new
    /// reference, the next number of the counter, under which the key is cached.
    fn object(&mut self, key: CacheKey) -> (r: (Option<ObjectWriter<'_>>, Reference))
        ensures
            match lookup_key(old(self).refs(), key) {
                Some(x) => r.0 is None && r.1 == x && final(self).written() == old(self).written()
                    && final(self).counter() == old(self).counter() && final(self).refs() == old(self).refs()
                    && final(self).above() == old(self).above()
                    && final(self).root_elements() == old(self).root_elements(),
                None => r.1 == Reference(old(self).counter()) && (r.0 matches Some(w) && w.elements@.len() == 0
                    && elements_view(w.parent.elements@) == old(self).root_elements()
                    && (w.parent.ref_num, w.parent.cache@) == cached_state(old(self).counter(), old(self).refs(), key)
                    && final(self).root_elements() == elements_view(final(w.parent).elements@)
                    && final(self).counter() == final(w.parent).ref_num
                    && final(self).refs() == final(w.parent).cache@),
            };

    /// Create a writer that can serialize an ECMA array cached under `key`. If a value with the same
    /// key has been written already, `None` and the reference it got; else a writer and a new
    /// reference, the next number of the counter, under which the key is cached.
    fn array(&mut self, key: CacheKey) -> (r: (Option<ArrayWriter<'_>>, Reference))
        ensures
            match lookup_key(old(self).refs(), key) {
                Some(x) => r.0 is None && r.1 == x && final(self).written() == old(self).written()
                    && final(self).counter() == old(self).counter() && final(self).refs() == old(self).refs()
                    && final(self).above() == old(self).above()
                    && final(self).root_elements() == old(self).root_elements(),
                None => r.1 == Reference(old(self).counter()) && (r.0 matches Some(w) && w.elements@.len() == 0
                    && elements_view(w.parent.elements@) == old(self).root_elements()
                    && (w.parent.ref_num, w.parent.cache@) == cached_state(old(self).counter(), old(self).refs(), key)
                    && final(self).root_elements() == elements_view(final(w.parent).elements@)
                    && final(self).counter() == final(w.parent).ref_num
                    && final(self).refs() == final(w.parent).cache@),
            };

    /// Create a writer that can serialize a strict array cached under `key`. If a value with the same
    /// key has been written already, `None` and the reference it got; else a writer and a new
    /// reference, the next number of the counter, under which the key is cached.
    fn strict_array(&mut self, key: CacheKey) -> (r: (Option<StrictArrayWriter<'_>>, Reference))
        ensures
            match lookup_key(old(self).refs(), key) {
                Some(x) => r.0 is None && r.1 == x && final(self).written() == old(self).written()
                    && final(self).counter() == old(self).counter() && final(self).refs() == old(self).refs()
                    && final(self).above() == old(self).above()
                    && final(self).root_elements() == old(self).root_elements(),
                None => r.1 == Reference(old(self).counter()) && (r.0 matches Some(w) && w.values@.len() == 0
                    && elements_view(w.parent.elements@) == old(self).root_elements()
                    && (w.parent.ref_num, w.parent.cache@) == cached_state(old(self).counter(), old(self).refs(), key)
                    && final(self).root_elements() == elements_view(final(w.parent).elements@)
                    && final(self).counter() == final(w.parent).ref_num
                    && final(self).refs() == final(w.parent).cache@),
            };
}

/// A writer for Amf0 encoded data
pub struct Amf0Writer {
    /// The elements present at the root level
    pub elements: Vec<Element>,
    /// The current reference number
    pub ref_num: u16,
    /// The reference cache, allows writing self-referential data
    pub cache: Vec<(CacheKey, Reference)>,
}

impl Amf0Writer {
    /// A writer with no elements, no cached values and reference numbers from zero.
    pub fn new() -> (r: Amf0Writer)
        ensures
            r.elements@.len() == 0,
            r.ref_num == 0,
            r.cache@.len() == 0,
            refs_below(r.cache@, r.ref_num),
    {
        Amf0Writer { elements: Vec::new(), ref_num: 0, cache: Vec::new() }
    }

    /// Produce an `Lso` with the given name
    pub fn commit_lso(self, name: &str) -> (r: Lso)
        ensures
            r.header.name@ == name@,
            r.header.length == 0,
            r.header.format_version == AMFVersion::AMF0,
            r.body@ == self.elements@,
    {
        Lso::new(self.elements, name.to_owned(), AMFVersion::AMF0)
    }
}

impl ObjWriter for Amf0Writer {
    open spec fn written(&self) -> Seq<ElementV> {
        elements_view(self.elements@)
    }

    open spec fn entry(&self, name: Seq<char>, v: ValueV) -> ElementV {
        ElementV { name, value: v }
    }

    open spec fn counter(&self) -> u16 {
        self.ref_num
    }

    open spec fn refs(&self) -> Seq<(CacheKey, Reference)> {
        self.cache@
    }

    open spec fn above(&self) -> Seq<ElementV> {
        Seq::empty()
    }

    open spec fn root_elements(&self) -> Seq<ElementV> {
        elements_view(self.elements@)
    }

    fn add_element(&mut self, name: &str, v: Value)
        ensures
            final(self).ref_num == old(self).ref_num,
            final(self).cache == old(self).cache,
    {
        add_plain(&mut self.elements, name, v);
    }

    fn add_cached_element(&mut self, key: CacheKey, name: &str, v: Value) {
        add_cached(&mut self.ref_num, &mut self.cache, &mut self.elements, key, name, v);
    }

    fn array(&mut self, key: CacheKey) -> (r: (Option<ArrayWriter<'_>>, Reference))
        ensures
            match lookup_key(old(self).cache@, key) {
                Some(x) => r.0 is None && r.1 == x && final(self).elements == old(self).elements
                    && final(self).ref_num == old(self).ref_num && final(self).cache@ == old(self).cache@,
                None => r.1 == Reference(old(self).ref_num) && (r.0 matches Some(w) && w.elements@.len() == 0
                    && w.parent.elements == old(self).elements
                    && (w.parent.ref_num, w.parent.cache@) == cached_state(old(self).ref_num, old(self).cache@, key)
                    && *final(self) == *final(w.parent)),
            },
    {
        let (hit, r) = ref_for(&mut self.ref_num, &mut self.cache, key);
        if hit {
            (None, r)
        } else {
            (Some(ArrayWriter { elements: Vec::new(), parent: self }), r)
        }
    }

    fn object(&mut self, key: CacheKey) -> (r: (Option<ObjectWriter<'_>>, Reference))
        ensures
            match lookup_key(old(self).cache@, key) {
                Some(x) => r.0 is None && r.1 == x && final(self).elements == old(self).elements
                    && final(self).ref_num == old(self).ref_num && final(self).cache@ == old(self).cache@,
                None => r.1 == Reference(old(self).ref_num) && (r.0 matches Some(w) && w.elements@.len() == 0
                    && w.parent.elements == old(self).elements
                    && (w.parent.ref_num, w.parent.cache@) == cached_state(old(self).ref_num, old(self).cache@, key)
                    && *final(self) == *final(w.parent)),
            },
    {
        let (hit, r) = ref_for(&mut self.ref_num, &mut self.cache, key);
        if hit {
            (None, r)
        } else {
            (Some(ObjectWriter { elements: Vec::new(), parent: self }), r)
        }
    }

    fn strict_array(&mut self, key: CacheKey) -> (r: (Option<StrictArrayWriter<'_>>, Reference))
        ensures
            match lookup_key(old(self).cache@, key) {
                Some(x) => r.0 is None && r.1 == x && final(self).elements == old(self).elements
                    && final(self).ref_num == old(self).ref_num && final(self).cache@ == old(self).cache@,
                None => r.1 == Reference(old(self).ref_num) && (r.0 matches Some(w) && w.values@.len() == 0
                    && w.parent.elements == old(self).elements
                    && (w.parent.ref_num, w.parent.cache@) == cached_state(old(self).ref_num, old(self).cache@, key)
                    && *final(self) == *final(w.parent)),
            },
    {
        let (hit, r) = ref_for(&mut self.ref_num, &mut self.cache, key);
        if hit {
            (None, r)
        } else {
            (Some(StrictArrayWriter { values: Vec::new(), parent: self }), r)
        }
    }
}

impl Default for Amf0Writer {
    fn default() -> (r: Amf0Writer)
        ensures
            r.elements@.len() == 0,
            r.ref_num == 0,
            r.cache@.len() == 0,
    {
        Amf0Writer::new()
    }
}

/// A writer for encoding `ECMAArray` contents
pub struct ArrayWriter<'a> {
    /// The elements in this array
    pub elements: Vec<Element>,
    /// The writer that holds the reference counter and cache, and takes the value when committed
    pub parent: &'a mut Amf0Writer,
}

impl<'a> ObjWriter for ArrayWriter<'a> {
    open spec fn written(&self) -> Seq<ElementV> {
        elements_view(self.elements@)
    }

    open spec fn entry(&self, name: Seq<char>, v: ValueV) -> ElementV {
        ElementV { name, value: v }
    }

    open spec fn counter(&self) -> u16 {
        self.parent.ref_num
    }

    open spec fn refs(&self) -> Seq<(CacheKey, Reference)> {
        self.parent.cache@
    }

    open spec fn above(&self) -> Seq<ElementV> {
        elements_view(self.parent.elements@)
    }

    open spec fn root_elements(&self) -> Seq<ElementV> {
        elements_view(self.parent.elements@)
    }

    fn add_element(&mut self, name: &str, v: Value)
        ensures
            final(self).parent.elements == old(self).parent.elements,
            final(self).parent.ref_num == old(self).parent.ref_num,
            final(self).parent.cache == old(self).parent.cache,
    {
        add_plain(&mut self.elements, name, v);
    }

    fn add_cached_element(&mut self, key: CacheKey, name: &str, v: Value)
        ensures
            final(self).parent.elements == old(self).parent.elements,
    {
        add_cached(&mut self.parent.ref_num, &mut self.parent.cache, &mut self.elements, key, name, v);
    }

    fn object(&mut self, key: CacheKey) -> (r: (Option<ObjectWriter<'_>>, Reference))
        ensures
            match lookup_key(old(self).parent.cache@, key) {
                Some(x) => r.0 is None && r.1 == x && final(self).parent.elements == old(self).parent.elements
                    && final(self).parent.ref_num == old(self).parent.ref_num
                    && final(self).parent.cache@ == old(self).parent.cache@ && final(self).elements == old(self).elements,
                None => r.1 == Reference(old(self).parent.ref_num) && (r.0 matches Some(w) && w.elements@.len() == 0
                    && w.parent.elements == old(self).parent.elements
                    && (w.parent.ref_num, w.parent.cache@) == cached_state(old(self).parent.ref_num, old(self).parent.cache@, key)
                    && *final(self).parent == *final(w.parent) && final(self).elements == old(self).elements),
            },
    {
        self.parent.object(key)
    }

    fn array(&mut self, key: CacheKey) -> (r: (Option<ArrayWriter<'_>>, Reference))
        ensures
            match lookup_key(old(self).parent.cache@, key) {
                Some(x) => r.0 is None && r.1 == x && final(self).parent.elements == old(self).parent.elements
                    && final(self).parent.ref_num == old(self).parent.ref_num
                    && final(self).parent.cache@ == old(self).parent.cache@ && final(self).elements == old(self).elements,
                None => r.1 == Reference(old(self).parent.ref_num) && (r.0 matches Some(w) && w.elements@.len() == 0
                    && w.parent.elements == old(self).parent.elements
                    && (w.parent.ref_num, w.parent.cache@) == cached_state(old(self).parent.ref_num, old(self).parent.cache@, key)
                    && *final(self).parent == *final(w.parent) && final(self).elements == old(self).elements),
            },
    {
        self.parent.array(key)
    }

    fn strict_array(&mut self, key: CacheKey) -> (r: (Option<StrictArrayWriter<'_>>, Reference))
        ensures
            match lookup_key(old(self).parent.cache@, key) {
                Some(x) => r.0 is None && r.1 == x && final(self).parent.elements == old(self).parent.elements
                    && final(self).parent.ref_num == old(self).parent.ref_num
                    && final(self).parent.cache@ == old(self).parent.cache@ && final(self).elements == old(self).elements,
                None => r.1 == Reference(old(self).parent.ref_num) && (r.0 matches Some(w) && w.values@.len() == 0
                    && w.parent.elements == old(self).parent.elements
                    && (w.parent.ref_num, w.parent.cache@) == cached_state(old(self).parent.ref_num, old(self).parent.cache@, key)
                    && *final(self).parent == *final(w.parent) && final(self).elements == old(self).elements),
            },
    {
        self.parent.strict_array(key)
    }
}

impl<'a> ArrayWriter<'a> {
    /// Finalize this array, adding it under `name` to the root writer
    pub fn commit(self, name: &str)
        ensures
            elements_view(final(self.parent).elements@) == elements_view(old(self.parent).elements@).push(ElementV {
                name: name@,
                value: ValueV::ECMAArray {
                    id: ObjectId(-1i64),
                    dense: Seq::empty(),
                    elements: elements_view(self.elements@),
                    length: 0,
                },
            }),
    {
        let v = Value::ECMAArray {
            id: ObjectId::invalid(),
            data: ECMAArrayObjectValue { dense: Vec::new(), elements: self.elements, length: 0 },
        };
        proof {
            crate::types::lemma_value_view_parts(v);
            assert(values_view(Seq::<Value>::empty()) =~= Seq::<ValueV>::empty());
        }
        add_plain(&mut self.parent.elements, name, v);
    }
}

/// A writer for encoding the contents of a child object
pub struct ObjectWriter<'a> {
    /// The elements of this object
    pub elements: Vec<Element>,
    /// The writer that holds the reference counter and cache, and takes the value when committed
    pub parent: &'a mut Amf0Writer,
}

impl<'a> ObjWriter for ObjectWriter<'a> {
    open spec fn written(&self) -> Seq<ElementV> {
        elements_view(self.elements@)
    }

    open spec fn entry(&self, name: Seq<char>, v: ValueV) -> ElementV {
        ElementV { name, value: v }
    }

    open spec fn counter(&self) -> u16 {
        self.parent.ref_num
    }

    open spec fn refs(&self) -> Seq<(CacheKey, Reference)> {
        self.parent.cache@
    }

    open spec fn above(&self) -> Seq<ElementV> {
        elements_view(self.parent.elements@)
    }

    open spec fn root_elements(&self) -> Seq<ElementV> {
        elements_view(self.parent.elements@)
    }

    fn add_element(&mut self, name: &str, v: Value)
        ensures
            final(self).parent.elements == old(self).parent.elements,
            final(self).parent.ref_num == old(self).parent.ref_num,
            final(self).parent.cache == old(self).parent.cache,
    {
        add_plain(&mut self.elements, name, v);
    }

    fn add_cached_element(&mut self, key: CacheKey, name: &str, v: Value)
        ensures
            final(self).parent.elements == old(self).parent.elements,
    {
        add_cached(&mut self.parent.ref_num, &mut self.parent.cache, &mut self.elements, key, name, v);
    }

    fn object(&mut self, key: CacheKey) -> (r: (Option<ObjectWriter<'_>>, Reference))
        ensures
            match lookup_key(old(self).parent.cache@, key) {
                Some(x) => r.0 is None && r.1 == x && final(self).parent.elements == old(self).parent.elements
                    && final(self).parent.ref_num == old(self).parent.ref_num
                    && final(self).parent.cache@ == old(self).parent.cache@ && final(self).elements == old(self).elements,
                None => r.1 == Reference(old(self).parent.ref_num) && (r.0 matches Some(w) && w.elements@.len() == 0
                    && w.parent.elements == old(self).parent.elements
                    && (w.parent.ref_num, w.parent.cache@) == cached_state(old(self).parent.ref_num, old(self).parent.cache@, key)
                    && *final(self).parent == *final(w.parent) && final(self).elements == old(self).elements),
            },
    {
        self.parent.object(key)
    }

    fn array(&mut self, key: CacheKey) -> (r: (Option<ArrayWriter<'_>>, Reference))
        ensures
            match lookup_key(old(self).parent.cache@, key) {
                Some(x) => r.0 is None && r.1 == x && final(self).parent.elements == old(self).parent.elements
                    && final(self).parent.ref_num == old(self).parent.ref_num
                    && final(self).parent.cache@ == old(self).parent.cache@ && final(self).elements == old(self).elements,
                None => r.1 == Reference(old(self).parent.ref_num) && (r.0 matches Some(w) && w.elements@.len() == 0
                    && w.parent.elements == old(self).parent.elements
                    && (w.parent.ref_num, w.parent.cache@) == cached_state(old(self).parent.ref_num, old(self).parent.cache@, key)
                    && *final(self).parent == *final(w.parent) && final(self).elements == old(self).elements),
            },
    {
        self.parent.array(key)
    }

    fn strict_array(&mut self, key: CacheKey) -> (r: (Option<StrictArrayWriter<'_>>, Reference))
        ensures
            match lookup_key(old(self).parent.cache@, key) {
                Some(x) => r.0 is None && r.1 == x && final(self).parent.elements == old(self).parent.elements
                    && final(self).parent.ref_num == old(self).parent.ref_num
                    && final(self).parent.cache@ == old(self).parent.cache@ && final(self).elements == old(self).elements,
                None => r.1 == Reference(old(self).parent.ref_num) && (r.0 matches Some(w) && w.values@.len() == 0
                    && w.parent.elements == old(self).parent.elements
                    && (w.parent.ref_num, w.parent.cache@) == cached_state(old(self).parent.ref_num, old(self).parent.cache@, key)
                    && *final(self).parent == *final(w.parent) && final(self).elements == old(self).elements),
            },
    {
        self.parent.strict_array(key)
    }
}

impl<'a> ObjectWriter<'a> {
    /// Finalize this object, adding it under `name` to the root writer
    pub fn commit(self, name: &str)
        ensures
            elements_view(final(self.parent).elements@) == elements_view(old(self.parent).elements@).push(ElementV {
                name: name@,
                value: ValueV::Object {
                    id: ObjectId(-1i64),
                    elements: elements_view(self.elements@),
                    class_definition: None,
                },
            }),
    {
        let v = Value::Object { id: ObjectId::invalid(), data: ObjectValue { elements: self.elements, class_definition: None } };
        proof { crate::types::lemma_value_view_parts(v); }
        add_plain(&mut self.parent.elements, name, v);
    }
}

/// The elements a strict array's values stand for: unnamed, one per value.
pub open spec fn unnamed(vs: Seq<ValueV>) -> Seq<ElementV> {
    Seq::new(vs.len(), |i: int| ElementV { name: Seq::empty(), value: vs[i] })
}

/// A writer for encoding `StrictArray` contents
pub struct StrictArrayWriter<'a> {
    /// The values in this array
    pub values: Vec<Value>,
    /// The writer that holds the reference counter and cache, and takes the array when committed
    pub parent: &'a mut Amf0Writer,
}

impl<'a> ObjWriter for StrictArrayWriter<'a> {
    open spec fn written(&self) -> Seq<ElementV> {
        unnamed(values_view(self.values@))
    }

    /// A strict array keeps values only: the name is not kept
    open spec fn entry(&self, name: Seq<char>, v: ValueV) -> ElementV {
        ElementV { name: Seq::empty(), value: v }
    }

    open spec fn counter(&self) -> u16 {
        self.parent.ref_num
    }

    open spec fn refs(&self) -> Seq<(CacheKey, Reference)> {
        self.parent.cache@
    }

    open spec fn above(&self) -> Seq<ElementV> {
        elements_view(self.parent.elements@)
    }

    open spec fn root_elements(&self) -> Seq<ElementV> {
        elements_view(self.parent.elements@)
    }

    fn add_element(&mut self, name: &str, v: Value)
        ensures
            values_view(final(self).values@) == values_view(old(self).values@).push(v@),
            final(self).parent.elements == old(self).parent.elements,
            final(self).parent.ref_num == old(self).parent.ref_num,
            final(self).parent.cache == old(self).parent.cache,
    {
        let ghost vv = values_view(self.values@);
        add_value(&mut self.values, v);
        assert(unnamed(values_view(self.values@)) =~= unnamed(vv).push(ElementV { name: Seq::empty(), value: v@ }));
    }

    fn add_cached_element(&mut self, key: CacheKey, name: &str, v: Value)
        ensures
            values_view(final(self).values@) == values_view(old(self).values@).push(
                cached_element(old(self).parent.cache@, key, Seq::empty(), v@).value,
            ),
            final(self).parent.elements == old(self).parent.elements,
    {
        let ghost vv = values_view(self.values@);
        let ghost c = self.parent.cache@;
        add_cached_value(&mut self.parent.ref_num, &mut self.parent.cache, &mut self.values, key, v);
        assert(cached_element(c, key, Seq::empty(), v@).value == cached_element(c, key, name@, v@).value);
        assert(unnamed(values_view(self.values@)) =~= unnamed(vv).push(
            ElementV { name: Seq::empty(), value: cached_element(c, key, name@, v@).value },
        ));
    }

    fn object(&mut self, key: CacheKey) -> (r: (Option<ObjectWriter<'_>>, Reference))
        ensures
            match lookup_key(old(self).parent.cache@, key) {
                Some(x) => r.0 is None && r.1 == x && final(self).parent.elements == old(self).parent.elements
                    && final(self).parent.ref_num == old(self).parent.ref_num
                    && final(self).parent.cache@ == old(self).parent.cache@ && final(self).values == old(self).values,
                None => r.1 == Reference(old(self).parent.ref_num) && (r.0 matches Some(w) && w.elements@.len() == 0
                    && w.parent.elements == old(self).parent.elements
                    && (w.parent.ref_num, w.parent.cache@) == cached_state(old(self).parent.ref_num, old(self).parent.cache@, key)
                    && *final(self).parent == *final(w.parent) && final(self).values == old(self).values),
            },
    {
        self.parent.object(key)
    }

    fn array(&mut self, key: CacheKey) -> (r: (Option<ArrayWriter<'_>>, Reference))
        ensures
            match lookup_key(old(self).parent.cache@, key) {
                Some(x) => r.0 is None && r.1 == x && final(self).parent.elements == old(self).parent.elements
                    && final(self).parent.ref_num == old(self).parent.ref_num
                    && final(self).parent.cache@ == old(self).parent.cache@ && final(self).values == old(self).values,
                None => r.1 == Reference(old(self).parent.ref_num) && (r.0 matches Some(w) && w.elements@.len() == 0
                    && w.parent.elements == old(self).parent.elements
                    && (w.parent.ref_num, w.parent.cache@) == cached_state(old(self).parent.ref_num, old(self).parent.cache@, key)
                    && *final(self).parent == *final(w.parent) && final(self).values == old(self).values),
            },
    {
        self.parent.array(key)
    }

    fn strict_array(&mut self, key: CacheKey) -> (r: (Option<StrictArrayWriter<'_>>, Reference))
        ensures
            match lookup_key(old(self).parent.cache@, key) {
                Some(x) => r.0 is None && r.1 == x && final(self).parent.elements == old(self).parent.elements
                    && final(self).parent.ref_num == old(self).parent.ref_num
                    && final(self).parent.cache@ == old(self).parent.cache@ && final(self).values == old(self).values,
                None => r.1 == Reference(old(self).parent.ref_num) && (r.0 matches Some(w) && w.values@.len() == 0
                    && w.parent.elements == old(self).parent.elements
                    && (w.parent.ref_num, w.parent.cache@) == cached_state(old(self).parent.ref_num, old(self).parent.cache@, key)
                    && *final(self).parent == *final(w.parent) && final(self).values == old(self).values),
            },
    {
        self.parent.strict_array(key)
    }
}

impl<'a> StrictArrayWriter<'a> {
    /// Finalise this array, adding it under `name` to the root writer
    pub fn commit(self, name: &str)
        ensures
            elements_view(final(self.parent).elements@) == elements_view(old(self.parent).elements@).push(ElementV {
                name: name@,
                value: ValueV::StrictArray { id: ObjectId(-1i64), values: values_view(self.values@) },
            }),
    {
        let v = Value::StrictArray { id: ObjectId::invalid(), values: self.values };
        proof { crate::types::lemma_value_view_parts(v); }
        add_plain(&mut self.parent.elements, name, v);
    }
}

} // verus!
