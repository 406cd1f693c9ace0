//! A cache for decoded icons.
//!
//! Decoding is costly, and a dock asks for the same icons over and over. Each is
//! decoded once for each size, and again only after the cache was cleared.

use vstd::prelude::*;
use crate::text;

verus! {

/// A decoded icon: what it was decoded from, and at which size.
#[derive(Debug)]
struct CacheEntry<V> {
    name: String,
    width: i32,
    height: i32,
    value: V,
}

/// The entry is for this name and size.
spec fn is_for<V>(entry: CacheEntry<V>, name: Seq<char>, width: i32, height: i32) -> bool {
    entry.name@ == name && entry.width == width && entry.height == height
}

/// What is cached for this name and size among the first `n` entries.
spec fn lookup<V>(
    entries: Seq<CacheEntry<V>>,
    n: int,
    name: Seq<char>,
    width: i32,
    height: i32,
) -> Option<V>
    decreases n,
{
    if n <= 0 {
        None
    } else if is_for(entries[n - 1], name, width, height) {
        Some(entries[n - 1].value)
    } else {
        lookup(entries, n - 1, name, width, height)
    }
}

proof fn lemma_lookup_prefix<V>(
    a: Seq<CacheEntry<V>>,
    b: Seq<CacheEntry<V>>,
    n: int,
    name: Seq<char>,
    width: i32,
    height: i32,
)
    requires
        0 <= n <= a.len(),
        n <= b.len(),
        forall|i: int| 0 <= i < n ==> a[i] == b[i],
    ensures
        lookup(a, n, name, width, height) == lookup(b, n, name, width, height),
    decreases n,
{
    if n > 0 {
        lemma_lookup_prefix(a, b, n - 1, name, width, height);
    }
}

/// Decoded icons by name, or by path, and size.
#[derive(Debug)]
pub struct IconCache<V> {
    entries: Vec<CacheEntry<V>>,
}

impl<V> IconCache<V> {
    /// What is cached for this name and size.
    pub closed spec fn cached(&self, name: Seq<char>, width: i32, height: i32) -> Option<V> {
        lookup(self.entries@, self.entries@.len() as int, name, width, height)
    }

    /// A cache with nothing in it.
    pub fn new() -> (r: IconCache<V>)
        ensures
            forall|name: Seq<char>, width: i32, height: i32|
                (#[trigger] r.cached(name, width, height)) is None,
    {
        IconCache { entries: Vec::new() }
    }

    /// Looks up an icon.
    pub fn get(&self, name: &str, width: i32, height: i32) -> (r: Option<&V>)
        ensures
            match r {
                Some(value) => self.cached(name@, width, height) == Some(*value),
                None => self.cached(name@, width, height) is None,
            },
    {
        let mut n: usize = self.entries.len();
        while n > 0
            invariant
                n <= self.entries@.len(),
                self.cached(name@, width, height) == lookup(
                    self.entries@,
                    n as int,
                    name@,
                    width,
                    height,
                ),
            decreases n,
        {
            let entry = &self.entries[n - 1];
            if entry.width == width && entry.height == height && text::same_text(
                entry.name.as_str(),
                name,
            ) {
                return Some(&entry.value);
            }
            n -= 1;
        }
        None
    }

    /// Takes note of a decoded icon. All others stay as they are.
    pub fn insert(&mut self, name: &str, width: i32, height: i32, value: V)
        ensures
            final(self).cached(name@, width, height) == Some(value),
            forall|n: Seq<char>, w: i32, h: i32|
                n != name@ || w != width || h != height ==> #[trigger] final(self).cached(n, w, h)
                    == old(self).cached(n, w, h),
    {
        let ghost before = self.entries@;
        self.entries.push(CacheEntry { name: name.to_owned(), width, height, value });
        proof {
            let after = self.entries@;
            assert forall|n: Seq<char>, w: i32, h: i32|
                n != name@ || w != width || h != height implies #[trigger] self.cached(n, w, h)
                == old(self).cached(n, w, h) by {
                lemma_lookup_prefix(before, after, before.len() as int, n, w, h);
            }
        }
    }

    /// Forgets all icons, as the icon theme has changed.
    pub fn clear(&mut self)
        ensures
            forall|name: Seq<char>, width: i32, height: i32|
                (#[trigger] final(self).cached(name, width, height)) is None,
    {
        self.entries.clear();
    }
}

} // verus!
