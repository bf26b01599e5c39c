use vstd::prelude::*;

verus! {

/// A JSON-like scalar stored under an attribute key.
///
/// Only the shapes that rendering inspects are distinguished: boolean
/// flags (bold, italic, underline, strike), unsigned numbers (header
/// levels) and text (list kinds).
#[derive(Debug, Clone, PartialEq)]
pub enum AttrValue {
    Bool(bool),
    UInt(u64),
    Text(String),
}

/// An ordered mapping from string keys to attribute values.
///
/// Insertion order is kept; inserting a key that is already present
/// replaces its value in place, so keys stay unique.
#[derive(Debug, Clone, PartialEq)]
pub struct AttributesMap {
    entries: Vec<(String, AttrValue)>,
}

impl View for AttributesMap {
    type V = Seq<(String, AttrValue)>;

    closed spec fn view(&self) -> Seq<(String, AttrValue)> {
        self.entries@
    }
}

/// The value under `key` in an association sequence: the value of the
/// first pair whose key has the characters of `key`, if any.
pub open spec fn assoc_get(s: Seq<(String, AttrValue)>, key: Seq<char>) -> Option<AttrValue>
    decreases s.len(),
{
    if s.len() == 0 {
        None
    } else if s[0].0@ == key {
        Some(s[0].1)
    } else {
        assoc_get(s.drop_first(), key)
    }
}

/// Appending a pair only affects lookups that found nothing before,
/// and only for the appended key.
proof fn lemma_assoc_get_push(s: Seq<(String, AttrValue)>, p: (String, AttrValue), k: Seq<char>)
    ensures
        assoc_get(s.push(p), k) == (if assoc_get(s, k) is Some {
            assoc_get(s, k)
        } else if p.0@ == k {
            Some(p.1)
        } else {
            None::<AttrValue>
        }),
    decreases s.len(),
{
    let sp = s.push(p);
    assert(sp.len() == s.len() + 1);
    if s.len() == 0 {
        assert(sp[0] == p);
        if p.0@ == k {
            assert(assoc_get(sp, k) == Some(p.1));
        } else {
            assert(sp.drop_first() =~= Seq::<(String, AttrValue)>::empty());
            assert(assoc_get(sp, k) is None);
        }
    } else {
        assert(sp[0] == s[0]);
        assert(sp.drop_first() =~= s.drop_first().push(p));
        lemma_assoc_get_push(s.drop_first(), p, k);
        if s[0].0@ == k {
            assert(assoc_get(sp, k) == Some(s[0].1));
            assert(assoc_get(s, k) == Some(s[0].1));
        } else {
            assert(assoc_get(sp, k) == assoc_get(sp.drop_first(), k));
            assert(assoc_get(s, k) == assoc_get(s.drop_first(), k));
        }
    }
}

/// Replacing the first pair that holds `p.0`'s key rebinds exactly that
/// key and leaves every other lookup unchanged.
proof fn lemma_assoc_get_update(s: Seq<(String, AttrValue)>, i: int, p: (String, AttrValue), k: Seq<char>)
    requires
        0 <= i < s.len(),
        s[i].0@ == p.0@,
        forall|j: int| 0 <= j < i ==> s[j].0@ != p.0@,
    ensures
        assoc_get(s.update(i, p), p.0@) == Some(p.1),
        k != p.0@ ==> assoc_get(s.update(i, p), k) == assoc_get(s, k),
    decreases i,
{
    let s2 = s.update(i, p);
    if i == 0 {
        assert(s2[0] == p);
        assert(s2.drop_first() =~= s.drop_first());
    } else {
        assert(s2[0] == s[0]);
        assert(s2.drop_first() =~= s.drop_first().update(i - 1, p));
        lemma_assoc_get_update(s.drop_first(), i - 1, p, k);
    }
}

/// Character-for-character equality of two string slices.
pub fn str_eq(a: &str, b: &str) -> (r: bool)
    ensures
        r == (a@ == b@),
{
    let alen = a.unicode_len();
    let blen = b.unicode_len();
    if alen != blen {
        return false;
    }
    let mut i: usize = 0;
    while i < alen
        invariant
            alen == a@.len(),
            blen == b@.len(),
            alen == blen,
            i <= alen,
            forall|k: int| 0 <= k < i ==> a@[k] == b@[k],
        decreases alen - i,
    {
        if a.get_char(i) != b.get_char(i) {
            return false;
        }
        i += 1;
    }
    proof {
        assert(a@ =~= b@);
    }
    true
}

impl AttributesMap {
    /// The value stored under `key`, if any.
    pub open spec fn spec_get(self, key: Seq<char>) -> Option<AttrValue> {
        assoc_get(self@, key)
    }

    pub fn new() -> (m: AttributesMap)
        ensures
            m@ =~= Seq::<(String, AttrValue)>::empty(),
    {
        AttributesMap { entries: Vec::new() }
    }

    pub fn is_empty(&self) -> (r: bool)
        ensures
            r == (self@.len() == 0),
    {
        self.entries.len() == 0
    }

    pub fn len(&self) -> (n: usize)
        ensures
            n == self@.len(),
    {
        self.entries.len()
    }

    /// The pair at position `i`, in insertion order.
    pub fn entry(&self, i: usize) -> (p: &(String, AttrValue))
        requires
            i < self@.len(),
        ensures
            *p == self@[i as int],
    {
        &self.entries[i]
    }

    pub fn get(&self, key: &str) -> (r: Option<&AttrValue>)
        ensures
            match r {
                Some(v) => self.spec_get(key@) == Some(*v),
                None => self.spec_get(key@) is None,
            },
    {
        let n = self.entries.len();
        let mut i: usize = 0;
        proof {
            assert(self@.skip(0) =~= self@);
        }
        while i < n
            invariant
                n == self.entries.len(),
                i <= n,
                assoc_get(self@.skip(i as int), key@) == self.spec_get(key@),
            decreases n - i,
        {
            if str_eq(self.entries[i].0.as_str(), key) {
                proof {
                    assert(self@.skip(i as int)[0] == self@[i as int]);
                }
                return Some(&self.entries[i].1);
            }
            proof {
                assert(self@.skip(i as int)[0] == self@[i as int]);
                assert(self@.skip(i as int).drop_first() =~= self@.skip(i as int + 1));
            }
            i += 1;
        }
        proof {
            assert(self@.skip(n as int) =~= Seq::<(String, AttrValue)>::empty());
        }
        None
    }

    /// Binds `key` to `value`: replaces the value in place when the key
    /// is present, appends the pair otherwise.
    pub fn insert(&mut self, key: String, value: AttrValue)
        ensures
            final(self).spec_get(key@) == Some(value),
            forall|k: Seq<char>| k != key@ ==> final(self).spec_get(k) == old(self).spec_get(k),
            old(self)@.len() <= final(self)@.len() <= old(self)@.len() + 1,
    {
        let n = self.entries.len();
        let mut i: usize = 0;
        while i < n
            invariant
                n == self.entries.len(),
                i <= n,
                self.entries@ == old(self).entries@,
                forall|j: int| 0 <= j < i ==> self.entries@[j].0@ != key@,
            decreases n - i,
        {
            if str_eq(self.entries[i].0.as_str(), key.as_str()) {
                let ghost s0 = self.entries@;
                let ghost ii = i as int;
                self.entries.remove(i);
                self.entries.insert(i, (key, value));
                proof {
                    let p = (key, value);
                    assert(self.entries@ =~= s0.update(ii, p));
                    lemma_assoc_get_update(s0, ii, p, Seq::<char>::empty());
                    assert forall|k: Seq<char>| k != key@ implies self.spec_get(k) == assoc_get(
                        s0,
                        k,
                    ) by {
                        lemma_assoc_get_update(s0, ii, p, k);
                    }
                }
                return ;
            }
            i += 1;
        }
        let ghost s0 = self.entries@;
        self.entries.push((key, value));
        proof {
            let p = (key, value);
            assert(self.entries@ =~= s0.push(p));
            lemma_assoc_get_push(s0, p, key@);
            if assoc_get(s0, key@) is Some {
                lemma_assoc_get_some_has_key(s0, key@);
            }
            assert forall|k: Seq<char>| k != key@ implies self.spec_get(k) == assoc_get(s0, k) by {
                lemma_assoc_get_push(s0, p, k);
            }
        }
    }
}

/// A successful lookup names a pair of the sequence that holds the key.
proof fn lemma_assoc_get_some_has_key(s: Seq<(String, AttrValue)>, k: Seq<char>)
    requires
        assoc_get(s, k) is Some,
    ensures
        exists|j: int| 0 <= j < s.len() && s[j].0@ == k,
    decreases s.len(),
{
    if s.len() > 0 && s[0].0@ != k {
        lemma_assoc_get_some_has_key(s.drop_first(), k);
    }
}

} // verus!
