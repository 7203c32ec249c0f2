//! The reference table: an ordered, per-document mapping from symbolic key to
//! rendered label, built incrementally while render directives are
//! interpreted and queried by reference directives in the same left-to-right
//! pass.  A repeated key is not an error: the last write wins.

use vstd::prelude::*;

use crate::text::{clone_bytes, dec_bytes, push_dec};

verus! {

/// One key-to-label binding.
#[derive(Debug, Clone, PartialEq, Eq)]
pub struct RefEntry {
    pub key: Vec<u8>,
    pub label: Vec<u8>,
}

/// The map a list of bindings denotes, later bindings shadowing earlier ones.
pub open spec fn entries_map(s: Seq<RefEntry>) -> Map<Seq<u8>, Seq<u8>>
    decreases s.len(),
{
    if s.len() == 0 {
        Map::empty()
    } else {
        entries_map(s.drop_last()).insert(s.last().key@, s.last().label@)
    }
}

/// The reference table: symbolic key to rendered label.
#[derive(Debug, Clone, PartialEq, Eq)]
pub struct RefTable {
    entries: Vec<RefEntry>,
}

impl View for RefTable {
    type V = Map<Seq<u8>, Seq<u8>>;

    closed spec fn view(&self) -> Map<Seq<u8>, Seq<u8>> {
        entries_map(self.entries@)
    }
}

impl RefTable {
    /// The empty table.
    pub fn new() -> (r: RefTable)
        ensures
            r@ == Map::<Seq<u8>, Seq<u8>>::empty(),
    {
        let r = RefTable { entries: Vec::new() };
        proof {
            assert(r.entries@.len() == 0);
        }
        r
    }

    /// Binds `key` to `label`; an existing binding of `key` is shadowed.
    pub fn insert(&mut self, key: Vec<u8>, label: Vec<u8>)
        ensures
            final(self)@ == old(self)@.insert(key@, label@),
    {
        let ghost k = key@;
        let ghost l = label@;
        self.entries.push(RefEntry { key, label });
        proof {
            assert(self.entries@.drop_last() =~= old(self).entries@);
            assert(self.entries@.last().key@ == k);
            assert(self.entries@.last().label@ == l);
        }
    }

    /// Looks `key` up: the label of its latest binding, if any.
    pub fn get(&self, key: &[u8]) -> (r: Option<Vec<u8>>)
        ensures
            match r {
                Some(label) => self@.contains_key(key@) && label@ == self@[key@],
                None => !self@.contains_key(key@),
            },
    {
        let n = self.entries.len();
        proof {
            assert(self.entries@.subrange(0, n as int) =~= self.entries@);
        }
        let mut t = n;
        while t > 0
            invariant
                t <= n == self.entries@.len(),
                entries_map(self.entries@).contains_key(key@) == entries_map(
                    self.entries@.subrange(0, t as int),
                ).contains_key(key@),
                entries_map(self.entries@).contains_key(key@) ==> entries_map(
                    self.entries@,
                )[key@] == entries_map(self.entries@.subrange(0, t as int))[key@],
            decreases t,
        {
            t -= 1;
            let ghost pre = self.entries@.subrange(0, t + 1 as int);
            proof {
                assert(pre.drop_last() =~= self.entries@.subrange(0, t as int));
                assert(pre.last() == self.entries@[t as int]);
                assert(entries_map(pre) == entries_map(self.entries@.subrange(0, t as int)).insert(
                    self.entries@[t as int].key@,
                    self.entries@[t as int].label@,
                ));
            }
            if crate::text::bytes_eq(self.entries[t].key.as_slice(), key) {
                return Some(clone_bytes(&self.entries[t].label));
            }
        }
        proof {
            assert(self.entries@.subrange(0, 0) =~= Seq::<RefEntry>::empty());
        }
        None
    }
}

/// The citation label of the 0-based bibliography entry `i`: `[i + 1]`.
pub open spec fn bib_label(i: int) -> Seq<u8> {
    seq![91u8] + dec_bytes((i + 1) as nat) + seq![93u8]
}

/// The reference table the ordered citation keys of a bibliography denote:
/// the `i`-th key maps to `[i + 1]`.
pub open spec fn bib_map(keys: Seq<Seq<u8>>, n: int) -> Map<Seq<u8>, Seq<u8>>
    decreases n,
{
    if n <= 0 || n > keys.len() {
        Map::empty()
    } else {
        bib_map(keys, n - 1).insert(keys[n - 1], bib_label(n - 1))
    }
}

/// Builds the reference table of a bibliography's citation keys, in order:
/// the first key is labelled `[1]`, the second `[2]`, and so on.
pub fn bib_citation_table(keys: &Vec<Vec<u8>>) -> (r: RefTable)
    requires
        keys@.len() < usize::MAX,
    ensures
        r@ == bib_map(crate::directive::toks_view(keys@), keys@.len() as int),
{
    let n = keys.len();
    let mut r = RefTable::new();
    let mut i: usize = 0;
    while i < n
        invariant
            i <= n == keys@.len() < usize::MAX,
            r@ == bib_map(crate::directive::toks_view(keys@), i as int),
        decreases n - i,
    {
        let mut label: Vec<u8> = Vec::new();
        label.push(91);
        push_dec(&mut label, (i as u64) + 1);
        label.push(93);
        proof {
            assert(label@ =~= bib_label(i as int));
        }
        r.insert(clone_bytes(&keys[i]), label);
        proof {
            assert(crate::directive::toks_view(keys@)[i as int] == keys@[i as int]@);
        }
        i += 1;
    }
    r
}

} // verus!
