//! Sets of names, kept in the order of their bytes.

use vstd::prelude::*;
use vstd::string::*;

use crate::text;
use crate::text::{copy_of, same};

verus! {

// ---------------------------------------------------------------------------------------------
// The order of names
// ---------------------------------------------------------------------------------------------
/// Whether one row of bytes comes before another in lexicographic order.
pub open spec fn bytes_before(a: Seq<u8>, b: Seq<u8>) -> bool
    decreases a.len(),
{
    if b.len() == 0 {
        false
    } else if a.len() == 0 {
        true
    } else if a.first() != b.first() {
        a.first() < b.first()
    } else {
        bytes_before(a.drop_first(), b.drop_first())
    }
}

/// Whether one text comes before another, by the bytes of their UTF-8 encodings.
pub open spec fn before(a: Seq<char>, b: Seq<char>) -> bool {
    bytes_before(vstd::utf8::encode_utf8(a), vstd::utf8::encode_utf8(b))
}

proof fn lemma_bytes_irreflexive(a: Seq<u8>)
    ensures
        !bytes_before(a, a),
    decreases a.len(),
{
    if a.len() > 0 {
        lemma_bytes_irreflexive(a.drop_first());
    }
}

proof fn lemma_bytes_transitive(a: Seq<u8>, b: Seq<u8>, c: Seq<u8>)
    requires
        bytes_before(a, b),
        bytes_before(b, c),
    ensures
        bytes_before(a, c),
    decreases a.len(),
{
    if a.len() > 0 && a.first() == b.first() && b.first() == c.first() {
        lemma_bytes_transitive(a.drop_first(), b.drop_first(), c.drop_first());
    }
}

proof fn lemma_bytes_total(a: Seq<u8>, b: Seq<u8>)
    ensures
        bytes_before(a, b) || bytes_before(b, a) || a == b,
    decreases a.len(),
{
    if a.len() > 0 && b.len() > 0 {
        if a.first() == b.first() {
            lemma_bytes_total(a.drop_first(), b.drop_first());
            if a.drop_first() == b.drop_first() {
                assert(a =~= seq![a.first()] + a.drop_first());
                assert(b =~= seq![b.first()] + b.drop_first());
            }
        }
    } else if a.len() == 0 && b.len() == 0 {
        assert(a =~= b);
    }
}

/// The order of names is strict and total.
pub proof fn lemma_before_is_strict_total_order(a: Seq<char>, b: Seq<char>, c: Seq<char>)
    ensures
        !before(a, a),
        before(a, b) && before(b, c) ==> before(a, c),
        before(a, b) || before(b, a) || a == b,
{
    let x = vstd::utf8::encode_utf8(a);
    let y = vstd::utf8::encode_utf8(b);
    let z = vstd::utf8::encode_utf8(c);
    lemma_bytes_irreflexive(x);
    if before(a, b) && before(b, c) {
        lemma_bytes_transitive(x, y, z);
    }
    lemma_bytes_total(x, y);
    vstd::utf8::encode_utf8_decode_utf8(a);
    vstd::utf8::encode_utf8_decode_utf8(b);
}

/// Whether one text comes before another, by the bytes of their UTF-8 encodings.
pub fn is_before(a: &str, b: &str) -> (r: bool)
    ensures
        r == before(a@, b@),
{
    let x = a.as_bytes();
    let y = b.as_bytes();
    let mut i: usize = 0;
    assert(x@.skip(0) =~= x@);
    assert(y@.skip(0) =~= y@);
    while i < x.len() && i < y.len() && x[i] == y[i]
        invariant
            0 <= i <= x@.len(),
            i <= y@.len(),
            bytes_before(x@, y@) == bytes_before(x@.skip(i as int), y@.skip(i as int)),
        decreases x@.len() - i,
    {
        assert(x@.skip(i as int).drop_first() =~= x@.skip(i + 1));
        assert(y@.skip(i as int).drop_first() =~= y@.skip(i + 1));
        i += 1;
    }
    if i == y.len() {
        false
    } else if i == x.len() {
        true
    } else {
        x[i] < y[i]
    }
}

// ---------------------------------------------------------------------------------------------
// Sets of names
// ---------------------------------------------------------------------------------------------
/// Whether each name comes before all that follow it.
pub open spec fn ascending(names: Seq<Seq<char>>) -> bool {
    forall|i: int, j: int| 0 <= i < j < names.len() ==> before(#[trigger] names[i], #[trigger] names[j])
}

/// A set of names. They are kept in ascending order, so nothing occurs twice and the order in
/// which they are listed depends on the set alone.
#[derive(Debug, PartialEq, Eq)]
pub struct NameSet {
    items: Vec<String>,
}

impl View for NameSet {
    type V = Set<Seq<char>>;

    open spec fn view(&self) -> Set<Seq<char>> {
        self.names().to_set()
    }
}

impl NameSet {
    /// The names in ascending order.
    pub closed spec fn names(&self) -> Seq<Seq<char>> {
        text::texts(self.items@)
    }

    /// The names are in ascending order.
    #[verifier::type_invariant]
    pub open spec fn well_formed(&self) -> bool {
        ascending(self.names())
    }

    /// The empty set.
    pub fn new() -> (r: NameSet)
        ensures
            r@ == Set::<Seq<char>>::empty(),
            r.names() == Seq::<Seq<char>>::empty(),
    {
        let items: Vec<String> = Vec::new();
        assert(text::texts(items@) =~= Seq::<Seq<char>>::empty());
        let r = NameSet { items };
        assert(r@ =~= Set::<Seq<char>>::empty());
        r
    }

    /// How many names there are.
    pub fn len(&self) -> (r: usize)
        ensures
            ascending(self.names()),
            r == self.names().len(),
            r == self@.len(),
    {
        proof {
            use_type_invariant(self);
            lemma_ascending_distinct(self.names());
            self.names().unique_seq_to_set();
        }
        self.items.len()
    }

    /// Whether there is no name.
    pub fn is_empty(&self) -> (r: bool)
        ensures
            r == (self@ == Set::<Seq<char>>::empty()),
            r == (self.names().len() == 0),
    {
        let r = self.items.len() == 0;
        proof {
            if r {
                assert(self@ =~= Set::<Seq<char>>::empty());
            } else {
                assert(self.names().contains(self.names()[0]));
                assert(self@.contains(self.names()[0]));
            }
        }
        r
    }

    /// The name at a place in ascending order.
    pub fn get(&self, i: usize) -> (r: &String)
        requires
            i < self.names().len(),
        ensures
            r@ == self.names()[i as int],
            ascending(self.names()),
    {
        proof {
            use_type_invariant(self);
        }
        &self.items[i]
    }

    /// Whether a name is in the set.
    pub fn contains(&self, name: &str) -> (r: bool)
        ensures
            r == self@.contains(name@),
    {
        let mut i: usize = 0;
        while i < self.items.len()
            invariant
                0 <= i <= self.items@.len(),
                forall|j: int| 0 <= j < i ==> #[trigger] self.items@[j]@ != name@,
            decreases self.items@.len() - i,
        {
            if same(self.items[i].as_str(), name) {
                assert(self.names()[i as int] == name@);
                assert(self.names().contains(name@));
                return true;
            }
            i += 1;
        }
        proof {
            if self@.contains(name@) {
                let k = choose|k: int| 0 <= k < self.names().len() && self.names()[k] == name@;
                assert(self.items@[k]@ == name@);
            }
        }
        false
    }

    /// The names in ascending order.
    pub fn to_vec(&self) -> (r: Vec<String>)
        ensures
            text::texts(r@) == self.names(),
            ascending(self.names()),
    {
        proof {
            use_type_invariant(self);
        }
        copy_of(&self.items)
    }

    /// Adds a name.
    pub fn insert(&mut self, name: String)
        ensures
            final(self)@ == old(self)@.insert(name@),
    {
        proof {
            use_type_invariant(&*self);
        }
        let ghost held = text::texts(self.items@);
        let mut i: usize = 0;
        while i < self.items.len() && is_before(self.items[i].as_str(), name.as_str())
            invariant
                0 <= i <= self.items@.len(),
                held == text::texts(self.items@),
                self.items@ == old(self).items@,
                ascending(held),
                forall|j: int| 0 <= j < i ==> before(#[trigger] held[j], name@),
            decreases self.items@.len() - i,
        {
            i += 1;
        }
        if i < self.items.len() && same(self.items[i].as_str(), name.as_str()) {
            assert(held[i as int] == name@);
            assert(held.contains(name@));
            assert(self@ =~= old(self)@.insert(name@));
            return;
        }
        let ghost text = name@;
        let ghost n = held.len() as int;
        let ghost grown = held.insert(i as int, text);
        proof {
            if i < n {
                lemma_before_is_strict_total_order(held[i as int], text, text);
            }
            assert forall|a: int, b: int| 0 <= a < b < grown.len() implies before(
                #[trigger] grown[a],
                #[trigger] grown[b],
            ) by {
                if a < i {
                    if b == i {
                    } else if b > i {
                        assert(grown[b] == held[b - 1]);
                    }
                } else if a == i {
                    assert(grown[b] == held[b - 1]);
                    lemma_before_is_strict_total_order(text, held[i as int], held[b - 1]);
                } else {
                    assert(grown[a] == held[a - 1]);
                    assert(grown[b] == held[b - 1]);
                }
            }
        }
        let mut items: Vec<String> = Vec::new();
        core::mem::swap(&mut items, &mut self.items);
        items.insert(i, name);
        assert(text::texts(items@) =~= grown);
        self.items = items;
        proof {
            assert(self.names() == grown);
            assert forall|t: Seq<char>| self@.contains(t) == old(self)@.insert(text).contains(t) by {
                if held.contains(t) {
                    let k = choose|k: int| 0 <= k < held.len() && held[k] == t;
                    assert(grown[if k < i {
                        k
                    } else {
                        k + 1
                    }] == t);
                }
                if grown.contains(t) {
                    let k = choose|k: int| 0 <= k < grown.len() && grown[k] == t;
                    if k != i {
                        assert(held[if k < i {
                            k
                        } else {
                            k - 1
                        }] == t);
                    }
                }
                assert(grown[i as int] == text);
            }
            assert(self@ =~= old(self)@.insert(text));
        }
    }
}

impl Clone for NameSet {
    fn clone(&self) -> (r: NameSet)
        ensures
            r.names() == self.names(),
    {
        let items = copy_of(&self.items);
        proof {
            use_type_invariant(self);
        }
        NameSet { items }
    }
}

/// Names in ascending order are distinct.
pub proof fn lemma_ascending_distinct(names: Seq<Seq<char>>)
    requires
        ascending(names),
    ensures
        names.no_duplicates(),
{
    assert forall|i: int, j: int|
        0 <= i < names.len() && 0 <= j < names.len() && i != j implies names[i] != names[j] by {
        lemma_before_is_strict_total_order(names[i], names[j], names[i]);
        lemma_before_is_strict_total_order(names[j], names[i], names[j]);
        if i < j {
            assert(before(names[i], names[j]));
        } else {
            assert(before(names[j], names[i]));
        }
    }
}

/// Names that are chosen out of ascending ones are ascending.
pub proof fn lemma_filter_ascending(row: Seq<Seq<char>>, chosen: spec_fn(Seq<char>) -> bool)
    requires
        ascending(row),
    ensures
        ascending(row.filter(chosen)),
        forall|t: Seq<char>| #[trigger]
            row.filter(chosen).contains(t) <==> row.contains(t) && chosen(t),
    decreases row.len(),
{
    reveal(Seq::filter);
    if row.len() > 0 {
        let rest = row.drop_last();
        let part = rest.filter(chosen);
        assert(ascending(rest));
        lemma_filter_ascending(rest, chosen);
        let all = row.filter(chosen);
        assert forall|i: int, j: int| 0 <= i < j < all.len() implies before(
            #[trigger] all[i],
            #[trigger] all[j],
        ) by {
            if j < part.len() {
                assert(part[i] == all[i] && part[j] == all[j]);
            } else {
                assert(part.contains(part[i]));
                let k = choose|k: int| 0 <= k < rest.len() && rest[k] == part[i];
                assert(row[k] == all[i] && row[row.len() - 1] == all[j]);
            }
        }
        assert forall|t: Seq<char>| #[trigger] all.contains(t) <==> row.contains(t) && chosen(t) by {
            if all.contains(t) {
                let k = choose|k: int| 0 <= k < all.len() && all[k] == t;
                if k < part.len() {
                    assert(part[k] == t);
                    assert(part.contains(t));
                    let m = choose|m: int| 0 <= m < rest.len() && rest[m] == t;
                    assert(row[m] == t);
                } else {
                    assert(row[row.len() - 1] == t);
                }
            }
            if row.contains(t) && chosen(t) {
                let k = choose|k: int| 0 <= k < row.len() && row[k] == t;
                if k < rest.len() {
                    assert(rest[k] == t);
                    assert(part.contains(t));
                    let m = choose|m: int| 0 <= m < part.len() && part[m] == t;
                    assert(all[m] == t);
                } else {
                    assert(all[all.len() - 1] == t);
                }
            }
        }
    }
}

/// Two ascending rows of the same names are the same row.
pub proof fn lemma_ascending_unique(a: Seq<Seq<char>>, b: Seq<Seq<char>>)
    requires
        ascending(a),
        ascending(b),
        forall|t: Seq<char>| a.contains(t) <==> b.contains(t),
    ensures
        a == b,
    decreases a.len(),
{
    if a.len() == 0 {
        if b.len() > 0 {
            assert(b.contains(b[0]));
        }
        assert(a =~= b);
    } else {
        assert(a.contains(a.last()));
        assert(b.len() > 0);
        assert(b.contains(b.last()));
        let x = a.last();
        let y = b.last();
        let i = choose|i: int| 0 <= i < b.len() && b[i] == x;
        let j = choose|j: int| 0 <= j < a.len() && a[j] == y;
        lemma_before_is_strict_total_order(x, y, x);
        if x != y {
            assert(before(b[i], b[b.len() - 1]));
            assert(before(a[j], a[a.len() - 1]));
        }
        let ra = a.drop_last();
        let rb = b.drop_last();
        assert forall|t: Seq<char>| ra.contains(t) <==> rb.contains(t) by {
            lemma_ascending_distinct(a);
            lemma_ascending_distinct(b);
            if ra.contains(t) {
                let k = choose|k: int| 0 <= k < ra.len() && ra[k] == t;
                assert(a[k] == t && t != x);
                assert(a.contains(t));
                let m = choose|m: int| 0 <= m < b.len() && b[m] == t;
                assert(rb[m] == t);
            }
            if rb.contains(t) {
                let k = choose|k: int| 0 <= k < rb.len() && rb[k] == t;
                assert(b[k] == t && t != y);
                assert(b.contains(t));
                let m = choose|m: int| 0 <= m < a.len() && a[m] == t;
                assert(ra[m] == t);
            }
        }
        lemma_ascending_unique(ra, rb);
        assert(a =~= ra.push(x));
        assert(b =~= rb.push(y));
    }
}

} // verus!
