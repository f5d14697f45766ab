use vstd::prelude::*;
use vstd::utf8::encode_utf8;

verus! {

/// The pairs held by a sequence of `(deadline, key)` items.
pub open spec fn pairs_of(items: Seq<(u64, String)>) -> Set<(u64, Seq<char>)> {
    Set::new(|p: (u64, Seq<char>)| exists|i: int| #[trigger] holds_at(items, i, p))
}

/// Item `i` of `items` is the pair `p`.
pub open spec fn holds_at(items: Seq<(u64, String)>, i: int, p: (u64, Seq<char>)) -> bool {
    0 <= i < items.len() && items[i].0 == p.0 && items[i].1@ == p.1
}

/// `t` is the smallest deadline among the pairs of `s`.
pub open spec fn is_earliest(s: Set<(u64, Seq<char>)>, t: u64) -> bool {
    &&& exists|k: Seq<char>| s.contains((t, k))
    &&& forall|p: (u64, Seq<char>)| #[trigger] s.contains(p) ==> t <= p.0
}

/// What the next deadline of `s` is: none when `s` is empty, else its
/// smallest deadline.
pub open spec fn is_next_deadline(s: Set<(u64, Seq<char>)>, r: Option<u64>) -> bool {
    match r {
        None => s.is_empty(),
        Some(t) => is_earliest(s, t),
    }
}

/// `a` comes no later than `b` in byte-wise lexicographic order, the order of
/// `String` itself.
pub open spec fn bytes_le(a: Seq<u8>, b: Seq<u8>) -> bool
    decreases a.len(),
{
    if a.len() == 0 {
        true
    } else if b.len() == 0 {
        false
    } else if a[0] != b[0] {
        a[0] < b[0]
    } else {
        bytes_le(a.drop_first(), b.drop_first())
    }
}

/// Any two byte strings are ordered one way or the other.
pub proof fn lemma_bytes_le_total(a: Seq<u8>, b: Seq<u8>)
    ensures
        bytes_le(a, b) || bytes_le(b, a),
    decreases a.len(),
{
    if a.len() > 0 && b.len() > 0 && a[0] == b[0] {
        lemma_bytes_le_total(a.drop_first(), b.drop_first());
    }
}

/// The byte-wise order is transitive.
pub proof fn lemma_bytes_le_trans(a: Seq<u8>, b: Seq<u8>, c: Seq<u8>)
    requires
        bytes_le(a, b),
        bytes_le(b, c),
    ensures
        bytes_le(a, c),
    decreases a.len(),
{
    if a.len() > 0 && b.len() > 0 && c.len() > 0 && a[0] == b[0] && b[0] == c[0] {
        lemma_bytes_le_trans(a.drop_first(), b.drop_first(), c.drop_first());
    }
}

/// Whether `a` comes no later than `b` in byte-wise order of their UTF-8
/// encodings.
pub fn key_le(a: &String, b: &String) -> (r: bool)
    ensures
        r == bytes_le(encode_utf8(a@), encode_utf8(b@)),
{
    let x = a.as_str().as_bytes();
    let y = b.as_str().as_bytes();
    let mut i: usize = 0;
    assert(x@.subrange(0, x@.len() as int) =~= x@);
    assert(y@.subrange(0, y@.len() as int) =~= y@);
    while i < x.len()
        invariant
            i <= x@.len(),
            i <= y@.len(),
            x@ == encode_utf8(a@),
            y@ == encode_utf8(b@),
            bytes_le(x@, y@) == bytes_le(
                x@.subrange(i as int, x@.len() as int),
                y@.subrange(i as int, y@.len() as int),
            ),
        decreases x@.len() - i,
    {
        if i >= y.len() {
            return false;
        }
        if x[i] != y[i] {
            return x[i] < y[i];
        }
        proof {
            let xs = x@.subrange(i as int, x@.len() as int);
            let ys = y@.subrange(i as int, y@.len() as int);
            assert(xs.drop_first() =~= x@.subrange(i + 1, x@.len() as int));
            assert(ys.drop_first() =~= y@.subrange(i + 1, y@.len() as int));
        }
        i = i + 1;
    }
    proof {
        assert(x@.subrange(i as int, x@.len() as int).len() == 0);
    }
    true
}

/// Item `a` comes no later than item `b`: by deadline, then by key.
pub open spec fn item_le(a: (u64, String), b: (u64, String)) -> bool {
    a.0 < b.0 || (a.0 == b.0 && bytes_le(encode_utf8(a.1@), encode_utf8(b.1@)))
}

proof fn lemma_item_le_total(a: (u64, String), b: (u64, String))
    ensures
        item_le(a, b) || item_le(b, a),
{
    lemma_bytes_le_total(encode_utf8(a.1@), encode_utf8(b.1@));
}

proof fn lemma_item_le_trans(a: (u64, String), b: (u64, String), c: (u64, String))
    requires
        item_le(a, b),
        item_le(b, c),
    ensures
        item_le(a, c),
{
    if a.0 == b.0 && b.0 == c.0 {
        lemma_bytes_le_trans(
            encode_utf8(a.1@),
            encode_utf8(b.1@),
            encode_utf8(c.1@),
        );
    }
}

/// An ordered index of `(deadline, key)` pairs, ordered by deadline and then
/// by key. Each key occurs in at most one pair.
pub struct ExpirationIndex {
    items: Vec<(u64, String)>,
}

impl View for ExpirationIndex {
    type V = Set<(u64, Seq<char>)>;

    closed spec fn view(&self) -> Set<(u64, Seq<char>)> {
        pairs_of(self.items@)
    }
}

impl ExpirationIndex {
    /// Items are sorted by deadline, then key, and no key occurs twice.
    pub closed spec fn wf(&self) -> bool {
        &&& forall|i: int, j: int|
            0 <= i < j < self.items@.len() ==> #[trigger] item_le(self.items@[i], self.items@[j])
        &&& forall|i: int, j: int|
            0 <= i < j < self.items@.len() ==> #[trigger] self.items@[i].1@ != #[trigger] self.items@[j].1@
    }

    /// Number of pairs held.
    pub closed spec fn size(&self) -> nat {
        self.items@.len()
    }

    pub fn new() -> (r: ExpirationIndex)
        ensures
            r.wf(),
            r@ == Set::<(u64, Seq<char>)>::empty(),
            r.size() == 0,
    {
        let r = ExpirationIndex { items: Vec::new() };
        assert(r@ =~= Set::<(u64, Seq<char>)>::empty());
        r
    }

    /// The smallest deadline held, if any.
    pub fn first_deadline(&self) -> (r: Option<u64>)
        requires
            self.wf(),
        ensures
            is_next_deadline(self@, r),
    {
        if self.items.len() == 0 {
            assert(self@ =~= Set::<(u64, Seq<char>)>::empty());
            None
        } else {
            let t = self.items[0].0;
            proof {
                let items = self.items@;
                assert(holds_at(items, 0, (t, items[0].1@)));
                assert(self@.contains((t, items[0].1@)));
                assert forall|p: (u64, Seq<char>)| #[trigger] self@.contains(p) implies t <= p.0 by {
                    let i = choose|i: int| holds_at(items, i, p);
                    if i > 0 {
                        assert(item_le(items[0], items[i]));
                    }
                }
            }
            Some(t)
        }
    }

    /// Removes and returns the first pair, which has the smallest deadline.
    pub fn pop_first(&mut self) -> (r: Option<(u64, String)>)
        requires
            old(self).wf(),
        ensures
            final(self).wf(),
            match r {
                None => old(self)@.is_empty() && final(self)@ == old(self)@ && final(self).size() == 0,
                Some(p) => {
                    &&& old(self)@.contains((p.0, p.1@))
                    &&& is_earliest(old(self)@, p.0)
                    &&& final(self)@ == old(self)@.remove((p.0, p.1@))
                    &&& final(self).size() + 1 == old(self).size()
                },
            },
    {
        if self.items.len() == 0 {
            assert(self@ =~= Set::<(u64, Seq<char>)>::empty());
            return None;
        }
        let ghost old_items = self.items@;
        proof {
            let t = old_items[0].0;
            assert(holds_at(old_items, 0, (t, old_items[0].1@)));
            assert forall|p: (u64, Seq<char>)| #[trigger] self@.contains(p) implies t <= p.0 by {
                let i = choose|i: int| holds_at(old_items, i, p);
                if i > 0 {
                    assert(item_le(old_items[0], old_items[i]));
                }
            }
        }
        let p = self.items.remove(0);
        proof {
            let items = self.items@;
            let q = (p.0, p.1@);
            assert(items =~= old_items.subrange(1, old_items.len() as int));
            assert forall|x: (u64, Seq<char>)| #[trigger] pairs_of(items).contains(x) <==> pairs_of(old_items).remove(q).contains(x) by {
                if pairs_of(items).contains(x) {
                    let i = choose|i: int| holds_at(items, i, x);
                    assert(holds_at(old_items, i + 1, x));
                    assert(old_items[0].1@ != old_items[i + 1].1@);
                }
                if pairs_of(old_items).remove(q).contains(x) {
                    let i = choose|i: int| holds_at(old_items, i, x);
                    assert(i != 0);
                    assert(holds_at(items, i - 1, x));
                }
            }
            assert(pairs_of(items) =~= pairs_of(old_items).remove(q));
        }
        Some(p)
    }

    /// Whether some pair holds `key`.
    pub open spec fn has_key(s: Set<(u64, Seq<char>)>, key: Seq<char>) -> bool {
        exists|t: u64| s.contains((t, key))
    }

    /// Adds the pair `(t, key)`; `key` must not occur in the index yet.
    pub fn insert(&mut self, t: u64, key: String)
        requires
            old(self).wf(),
            !Self::has_key(old(self)@, key@),
        ensures
            final(self).wf(),
            final(self)@ == old(self)@.insert((t, key@)),
            final(self).size() == old(self).size() + 1,
    {
        let ghost old_items = self.items@;
        let mut pos: usize = 0;
        while pos < self.items.len() && (self.items[pos].0 < t || (self.items[pos].0 == t && key_le(
            &self.items[pos].1,
            &key,
        )))
            invariant
                self.items@ == old_items,
                pos <= old_items.len(),
                forall|i: int| 0 <= i < pos ==> #[trigger] item_le(old_items[i], (t, key)),
            decreases old_items.len() - pos,
        {
            pos = pos + 1;
        }
        proof {
            assert forall|i: int| pos <= i < old_items.len() implies #[trigger] item_le((t, key), old_items[i]) by {
                lemma_item_le_total(old_items[pos as int], (t, key));
                if i > pos {
                    assert(item_le(old_items[pos as int], old_items[i]));
                    lemma_item_le_trans((t, key), old_items[pos as int], old_items[i]);
                }
            }
            assert forall|i: int| 0 <= i < old_items.len() implies #[trigger] old_items[i].1@ != key@ by {
                assert(holds_at(old_items, i, (old_items[i].0, old_items[i].1@)));
                assert(old_items[i].1@ == key@ ==> pairs_of(old_items).contains((old_items[i].0, key@)));
            }
        }
        let ghost k = key@;
        let ghost newitem = (t, key);
        self.items.insert(pos, (t, key));
        proof {
            let items = self.items@;
            let q = (t, k);
            assert(items =~= old_items.insert(pos as int, newitem));
            assert forall|i: int, j: int| 0 <= i < j < items.len() implies #[trigger] item_le(items[i], items[j]) by {
                if j < pos {
                } else if j == pos {
                } else if i < pos {
                    assert(item_le(old_items[i], newitem));
                    assert(item_le(newitem, old_items[j - 1]));
                    lemma_item_le_trans(old_items[i], newitem, old_items[j - 1]);
                } else if i == pos {
                } else {
                    assert(item_le(old_items[i - 1], old_items[j - 1]));
                }
            }
            assert forall|i: int, j: int| 0 <= i < j < items.len() implies #[trigger] items[i].1@ != #[trigger] items[j].1@ by {
                if j < pos {
                } else if j == pos {
                    assert(old_items[i].1@ != k);
                } else if i < pos {
                    assert(old_items[i].1@ != old_items[j - 1].1@);
                } else if i == pos {
                    assert(old_items[j - 1].1@ != k);
                } else {
                    assert(old_items[i - 1].1@ != old_items[j - 1].1@);
                }
            }
            assert forall|x: (u64, Seq<char>)| #[trigger] pairs_of(items).contains(x) <==> pairs_of(old_items).insert(q).contains(x) by {
                if pairs_of(items).contains(x) {
                    let i = choose|i: int| holds_at(items, i, x);
                    if i < pos {
                        assert(holds_at(old_items, i, x));
                    } else if i > pos {
                        assert(holds_at(old_items, i - 1, x));
                    }
                }
                if pairs_of(old_items).insert(q).contains(x) {
                    if x == q {
                        assert(holds_at(items, pos as int, x));
                    } else {
                        let i = choose|i: int| holds_at(old_items, i, x);
                        if i < pos {
                            assert(holds_at(items, i, x));
                        } else {
                            assert(holds_at(items, i + 1, x));
                        }
                    }
                }
            }
            assert(pairs_of(items) =~= pairs_of(old_items).insert(q));
        }
    }

    /// Removes the pair `(t, key)`; nothing changes where it is absent.
    pub fn remove(&mut self, t: u64, key: &String)
        requires
            old(self).wf(),
        ensures
            final(self).wf(),
            final(self)@ == old(self)@.remove((t, key@)),
            final(self).size() <= old(self).size(),
    {
        let ghost old_items = self.items@;
        let mut i: usize = 0;
        while i < self.items.len()
            invariant
                self.wf(),
                self.items@ == old_items,
                old(self).items@ == old_items,
                i <= old_items.len(),
                forall|j: int| 0 <= j < i ==> !holds_at(old_items, j, (t, key@)),
            decreases old_items.len() - i,
        {
            if self.items[i].0 == t && self.items[i].1 == *key {
                let _ = self.items.remove(i);
                proof {
                    let items = self.items@;
                    let q = (t, key@);
                    assert(holds_at(old_items, i as int, q));
                    assert(items =~= old_items.remove(i as int));
                    assert forall|x: (u64, Seq<char>)| #[trigger] pairs_of(items).contains(x) <==> pairs_of(old_items).remove(q).contains(x) by {
                        if pairs_of(items).contains(x) {
                            let j = choose|j: int| holds_at(items, j, x);
                            if j < i {
                                assert(holds_at(old_items, j, x));
                                assert(old_items[j].1@ != old_items[i as int].1@);
                            } else {
                                assert(holds_at(old_items, j + 1, x));
                                assert(old_items[i as int].1@ != old_items[j + 1].1@);
                            }
                        }
                        if pairs_of(old_items).remove(q).contains(x) {
                            let j = choose|j: int| holds_at(old_items, j, x);
                            if j < i {
                                assert(holds_at(items, j, x));
                            } else {
                                assert(j != i);
                                assert(holds_at(items, j - 1, x));
                            }
                        }
                    }
                    assert(pairs_of(items) =~= pairs_of(old_items).remove(q));
                    assert forall|a: int, b: int| 0 <= a < b < items.len() implies #[trigger] item_le(items[a], items[b]) by {
                        let a2 = if a < i { a } else { a + 1 };
                        let b2 = if b < i { b } else { b + 1 };
                        assert(item_le(old_items[a2], old_items[b2]));
                    }
                    assert forall|a: int, b: int| 0 <= a < b < items.len() implies #[trigger] items[a].1@ != #[trigger] items[b].1@ by {
                        let a2 = if a < i { a } else { a + 1 };
                        let b2 = if b < i { b } else { b + 1 };
                        assert(old_items[a2].1@ != old_items[b2].1@);
                    }
                }
                return;
            }
            i = i + 1;
        }
        proof {
            let q = (t, key@);
            assert(!pairs_of(old_items).contains(q));
            assert(pairs_of(old_items) =~= pairs_of(old_items).remove(q));
        }
    }
}

} // verus!
