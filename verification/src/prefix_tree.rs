//! A 256-way byte-indexed prefix tree.
//!
//! Keys are non-empty byte strings. Each node slot is either empty, a data
//! terminal, or an inner tree that may itself carry a value. The tree
//! supports insertion, removal, longest-prefix lookup, in-order traversal in
//! lexicographic byte order, and merging a whole tree in under a key prefix.
//!
//! The mathematical value of a tree is the partial map from byte strings to
//! stored values exposed by [`Tree::spec_get`]; every operation's contract is
//! stated against it.

use vstd::prelude::*;
use vstd::pervasive::VecAdditionalExecFns;

verus! {

broadcast use vstd::std_specs::vec::axiom_vec_index_decreases;


proof fn lemma_eq_first_and_skip(a: Seq<u8>, b: Seq<u8>)
    requires
        a.len() > 0,
        b.len() > 0,
        a[0] == b[0],
        a.skip(1) == b.skip(1),
    ensures
        a == b,
{
    assert(a.skip(1).len() == a.len() - 1);
    assert(b.skip(1).len() == b.len() - 1);
    assert forall|i: int| 0 <= i < a.len() implies a[i] == b[i] by {
        if i >= 1 {
            assert(a.skip(1)[i - 1] == a[i]);
            assert(b.skip(1)[i - 1] == b[i]);
        }
    }
    assert(a =~= b);
}


proof fn lemma_take_eq_via_skip(k: Seq<u8>, s: Seq<u8>)
    requires
        k.len() > 0,
        s.len() > 0,
        k.len() >= s.len(),
        k[0] == s[0],
        k.skip(1).take(s.len() - 1) == s.skip(1),
    ensures
        k.take(s.len() as int) == s,
{
    let n = s.len() as int;
    assert forall|i: int| 0 <= i < n implies k.take(n)[i] == s[i] by {
        if i > 0 {
            assert(k[i] == k.skip(1)[i - 1]);
            assert(k.skip(1).take(n - 1)[i - 1] == k.skip(1)[i - 1]);
            assert(s.skip(1)[i - 1] == s[i]);
        }
    }
    assert(k.take(n) =~= s);
}

proof fn lemma_skip_of_take_eq(k: Seq<u8>, s: Seq<u8>)
    requires
        s.len() > 0,
        k.len() >= s.len(),
        k.take(s.len() as int) == s,
    ensures
        k.len() > 0,
        k[0] == s[0],
        k.skip(1).take(s.len() - 1) == s.skip(1),
{
    let n = s.len() as int;
    assert(k.take(n)[0] == k[0]);
    assert forall|i: int| 0 <= i < n - 1 implies k.skip(1).take(n - 1)[i] == s.skip(1)[i] by {
        assert(k.skip(1).take(n - 1)[i] == k.skip(1)[i]);
        assert(k.skip(1)[i] == k[i + 1]);
        assert(k.take(n)[i + 1] == k[i + 1]);
        assert(s.skip(1)[i] == s[i + 1]);
    }
    assert(k.skip(1).take(n - 1) =~= s.skip(1));
}


/// Strict lexicographic order on byte strings: `a` comes before `b` when `a`
/// is a proper prefix of `b` or differs from it by a smaller byte at the
/// first differing position.
pub open spec fn lex_lt(a: Seq<u8>, b: Seq<u8>) -> bool
    decreases a.len(),
{
    &&& b.len() > 0
    &&& {
        ||| a.len() == 0
        ||| a[0] < b[0]
        ||| (a[0] == b[0] && lex_lt(a.skip(1), b.skip(1)))
    }
}

/// Prepending a common prefix preserves the lexicographic order.
pub proof fn lemma_lex_lt_append(p: Seq<u8>, x: Seq<u8>, y: Seq<u8>)
    requires
        lex_lt(x, y),
    ensures
        lex_lt(p + x, p + y),
    decreases p.len(),
{
    if p.len() == 0 {
        assert(p + x =~= x);
        assert(p + y =~= y);
    } else {
        lemma_lex_lt_append(p.skip(1), x, y);
        assert((p + x).skip(1) =~= p.skip(1) + x);
        assert((p + y).skip(1) =~= p.skip(1) + y);
        assert((p + x)[0] == p[0]);
        assert((p + y)[0] == p[0]);
        assert((p + x).len() > 0);
        assert((p + y).len() > 0);
    }
}

/// A proper prefix comes first in lexicographic order.
pub proof fn lemma_lex_lt_proper_prefix(a: Seq<u8>, b: Seq<u8>)
    requires
        b.len() > a.len(),
        b.take(a.len() as int) == a,
    ensures
        lex_lt(a, b),
    decreases a.len(),
{
    if a.len() == 0 {
    } else {
        assert(b.take(a.len() as int)[0] == b[0]);
        assert(a[0] == b[0]);
        assert forall|i: int| 0 <= i < a.len() - 1 implies b.skip(1).take(a.len() - 1)[i]
            == a.skip(1)[i] by {
            assert(b.skip(1).take(a.len() - 1)[i] == b.skip(1)[i]);
            assert(b.skip(1)[i] == b[i + 1]);
            assert(b.take(a.len() as int)[i + 1] == b[i + 1]);
            assert(a.skip(1)[i] == a[i + 1]);
        }
        assert(b.skip(1).take(a.len() - 1) =~= a.skip(1));
        lemma_lex_lt_proper_prefix(a.skip(1), b.skip(1));
    }
}

/// Keys that agree on a common prefix `p` and then differ are ordered by the
/// byte right after the prefix.
pub proof fn lemma_lex_lt_common_prefix(p: Seq<u8>, a: Seq<u8>, b: Seq<u8>)
    requires
        a.len() > p.len(),
        b.len() > p.len(),
        a.take(p.len() as int) == p,
        b.take(p.len() as int) == p,
        a[p.len() as int] < b[p.len() as int],
    ensures
        lex_lt(a, b),
{
    let x = a.skip(p.len() as int);
    let y = b.skip(p.len() as int);
    assert(a =~= p + x);
    assert(b =~= p + y);
    assert(x[0] == a[p.len() as int]);
    assert(y[0] == b[p.len() as int]);
    assert(lex_lt(x, y));
    lemma_lex_lt_append(p, x, y);
}

enum Node<T> {
    Empty,
    Data(T),
    Tree(Option<T>, Box<Tree<T>>),
}


/// An update applied to every stored value by [`Tree::for_each`].
pub trait TreeVisitor<T> {
    /// How a visited value may change.
    spec fn rel(&self, before: T, after: T) -> bool;

    /// Updates `*v` so that the new value relates to the old one.
    fn visit(&self, v: &mut T)
        ensures
            self.rel(*old(v), *final(v)),
    ;
}

/// Lifts a visitor's relation to optional values: absent stays absent, a
/// present value is replaced by a related one.
pub open spec fn visited_opt<T, F: TreeVisitor<T>>(
    f: F,
    before: Option<T>,
    after: Option<T>,
) -> bool {
    match before {
        None => after is None,
        Some(v) => after matches Some(w) && f.rel(v, w),
    }
}

/// A 256-way byte-indexed prefix tree storing one `T` per inserted key.
pub struct Tree<T> {
    routes: Vec<Node<T>>,
}

impl<T> Node<T> {
    /// Every inner tree along this node has exactly 256 slots.
    closed spec fn wf(&self) -> bool
        decreases self,
    {
        match self {
            Node::Empty => true,
            Node::Data(_) => true,
            Node::Tree(_, sub) => sub.wf(),
        }
    }

    /// The value stored under the remaining key `key` below this node; an
    /// empty `key` addresses the node itself.
    closed spec fn spec_get(&self, key: Seq<u8>) -> Option<T>
        decreases key.len(), 1nat,
    {
        match self {
            Node::Empty => None,
            Node::Data(d) => if key.len() == 0 {
                Some(*d)
            } else {
                None
            },
            Node::Tree(d, sub) => if key.len() == 0 {
                *d
            } else {
                sub.spec_get(key)
            },
        }
    }
}

impl<T> Tree<T> {
    /// Structural well-formedness: every node array has exactly 256 slots.
    pub closed spec fn wf(&self) -> bool
        decreases self,
    {
        &&& self.routes@.len() == 256
        &&& forall|i: int| 0 <= i < 256 ==> (#[trigger] self.routes@[i]).wf()
    }

    /// The value stored at `key`, or `None`. An empty key stores nothing.
    pub closed spec fn spec_get(&self, key: Seq<u8>) -> Option<T>
        decreases key.len(), 0nat,
    {
        if key.len() == 0 {
            None
        } else {
            self.routes@[key[0] as int].spec_get(key.skip(1))
        }
    }

    /// Creates an empty tree.
    pub fn new() -> (t: Self)
        ensures
            t.wf(),
            forall|k: Seq<u8>| t.spec_get(k) is None,
    {
        let mut routes: Vec<Node<T>> = Vec::new();
        let mut i: usize = 0;
        while i < 256
            invariant
                i <= 256,
                routes@.len() == i,
                forall|j: int| 0 <= j < i ==> (#[trigger] routes@[j]) is Empty,
            decreases 256 - i,
        {
            routes.push(Node::Empty);
            i = i + 1;
        }
        let t = Tree { routes };
        proof {
            assert forall|k: Seq<u8>| t.spec_get(k) is None by {
                if k.len() > 0 {
                    assert(t.routes@[k[0] as int] is Empty);
                }
            }
        }
        t
    }

    /// Inserts `value` at `key`, returning the value previously stored there.
    ///
    /// Every other key keeps its binding; nodes along the way are promoted to
    /// inner trees, preserving any value they carried.
    pub fn insert(&mut self, key: &[u8], value: T) -> (prev: Option<T>)
        requires
            old(self).wf(),
            key@.len() > 0,
        ensures
            final(self).wf(),
            prev == old(self).spec_get(key@),
            forall|k: Seq<u8>| final(self).spec_get(k) == (if k == key@ {
                Some(value)
            } else {
                old(self).spec_get(k)
            }),
    {
        proof {
            assert(key@.skip(0) =~= key@);
        }
        self.insert_at(key, 0, value)
    }

    fn insert_at(&mut self, key: &[u8], pos: usize, value: T) -> (prev: Option<T>)
        requires
            old(self).wf(),
            pos < key@.len(),
        ensures
            final(self).wf(),
            prev == old(self).spec_get(key@.skip(pos as int)),
            forall|k: Seq<u8>| final(self).spec_get(k) == (if k == key@.skip(pos as int) {
                Some(value)
            } else {
                old(self).spec_get(k)
            }),
        decreases key@.len() - pos,
    {
        let ghost old_self = *self;
        let ghost suffix = key@.skip(pos as int);
        let b = key[pos] as usize;
        proof {
            assert(suffix.len() == key@.len() - pos);
            assert(suffix[0] == key@[pos as int]);
        }
        let mut cur = Node::Empty;
        self.routes.set_and_swap(b, &mut cur);
        if pos + 1 == key.len() {
            let (newn, prev) = match cur {
                Node::Empty => (Node::Data(value), None),
                Node::Data(d) => (Node::Data(value), Some(d)),
                Node::Tree(d, sub) => (Node::Tree(Some(value), sub), d),
            };
            self.routes.set(b, newn);
            proof {
                assert(suffix.len() == 1);
                assert(prev == old_self.spec_get(suffix));
                assert forall|k: Seq<u8>|
                    self.spec_get(k) == (if k == suffix {
                        Some(value)
                    } else {
                        old_self.spec_get(k)
                    }) by {
                    if k.len() > 0 {
                        assert(self.spec_get(k) == self.routes@[k[0] as int].spec_get(k.skip(1)));
                        assert(old_self.spec_get(k) == old_self.routes@[k[0] as int].spec_get(
                            k.skip(1),
                        ));
                        if k[0] as int == b {
                            if k.len() == 1 {
                                assert(k =~= suffix);
                                assert(k.skip(1).len() == 0);
                            } else {
                                assert(k != suffix);
                            }
                        } else {
                            assert(k != suffix);
                        }
                    }
                }
            }
            prev
        } else {
            let (d0, mut sub) = match cur {
                Node::Empty => (None, Box::new(Tree::new())),
                Node::Data(d) => (Some(d), Box::new(Tree::new())),
                Node::Tree(d, sub) => (d, sub),
            };
            let ghost sub0 = *sub;
            let ghost d0g = d0;
            let prev = (&mut *sub).insert_at(key, pos + 1, value);
            let ghost sub1 = *sub;
            proof {
                assert(key@.skip(pos as int + 1) =~= suffix.skip(1));
            }
            self.routes.set(b, Node::Tree(d0, sub));
            proof {
                assert(suffix.len() > 1);
                assert(prev == old_self.spec_get(suffix));
                assert forall|k: Seq<u8>|
                    self.spec_get(k) == (if k == suffix {
                        Some(value)
                    } else {
                        old_self.spec_get(k)
                    }) by {
                    if k.len() > 0 {
                        assert(self.spec_get(k) == self.routes@[k[0] as int].spec_get(k.skip(1)));
                        assert(old_self.spec_get(k) == old_self.routes@[k[0] as int].spec_get(
                            k.skip(1),
                        ));
                        if k[0] as int == b {
                            assert(self.routes@[b as int].spec_get(k.skip(1)) == (
                            if k.skip(1).len() == 0 {
                                d0g
                            } else {
                                sub1.spec_get(k.skip(1))
                            }));
                            if k.len() == 1 {
                                assert(k != suffix);
                                assert(k.skip(1).len() == 0);
                            } else {
                                if k != suffix && k.skip(1) == suffix.skip(1) {
                                    lemma_eq_first_and_skip(k, suffix);
                                }
                            }
                        } else {
                            assert(k != suffix);
                        }
                    }
                }
            }
            prev
        }
    }

    /// Removes the value at `key`, returning it if one was stored.
    ///
    /// Inner trees along the path are kept even when they become empty; every
    /// other key keeps its binding.
    pub fn remove(&mut self, key: &[u8]) -> (prev: Option<T>)
        requires
            old(self).wf(),
            key@.len() > 0,
        ensures
            final(self).wf(),
            prev == old(self).spec_get(key@),
            forall|k: Seq<u8>| final(self).spec_get(k) == (if k == key@ {
                None::<T>
            } else {
                old(self).spec_get(k)
            }),
    {
        proof {
            assert(key@.skip(0) =~= key@);
        }
        self.remove_at(key, 0)
    }

    fn remove_at(&mut self, key: &[u8], pos: usize) -> (prev: Option<T>)
        requires
            old(self).wf(),
            pos < key@.len(),
        ensures
            final(self).wf(),
            prev == old(self).spec_get(key@.skip(pos as int)),
            forall|k: Seq<u8>| final(self).spec_get(k) == (if k == key@.skip(pos as int) {
                None::<T>
            } else {
                old(self).spec_get(k)
            }),
        decreases key@.len() - pos,
    {
        let ghost old_self = *self;
        let ghost suffix = key@.skip(pos as int);
        let b = key[pos] as usize;
        proof {
            assert(suffix.len() == key@.len() - pos);
            assert(suffix[0] == key@[pos as int]);
        }
        let mut cur = Node::Empty;
        self.routes.set_and_swap(b, &mut cur);
        if pos + 1 == key.len() {
            let (newn, prev) = match cur {
                Node::Empty => (Node::Empty, None),
                Node::Data(d) => (Node::Empty, Some(d)),
                Node::Tree(d, sub) => (Node::Tree(None, sub), d),
            };
            self.routes.set(b, newn);
            proof {
                assert(suffix.len() == 1);
                assert(prev == old_self.spec_get(suffix));
                assert forall|k: Seq<u8>|
                    self.spec_get(k) == (if k == suffix {
                        None::<T>
                    } else {
                        old_self.spec_get(k)
                    }) by {
                    if k.len() > 0 {
                        assert(self.spec_get(k) == self.routes@[k[0] as int].spec_get(k.skip(1)));
                        assert(old_self.spec_get(k) == old_self.routes@[k[0] as int].spec_get(
                            k.skip(1),
                        ));
                        if k[0] as int == b {
                            if k.len() == 1 {
                                assert(k =~= suffix);
                                assert(k.skip(1).len() == 0);
                            } else {
                                assert(k != suffix);
                            }
                        } else {
                            assert(k != suffix);
                        }
                    }
                }
            }
            prev
        } else {
            match cur {
                Node::Empty => {
                    self.routes.set(b, Node::Empty);
                    proof {
                        assert(self.routes@ =~= old_self.routes@);
                        assert(old_self.spec_get(suffix) is None);
                    }
                    None
                },
                Node::Data(d) => {
                    self.routes.set(b, Node::Data(d));
                    proof {
                        assert(self.routes@ =~= old_self.routes@);
                        assert(old_self.spec_get(suffix) is None);
                    }
                    None
                },
                Node::Tree(d0, mut sub) => {
                    let ghost d0g = d0;
                    let ghost sub0 = *sub;
                    let prev = (&mut *sub).remove_at(key, pos + 1);
                    let ghost sub1 = *sub;
                    proof {
                        assert(key@.skip(pos as int + 1) =~= suffix.skip(1));
                    }
                    self.routes.set(b, Node::Tree(d0, sub));
                    proof {
                        assert(suffix.len() > 1);
                        assert(prev == old_self.spec_get(suffix));
                        assert forall|k: Seq<u8>|
                            self.spec_get(k) == (if k == suffix {
                                None::<T>
                            } else {
                                old_self.spec_get(k)
                            }) by {
                            if k.len() > 0 {
                                assert(self.spec_get(k) == self.routes@[k[0] as int].spec_get(
                                    k.skip(1),
                                ));
                                assert(old_self.spec_get(k) == old_self.routes@[k[0] as int]
                                    .spec_get(k.skip(1)));
                                if k[0] as int == b {
                                    assert(self.routes@[b as int].spec_get(k.skip(1)) == (
                                    if k.skip(1).len() == 0 {
                                        d0g
                                    } else {
                                        sub1.spec_get(k.skip(1))
                                    }));
                                    if k.len() == 1 {
                                        assert(k != suffix);
                                        assert(k.skip(1).len() == 0);
                                    } else {
                                        if k != suffix && k.skip(1) == suffix.skip(1) {
                                            lemma_eq_first_and_skip(k, suffix);
                                        }
                                    }
                                } else {
                                    assert(k != suffix);
                                }
                            }
                        }
                    }
                    prev
                },
            }
        }
    }

    /// Longest-prefix lookup: returns the length of the longest stored key
    /// that is a prefix of `key`, together with a reference to its value.
    pub fn find<'a>(&'a self, key: &[u8]) -> (r: Option<(usize, &'a T)>)
        requires
            self.wf(),
        ensures
            match r {
                None => forall|l: int|
                    1 <= l <= key@.len() ==> self.spec_get(#[trigger] key@.take(l)) is None,
                Some((l, v)) => {
                    &&& 1 <= l <= key@.len()
                    &&& self.spec_get(key@.take(l as int)) == Some(*v)
                    &&& forall|m: int|
                        l < m <= key@.len() ==> self.spec_get(#[trigger] key@.take(m)) is None
                },
            },
    {
        let mut best: Option<(usize, &T)> = None;
        let mut cur: &Tree<T> = self;
        let mut pos: usize = 0;
        while pos < key.len()
            invariant
                pos <= key@.len(),
                cur.wf(),
                self.wf(),
                forall|m: int|
                    pos < m <= key@.len() ==> self.spec_get(#[trigger] key@.take(m))
                        == cur.spec_get(key@.subrange(pos as int, m)),
                match best {
                    None => forall|l: int|
                        1 <= l <= pos ==> self.spec_get(#[trigger] key@.take(l)) is None,
                    Some((l, v)) => {
                        &&& 1 <= l <= pos
                        &&& self.spec_get(key@.take(l as int)) == Some(*v)
                        &&& forall|m: int|
                            l < m <= pos ==> self.spec_get(#[trigger] key@.take(m)) is None
                    },
                },
            decreases key@.len() - pos,
        {
            let b = key[pos] as usize;
            proof {
                assert(key@.subrange(pos as int, pos as int + 1) =~= seq![key@[pos as int]]);
            }
            match &cur.routes[b] {
                Node::Empty => {
                    proof {
                        assert forall|m: int|
                            pos < m <= key@.len() implies self.spec_get(
                            #[trigger] key@.take(m),
                        ) is None by {
                            let s = key@.subrange(pos as int, m);
                            assert(s[0] == key@[pos as int]);
                            assert(cur.spec_get(s) == cur.routes@[b as int].spec_get(s.skip(1)));
                        }
                    }
                    return best;
                },
                Node::Data(t) => {
                    proof {
                        let s1 = key@.subrange(pos as int, pos as int + 1);
                        assert(s1.skip(1).len() == 0);
                        assert(cur.spec_get(s1) == cur.routes@[b as int].spec_get(s1.skip(1)));
                        assert(self.spec_get(key@.take(pos as int + 1)) == Some(*t));
                        assert forall|m: int|
                            pos + 1 < m <= key@.len() implies self.spec_get(
                            #[trigger] key@.take(m),
                        ) is None by {
                            let s = key@.subrange(pos as int, m);
                            assert(s[0] == key@[pos as int]);
                            assert(s.len() > 1);
                            assert(cur.spec_get(s) == cur.routes@[b as int].spec_get(s.skip(1)));
                        }
                    }
                    return Some((pos + 1, t));
                },
                Node::Tree(d, sub) => {
                    proof {
                        let s1 = key@.subrange(pos as int, pos as int + 1);
                        assert(s1.skip(1).len() == 0);
                        assert(cur.spec_get(s1) == cur.routes@[b as int].spec_get(s1.skip(1)));
                    }
                    match d {
                        Some(v) => {
                            proof {
                                assert(self.spec_get(key@.take(pos as int + 1)) == Some(*v));
                            }
                            best = Some((pos + 1, v));
                        },
                        None => {
                            proof {
                                assert(self.spec_get(key@.take(pos as int + 1)) is None);
                            }
                        },
                    }
                    proof {
                        assert forall|m: int|
                            pos + 1 < m <= key@.len() implies self.spec_get(key@.take(m))
                            == sub.spec_get(#[trigger] key@.subrange(pos as int + 1, m)) by {
                            let s = key@.subrange(pos as int, m);
                            assert(s[0] == key@[pos as int]);
                            assert(s.len() > 1);
                            assert(cur.spec_get(s) == cur.routes@[b as int].spec_get(s.skip(1)));
                            assert(s.skip(1) =~= key@.subrange(pos as int + 1, m));
                        }
                    }
                    cur = sub;
                    pos = pos + 1;
                },
            }
        }
        best
    }

    /// Applies `f` to every stored value in place, visiting each exactly
    /// once: afterwards the value at each key relates to what the key held
    /// before, and no key appears or disappears.
    pub fn for_each<F: TreeVisitor<T>>(&mut self, f: &F)
        requires
            old(self).wf(),
        ensures
            final(self).wf(),
            forall|k: Seq<u8>| visited_opt(*f, old(self).spec_get(k), final(self).spec_get(k)),
        decreases *old(self),
    {
        let ghost old_self = *self;
        let mut i: usize = 0;
        #[verifier::loop_isolation(false)]
        while i < 256
            invariant
                i <= 256,
                old_self.wf(),
                self.routes@.len() == 256,
                forall|j: int| i <= j < 256 ==> self.routes@[j] == old_self.routes@[j],
                forall|j: int| 0 <= j < i ==> (#[trigger] self.routes@[j]).wf(),
                forall|j: int, q: Seq<u8>|
                    0 <= j < i ==> visited_opt(
                        *f,
                        old_self.routes@[j].spec_get(q),
                        #[trigger] self.routes@[j].spec_get(q),
                    ),
            decreases 256 - i,
        {
            let mut node = Node::Empty;
            self.routes.set_and_swap(i, &mut node);
            proof {
                assert(decreases_to!(old_self => old_self.routes));
                assert(decreases_to!(old_self.routes => old_self.routes[i as int]));
            }
            match node {
                Node::Empty => {
                    self.routes.set(i, Node::Empty);
                    proof {
                        assert forall|q: Seq<u8>|
                            visited_opt(
                                *f,
                                old_self.routes@[i as int].spec_get(q),
                                #[trigger] self.routes@[i as int].spec_get(q),
                            ) by {}
                    }
                },
                Node::Data(mut t) => {
                    f.visit(&mut t);
                    self.routes.set(i, Node::Data(t));
                    proof {
                        assert forall|q: Seq<u8>|
                            visited_opt(
                                *f,
                                old_self.routes@[i as int].spec_get(q),
                                #[trigger] self.routes@[i as int].spec_get(q),
                            ) by {}
                    }
                },
                Node::Tree(d, mut sub) => {
                    let ghost dg = d;
                    let ghost sub0 = *sub;
                    proof {
                        assert forall|q: Seq<u8>|
                            old_self.routes@[i as int].spec_get(q) == (if q.len() == 0 {
                                dg
                            } else {
                                sub0.spec_get(q)
                            }) by {}
                        assert(decreases_to!(old_self.routes[i as int] => *sub));
                    }
                    let d2 = match d {
                        Some(mut x) => {
                            f.visit(&mut x);
                            Some(x)
                        },
                        None => None,
                    };
                    let ghost d2g = d2;
                    (&mut *sub).for_each(f);
                    let ghost sub1 = *sub;
                    self.routes.set(i, Node::Tree(d2, sub));
                    proof {
                        assert forall|q: Seq<u8>|
                            visited_opt(
                                *f,
                                old_self.routes@[i as int].spec_get(q),
                                #[trigger] self.routes@[i as int].spec_get(q),
                            ) by {
                            assert(self.routes@[i as int].spec_get(q) == (if q.len() == 0 {
                                d2g
                            } else {
                                sub1.spec_get(q)
                            }));
                            assert(old_self.routes@[i as int].spec_get(q) == (if q.len() == 0 {
                                dg
                            } else {
                                sub0.spec_get(q)
                            }));
                        }
                    }
                },
            }
            i = i + 1;
        }
        proof {
            assert forall|k: Seq<u8>|
                visited_opt(*f, old_self.spec_get(k), self.spec_get(k)) by {
                if k.len() > 0 {
                    assert(self.spec_get(k) == self.routes@[k[0] as int].spec_get(k.skip(1)));
                    assert(old_self.spec_get(k) == old_self.routes@[k[0] as int].spec_get(
                        k.skip(1),
                    ));
                }
            }
        }
    }

    /// All stored entries in strict lexicographic byte order of their keys.
    ///
    /// Every pair holds the full key and a reference to its value; the list
    /// is complete: a key is listed exactly when the tree stores it.
    pub fn iter<'a>(&'a self) -> (r: Vec<(Vec<u8>, &'a T)>)
        requires
            self.wf(),
        ensures
            forall|j: int|
                0 <= j < r@.len() ==> (#[trigger] r@[j]).0@.len() > 0 && self.spec_get(r@[j].0@)
                    == Some(*r@[j].1),
            forall|k: Seq<u8>| self.spec_get(k) is Some ==> exists|j: int|
                0 <= j < r@.len() && (#[trigger] r@[j]).0@ == k,
            forall|j1: int, j2: int|
                0 <= j1 < j2 < r@.len() ==> lex_lt(r@[j1].0@, r@[j2].0@),
    {
        let mut out: Vec<(Vec<u8>, &T)> = Vec::new();
        let prefix: Vec<u8> = Vec::new();
        self.collect_into(&prefix, &mut out);
        proof {
            assert forall|j: int|
                0 <= j < out@.len() implies (#[trigger] out@[j]).0@.len() > 0 && self.spec_get(
                out@[j].0@,
            ) == Some(*out@[j].1) by {
                assert(out@[j].0@.skip(0) =~= out@[j].0@);
            }
            assert forall|k: Seq<u8>| self.spec_get(k) is Some implies exists|j: int|
                0 <= j < out@.len() && (#[trigger] out@[j]).0@ == k by {
                assert(prefix@ + k =~= k);
                let j = choose|j: int|
                    0 <= j < out@.len() && (#[trigger] out@[j]).0@ == prefix@ + k;
                assert(out@[j].0@ == k);
            }
        }
        out
    }

    #[verifier::rlimit(100)]
    #[verifier::spinoff_prover]
    fn collect_into<'a>(&'a self, prefix: &Vec<u8>, out: &mut Vec<(Vec<u8>, &'a T)>)
        requires
            self.wf(),
        ensures
            final(out)@.len() >= old(out)@.len(),
            final(out)@.take(old(out)@.len() as int) == old(out)@,
            forall|j: int|
                old(out)@.len() <= j < final(out)@.len() ==> {
                    &&& (#[trigger] final(out)@[j]).0@.len() > prefix@.len()
                    &&& final(out)@[j].0@.take(prefix@.len() as int) == prefix@
                    &&& self.spec_get(final(out)@[j].0@.skip(prefix@.len() as int)) == Some(
                        *final(out)@[j].1,
                    )
                },
            forall|k: Seq<u8>| self.spec_get(k) is Some ==> exists|j: int|
                old(out)@.len() <= j < final(out)@.len() && (#[trigger] final(out)@[j]).0@
                    == prefix@ + k,
            forall|j1: int, j2: int|
                old(out)@.len() <= j1 < j2 < final(out)@.len() ==> lex_lt(
                    final(out)@[j1].0@,
                    final(out)@[j2].0@,
                ),
        decreases *self,
    {
        let ghost base = out@;
        let ghost lp = prefix@.len() as int;
        let mut i: usize = 0;
        while i < 256
            invariant
                i <= 256,
                self.wf(),
                lp == prefix@.len(),
                out@.len() >= base.len(),
                out@.take(base.len() as int) == base,
                forall|j: int|
                    base.len() <= j < out@.len() ==> {
                        &&& (#[trigger] out@[j]).0@.len() > lp
                        &&& out@[j].0@.take(lp) == prefix@
                        &&& out@[j].0@[lp] < i
                        &&& self.spec_get(out@[j].0@.skip(lp)) == Some(*out@[j].1)
                    },
                forall|k: Seq<u8>|
                    #![trigger self.spec_get(k)]
                    k.len() > 0 && k[0] < i && self.spec_get(k) is Some ==> exists|j: int|
                        base.len() <= j < out@.len() && (#[trigger] out@[j]).0@ == prefix@ + k,
                forall|j1: int, j2: int|
                    base.len() <= j1 < j2 < out@.len() ==> lex_lt(out@[j1].0@, out@[j2].0@),
            decreases 256 - i,
        {
            let ghost out_before = out@;
            let b = i as u8;
            let ghost ownkey = prefix@ + seq![b];
            match &self.routes[i] {
                Node::Empty => {},
                Node::Data(t) => {
                    let mut key = copy_bytes(prefix);
                    key.push(b);
                    proof {
                        assert(key@ =~= ownkey);
                        assert(ownkey.take(lp) =~= prefix@);
                        assert(ownkey.skip(lp) =~= seq![b]);
                        assert(self.spec_get(seq![b]) == self.routes@[i as int].spec_get(
                            seq![b].skip(1),
                        ));
                        assert(seq![b].skip(1).len() == 0);
                    }
                    out.push((key, t));
                    proof {
                        assert forall|j1: int, j2: int|
                            base.len() <= j1 < j2 < out@.len() implies lex_lt(
                            out@[j1].0@,
                            out@[j2].0@,
                        ) by {
                            if j2 == out@.len() - 1 {
                                assert(out@[j1] == out_before[j1]);
                                let a = out@[j1].0@;
                                assert(a.len() > lp && a.take(lp) == prefix@ && a[lp] < i);
                                assert(ownkey.take(lp) =~= prefix@);
                                assert(ownkey[lp] == b);
                                lemma_lex_lt_common_prefix(prefix@, a, ownkey);
                            } else {
                                assert(out@[j1] == out_before[j1]);
                                assert(out@[j2] == out_before[j2]);
                            }
                        }
                        assert forall|k: Seq<u8>|
                            #![trigger self.spec_get(k)]
                            k.len() > 0 && k[0] < i + 1 && self.spec_get(k) is Some implies exists|
                            j: int,
                        |
                            base.len() <= j < out@.len() && (#[trigger] out@[j]).0@ == prefix@
                                + k by {
                            if k[0] < i {
                                let j = choose|j: int|
                                    base.len() <= j < out_before.len() && (#[trigger] out_before[j]).0@
                                        == prefix@ + k;
                                assert(out@[j].0@ == prefix@ + k);
                            } else {
                                assert(k[0] == b);
                                assert(self.spec_get(k) == self.routes@[i as int].spec_get(
                                    k.skip(1),
                                ));
                                if k.len() == 1 {
                                    assert(k =~= seq![b]);
                                    assert(out@[out@.len() - 1].0@ == prefix@ + k);
                                } else {
                                    assert(self.spec_get(k) is None);
                                }
                            }
                        }
                    }
                },
                Node::Tree(d, sub) => {
                    let mut key = copy_bytes(prefix);
                    key.push(b);
                    proof {
                        assert(key@ =~= ownkey);
                        assert(ownkey.take(lp) =~= prefix@);
                        assert(ownkey.skip(lp) =~= seq![b]);
                        assert(self.spec_get(seq![b]) == self.routes@[i as int].spec_get(
                            seq![b].skip(1),
                        ));
                        assert(seq![b].skip(1).len() == 0);
                    }
                    match d {
                        Some(v) => {
                            let key2 = copy_bytes(&key);
                            out.push((key2, v));
                            proof {
                        assert forall|j1: int, j2: int|
                            base.len() <= j1 < j2 < out@.len() implies lex_lt(
                            out@[j1].0@,
                            out@[j2].0@,
                        ) by {
                            if j2 == out@.len() - 1 {
                                assert(out@[j1] == out_before[j1]);
                                let a = out@[j1].0@;
                                assert(a.len() > lp && a.take(lp) == prefix@ && a[lp] < i);
                                assert(ownkey.take(lp) =~= prefix@);
                                assert(ownkey[lp] == b);
                                lemma_lex_lt_common_prefix(prefix@, a, ownkey);
                            } else {
                                assert(out@[j1] == out_before[j1]);
                                assert(out@[j2] == out_before[j2]);
                            }
                        }
                    }
                        },
                        None => {},
                    }
                    let ghost out_mid = out@;
                    proof {
                        assert(decreases_to!(self.routes => self.routes[i as int]));
                    }
                    sub.collect_into(&key, out);
                    proof {
                        assert forall|j: int|
                            base.len() <= j < out@.len() implies {
                            &&& (#[trigger] out@[j]).0@.len() > lp
                            &&& out@[j].0@.take(lp) == prefix@
                            &&& out@[j].0@[lp] < i + 1
                            &&& self.spec_get(out@[j].0@.skip(lp)) == Some(*out@[j].1)
                        } by {
                            if j < out_mid.len() {
                                assert(out@[j] == out_mid[j]);
                            } else {
                                let kk = out@[j].0@;
                                assert(kk.len() > key@.len());
                                assert(kk.take(key@.len() as int) == key@);
                                assert forall|ii: int| 0 <= ii < lp implies kk.take(lp)[ii]
                                    == prefix@[ii] by {
                                    assert(kk.take(key@.len() as int)[ii] == kk[ii]);
                                    assert(kk.take(lp)[ii] == kk[ii]);
                                }
                                assert(kk.take(lp) =~= prefix@);
                                assert(kk.take(key@.len() as int)[lp] == kk[lp]);
                                assert(kk[lp] == b);
                                let rest = kk.skip(lp);
                                assert(rest[0] == kk[lp]);
                                assert(rest.skip(1) =~= kk.skip(key@.len() as int));
                                assert(self.spec_get(rest) == self.routes@[i as int].spec_get(
                                    rest.skip(1),
                                ));
                            }
                        }
                        assert forall|j1: int, j2: int|
                            base.len() <= j1 < j2 < out@.len() implies lex_lt(
                            out@[j1].0@,
                            out@[j2].0@,
                        ) by {
                            if j2 < out_mid.len() {
                                assert(out@[j1] == out_mid[j1]);
                                assert(out@[j2] == out_mid[j2]);
                            } else if j1 >= out_mid.len() {
                            } else {
                                assert(out@[j1] == out_mid[j1]);
                                let a = out@[j1].0@;
                                let bk = out@[j2].0@;
                                assert(bk.len() > key@.len());
                                assert(bk.take(key@.len() as int) == key@);
                                assert(bk.take(lp) =~= prefix@);
                                assert(bk.take(key@.len() as int)[lp] == bk[lp]);
                                assert(bk[lp] == b);
                                if j1 < out_before.len() {
                                    assert(a.len() > lp && a.take(lp) == prefix@ && a[lp] < i);
                                    lemma_lex_lt_common_prefix(prefix@, a, bk);
                                } else {
                                    assert(a == ownkey);
                                    assert(key@ =~= a);
                                    lemma_lex_lt_proper_prefix(a, bk);
                                }
                            }
                        }
                        assert forall|k: Seq<u8>|
                            #![trigger self.spec_get(k)]
                            k.len() > 0 && k[0] < i + 1 && self.spec_get(k) is Some implies exists|
                            j: int,
                        |
                            base.len() <= j < out@.len() && (#[trigger] out@[j]).0@ == prefix@
                                + k by {
                            if k[0] < i {
                                let j = choose|j: int|
                                    base.len() <= j < out_before.len() && (#[trigger] out_before[j]).0@
                                        == prefix@ + k;
                                assert(out@.take(out_mid.len() as int)[j] == out@[j]);
                                assert(out@[j] == out_mid[j]);
                                assert(out_mid[j] == out_before[j]);
                                assert(out@[j].0@ == prefix@ + k);
                            } else {
                                assert(k[0] == b);
                                assert(self.spec_get(k) == self.routes@[i as int].spec_get(
                                    k.skip(1),
                                ));
                                if k.len() == 1 {
                                    assert(k =~= seq![b]);
                                    assert(k.skip(1).len() == 0);
                                    assert(out_mid[out_mid.len() - 1].0@ == prefix@ + k);
                                    assert(out@.take(out_mid.len() as int)[out_mid.len() - 1]
                                        == out@[out_mid.len() - 1]);
                                    assert(out@[out_mid.len() - 1].0@ == prefix@ + k);
                                } else {
                                    let kt = k.skip(1);
                                    assert(kt.len() > 0);
                                    assert(self.routes@[i as int].spec_get(kt) == sub.spec_get(
                                        kt,
                                    ));
                                    let j = choose|j: int|
                                        out_mid.len() <= j < out@.len() && (#[trigger] out@[j]).0@
                                            == key@ + kt;
                                    assert(key@ + kt =~= prefix@ + k);
                                    assert(out@[j].0@ == prefix@ + k);
                                }
                            }
                        }
                    }
                },
            }
            i = i + 1;
        }
        proof {
            assert(out@.take(base.len() as int) == base);
        }
    }

    /// Merges `other` into this tree underneath `prefix`: afterwards every
    /// entry of `other` at key `K` is found here at key `prefix ++ K`, with
    /// `other`'s value winning wherever both trees stored one. All other
    /// keys keep their bindings. An empty prefix merges at the root.
    pub fn merge(&mut self, prefix: &[u8], other: Tree<T>)
        requires
            old(self).wf(),
            other.wf(),
        ensures
            final(self).wf(),
            forall|k: Seq<u8>| final(self).spec_get(k) == (if k.len() > prefix@.len()
                && k.take(prefix@.len() as int) == prefix@
                && other.spec_get(k.skip(prefix@.len() as int)) is Some {
                other.spec_get(k.skip(prefix@.len() as int))
            } else {
                old(self).spec_get(k)
            }),
    {
        if prefix.len() == 0 {
            let mut tmp = Tree { routes: Vec::new() };
            core::mem::swap(self, &mut tmp);
            let ghost old_self = tmp;
            let merged = merge_trees(tmp, other);
            *self = merged;
            proof {
                assert forall|k: Seq<u8>|
                    self.spec_get(k) == (if k.len() > prefix@.len()
                        && k.take(prefix@.len() as int) == prefix@
                        && other.spec_get(k.skip(prefix@.len() as int)) is Some {
                        other.spec_get(k.skip(prefix@.len() as int))
                    } else {
                        old_self.spec_get(k)
                    }) by {
                    assert(k.skip(0) =~= k);
                    if k.len() > 0 {
                        assert(k.take(0) =~= prefix@);
                    }
                }
            }
        } else {
            self.merge_at(prefix, 0, other);
            proof {
                assert(prefix@.skip(0) =~= prefix@);
            }
        }
    }

    fn merge_at(&mut self, prefix: &[u8], pos: usize, other: Tree<T>)
        requires
            old(self).wf(),
            other.wf(),
            pos < prefix@.len(),
        ensures
            final(self).wf(),
            forall|k: Seq<u8>| final(self).spec_get(k) == (if k.len() > prefix@.len() - pos
                && k.take(prefix@.len() - pos) == prefix@.skip(pos as int)
                && other.spec_get(k.skip(prefix@.len() - pos)) is Some {
                other.spec_get(k.skip(prefix@.len() - pos))
            } else {
                old(self).spec_get(k)
            }),
        decreases prefix@.len() - pos,
    {
        let ghost old_self = *self;
        let ghost suffix = prefix@.skip(pos as int);
        let ghost lsuf = suffix.len() as int;
        let b = prefix[pos] as usize;
        proof {
            assert(suffix.len() == prefix@.len() - pos);
            assert(suffix[0] == prefix@[pos as int]);
        }
        let mut cur = Node::Empty;
        self.routes.set_and_swap(b, &mut cur);
        let (d0, sub) = match cur {
            Node::Empty => (None, Box::new(Tree::new())),
            Node::Data(d) => (Some(d), Box::new(Tree::new())),
            Node::Tree(d, sub) => (d, sub),
        };
        let ghost d0g = d0;
        let ghost sub0 = *sub;
        if pos + 1 == prefix.len() {
            let merged = merge_trees(*sub, other);
            let ghost mergedg = merged;
            self.routes.set(b, Node::Tree(d0, Box::new(merged)));
            proof {
                assert(lsuf == 1);
                assert forall|k: Seq<u8>|
                    self.spec_get(k) == (if k.len() > prefix@.len() - pos
                        && k.take(prefix@.len() - pos) == suffix
                        && other.spec_get(k.skip(prefix@.len() - pos)) is Some {
                        other.spec_get(k.skip(prefix@.len() - pos))
                    } else {
                        old_self.spec_get(k)
                    }) by {
                    if k.len() > 0 {
                        assert(self.spec_get(k) == self.routes@[k[0] as int].spec_get(k.skip(1)));
                        assert(old_self.spec_get(k) == old_self.routes@[k[0] as int].spec_get(
                            k.skip(1),
                        ));
                        if k[0] as int == b {
                            assert(self.routes@[b as int].spec_get(k.skip(1)) == (
                            if k.skip(1).len() == 0 {
                                d0g
                            } else {
                                mergedg.spec_get(k.skip(1))
                            }));
                            if k.len() == 1 {
                                assert(!(k.len() > lsuf));
                                assert(k.skip(1).len() == 0);
                            } else {
                                assert(k.take(1) =~= suffix);
                                assert(k.skip(1) =~= k.skip(lsuf));
                            }
                        } else {
                            if k.len() > lsuf {
                                assert(k.take(lsuf).len() == lsuf);
                                if k.take(lsuf) == suffix {
                                    assert(k.take(lsuf)[0] == k[0]);
                                    assert(false);
                                }
                            }
                        }
                    }
                }
            }
        } else {
            let mut sub = sub;
            (&mut *sub).merge_at(prefix, pos + 1, other);
            let ghost sub1 = *sub;
            self.routes.set(b, Node::Tree(d0, sub));
            proof {
                assert(lsuf > 1);
                assert(prefix@.skip(pos as int + 1) =~= suffix.skip(1));
                assert forall|k: Seq<u8>|
                    self.spec_get(k) == (if k.len() > prefix@.len() - pos
                        && k.take(prefix@.len() - pos) == suffix
                        && other.spec_get(k.skip(prefix@.len() - pos)) is Some {
                        other.spec_get(k.skip(prefix@.len() - pos))
                    } else {
                        old_self.spec_get(k)
                    }) by {
                    if k.len() > 0 {
                        assert(self.spec_get(k) == self.routes@[k[0] as int].spec_get(k.skip(1)));
                        assert(old_self.spec_get(k) == old_self.routes@[k[0] as int].spec_get(
                            k.skip(1),
                        ));
                        if k[0] as int == b {
                            assert(self.routes@[b as int].spec_get(k.skip(1)) == (
                            if k.skip(1).len() == 0 {
                                d0g
                            } else {
                                sub1.spec_get(k.skip(1))
                            }));
                            if k.len() == 1 {
                                assert(!(k.len() > lsuf));
                            } else {
                                let kt = k.skip(1);
                                assert(kt.len() == k.len() - 1);
                                if k.len() > lsuf {
                                    assert(k.skip(lsuf) =~= kt.skip(lsuf - 1));
                                    if k.take(lsuf) == suffix {
                                        lemma_skip_of_take_eq(k, suffix);
                                    } else {
                                        if kt.take(lsuf - 1) == suffix.skip(1) {
                                            lemma_take_eq_via_skip(k, suffix);
                                        }
                                    }
                                } else {
                                    assert(!(kt.len() > lsuf - 1));
                                }
                            }
                        } else {
                            if k.len() > lsuf {
                                assert(k.take(lsuf).len() == lsuf);
                                if k.take(lsuf) == suffix {
                                    assert(k.take(lsuf)[0] == k[0]);
                                    assert(false);
                                }
                            }
                        }
                    }
                }
            }
        }
    }
}



impl<T> Default for Tree<T> {
    /// The empty tree.
    fn default() -> (t: Self)
        ensures
            t.wf(),
            forall|k: Seq<u8>| t.spec_get(k) is None,
    {
        Tree::new()
    }
}

/// Inserting a fresh key and then removing it restores the stored map:
/// afterwards every lookup gives what it gave before the insertion.
///
/// `t1` is the tree after inserting `value` at `key` into `t0`, and `t2` the
/// tree after removing `key` from `t1`, each as [`Tree::insert`] and
/// [`Tree::remove`] describe them; `key` must not have been bound in `t0`.
pub proof fn lemma_insert_then_remove_restores<T>(
    t0: Tree<T>,
    t1: Tree<T>,
    t2: Tree<T>,
    key: Seq<u8>,
    value: T,
)
    requires
        key.len() > 0,
        t0.spec_get(key) is None,
        forall|k: Seq<u8>| t1.spec_get(k) == (if k == key {
            Some(value)
        } else {
            t0.spec_get(k)
        }),
        forall|k: Seq<u8>| t2.spec_get(k) == (if k == key {
            None::<T>
        } else {
            t1.spec_get(k)
        }),
    ensures
        forall|k: Seq<u8>| t2.spec_get(k) == t0.spec_get(k),
{
}

/// Copies a byte string.
fn copy_bytes(v: &Vec<u8>) -> (r: Vec<u8>)
    ensures
        r@ == v@,
{
    let mut r: Vec<u8> = Vec::new();
    let mut i: usize = 0;
    while i < v.len()
        invariant
            i <= v.len(),
            r@ == v@.take(i as int),
        decreases v.len() - i,
    {
        r.push(v[i]);
        proof {
            assert(r@ =~= v@.take(i as int + 1));
        }
        i = i + 1;
    }
    proof {
        assert(v@.take(v@.len() as int) =~= v@);
    }
    r
}

fn merge_nodes<T>(me: Node<T>, other: Node<T>) -> (r: Node<T>)
    requires
        me.wf(),
        other.wf(),
    ensures
        r.wf(),
        forall|k: Seq<u8>| r.spec_get(k) == (if other.spec_get(k) is Some {
            other.spec_get(k)
        } else {
            me.spec_get(k)
        }),
    decreases me,
{
    let ghost me_g = me;
    let ghost other_g = other;
    match (me, other) {
        (Node::Empty, o) => {
            proof {
                assert forall|k: Seq<u8>|
                    o.spec_get(k) == (if other_g.spec_get(k) is Some {
                        other_g.spec_get(k)
                    } else {
                        me_g.spec_get(k)
                    }) by {
                    assert(me_g.spec_get(k) is None);
                }
            }
            o
        },
        (m, Node::Empty) => {
            proof {
                assert forall|k: Seq<u8>|
                    m.spec_get(k) == (if other_g.spec_get(k) is Some {
                        other_g.spec_get(k)
                    } else {
                        me_g.spec_get(k)
                    }) by {
                    assert(other_g.spec_get(k) is None);
                }
            }
            m
        },
        (Node::Data(_), Node::Data(d)) => {
            let r = Node::Data(d);
            proof {
                assert forall|k: Seq<u8>|
                    r.spec_get(k) == (if other_g.spec_get(k) is Some {
                        other_g.spec_get(k)
                    } else {
                        me_g.spec_get(k)
                    }) by {}
            }
            r
        },
        (Node::Data(a), Node::Tree(b, t)) => {
            let ghost bg = b;
            let top = match b {
                Some(x) => Some(x),
                None => Some(a),
            };
            let ghost tg = *t;
            let r = Node::Tree(top, t);
            proof {
                assert forall|k: Seq<u8>|
                    r.spec_get(k) == (if other_g.spec_get(k) is Some {
                        other_g.spec_get(k)
                    } else {
                        me_g.spec_get(k)
                    }) by {
                    if k.len() > 0 {
                        assert(r.spec_get(k) == tg.spec_get(k));
                        assert(other_g.spec_get(k) == tg.spec_get(k));
                        assert(me_g.spec_get(k) is None);
                    }
                }
            }
            r
        },
        (Node::Tree(_, t), Node::Data(d)) => {
            let ghost tg = *t;
            let r = Node::Tree(Some(d), t);
            proof {
                assert forall|k: Seq<u8>|
                    r.spec_get(k) == (if other_g.spec_get(k) is Some {
                        other_g.spec_get(k)
                    } else {
                        me_g.spec_get(k)
                    }) by {
                    if k.len() > 0 {
                        assert(r.spec_get(k) == tg.spec_get(k));
                        assert(other_g.spec_get(k) is None);
                        assert(me_g.spec_get(k) == tg.spec_get(k));
                    }
                }
            }
            r
        },
        (Node::Tree(a, t1), Node::Tree(b, t2)) => {
            let ghost t1g = *t1;
            let ghost t2g = *t2;
            let merged = merge_trees(*t1, *t2);
            let top = match b {
                Some(x) => Some(x),
                None => a,
            };
            let r = Node::Tree(top, Box::new(merged));
            proof {
                assert forall|k: Seq<u8>|
                    r.spec_get(k) == (if other_g.spec_get(k) is Some {
                        other_g.spec_get(k)
                    } else {
                        me_g.spec_get(k)
                    }) by {
                    if k.len() > 0 {
                        assert(r.spec_get(k) == merged.spec_get(k));
                        assert(other_g.spec_get(k) == t2g.spec_get(k));
                        assert(me_g.spec_get(k) == t1g.spec_get(k));
                    }
                }
            }
            r
        },
    }
}

fn merge_trees<T>(me: Tree<T>, other: Tree<T>) -> (r: Tree<T>)
    requires
        me.wf(),
        other.wf(),
    ensures
        r.wf(),
        forall|k: Seq<u8>| r.spec_get(k) == (if other.spec_get(k) is Some {
            other.spec_get(k)
        } else {
            me.spec_get(k)
        }),
    decreases me,
{
    let ghost me0 = me;
    let ghost other0 = other;
    let mut mine = me;
    let mut theirs = other;
    let mut rev: Vec<Node<T>> = Vec::new();
    let mut i: usize = 0;
    while i < 256
        invariant
            i <= 256,
            me == me0,
            me0.wf(),
            other0.wf(),
            mine.routes@ == me0.routes@.take(256 - i),
            theirs.routes@ == other0.routes@.take(256 - i),
            rev@.len() == i,
            forall|j: int| 0 <= j < i ==> (#[trigger] rev@[j]).wf(),
            forall|j: int, k: Seq<u8>| 0 <= j < i ==> (#[trigger] rev@[j].spec_get(k)) == (
            if other0.routes@[255 - j].spec_get(k) is Some {
                other0.routes@[255 - j].spec_get(k)
            } else {
                me0.routes@[255 - j].spec_get(k)
            }),
        decreases 256 - i,
    {
        proof {
            assert(mine.routes@.len() == 256 - i);
            assert(mine.routes@[255 - i as int] == me0.routes@[255 - i as int]);
            assert(theirs.routes@[255 - i as int] == other0.routes@[255 - i as int]);
        }
        let n1 = mine.routes.pop().unwrap();
        let n2 = theirs.routes.pop().unwrap();
        proof {
            assert(mine.routes@ =~= me0.routes@.take(255 - i as int));
            assert(theirs.routes@ =~= other0.routes@.take(255 - i as int));
        }
        proof {
            assert(decreases_to!(me0 => me0.routes));
            assert(decreases_to!(me0.routes => me0.routes[255 - i as int]));
        }
        let m = merge_nodes(n1, n2);
        rev.push(m);
        i = i + 1;
    }
    let ghost rev0 = rev;
    let mut routes: Vec<Node<T>> = Vec::new();
    let mut i2: usize = 0;
    while i2 < 256
        invariant
            i2 <= 256,
            rev0@.len() == 256,
            rev@ == rev0@.take(256 - i2),
            routes@.len() == i2,
            forall|j: int| 0 <= j < i2 ==> routes@[j] == rev0@[255 - j],
        decreases 256 - i2,
    {
        let n = rev.pop().unwrap();
        proof {
            assert(rev@ =~= rev0@.take(255 - i2 as int));
        }
        routes.push(n);
        i2 = i2 + 1;
    }
    let r = Tree { routes };
    proof {
        assert forall|i: int| 0 <= i < 256 implies (#[trigger] r.routes@[i]).wf() by {
            assert(r.routes@[i] == rev0@[255 - i]);
        }
        assert forall|k: Seq<u8>|
            r.spec_get(k) == (if other0.spec_get(k) is Some {
                other0.spec_get(k)
            } else {
                me0.spec_get(k)
            }) by {
            if k.len() > 0 {
                let c = k[0] as int;
                assert(r.routes@[c] == rev0@[255 - c]);
                assert(rev0@[255 - c].spec_get(k.skip(1)) == (
                if other0.routes@[c].spec_get(k.skip(1)) is Some {
                    other0.routes@[c].spec_get(k.skip(1))
                } else {
                    me0.routes@[c].spec_get(k.skip(1))
                }));
            }
        }
    }
    r
}

} // verus!

