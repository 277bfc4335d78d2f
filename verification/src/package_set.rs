//! Ordered sets of package patterns.
//!
//! A pattern is a package name, or a prefix followed by `*`.

use vstd::prelude::*;
use vstd::slice::slice_subrange;

use crate::text;
use crate::text::{chars_of, same, starts_with};

verus! {

/// Whether `pattern` covers `package`: by its prefix if it ends in `*`,
/// otherwise by being equal to it.
pub open spec fn covers(pattern: Seq<char>, package: Seq<char>) -> bool {
    if pattern.len() > 0 && pattern.last() == '*' {
        pattern.drop_last().is_prefix_of(package)
    } else {
        pattern == package
    }
}

/// Whether some pattern of `set` covers `package`.
pub open spec fn covered(set: Set<Seq<char>>, package: Seq<char>) -> bool {
    exists|p: Seq<char>| set.contains(p) && covers(p, package)
}

/// Lexicographic order by code point, the order of `str`.
pub open spec fn less(a: Seq<char>, b: Seq<char>) -> bool
    decreases b.len(),
{
    if b.len() == 0 {
        false
    } else if a.len() == 0 {
        true
    } else if a.first() == b.first() {
        less(a.drop_first(), b.drop_first())
    } else {
        a.first() < b.first()
    }
}

/// Strictly ascending: in particular nothing occurs twice.
pub open spec fn ascending(v: Seq<Seq<char>>) -> bool {
    forall|i: int, j: int| 0 <= i < j < v.len() ==> less(#[trigger] v[i], #[trigger] v[j])
}

pub proof fn lemma_less_irreflexive(a: Seq<char>)
    ensures
        !less(a, a),
    decreases a.len(),
{
    if a.len() > 0 {
        lemma_less_irreflexive(a.drop_first());
    }
}

pub proof fn lemma_less_transitive(a: Seq<char>, b: Seq<char>, c: Seq<char>)
    requires
        less(a, b),
        less(b, c),
    ensures
        less(a, c),
    decreases c.len(),
{
    if a.len() > 0 && b.len() > 0 && c.len() > 0 && a.first() == b.first() && b.first()
        == c.first() {
        lemma_less_transitive(a.drop_first(), b.drop_first(), c.drop_first());
    }
}

pub proof fn lemma_less_total(a: Seq<char>, b: Seq<char>)
    ensures
        less(a, b) || a == b || less(b, a),
    decreases a.len(),
{
    if a.len() == 0 && b.len() == 0 {
        assert(a =~= b);
    } else if a.len() > 0 && b.len() > 0 && a.first() == b.first() {
        lemma_less_total(a.drop_first(), b.drop_first());
        if a.drop_first() == b.drop_first() {
            assert(a =~= seq![a.first()] + a.drop_first());
            assert(b =~= seq![b.first()] + b.drop_first());
        }
    }
}

/// A set has exactly one ascending listing.
pub proof fn law_listing_is_unique(a: Seq<Seq<char>>, b: Seq<Seq<char>>)
    requires
        ascending(a),
        ascending(b),
        a.to_set() == b.to_set(),
    ensures
        a == b,
    decreases a.len(),
{
    assert forall|x: Seq<char>| #[trigger] a.contains(x) <==> b.contains(x) by {
        assert(a.to_set().contains(x) == a.contains(x));
        assert(b.to_set().contains(x) == b.contains(x));
    }
    if a.len() == 0 {
        if b.len() > 0 {
            assert(b.contains(b[0]));
            assert(a.contains(b[0]));
        }
        assert(a =~= b);
    } else if b.len() == 0 {
        assert(a.contains(a[0]));
        assert(false);
    } else {
        let x = a.last();
        let y = b.last();
        assert(a.contains(a[a.len() - 1]));
        assert(b.contains(b[b.len() - 1]));
        assert(b.contains(x) <==> a.contains(x));
        assert(b.contains(y) <==> a.contains(y));
        let i = choose|i: int| 0 <= i < b.len() && b[i] == x;
        let j = choose|j: int| 0 <= j < a.len() && a[j] == y;
        if x != y {
            assert(i < b.len() - 1);
            assert(j < a.len() - 1);
            assert(less(b[i], b[b.len() - 1]));
            assert(less(a[j], a[a.len() - 1]));
            lemma_less_transitive(x, y, x);
            lemma_less_irreflexive(x);
        }
        let a1 = a.drop_last();
        let b1 = b.drop_last();
        assert forall|z: Seq<char>| #[trigger] a1.to_set().contains(z) <==> b1.to_set().contains(z) by {
            assert(a.contains(z) <==> b.contains(z));
            if a1.contains(z) {
                let k = choose|k: int| 0 <= k < a1.len() && a1[k] == z;
                assert(a[k] == z);
                assert(a.contains(z));
                let m = choose|m: int| 0 <= m < b.len() && b[m] == z;
                if m == b.len() - 1 {
                    assert(less(a[k], a[a.len() - 1]));
                    lemma_less_irreflexive(x);
                }
                assert(b1[m] == z);
            }
            if b1.contains(z) {
                let k = choose|k: int| 0 <= k < b1.len() && b1[k] == z;
                assert(b[k] == z);
                assert(b.contains(z));
                let m = choose|m: int| 0 <= m < a.len() && a[m] == z;
                if m == a.len() - 1 {
                    assert(less(b[k], b[b.len() - 1]));
                    lemma_less_irreflexive(x);
                }
                assert(a1[m] == z);
            }
        }
        assert(a1.to_set() =~= b1.to_set());
        law_listing_is_unique(a1, b1);
        assert(a =~= a1.push(x));
        assert(b =~= b1.push(x));
    }
}

/// Whether `a` comes before `b` in the order of `str`.
pub fn comes_before(a: &[char], b: &[char]) -> (r: bool)
    ensures
        r == less(a@, b@),
{
    let mut i: usize = 0;
    assert(a@.skip(0) =~= a@);
    assert(b@.skip(0) =~= b@);
    while i < a.len() && i < b.len()
        invariant
            i <= a.len(),
            i <= b.len(),
            less(a@, b@) == less(a@.skip(i as int), b@.skip(i as int)),
        decreases a.len() - i,
    {
        let ghost x = a@.skip(i as int);
        let ghost y = b@.skip(i as int);
        assert(x.first() == a@[i as int]);
        assert(y.first() == b@[i as int]);
        if a[i] != b[i] {
            return a[i] < b[i];
        }
        assert(x.drop_first() =~= a@.skip(i + 1));
        assert(y.drop_first() =~= b@.skip(i + 1));
        i += 1;
    }
    i < b.len()
}

/// Whether `pattern` covers `package`.
pub fn pattern_covers(pattern: &[char], package: &[char]) -> (r: bool)
    ensures
        r == covers(pattern@, package@),
{
    let n = pattern.len();
    if n > 0 && pattern[n - 1] == '*' {
        let head = slice_subrange(pattern, 0, n - 1);
        assert(head@ =~= pattern@.drop_last());
        starts_with(package, head)
    } else {
        same(pattern, package)
    }
}

/// A set of patterns, kept in ascending order.
#[derive(Debug)]
pub struct PackageSet {
    items: Vec<String>,
}

impl View for PackageSet {
    type V = Set<Seq<char>>;

    closed spec fn view(&self) -> Set<Seq<char>> {
        text::texts(self.items@).to_set()
    }
}

impl Clone for PackageSet {
    fn clone(&self) -> (r: Self)
        ensures
            r@ == self@,
            r.listing() == self.listing(),
    {
        proof {
            use_type_invariant(self);
        }
        let mut items: Vec<String> = Vec::new();
        let mut i: usize = 0;
        while i < self.items.len()
            invariant
                i <= self.items.len(),
                text::texts(items@) == text::texts(self.items@).take(i as int),
            decreases self.items.len() - i,
        {
            let ghost was = text::texts(items@);
            items.push(self.items[i].clone());
            assert(text::texts(items@) =~= was.push(self.items@[i as int]@));
            assert(text::texts(items@) =~= text::texts(self.items@).take(i + 1));
            i += 1;
        }
        assert(text::texts(items@) =~= text::texts(self.items@));
        PackageSet { items }
    }
}

impl PackageSet {
    /// The patterns in ascending order.
    pub closed spec fn listing(&self) -> Seq<Seq<char>> {
        text::texts(self.items@)
    }

    #[verifier::type_invariant]
    closed spec fn wf(&self) -> bool {
        ascending(text::texts(self.items@))
    }

    /// The empty set.
    pub fn new() -> (r: Self)
        ensures
            r@ == Set::<Seq<char>>::empty(),
            r.listing() == Seq::<Seq<char>>::empty(),
    {
        let items: Vec<String> = Vec::new();
        assert(text::texts(items@) =~= Seq::<Seq<char>>::empty());
        let r = PackageSet { items };
        assert(r@ =~= Set::<Seq<char>>::empty());
        r
    }

    /// How many patterns the set holds.
    pub fn len(&self) -> (n: usize)
        ensures
            n == self.listing().len(),
            n == 0 <==> self@ == Set::<Seq<char>>::empty(),
            ascending(self.listing()),
            self.listing().to_set() == self@,
    {
        proof {
            use_type_invariant(self);
            if self.items@.len() > 0 {
                assert(self.listing().contains(self.listing()[0]));
                assert(self@.contains(self.listing()[0]));
            } else {
                assert(self@ =~= Set::<Seq<char>>::empty());
            }
        }
        self.items.len()
    }

    /// The pattern at position `i` of the ascending order.
    pub fn at(&self, i: usize) -> (r: &str)
        requires
            i < self.listing().len(),
        ensures
            r@ == self.listing()[i as int],
            self@.contains(r@),
    {
        assert(self.listing().contains(self.listing()[i as int]));
        self.items[i].as_str()
    }

    /// Whether some pattern of the set covers `package`.
    pub fn covers(&self, package: &str) -> (r: bool)
        ensures
            r == covered(self@, package@),
    {
        let p = chars_of(package);
        let mut i: usize = 0;
        while i < self.items.len()
            invariant
                i <= self.items.len(),
                p@ == package@,
                forall|j: int| 0 <= j < i ==> !covers(self.items@[j]@, package@),
            decreases self.items.len() - i,
        {
            let q = chars_of(self.items[i].as_str());
            if pattern_covers(q.as_slice(), p.as_slice()) {
                proof {
                    assert(self.listing()[i as int] == q@);
                    assert(self.listing().contains(q@));
                    assert(self@.contains(q@));
                }
                return true;
            }
            i += 1;
        }
        assert forall|x: Seq<char>| self@.contains(x) implies !covers(x, package@) by {
            let k = choose|k: int| 0 <= k < self.listing().len() && self.listing()[k] == x;
            assert(self.items@[k]@ == x);
        }
        false
    }

    /// Add a pattern.
    pub fn insert(&mut self, pattern: String)
        ensures
            final(self)@ == old(self)@.insert(pattern@),
    {
        proof {
            use_type_invariant(&*self);
        }
        let mut items: Vec<String> = Vec::new();
        std::mem::swap(&mut items, &mut self.items);
        let ghost before = text::texts(items@);
        let p = chars_of(pattern.as_str());
        let mut i: usize = 0;
        while i < items.len()
            invariant
                i <= items.len(),
                p@ == pattern@,
                before == text::texts(items@),
                ascending(before),
                forall|j: int| 0 <= j < i ==> less(#[trigger] before[j], p@),
                before.to_set() == old(self)@,
            decreases items.len() - i,
        {
            let q = chars_of(items[i].as_str());
            assert(before[i as int] == q@);
            if same(q.as_slice(), p.as_slice()) {
                self.items = items;
                proof {
                    assert(before.contains(q@));
                    assert(old(self)@.contains(q@));
                    assert(self@ =~= old(self)@.insert(pattern@));
                }
                return ;
            }
            if !comes_before(q.as_slice(), p.as_slice()) {
                proof {
                    lemma_less_total(p@, q@);
                    lemma_insert(before, i as int, p@);
                }
                items.insert(i, pattern);
                assert(text::texts(items@) =~= before.insert(i as int, p@));
                self.items = items;
                assert(self@ =~= old(self)@.insert(pattern@));
                return ;
            }
            i += 1;
        }
        proof {
            lemma_insert(before, i as int, p@);
        }
        items.insert(i, pattern);
        assert(text::texts(items@) =~= before.insert(i as int, p@));
        self.items = items;
        assert(self@ =~= old(self)@.insert(pattern@));
    }

    /// Remove every member that `pattern` covers.
    pub fn remove_covered(&mut self, pattern: &str)
        ensures
            final(self)@ == old(self)@.filter(|x: Seq<char>| !covers(pattern@, x)),
    {
        proof {
            use_type_invariant(&*self);
        }
        let p = chars_of(pattern);
        let mut items: Vec<String> = Vec::new();
        std::mem::swap(&mut items, &mut self.items);
        let ghost before = text::texts(items@);
        let mut kept: Vec<String> = Vec::new();
        let mut i: usize = 0;
        assert(text::texts(kept@) =~= Seq::<Seq<char>>::empty());
        while i < items.len()
            invariant
                i <= items.len(),
                p@ == pattern@,
                before == text::texts(items@),
                ascending(before),
                ascending(text::texts(kept@)),
                forall|x: Seq<char>| #[trigger]
                    text::texts(kept@).contains(x) <==> before.take(i as int).contains(x) && !covers(
                        pattern@,
                        x,
                    ),
            decreases items.len() - i,
        {
            let q = chars_of(items[i].as_str());
            let ghost was = text::texts(kept@);
            let ghost head = before.take(i as int);
            assert(before.take(i + 1) =~= head.push(q@));
            assert forall|x: Seq<char>| #[trigger] before.take(i + 1).contains(x) <==> head.contains(
                x,
            ) || x == q@ by {
                lemma_push_contains(head, q@, x);
            }
            if !pattern_covers(p.as_slice(), q.as_slice()) {
                kept.push(items[i].clone());
                assert(text::texts(kept@) =~= was.push(q@));
                assert forall|x: Seq<char>| #[trigger] text::texts(kept@).contains(x) <==> was.contains(x)
                    || x == q@ by {
                    lemma_push_contains(was, q@, x);
                }
                assert forall|a: int, b: int| 0 <= a < b < text::texts(kept@).len() implies less(
                    #[trigger] text::texts(kept@)[a],
                    #[trigger] text::texts(kept@)[b],
                ) by {
                    if b == was.len() {
                        assert(was.contains(was[a]));
                        let k = choose|k: int| 0 <= k < head.len() && head[k] == was[a];
                        assert(less(before[k], before[i as int]));
                    } else {
                        assert(less(was[a], was[b]));
                    }
                }
            }
            i += 1;
        }
        assert(before.take(before.len() as int) =~= before);
        self.items = kept;
        assert(self@ =~= old(self)@.filter(|x: Seq<char>| !covers(pattern@, x))) by {
            assert forall|x: Seq<char>| #[trigger] self@.contains(x) <==> old(self)@.contains(x)
                && !covers(pattern@, x) by {
                assert(text::texts(self.items@).contains(x) <==> before.contains(x) && !covers(
                    pattern@,
                    x,
                ));
            }
        }
    }
}

pub proof fn lemma_push_contains(v: Seq<Seq<char>>, q: Seq<char>, x: Seq<char>)
    ensures
        v.push(q).contains(x) <==> v.contains(x) || x == q,
{
    let w = v.push(q);
    if v.contains(x) {
        let k = choose|k: int| 0 <= k < v.len() && v[k] == x;
        assert(w[k] == x);
    }
    assert(w[v.len() as int] == q);
    if w.contains(x) && x != q {
        let k = choose|k: int| 0 <= k < w.len() && w[k] == x;
        assert(v[k] == x);
    }
}

/// Inserting `p` between what is less and what is greater keeps the order.
proof fn lemma_insert(v: Seq<Seq<char>>, i: int, p: Seq<char>)
    requires
        ascending(v),
        0 <= i <= v.len(),
        forall|j: int| 0 <= j < i ==> less(#[trigger] v[j], p),
        i < v.len() ==> less(p, v[i]),
    ensures
        ascending(v.insert(i, p)),
        v.insert(i, p).to_set() == v.to_set().insert(p),
{
    let w = v.insert(i, p);
    assert forall|a: int, b: int| 0 <= a < b < w.len() implies less(
        #[trigger] w[a],
        #[trigger] w[b],
    ) by {
        if a < i && b > i {
            assert(less(v[a], v[b - 1]));
        } else if a == i {
            if b - 1 > i {
                assert(less(v[i], v[b - 1]));
                lemma_less_transitive(p, v[i], v[b - 1]);
            }
        } else if a > i {
            assert(less(v[a - 1], v[b - 1]));
        }
    }
    assert forall|x: Seq<char>| #[trigger] w.to_set().contains(x) <==> v.to_set().insert(
        p,
    ).contains(x) by {
        if v.contains(x) {
            let k = choose|k: int| 0 <= k < v.len() && v[k] == x;
            if k < i {
                assert(w[k] == x);
            } else {
                assert(w[k + 1] == x);
            }
        }
        assert(w[i] == p);
        if w.contains(x) && x != p {
            let k = choose|k: int| 0 <= k < w.len() && w[k] == x;
            if k < i {
                assert(v[k] == x);
            } else {
                assert(v[k - 1] == x);
            }
        }
    }
    assert(w.to_set() =~= v.to_set().insert(p));
}

// ---------------------------------------------------------------------------
// Laws: patterns and their order
// ---------------------------------------------------------------------------

/// A prefix followed by `*` covers every text that begins with the prefix, that
/// pattern itself among them; any other pattern covers itself alone.
pub proof fn law_patterns(prefix: Seq<char>, plain: Seq<char>, package: Seq<char>)
    requires
        plain.len() == 0 || plain.last() != '*',
    ensures
        covers(prefix.push('*'), package) <==> prefix.is_prefix_of(package),
        covers(prefix.push('*'), prefix.push('*')),
        covers(plain, package) <==> plain == package,
        covers(package, package),
{
    assert(prefix.push('*').drop_last() =~= prefix);
    assert(prefix.is_prefix_of(prefix.push('*')));
    if package.len() > 0 {
        assert(package.drop_last().is_prefix_of(package));
    }
}

/// A set covers a package that it holds, and one that begins with the prefix of a
/// wildcard that it holds, and no other.
pub proof fn law_covered(set: Set<Seq<char>>, package: Seq<char>)
    ensures
        covered(set, package) <==> set.contains(package) || exists|prefix: Seq<char>| #[trigger]
            set.contains(prefix.push('*')) && prefix.is_prefix_of(package),
{
    if covered(set, package) {
        let p = choose|p: Seq<char>| set.contains(p) && covers(p, package);
        if p.len() > 0 && p.last() == '*' {
            let prefix = p.drop_last();
            assert(prefix.push('*') =~= p);
            assert(set.contains(prefix.push('*')));
        }
    }
    if set.contains(package) {
        law_patterns(package, seq![], package);
        assert(covers(package, package));
    }
    if exists|prefix: Seq<char>| #[trigger]
        set.contains(prefix.push('*')) && prefix.is_prefix_of(package) {
        let prefix = choose|prefix: Seq<char>| #[trigger]
            set.contains(prefix.push('*')) && prefix.is_prefix_of(package);
        law_patterns(prefix, seq![], package);
        assert(covers(prefix.push('*'), package));
    }
}

/// Texts are ordered by the first character in which they differ, by its code
/// point; a text comes before its own extensions.
pub proof fn law_order(common: Seq<char>, a: char, x: Seq<char>, b: char, y: Seq<char>)
    requires
        a < b,
    ensures
        less(common + seq![a] + x, common + seq![b] + y),
        !less(common + seq![b] + y, common + seq![a] + x),
        less(common, common + seq![a] + x),
        !less(common + seq![a] + x, common),
        !less(common, common),
    decreases common.len(),
{
    let u = common + seq![a] + x;
    let v = common + seq![b] + y;
    if common.len() == 0 {
        assert(u.first() == a && v.first() == b);
    } else {
        let rest = common.drop_first();
        law_order(rest, a, x, b, y);
        assert(u.first() == common.first() && v.first() == common.first());
        assert(u.drop_first() =~= rest + seq![a] + x);
        assert(v.drop_first() =~= rest + seq![b] + y);
    }
}

} // verus!
