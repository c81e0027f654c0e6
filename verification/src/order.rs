use vstd::prelude::*;
use crate::text::chars_of;

verus! {

/// How one text stands to another in the order of the canonical form.
#[derive(Clone, Copy, Debug, PartialEq, Eq, Structural)]
pub enum Comparison {
    Before,
    Same,
    After,
}

/// The strict order of texts: character by character, by code point, a
/// proper prefix before what it is a prefix of.
pub open spec fn precedes(a: Seq<char>, b: Seq<char>) -> bool
    decreases a.len(),
{
    if b.len() == 0 {
        false
    } else if a.len() == 0 {
        true
    } else if a[0] != b[0] {
        (a[0] as int) < (b[0] as int)
    } else {
        precedes(a.drop_first(), b.drop_first())
    }
}

/// The three-way comparison that `precedes` induces.
pub open spec fn comparison(a: Seq<char>, b: Seq<char>) -> Comparison {
    if a == b {
        Comparison::Same
    } else if precedes(a, b) {
        Comparison::Before
    } else {
        Comparison::After
    }
}

/// Whether each text stands before all that follow it. Such a list holds no
/// text twice.
pub open spec fn strictly_sorted(v: Seq<Seq<char>>) -> bool {
    forall|i: int, j: int| 0 <= i < j < v.len() ==> precedes(#[trigger] v[i], #[trigger] v[j])
}

/// Whether two lists hold the same texts, whatever the order and the number
/// of times.
pub open spec fn same_texts(v: Seq<Seq<char>>, w: Seq<Seq<char>>) -> bool {
    forall|x: Seq<char>| v.contains(x) <==> w.contains(x)
}

/// How many texts at the start of `v` stand before `x`.
pub open spec fn rank(v: Seq<Seq<char>>, x: Seq<char>) -> int
    decreases v.len(),
{
    if v.len() > 0 && precedes(v[0], x) {
        1 + rank(v.drop_first(), x)
    } else {
        0
    }
}

/// `v` with `x` put where the order wants it, unless `x` stands there already.
pub open spec fn insert_sorted(v: Seq<Seq<char>>, x: Seq<char>) -> Seq<Seq<char>> {
    let k = rank(v, x);
    if 0 <= k < v.len() && v[k] == x {
        v
    } else {
        v.insert(k, x)
    }
}

/// The canonical form of a list of texts: its texts in strict order, each
/// once. `lemma_canonical` and `lemma_sorted_unique` show that this is the
/// only strictly sorted list with the texts of `v`.
pub open spec fn canonical(v: Seq<Seq<char>>) -> Seq<Seq<char>>
    decreases v.len(),
{
    if v.len() == 0 {
        Seq::empty()
    } else {
        insert_sorted(canonical(v.drop_last()), v.last())
    }
}

/// No text stands before itself.
pub proof fn lemma_precedes_irreflexive(a: Seq<char>)
    ensures
        !precedes(a, a),
    decreases a.len(),
{
    if a.len() > 0 {
        lemma_precedes_irreflexive(a.drop_first());
    }
}

/// Of two different texts one stands before the other.
pub proof fn lemma_precedes_total(a: Seq<char>, b: Seq<char>)
    ensures
        a != b ==> precedes(a, b) || precedes(b, a),
        !(precedes(a, b) && precedes(b, a)),
    decreases a.len(),
{
    if a.len() > 0 && b.len() > 0 {
        if a[0] == b[0] {
            lemma_precedes_total(a.drop_first(), b.drop_first());
            if a.drop_first() == b.drop_first() {
                assert(a =~= seq![a[0]] + a.drop_first());
                assert(b =~= seq![b[0]] + b.drop_first());
            }
        } else {
            assert(a[0] as int != b[0] as int);
        }
    } else if a.len() == 0 && b.len() == 0 {
        assert(a =~= b);
    }
}

/// The order is transitive.
pub proof fn lemma_precedes_transitive(a: Seq<char>, b: Seq<char>, c: Seq<char>)
    requires
        precedes(a, b),
        precedes(b, c),
    ensures
        precedes(a, c),
    decreases a.len(),
{
    if a.len() > 0 {
        if a[0] == b[0] && b[0] == c[0] {
            lemma_precedes_transitive(a.drop_first(), b.drop_first(), c.drop_first());
        }
    }
}

/// `rank` is a position of `v`. In a strictly sorted list everything before
/// it stands before `x` and nothing from it on does.
pub proof fn lemma_rank(v: Seq<Seq<char>>, x: Seq<char>)
    ensures
        0 <= rank(v, x) <= v.len(),
        forall|i: int| 0 <= i < rank(v, x) ==> precedes(#[trigger] v[i], x),
        rank(v, x) < v.len() ==> !precedes(v[rank(v, x)], x),
        strictly_sorted(v) ==> forall|i: int|
            rank(v, x) <= i < v.len() ==> !precedes(#[trigger] v[i], x),
    decreases v.len(),
{
    if v.len() > 0 && precedes(v[0], x) {
        let t = v.drop_first();
        lemma_rank(t, x);
        let r = rank(t, x);
        assert forall|i: int| 0 <= i < 1 + r implies precedes(#[trigger] v[i], x) by {
            if i > 0 {
                assert(v[i] == t[i - 1]);
            }
        }
        if r < t.len() {
            assert(v[r + 1] == t[r]);
        }
        if strictly_sorted(v) {
            assert forall|i: int, j: int| 0 <= i < j < t.len() implies precedes(
                #[trigger] t[i],
                #[trigger] t[j],
            ) by {
                assert(t[i] == v[i + 1] && t[j] == v[j + 1]);
            }
            assert forall|i: int| 1 + r <= i < v.len() implies !precedes(#[trigger] v[i], x) by {
                assert(v[i] == t[i - 1]);
            }
        }
    } else if strictly_sorted(v) && v.len() > 0 {
        assert forall|i: int| 0 <= i < v.len() implies !precedes(#[trigger] v[i], x) by {
            if i > 0 && precedes(v[i], x) {
                lemma_precedes_transitive(v[0], v[i], x);
            }
        }
    }
}

/// Inserting keeps a list strictly sorted and adds the one text to it.
pub proof fn lemma_insert_sorted(v: Seq<Seq<char>>, x: Seq<char>)
    requires
        strictly_sorted(v),
    ensures
        strictly_sorted(insert_sorted(v, x)),
        forall|y: Seq<char>| insert_sorted(v, x).contains(y) <==> (v.contains(y) || y == x),
        v.contains(x) ==> insert_sorted(v, x) == v,
{
    lemma_rank(v, x);
    let k = rank(v, x);
    let w = insert_sorted(v, x);
    if 0 <= k < v.len() && v[k] == x {
        assert forall|y: Seq<char>| w.contains(y) <==> (v.contains(y) || y == x) by {}
    } else {
        assert(w == v.insert(k, x));
        assert forall|i: int, j: int| 0 <= i < j < w.len() implies precedes(
            #[trigger] w[i],
            #[trigger] w[j],
        ) by {
            if j == k {
                assert(w[i] == v[i]);
            } else if i == k {
                assert(w[j] == v[j - 1]);
                lemma_precedes_total(v[j - 1], x);
                assert(!precedes(v[j - 1], x));
                if v[j - 1] == x {
                    if j - 1 > k {
                        assert(precedes(v[k], v[j - 1]));
                    }
                }
            } else {
                let a = if i < k { i } else { i - 1 };
                let b = if j < k { j } else { j - 1 };
                assert(w[i] == v[a] && w[j] == v[b]);
            }
        }
        assert forall|y: Seq<char>| w.contains(y) <==> (v.contains(y) || y == x) by {
            if w.contains(y) {
                let i = choose|i: int| 0 <= i < w.len() && w[i] == y;
                if i < k {
                    assert(v[i] == y);
                } else if i > k {
                    assert(v[i - 1] == y);
                }
            }
            if v.contains(y) {
                let i = choose|i: int| 0 <= i < v.len() && v[i] == y;
                if i < k {
                    assert(w[i] == y);
                } else {
                    assert(w[i + 1] == y);
                }
            }
            if y == x {
                assert(w[k] == y);
            }
        }
        if v.contains(x) {
            let i = choose|i: int| 0 <= i < v.len() && v[i] == x;
            lemma_precedes_irreflexive(x);
            if i > k {
                assert(precedes(v[k], v[i]));
                lemma_precedes_total(v[k], x);
            }
        }
    }
}

/// The canonical form is strictly sorted and holds the texts of the list,
/// no more and no fewer.
pub proof fn lemma_canonical(v: Seq<Seq<char>>)
    ensures
        strictly_sorted(canonical(v)),
        same_texts(canonical(v), v),
    decreases v.len(),
{
    if v.len() > 0 {
        let init = v.drop_last();
        lemma_canonical(init);
        lemma_insert_sorted(canonical(init), v.last());
        assert forall|y: Seq<char>| canonical(v).contains(y) <==> v.contains(y) by {
            if v.contains(y) {
                let i = choose|i: int| 0 <= i < v.len() && v[i] == y;
                if i < v.len() - 1 {
                    assert(init[i] == y);
                }
            }
            if init.contains(y) {
                let i = choose|i: int| 0 <= i < init.len() && init[i] == y;
                assert(v[i] == y);
            }
            if y == v.last() {
                assert(v[v.len() - 1] == y);
            }
        }
    }
}

/// Two strictly sorted lists with the same texts are the same list.
pub proof fn lemma_sorted_unique(a: Seq<Seq<char>>, b: Seq<Seq<char>>)
    requires
        strictly_sorted(a),
        strictly_sorted(b),
        same_texts(a, b),
    ensures
        a == b,
    decreases a.len(),
{
    if a.len() == 0 {
        if b.len() > 0 {
            assert(b.contains(b[0]));
            assert(a.contains(b[0]));
        }
        assert(a =~= b);
    } else {
        assert(a.contains(a[0]));
        assert(b.contains(a[0]));
        let j = choose|j: int| 0 <= j < b.len() && b[j] == a[0];
        assert(b.contains(b[0]));
        assert(a.contains(b[0]));
        let i = choose|i: int| 0 <= i < a.len() && a[i] == b[0];
        lemma_precedes_irreflexive(a[0]);
        if j > 0 {
            assert(precedes(b[0], b[j]));
            if i > 0 {
                assert(precedes(a[0], a[i]));
                lemma_precedes_transitive(a[0], b[0], a[0]);
            }
        }
        assert(a[0] == b[0]);
        let ta = a.drop_first();
        let tb = b.drop_first();
        assert forall|p: int, q: int| 0 <= p < q < ta.len() implies precedes(
            #[trigger] ta[p],
            #[trigger] ta[q],
        ) by {
            assert(ta[p] == a[p + 1] && ta[q] == a[q + 1]);
        }
        assert forall|p: int, q: int| 0 <= p < q < tb.len() implies precedes(
            #[trigger] tb[p],
            #[trigger] tb[q],
        ) by {
            assert(tb[p] == b[p + 1] && tb[q] == b[q + 1]);
        }
        assert forall|y: Seq<char>| ta.contains(y) <==> tb.contains(y) by {
            lemma_precedes_irreflexive(y);
            if ta.contains(y) {
                let p = choose|p: int| 0 <= p < ta.len() && ta[p] == y;
                assert(a[p + 1] == y);
                assert(precedes(a[0], a[p + 1]));
                assert(a.contains(y));
                assert(b.contains(y));
                let q = choose|q: int| 0 <= q < b.len() && b[q] == y;
                assert(q > 0);
                assert(tb[q - 1] == y);
            }
            if tb.contains(y) {
                let q = choose|q: int| 0 <= q < tb.len() && tb[q] == y;
                assert(b[q + 1] == y);
                assert(precedes(b[0], b[q + 1]));
                assert(b.contains(y));
                assert(a.contains(y));
                let p = choose|p: int| 0 <= p < a.len() && a[p] == y;
                assert(p > 0);
                assert(ta[p - 1] == y);
            }
        }
        lemma_sorted_unique(ta, tb);
        assert(a =~= seq![a[0]] + ta);
        assert(b =~= seq![b[0]] + tb);
    }
}

/// The canonical form depends on which texts a list holds, not on their
/// order nor on how often each occurs; and a list that is strictly sorted
/// is its own canonical form.
pub proof fn lemma_canonical_unique(v: Seq<Seq<char>>, w: Seq<Seq<char>>)
    requires
        same_texts(v, w),
    ensures
        canonical(v) == canonical(w),
        strictly_sorted(w) ==> canonical(v) == w,
{
    lemma_canonical(v);
    lemma_canonical(w);
    lemma_sorted_unique(canonical(v), canonical(w));
    if strictly_sorted(w) {
        lemma_sorted_unique(canonical(w), w);
    }
}

/// Compares two texts in the order of the canonical form.
pub fn compare_text(a: &str, b: &str) -> (c: Comparison)
    ensures
        c == comparison(a@, b@),
{
    let x = chars_of(a);
    let y = chars_of(b);
    let mut i: usize = 0;
    assert(a@.skip(0) =~= a@ && b@.skip(0) =~= b@);
    while i < x.len() && i < y.len()
        invariant
            i <= x.len(),
            i <= y.len(),
            x@ == a@,
            y@ == b@,
            a@.take(i as int) == b@.take(i as int),
            precedes(a@, b@) == precedes(a@.skip(i as int), b@.skip(i as int)),
            precedes(b@, a@) == precedes(b@.skip(i as int), a@.skip(i as int)),
        decreases x.len() - i,
    {
        let ghost ra = a@.skip(i as int);
        let ghost rb = b@.skip(i as int);
        assert(ra[0] == x[i as int] && rb[0] == y[i as int]);
        if x[i] != y[i] {
            assert(a@[i as int] != b@[i as int]);
            return if x[i] < y[i] {
                Comparison::Before
            } else {
                Comparison::After
            };
        }
        assert(ra.drop_first() =~= a@.skip(i + 1));
        assert(rb.drop_first() =~= b@.skip(i + 1));
        assert(a@.take(i + 1) =~= a@.take(i as int).push(a@[i as int]));
        assert(b@.take(i + 1) =~= b@.take(i as int).push(b@[i as int]));
        i += 1;
    }
    if x.len() == y.len() {
        assert(a@ =~= a@.take(i as int));
        assert(b@ =~= b@.take(i as int));
        Comparison::Same
    } else if x.len() < y.len() {
        Comparison::Before
    } else {
        Comparison::After
    }
}

/// How many texts at the start of `list` stand before `x`.
pub fn rank_of(list: &Vec<String>, x: &str) -> (k: usize)
    ensures
        k == rank(list.deep_view(), x@),
{
    let ghost v = list.deep_view();
    let mut k: usize = 0;
    assert(v.skip(0) =~= v);
    while k < list.len()
        invariant
            k <= list.len(),
            v == list.deep_view(),
            rank(v, x@) == k + rank(v.skip(k as int), x@),
        decreases list.len() - k,
    {
        assert(v.skip(k as int)[0] == list[k as int]@);
        match compare_text(list[k].as_str(), x) {
            Comparison::Before => {},
            _ => {
                proof {
                    lemma_precedes_irreflexive(x@);
                }
                return k;
            },
        }
        assert(v.skip(k as int).drop_first() =~= v.skip(k + 1));
        k += 1;
    }
    k
}

/// Puts `x` into `list` where the order wants it, unless it stands there
/// already.
pub fn insert_text(list: &mut Vec<String>, x: String)
    ensures
        final(list).deep_view() == insert_sorted(old(list).deep_view(), x@),
{
    let ghost v = list.deep_view();
    let k = rank_of(list, x.as_str());
    proof {
        lemma_rank(v, x@);
    }
    if k < list.len() {
        match compare_text(list[k].as_str(), x.as_str()) {
            Comparison::Same => {
                return ;
            },
            _ => {},
        }
    }
    list.insert(k, x);
    assert(list.deep_view() =~= v.insert(k as int, x@));
}

/// The canonical form of a list of texts.
pub fn canonical_texts(items: &Vec<String>) -> (out: Vec<String>)
    ensures
        out.deep_view() == canonical(items.deep_view()),
{
    let ghost v = items.deep_view();
    let mut out: Vec<String> = Vec::new();
    let mut i: usize = 0;
    assert(out.deep_view() =~= canonical(v.take(0)));
    while i < items.len()
        invariant
            i <= items.len(),
            v == items.deep_view(),
            out.deep_view() == canonical(v.take(i as int)),
        decreases items.len() - i,
    {
        proof {
            assert(v.take(i + 1).drop_last() =~= v.take(i as int));
            assert(v.take(i + 1).last() == items[i as int]@);
        }
        insert_text(&mut out, items[i].clone());
        i += 1;
    }
    assert(v.take(items.len() as int) =~= v);
    out
}

} // verus!
