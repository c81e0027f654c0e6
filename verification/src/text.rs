use vstd::prelude::*;

verus! {

/// The characters of `s`, in order.
pub fn chars_of(s: &str) -> (v: Vec<char>)
    ensures
        v@ == s@,
{
    let mut v: Vec<char> = Vec::new();
    for c in it: s.chars()
        invariant
            v@ == it.seq().take(it.index()),
            it.seq() == s@,
    {
        v.push(c);
    }
    v
}

/// Whether two texts hold the same characters.
pub fn text_eq(a: &str, b: &str) -> (same: bool)
    ensures
        same == (a@ == b@),
{
    let x = chars_of(a);
    let y = chars_of(b);
    if x.len() != y.len() {
        return false;
    }
    let mut i: usize = 0;
    while i < x.len()
        invariant
            i <= x.len(),
            x.len() == y.len(),
            x@ == a@,
            y@ == b@,
            forall|k: int| 0 <= k < i ==> x[k] == y[k],
        decreases x.len() - i,
    {
        if x[i] != y[i] {
            return false;
        }
        i += 1;
    }
    assert(x@ =~= y@);
    true
}

/// Whether `c` occurs nowhere in `s`.
pub open spec fn free_of(s: Seq<char>, c: char) -> bool {
    forall|k: int| 0 <= k < s.len() ==> s[k] != c
}

/// Whether `c` occurs in none of `parts`.
pub open spec fn all_free_of(parts: Seq<Seq<char>>, c: char) -> bool {
    forall|i: int| 0 <= i < parts.len() ==> free_of(#[trigger] parts[i], c)
}

/// Where `c` first occurs in `s`; the length of `s` where it does not occur.
pub open spec fn first_index(s: Seq<char>, c: char) -> int
    decreases s.len(),
{
    if s.len() == 0 || s[0] == c {
        0
    } else {
        1 + first_index(s.drop_first(), c)
    }
}

/// The pieces of `s` between the occurrences of `sep`. There is always at
/// least one piece, and a piece may be empty.
pub open spec fn split(s: Seq<char>, sep: char) -> Seq<Seq<char>>
    decreases s.len(),
{
    let i = first_index(s, sep);
    if 0 <= i < s.len() {
        seq![s.take(i)] + split(s.skip(i + 1), sep)
    } else {
        seq![s]
    }
}

/// The pieces put together again, with `sep` between neighbours.
pub open spec fn join(parts: Seq<Seq<char>>, sep: Seq<char>) -> Seq<char>
    decreases parts.len(),
{
    if parts.len() == 0 {
        Seq::empty()
    } else if parts.len() == 1 {
        parts[0]
    } else {
        parts[0] + sep + join(parts.drop_first(), sep)
    }
}

/// `first_index` is in range, nothing before it is `c`, and `c` stands at it.
pub proof fn lemma_first_index(s: Seq<char>, c: char)
    ensures
        0 <= first_index(s, c) <= s.len(),
        free_of(s.take(first_index(s, c)), c),
        first_index(s, c) < s.len() ==> s[first_index(s, c)] == c,
        first_index(s, c) == s.len() <==> free_of(s, c),
    decreases s.len(),
{
    if s.len() == 0 || s[0] == c {
    } else {
        let t = s.drop_first();
        lemma_first_index(t, c);
        let r = first_index(t, c);
        let p = s.take(1 + r);
        assert forall|k: int| 0 <= k < p.len() implies p[k] != c by {
            if k > 0 {
                assert(t.take(r)[k - 1] == s[k]);
            }
        }
        if r == t.len() {
            assert forall|k: int| 0 <= k < s.len() implies s[k] != c by {
                if k > 0 {
                    assert(t[k - 1] == s[k]);
                }
            }
        } else {
            assert(t[r] == s[r + 1]);
        }
    }
}

/// A position with nothing but other characters before it, that holds `c`
/// or is the end of `s`, is the one that `first_index` finds.
pub proof fn lemma_first_index_is(s: Seq<char>, c: char, k: int)
    requires
        0 <= k <= s.len(),
        forall|j: int| 0 <= j < k ==> s[j] != c,
        k < s.len() ==> s[k] == c,
    ensures
        first_index(s, c) == k,
{
    lemma_first_index(s, c);
    let r = first_index(s, c);
    if r < k {
        assert(s[r] == c);
    } else if r > k {
        assert(s.take(r)[k] == s[k]);
    }
}

/// What `split` gives: at least one piece, none of them holding `sep`, and
/// `join` puts them back together. By `lemma_split_join` no other list of
/// pieces does so.
pub proof fn lemma_split(s: Seq<char>, sep: char)
    ensures
        split(s, sep).len() >= 1,
        all_free_of(split(s, sep), sep),
        join(split(s, sep), seq![sep]) == s,
        split(s, sep)[0] == s.take(first_index(s, sep)),
        free_of(s, sep) ==> split(s, sep) == seq![s],
    decreases s.len(),
{
    lemma_first_index(s, sep);
    let i = first_index(s, sep);
    if 0 <= i < s.len() {
        let rest = s.skip(i + 1);
        lemma_split(rest, sep);
        let parts = seq![s.take(i)] + split(rest, sep);
        assert(parts.drop_first() =~= split(rest, sep));
        assert(parts[0] == s.take(i));
        assert(s =~= s.take(i) + seq![sep] + rest);
        assert forall|k: int| 0 <= k < parts.len() implies free_of(#[trigger] parts[k], sep) by {
            if k > 0 {
                assert(parts[k] == split(rest, sep)[k - 1]);
            }
        }
    } else {
        assert(s.take(i) =~= s);
    }
}

/// Splitting what was joined gives the pieces back, provided that no piece
/// holds the separator.
pub proof fn lemma_split_join(parts: Seq<Seq<char>>, sep: char)
    requires
        parts.len() >= 1,
        all_free_of(parts, sep),
    ensures
        split(join(parts, seq![sep]), sep) == parts,
    decreases parts.len(),
{
    let s = join(parts, seq![sep]);
    if parts.len() == 1 {
        assert(free_of(parts[0], sep));
        lemma_first_index(s, sep);
        assert(parts =~= seq![s]);
    } else {
        let head = parts[0];
        let tail = parts.drop_first();
        assert(free_of(head, sep));
        assert forall|i: int| 0 <= i < tail.len() implies free_of(#[trigger] tail[i], sep) by {
            assert(tail[i] == parts[i + 1]);
        }
        lemma_split_join(tail, sep);
        let k = head.len() as int;
        assert(s == head + seq![sep] + join(tail, seq![sep]));
        assert(s[k] == sep);
        assert forall|j: int| 0 <= j < k implies s[j] != sep by {
            assert(s[j] == head[j]);
        }
        lemma_first_index_is(s, sep, k);
        assert(s.take(k) =~= head);
        assert(s.skip(k + 1) =~= join(tail, seq![sep]));
        assert(split(s, sep) =~= parts);
    }
}

/// Joining one more piece puts the separator and the piece at the end.
pub proof fn lemma_join_push(parts: Seq<Seq<char>>, sep: Seq<char>, last: Seq<char>)
    ensures
        join(parts.push(last), sep) == if parts.len() == 0 {
            last
        } else {
            join(parts, sep) + sep + last
        },
    decreases parts.len(),
{
    if parts.len() == 0 {
        assert(parts.push(last)[0] == last);
    } else {
        let tail = parts.drop_first();
        lemma_join_push(tail, sep, last);
        assert(parts.push(last).drop_first() =~= tail.push(last));
        assert(parts.push(last)[0] == parts[0]);
        if parts.len() == 1 {
            assert(join(parts.push(last), sep) =~= parts[0] + sep + last);
        } else {
            assert(join(parts.push(last), sep) =~= parts[0] + sep + join(tail, sep) + sep + last);
        }
    }
}

/// What holds no `c` in its pieces and in its separator holds none when
/// joined.
pub proof fn lemma_join_free_of(parts: Seq<Seq<char>>, sep: Seq<char>, c: char)
    requires
        all_free_of(parts, c),
        free_of(sep, c),
    ensures
        free_of(join(parts, sep), c),
    decreases parts.len(),
{
    if parts.len() == 1 {
        assert(free_of(parts[0], c));
    } else if parts.len() > 1 {
        let tail = parts.drop_first();
        assert forall|i: int| 0 <= i < tail.len() implies free_of(#[trigger] tail[i], c) by {
            assert(tail[i] == parts[i + 1]);
        }
        lemma_join_free_of(tail, sep, c);
        assert(free_of(parts[0], c));
    }
}

/// The pieces of `s` between the occurrences of `sep`, each as a text of
/// its own.
pub fn split_text(s: &str, sep: char) -> (parts: Vec<String>)
    ensures
        parts.deep_view() == split(s@, sep),
{
    let cs = chars_of(s);
    let n = cs.len();
    let mut parts: Vec<String> = Vec::new();
    let mut start: usize = 0;
    let mut i: usize = 0;
    assert(s@.skip(0) =~= s@);
    assert(parts.deep_view() + split(s@, sep) =~= split(s@, sep));
    while i < n
        invariant
            start <= i <= n,
            n == cs.len(),
            cs@ == s@,
            forall|k: int| start <= k < i ==> cs[k] != sep,
            split(s@, sep) == parts.deep_view() + split(s@.skip(start as int), sep),
        decreases n - i,
    {
        if cs[i] == sep {
            let piece = String::from_str(s.substring_char(start, i));
            proof {
                let tail = s@.skip(start as int);
                assert forall|j: int| 0 <= j < i - start implies tail[j] != sep by {
                    assert(tail[j] == cs[start + j]);
                }
                lemma_first_index_is(tail, sep, i - start);
                assert(tail.take(i - start) =~= s@.subrange(start as int, i as int));
                assert(tail.skip(i - start + 1) =~= s@.skip(i + 1));
                assert(parts.deep_view().push(piece@) + split(s@.skip(i + 1), sep)
                    =~= parts.deep_view() + split(tail, sep));
            }
            let ghost before = parts.deep_view();
            parts.push(piece);
            assert(parts.deep_view() =~= before.push(piece@));
            start = i + 1;
        }
        i += 1;
    }
    let piece = String::from_str(s.substring_char(start, n));
    proof {
        let tail = s@.skip(start as int);
        assert forall|j: int| 0 <= j < tail.len() implies tail[j] != sep by {
            assert(tail[j] == cs[start + j]);
        }
        lemma_split(tail, sep);
        assert(tail =~= s@.subrange(start as int, n as int));
    }
    let ghost before = parts.deep_view();
    parts.push(piece);
    assert(parts.deep_view() =~= before.push(piece@));
    parts
}

/// The texts of `parts` in one text, with `sep` between neighbours.
pub fn join_text(parts: &Vec<String>, sep: &str) -> (out: String)
    ensures
        out@ == join(parts.deep_view(), sep@),
{
    let mut out = String::new();
    let mut i: usize = 0;
    while i < parts.len()
        invariant
            i <= parts.len(),
            out@ == join(parts.deep_view().take(i as int), sep@),
        decreases parts.len() - i,
    {
        proof {
            lemma_join_push(parts.deep_view().take(i as int), sep@, parts[i as int]@);
            assert(parts.deep_view().take(i + 1) =~= parts.deep_view().take(i as int).push(
                parts[i as int]@,
            ));
        }
        if i > 0 {
            out.append(sep);
        }
        out.append(parts[i].as_str());
        i += 1;
    }
    assert(parts.deep_view().take(parts.len() as int) =~= parts.deep_view());
    out
}

/// The test that every character but `c` passes.
pub open spec fn is_not(c: char) -> spec_fn(char) -> bool {
    |x: char| x != c
}

/// `s` with every `c` taken out.
pub open spec fn without(s: Seq<char>, c: char) -> Seq<char> {
    s.filter(is_not(c))
}

/// Taking `c` out of a text that holds none changes nothing, and taking
/// it out of two texts in a row is taking it out of each.
pub proof fn lemma_without(a: Seq<char>, b: Seq<char>, c: char)
    ensures
        without(a + b, c) == without(a, c) + without(b, c),
        free_of(a, c) ==> without(a, c) == a,
        without(seq![c], c) == Seq::<char>::empty(),
    decreases a.len(),
{
    Seq::filter_distributes_over_add(a, b, is_not(c));
    reveal(Seq::filter);
    if a.len() > 0 && free_of(a, c) {
        let init = a.drop_last();
        assert(free_of(init, c));
        lemma_without(init, b, c);
        assert(is_not(c)(a.last()));
        assert(init.push(a.last()) =~= a);
    }
    let one = seq![c];
    assert(one.drop_last() =~= Seq::<char>::empty());
    assert(!is_not(c)(one.last()));
    assert(without(one.drop_last(), c) =~= Seq::<char>::empty());
}

/// A copy of `s` with every `c` taken out.
pub fn remove_char(s: &str, c: char) -> (out: String)
    ensures
        out@ == without(s@, c),
{
    let cs = chars_of(s);
    let n = cs.len();
    let mut out = String::new();
    let mut start: usize = 0;
    let mut i: usize = 0;
    proof {
        lemma_without(s@.take(0), s@.take(0), c);
    }
    while i < n
        invariant
            start <= i <= n,
            n == cs.len(),
            cs@ == s@,
            forall|k: int| start <= k < i ==> cs[k] != c,
            out@ == without(s@.take(start as int), c),
        decreases n - i,
    {
        if cs[i] == c {
            let piece = s.substring_char(start, i);
            proof {
                let kept = s@.take(start as int);
                lemma_without(piece@, seq![c], c);
                lemma_without(kept, piece@ + seq![c], c);
                assert(s@.take(i + 1) =~= kept + (piece@ + seq![c]));
            }
            out.append(piece);
            start = i + 1;
        }
        i += 1;
    }
    let piece = s.substring_char(start, n);
    proof {
        let kept = s@.take(start as int);
        lemma_without(piece@, piece@, c);
        lemma_without(kept, piece@, c);
        assert(s@ =~= kept + piece@);
    }
    out.append(piece);
    out
}

} // verus!
