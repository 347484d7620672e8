//! Helpers over character vectors: equality, prefix/suffix tests, counting,
//! slicing, and a lexicographic order with its ordering laws and sorts.
//!
//! Mnemonic names are short ASCII identifiers; the library represents them as
//! `Vec<char>` so that every operation has an exact `Seq<char>` model. A
//! vector of names abstracts to `Seq<Seq<char>>` through [`texts_view`], and a
//! vector of decomposed stems to `Seq<Seq<Seq<char>>>` through [`stems_view`].

use vstd::prelude::*;
use vstd::multiset::Multiset;
use vstd::relations::{sorted_by, total_ordering};
use vstd::seq_lib::lemma_multiset_commutative;

verus! {

/// The sequence-of-sequences abstraction of a list of character vectors.
pub open spec fn texts_view(v: Seq<Vec<char>>) -> Seq<Seq<char>> {
    Seq::new(v.len(), |i: int| v[i]@)
}

/// The abstraction of a list of stems (each stem a list of pieces).
pub open spec fn stems_view(v: Seq<Vec<Vec<char>>>) -> Seq<Seq<Seq<char>>> {
    Seq::new(v.len(), |i: int| texts_view(v[i]@))
}

pub broadcast proof fn lemma_texts_view_push(v: Seq<Vec<char>>, e: Vec<char>)
    ensures
        #[trigger] texts_view(v.push(e)) == texts_view(v).push(e@),
{
    assert(texts_view(v.push(e)) =~= texts_view(v).push(e@));
}

pub broadcast proof fn lemma_texts_view_insert(v: Seq<Vec<char>>, j: int, e: Vec<char>)
    requires
        0 <= j <= v.len(),
    ensures
        #[trigger] texts_view(v.insert(j, e)) == texts_view(v).insert(j, e@),
{
    assert(texts_view(v.insert(j, e)) =~= texts_view(v).insert(j, e@));
}

pub broadcast proof fn lemma_stems_view_push(v: Seq<Vec<Vec<char>>>, e: Vec<Vec<char>>)
    ensures
        #[trigger] stems_view(v.push(e)) == stems_view(v).push(texts_view(e@)),
{
    assert(stems_view(v.push(e)) =~= stems_view(v).push(texts_view(e@)));
}

pub broadcast proof fn lemma_stems_view_insert(v: Seq<Vec<Vec<char>>>, j: int, e: Vec<Vec<char>>)
    requires
        0 <= j <= v.len(),
    ensures
        #[trigger] stems_view(v.insert(j, e)) == stems_view(v).insert(j, texts_view(e@)),
{
    assert(stems_view(v.insert(j, e)) =~= stems_view(v).insert(j, texts_view(e@)));
}

/// Executable equality of two character vectors, decided element by element.
pub fn text_eq(a: &Vec<char>, b: &Vec<char>) -> (r: bool)
    ensures
        r == (a@ == b@),
{
    if a.len() != b.len() {
        assert(a@ != b@);
        return false;
    }
    let mut i: usize = 0;
    while i < a.len()
        invariant
            i <= a.len(),
            a.len() == b.len(),
            forall|j: int| 0 <= j < i ==> a@[j] == b@[j],
        decreases a.len() - i,
    {
        if a[i] != b[i] {
            assert(a@ != b@);
            return false;
        }
        i += 1;
    }
    assert(a@ =~= b@);
    true
}

/// True when `p` is a prefix of `s`.
pub fn starts_with(s: &Vec<char>, p: &Vec<char>) -> (r: bool)
    ensures
        r == p@.is_prefix_of(s@),
{
    if p.len() > s.len() {
        return false;
    }
    let mut i: usize = 0;
    while i < p.len()
        invariant
            i <= p.len(),
            p.len() <= s.len(),
            forall|j: int| 0 <= j < i ==> s@[j] == p@[j],
        decreases p.len() - i,
    {
        if s[i] != p[i] {
            assert(p@[i as int] != s@.subrange(0, p@.len() as int)[i as int]);
            return false;
        }
        i += 1;
    }
    assert(p@ =~= s@.subrange(0, p@.len() as int));
    true
}

/// True when `x` is a suffix of `s`.
pub fn ends_with(s: &Vec<char>, x: &Vec<char>) -> (r: bool)
    ensures
        r == x@.is_suffix_of(s@),
{
    if x.len() > s.len() {
        return false;
    }
    let off: usize = s.len() - x.len();
    let mut i: usize = 0;
    while i < x.len()
        invariant
            i <= x.len(),
            x.len() <= s.len(),
            off == s.len() - x.len(),
            forall|j: int| 0 <= j < i ==> s@[off + j] == x@[j],
        decreases x.len() - i,
    {
        if s[off + i] != x[i] {
            assert(x@[i as int] != s@.subrange(
                s@.len() - x@.len(),
                s@.len() as int,
            )[i as int]);
            return false;
        }
        i += 1;
    }
    assert(x@ =~= s@.subrange(s@.len() - x@.len(), s@.len() as int));
    true
}

/// Number of occurrences of `c` in `s`.
pub open spec fn spec_count_char(s: Seq<char>, c: char) -> nat
    decreases s.len(),
{
    if s.len() == 0 {
        0
    } else {
        spec_count_char(s.drop_last(), c) + if s.last() == c {
            1nat
        } else {
            0nat
        }
    }
}

/// Counts the occurrences of `c` in `s`.
pub fn count_char(s: &Vec<char>, c: char) -> (r: usize)
    ensures
        r == spec_count_char(s@, c),
{
    let mut i: usize = 0;
    let mut n: usize = 0;
    while i < s.len()
        invariant
            i <= s.len(),
            n <= i,
            n == spec_count_char(s@.subrange(0, i as int), c),
        decreases s.len() - i,
    {
        assert(s@.subrange(0, i + 1).drop_last() =~= s@.subrange(0, i as int));
        if s[i] == c {
            n += 1;
        }
        i += 1;
    }
    assert(s@.subrange(0, s@.len() as int) =~= s@);
    n
}

/// Copies `s[from..to]` into a fresh vector.
pub fn subrange_vec(s: &Vec<char>, from: usize, to: usize) -> (r: Vec<char>)
    requires
        from <= to <= s@.len(),
    ensures
        r@ == s@.subrange(from as int, to as int),
{
    let mut out: Vec<char> = Vec::new();
    let mut i: usize = from;
    while i < to
        invariant
            from <= i <= to <= s@.len(),
            out@ =~= s@.subrange(from as int, i as int),
        decreases to - i,
    {
        out.push(s[i]);
        assert(out@ =~= s@.subrange(from as int, i + 1));
        i += 1;
    }
    out
}

/// Appends the characters of `src` to `dst`.
pub fn append_text(dst: &mut Vec<char>, src: &Vec<char>)
    ensures
        final(dst)@ == old(dst)@ + src@,
{
    let mut k: usize = 0;
    while k < src.len()
        invariant
            k <= src.len(),
            dst@ == old(dst)@ + src@.take(k as int),
        decreases src.len() - k,
    {
        dst.push(src[k]);
        assert(dst@ =~= old(dst)@ + src@.take(k + 1));
        k += 1;
    }
    assert(dst@ =~= old(dst)@ + src@);
}

/// Copies a character vector.
pub fn clone_text(s: &Vec<char>) -> (r: Vec<char>)
    ensures
        r@ == s@,
{
    let r = subrange_vec(s, 0, s.len());
    assert(s@.subrange(0, s@.len() as int) =~= s@);
    r
}

/// Copies a vector of character vectors.
pub fn clone_texts(s: &Vec<Vec<char>>) -> (r: Vec<Vec<char>>)
    ensures
        texts_view(r@) == texts_view(s@),
{
    let mut out: Vec<Vec<char>> = Vec::new();
    let mut i: usize = 0;
    while i < s.len()
        invariant
            i <= s.len(),
            texts_view(out@) =~= texts_view(s@).take(i as int),
        decreases s.len() - i,
    {
        let piece = clone_text(&s[i]);
        proof {
            lemma_texts_view_push(out@, piece);
        }
        out.push(piece);
        assert(texts_view(out@) =~= texts_view(s@).take(i + 1));
        i += 1;
    }
    assert(texts_view(s@).take(s@.len() as int) =~= texts_view(s@));
    assert(texts_view(out@) =~= texts_view(s@));
    out
}

/// Lexicographic "less than or equal" on character sequences, comparing
/// characters by scalar value.
pub open spec fn chars_le(a: Seq<char>, b: Seq<char>) -> bool
    decreases a.len(),
{
    if a.len() == 0 {
        true
    } else if b.len() == 0 {
        false
    } else if a[0] == b[0] {
        chars_le(a.drop_first(), b.drop_first())
    } else {
        (a[0] as u32) < (b[0] as u32)
    }
}

/// Distinct characters have distinct scalar values.
pub proof fn lemma_char_ne_cast(x: char, y: char)
    requires
        x != y,
    ensures
        (x as u32) != (y as u32),
{
}

pub proof fn lemma_chars_le_refl(a: Seq<char>)
    ensures
        chars_le(a, a),
    decreases a.len(),
{
    if a.len() > 0 {
        lemma_chars_le_refl(a.drop_first());
    }
}

pub proof fn lemma_chars_le_total(a: Seq<char>, b: Seq<char>)
    ensures
        chars_le(a, b) || chars_le(b, a),
    decreases a.len(),
{
    if a.len() > 0 && b.len() > 0 {
        if a[0] == b[0] {
            lemma_chars_le_total(a.drop_first(), b.drop_first());
        } else {
            lemma_char_ne_cast(a[0], b[0]);
        }
    }
}

pub proof fn lemma_chars_le_antisym(a: Seq<char>, b: Seq<char>)
    requires
        chars_le(a, b),
        chars_le(b, a),
    ensures
        a == b,
    decreases a.len(),
{
    if a.len() == 0 {
        assert(b.len() == 0);
        assert(a =~= b);
    } else {
        assert(a[0] == b[0]);
        lemma_chars_le_antisym(a.drop_first(), b.drop_first());
        assert(a.drop_first().len() == b.drop_first().len());
        assert(a.len() == b.len());
        assert forall|i: int| 0 <= i < a.len() implies a[i] == b[i] by {
            if i > 0 {
                assert(a[i] == a.drop_first()[i - 1]);
                assert(b[i] == b.drop_first()[i - 1]);
            }
        }
        assert(a =~= b);
    }
}

pub proof fn lemma_chars_le_trans(a: Seq<char>, b: Seq<char>, c: Seq<char>)
    requires
        chars_le(a, b),
        chars_le(b, c),
    ensures
        chars_le(a, c),
    decreases a.len(),
{
    if a.len() > 0 {
        assert(b.len() > 0);
        assert(c.len() > 0);
        if a[0] == b[0] && b[0] == c[0] {
            lemma_chars_le_trans(a.drop_first(), b.drop_first(), c.drop_first());
        } else if a[0] != c[0] {
            lemma_char_ne_cast(a[0], c[0]);
        }
    }
}

/// `chars_le` is a total ordering, in the form the sorting lemmas expect.
pub proof fn lemma_chars_le_total_ordering()
    ensures
        total_ordering(|x: Seq<char>, y: Seq<char>| chars_le(x, y)),
{
    let leq = |x: Seq<char>, y: Seq<char>| chars_le(x, y);
    assert forall|x: Seq<char>| #[trigger] leq(x, x) by {
        lemma_chars_le_refl(x);
    }
    assert forall|x: Seq<char>, y: Seq<char>| #[trigger] leq(x, y) && #[trigger] leq(y, x)
        implies x == y by {
        lemma_chars_le_antisym(x, y);
    }
    assert forall|x: Seq<char>, y: Seq<char>, z: Seq<char>|
        #[trigger] leq(x, y) && #[trigger] leq(y, z) implies leq(x, z) by {
        lemma_chars_le_trans(x, y, z);
    }
    assert forall|x: Seq<char>, y: Seq<char>| #[trigger] leq(x, y) || #[trigger] leq(y, x) by {
        lemma_chars_le_total(x, y);
    }
}

/// Dropping an equal prefix of both sequences does not change their order.
pub proof fn lemma_chars_le_skip(a: Seq<char>, b: Seq<char>, i: int)
    requires
        0 <= i <= a.len(),
        i <= b.len(),
        forall|j: int| 0 <= j < i ==> a[j] == b[j],
    ensures
        chars_le(a, b) == chars_le(a.skip(i), b.skip(i)),
    decreases i,
{
    if i > 0 {
        lemma_chars_le_skip(a.drop_first(), b.drop_first(), i - 1);
        assert(a.drop_first().skip(i - 1) =~= a.skip(i));
        assert(b.drop_first().skip(i - 1) =~= b.skip(i));
    } else {
        assert(a.skip(0) =~= a);
        assert(b.skip(0) =~= b);
    }
}

/// Decides `chars_le` on character vectors.
pub fn chars_le_exec(a: &Vec<char>, b: &Vec<char>) -> (r: bool)
    ensures
        r == chars_le(a@, b@),
{
    let mut i: usize = 0;
    loop
        invariant
            i <= a.len(),
            i <= b.len(),
            forall|j: int| 0 <= j < i ==> a@[j] == b@[j],
        decreases a.len() - i,
    {
        proof {
            lemma_chars_le_skip(a@, b@, i as int);
        }
        if i == a.len() {
            return true;
        }
        if i == b.len() {
            return false;
        }
        if a[i] != b[i] {
            assert(a@.skip(i as int)[0] == a@[i as int]);
            assert(b@.skip(i as int)[0] == b@[i as int]);
            return (a[i] as u32) < (b[i] as u32);
        }
        i += 1;
    }
}

/// Lexicographic "less than or equal" on sequences of character sequences,
/// with elements ordered by `chars_le`.
pub open spec fn texts_le(x: Seq<Seq<char>>, y: Seq<Seq<char>>) -> bool
    decreases x.len(),
{
    if x.len() == 0 {
        true
    } else if y.len() == 0 {
        false
    } else if x[0] == y[0] {
        texts_le(x.drop_first(), y.drop_first())
    } else {
        chars_le(x[0], y[0])
    }
}

pub proof fn lemma_texts_le_refl(x: Seq<Seq<char>>)
    ensures
        texts_le(x, x),
    decreases x.len(),
{
    if x.len() > 0 {
        lemma_texts_le_refl(x.drop_first());
    }
}

pub proof fn lemma_texts_le_total(x: Seq<Seq<char>>, y: Seq<Seq<char>>)
    ensures
        texts_le(x, y) || texts_le(y, x),
    decreases x.len(),
{
    if x.len() > 0 && y.len() > 0 {
        if x[0] == y[0] {
            lemma_texts_le_total(x.drop_first(), y.drop_first());
        } else {
            lemma_chars_le_total(x[0], y[0]);
        }
    }
}

pub proof fn lemma_texts_le_antisym(x: Seq<Seq<char>>, y: Seq<Seq<char>>)
    requires
        texts_le(x, y),
        texts_le(y, x),
    ensures
        x == y,
    decreases x.len(),
{
    if x.len() == 0 {
        assert(y.len() == 0);
        assert(x =~= y);
    } else {
        if x[0] != y[0] {
            lemma_chars_le_antisym(x[0], y[0]);
        }
        assert(x[0] == y[0]);
        lemma_texts_le_antisym(x.drop_first(), y.drop_first());
        assert(x.drop_first().len() == y.drop_first().len());
        assert(x.len() == y.len());
        assert forall|i: int| 0 <= i < x.len() implies x[i] == y[i] by {
            if i > 0 {
                assert(x[i] == x.drop_first()[i - 1]);
                assert(y[i] == y.drop_first()[i - 1]);
            }
        }
        assert(x =~= y);
    }
}

pub proof fn lemma_texts_le_trans(x: Seq<Seq<char>>, y: Seq<Seq<char>>, z: Seq<Seq<char>>)
    requires
        texts_le(x, y),
        texts_le(y, z),
    ensures
        texts_le(x, z),
    decreases x.len(),
{
    if x.len() > 0 {
        assert(y.len() > 0);
        assert(z.len() > 0);
        if x[0] == y[0] && y[0] == z[0] {
            lemma_texts_le_trans(x.drop_first(), y.drop_first(), z.drop_first());
        } else if x[0] == y[0] {
            // the order is decided between the heads of y and z
        } else if y[0] == z[0] {
            // the order is decided between the heads of x and y
        } else {
            lemma_chars_le_trans(x[0], y[0], z[0]);
            if x[0] == z[0] {
                lemma_chars_le_antisym(x[0], y[0]);
            }
        }
    }
}

/// `texts_le` is a total ordering, in the form the sorting lemmas expect.
pub proof fn lemma_texts_le_total_ordering()
    ensures
        total_ordering(|x: Seq<Seq<char>>, y: Seq<Seq<char>>| texts_le(x, y)),
{
    let leq = |x: Seq<Seq<char>>, y: Seq<Seq<char>>| texts_le(x, y);
    assert forall|x: Seq<Seq<char>>| #[trigger] leq(x, x) by {
        lemma_texts_le_refl(x);
    }
    assert forall|x: Seq<Seq<char>>, y: Seq<Seq<char>>|
        #[trigger] leq(x, y) && #[trigger] leq(y, x) implies x == y by {
        lemma_texts_le_antisym(x, y);
    }
    assert forall|x: Seq<Seq<char>>, y: Seq<Seq<char>>, z: Seq<Seq<char>>|
        #[trigger] leq(x, y) && #[trigger] leq(y, z) implies leq(x, z) by {
        lemma_texts_le_trans(x, y, z);
    }
    assert forall|x: Seq<Seq<char>>, y: Seq<Seq<char>>|
        #[trigger] leq(x, y) || #[trigger] leq(y, x) by {
        lemma_texts_le_total(x, y);
    }
}

pub proof fn lemma_texts_le_skip(x: Seq<Seq<char>>, y: Seq<Seq<char>>, i: int)
    requires
        0 <= i <= x.len(),
        i <= y.len(),
        forall|j: int| 0 <= j < i ==> x[j] == y[j],
    ensures
        texts_le(x, y) == texts_le(x.skip(i), y.skip(i)),
    decreases i,
{
    if i > 0 {
        lemma_texts_le_skip(x.drop_first(), y.drop_first(), i - 1);
        assert(x.drop_first().skip(i - 1) =~= x.skip(i));
        assert(y.drop_first().skip(i - 1) =~= y.skip(i));
    } else {
        assert(x.skip(0) =~= x);
        assert(y.skip(0) =~= y);
    }
}

/// Decides `texts_le` on vectors of character vectors.
pub fn texts_le_exec(a: &Vec<Vec<char>>, b: &Vec<Vec<char>>) -> (r: bool)
    ensures
        r == texts_le(texts_view(a@), texts_view(b@)),
{
    let mut i: usize = 0;
    loop
        invariant
            i <= a.len(),
            i <= b.len(),
            forall|j: int| 0 <= j < i ==> texts_view(a@)[j] == texts_view(b@)[j],
        decreases a.len() - i,
    {
        proof {
            lemma_texts_le_skip(texts_view(a@), texts_view(b@), i as int);
        }
        if i == a.len() {
            return true;
        }
        if i == b.len() {
            return false;
        }
        if !text_eq(&a[i], &b[i]) {
            assert(texts_view(a@).skip(i as int)[0] == texts_view(a@)[i as int]);
            assert(texts_view(b@).skip(i as int)[0] == texts_view(b@)[i as int]);
            return chars_le_exec(&a[i], &b[i]);
        }
        i += 1;
    }
}

/// Inserting an element anywhere in a sequence adds it to the multiset of
/// elements and changes nothing else.
pub proof fn lemma_insert_multiset<A>(s: Seq<A>, j: int, e: A)
    requires
        0 <= j <= s.len(),
    ensures
        s.insert(j, e).to_multiset() =~= s.to_multiset().insert(e),
{
    broadcast use vstd::seq_lib::group_to_multiset_ensures;
    broadcast use vstd::multiset::group_multiset_axioms;

    assert(s.insert(j, e) =~= s.take(j) + (seq![e] + s.skip(j)));
    assert(s =~= s.take(j) + s.skip(j));
    lemma_multiset_commutative(s.take(j), seq![e] + s.skip(j));
    lemma_multiset_commutative(seq![e], s.skip(j));
    lemma_multiset_commutative(s.take(j), s.skip(j));
    assert(seq![e] =~= Seq::<A>::empty().push(e));
    assert(Seq::<A>::empty().push(e).to_multiset() =~= Seq::<A>::empty().to_multiset().insert(e));
    assert(Seq::<A>::empty().to_multiset() =~= Multiset::<A>::empty());
}

/// Sortedness of a sequence of character sequences under `chars_le`.
pub open spec fn texts_sorted(s: Seq<Seq<char>>) -> bool {
    forall|p: int, q: int| 0 <= p < q < s.len() ==> chars_le(s[p], s[q])
}

/// Sortedness of a sequence of stems under `texts_le`.
pub open spec fn stems_sorted(s: Seq<Seq<Seq<char>>>) -> bool {
    forall|p: int, q: int| 0 <= p < q < s.len() ==> texts_le(s[p], s[q])
}

/// `texts_sorted` is `sorted_by` the `chars_le` closure.
pub proof fn lemma_texts_sorted_by(s: Seq<Seq<char>>)
    requires
        texts_sorted(s),
    ensures
        sorted_by(s, |x: Seq<char>, y: Seq<char>| chars_le(x, y)),
{
    let leq = |x: Seq<char>, y: Seq<char>| chars_le(x, y);
    assert forall|p: int, q: int| 0 <= p < q < s.len() implies #[trigger] leq(s[p], s[q]) by {
        assert(chars_le(s[p], s[q]));
    }
}

/// `stems_sorted` is `sorted_by` the `texts_le` closure.
pub proof fn lemma_stems_sorted_by(s: Seq<Seq<Seq<char>>>)
    requires
        stems_sorted(s),
    ensures
        sorted_by(s, |x: Seq<Seq<char>>, y: Seq<Seq<char>>| texts_le(x, y)),
{
    let leq = |x: Seq<Seq<char>>, y: Seq<Seq<char>>| texts_le(x, y);
    assert forall|p: int, q: int| 0 <= p < q < s.len() implies #[trigger] leq(s[p], s[q]) by {
        assert(texts_le(s[p], s[q]));
    }
}

/// Sorts character vectors by `chars_le` (insertion sort).
pub fn sort_texts(v: &Vec<Vec<char>>) -> (r: Vec<Vec<char>>)
    ensures
        texts_sorted(texts_view(r@)),
        texts_view(r@).to_multiset() == texts_view(v@).to_multiset(),
{
    broadcast use vstd::seq_lib::group_to_multiset_ensures;

    let ghost full = texts_view(v@);
    assert(full.len() == v@.len());
    let mut out: Vec<Vec<char>> = Vec::new();
    assert(texts_view(out@) =~= full.take(0));
    let mut i: usize = 0;
    while i < v.len()
        invariant
            i <= v.len(),
            full == texts_view(v@),
            full.len() == v@.len(),
            texts_sorted(texts_view(out@)),
            texts_view(out@).to_multiset() == full.take(i as int).to_multiset(),
        decreases v.len() - i,
    {
        let e = clone_text(&v[i]);
        assert(e@ == full[i as int]);
        let ghost pre = texts_view(out@);
        proof {
            assert(pre.len() == out@.len());
        }
        let mut j: usize = 0;
        while j < out.len() && chars_le_exec(&out[j], &e)
            invariant
                j <= out.len(),
                texts_view(out@) == pre,
                pre.len() == out@.len(),
                e@ == full[i as int],
                forall|k: int| 0 <= k < j ==> chars_le(#[trigger] pre[k], e@),
            decreases out.len() - j,
        {
            assert(pre[j as int] == out@[j as int]@);
            j += 1;
        }
        proof {
            if j < out.len() {
                assert(pre[j as int] == out@[j as int]@);
                lemma_chars_le_total(pre[j as int], e@);
                assert(chars_le(e@, pre[j as int]));
            }
            lemma_texts_view_insert(out@, j as int, e);
            lemma_insert_multiset(pre, j as int, e@);
        }
        out.insert(j, e);
        proof {
            let x = full[i as int];
            let post = pre.insert(j as int, x);
            assert(texts_view(out@) == post);
            assert forall|p: int, q: int| 0 <= p < q < post.len() implies chars_le(
                #[trigger] post[p],
                #[trigger] post[q],
            ) by {
                if p < j && q == j {
                    assert(post[p] == pre[p]);
                    assert(chars_le(pre[p], x));
                } else if p == j && q > j {
                    assert(chars_le(x, pre[j as int]));
                    if j < q - 1 {
                        assert(chars_le(pre[j as int], pre[q - 1]));
                        lemma_chars_le_trans(x, pre[j as int], pre[q - 1]);
                    }
                    assert(chars_le(x, pre[q - 1]));
                } else if p < j && q > j {
                    assert(chars_le(pre[p], pre[q - 1]));
                } else if q < j {
                    assert(chars_le(pre[p], pre[q]));
                } else if p > j {
                    assert(chars_le(pre[p - 1], pre[q - 1]));
                }
            }
            assert(post.to_multiset() == pre.to_multiset().insert(x));
            assert(texts_view(out@).to_multiset() == full.take(i as int).to_multiset().insert(x));
            assert(full.take(i + 1) =~= full.take(i as int).push(x));
            full.take(i as int).to_multiset_ensures();
            assert(full.take(i as int).push(x).to_multiset() =~= full.take(
                i as int,
            ).to_multiset().insert(x));
            assert(texts_view(out@).to_multiset() == full.take(i + 1).to_multiset());
        }
        i += 1;
    }
    assert(full.take(v@.len() as int) =~= full);
    out
}

/// Sorts stems (vectors of character vectors) by `texts_le` (insertion sort).
pub fn sort_stems(v: &Vec<Vec<Vec<char>>>) -> (r: Vec<Vec<Vec<char>>>)
    ensures
        stems_sorted(stems_view(r@)),
        stems_view(r@).to_multiset() == stems_view(v@).to_multiset(),
{
    broadcast use vstd::seq_lib::group_to_multiset_ensures;

    let ghost full = stems_view(v@);
    assert(full.len() == v@.len());
    let mut out: Vec<Vec<Vec<char>>> = Vec::new();
    assert(stems_view(out@) =~= full.take(0));
    let mut i: usize = 0;
    while i < v.len()
        invariant
            i <= v.len(),
            full == stems_view(v@),
            full.len() == v@.len(),
            stems_sorted(stems_view(out@)),
            stems_view(out@).to_multiset() == full.take(i as int).to_multiset(),
        decreases v.len() - i,
    {
        let e = clone_texts(&v[i]);
        assert(texts_view(e@) == full[i as int]);
        let ghost pre = stems_view(out@);
        proof {
            assert(pre.len() == out@.len());
        }
        let mut j: usize = 0;
        while j < out.len() && texts_le_exec(&out[j], &e)
            invariant
                j <= out.len(),
                stems_view(out@) == pre,
                pre.len() == out@.len(),
                texts_view(e@) == full[i as int],
                forall|k: int| 0 <= k < j ==> texts_le(#[trigger] pre[k], texts_view(e@)),
            decreases out.len() - j,
        {
            assert(pre[j as int] == texts_view(out@[j as int]@));
            j += 1;
        }
        proof {
            if j < out.len() {
                assert(pre[j as int] == texts_view(out@[j as int]@));
                lemma_texts_le_total(pre[j as int], texts_view(e@));
                assert(texts_le(texts_view(e@), pre[j as int]));
            }
            lemma_stems_view_insert(out@, j as int, e);
            lemma_insert_multiset(pre, j as int, texts_view(e@));
        }
        out.insert(j, e);
        proof {
            let x = full[i as int];
            let post = pre.insert(j as int, x);
            assert(stems_view(out@) == post);
            assert forall|p: int, q: int| 0 <= p < q < post.len() implies texts_le(
                #[trigger] post[p],
                #[trigger] post[q],
            ) by {
                if p < j && q == j {
                    assert(post[p] == pre[p]);
                    assert(texts_le(pre[p], x));
                } else if p == j && q > j {
                    assert(texts_le(x, pre[j as int]));
                    if j < q - 1 {
                        assert(texts_le(pre[j as int], pre[q - 1]));
                        lemma_texts_le_trans(x, pre[j as int], pre[q - 1]);
                    }
                    assert(texts_le(x, pre[q - 1]));
                } else if p < j && q > j {
                    assert(texts_le(pre[p], pre[q - 1]));
                } else if q < j {
                    assert(texts_le(pre[p], pre[q]));
                } else if p > j {
                    assert(texts_le(pre[p - 1], pre[q - 1]));
                }
            }
            assert(post.to_multiset() == pre.to_multiset().insert(x));
            assert(stems_view(out@).to_multiset() == full.take(i as int).to_multiset().insert(x));
            assert(full.take(i + 1) =~= full.take(i as int).push(x));
            full.take(i as int).to_multiset_ensures();
            assert(full.take(i as int).push(x).to_multiset() =~= full.take(
                i as int,
            ).to_multiset().insert(x));
            assert(stems_view(out@).to_multiset() == full.take(i + 1).to_multiset());
        }
        i += 1;
    }
    assert(full.take(v@.len() as int) =~= full);
    out
}

} // verus!
