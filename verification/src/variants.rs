//! Groups decomposed stems into instruction families.
//!
//! A family's root is a stem's first piece with a trailing discriminator
//! letter removed. A stem belongs to a root's variant set when its first
//! piece starts with the root, is at most one character longer, and any extra
//! character is a discriminator letter — the tie-break that keeps unrelated
//! stems that merely share a prefix out of the family. The inverse map sends
//! a concatenated stem back to its owning root.

use vstd::prelude::*;
use crate::decompose::{spec_char_ix, spec_chop, chop_suffixes, lemma_spec_char_ix_unique};
use crate::text::{
    chars_le, spec_count_char, stems_view, texts_view, texts_le, clone_text, clone_texts,
    count_char, sort_stems, sort_texts, starts_with, subrange_vec, text_eq,
};

verus! {

/// True when `c` is one of the two operand-form discriminator letters:
/// `r` marks a register-operand form and `i` an immediate-operand form.
pub open spec fn spec_is_discriminator(c: char) -> bool {
    c == 'r' || c == 'i'
}

/// Executable test for a discriminator letter.
pub fn is_discriminator(c: char) -> (r: bool)
    ensures
        r == spec_is_discriminator(c),
{
    c == 'r' || c == 'i'
}

/// The common prefix stripped from every raw entry name.
pub open spec fn jit_prefix() -> Seq<char> {
    seq!['j', 'i', 't', '_']
}

/// The text before the first opening parenthesis (the whole text when there
/// is none).
pub open spec fn spec_before_paren(s: Seq<char>) -> Seq<char> {
    s.take(spec_char_ix(s, '('))
}

/// Removes every leading repetition of `p` from `s`.
pub open spec fn spec_trim_prefix(s: Seq<char>, p: Seq<char>) -> Seq<char>
    decreases s.len(),
{
    if p.len() > 0 && p.is_prefix_of(s) && s.len() > 0 {
        spec_trim_prefix(s.skip(p.len() as int), p)
    } else {
        s
    }
}

/// The decomposed stem of one raw entry name: the text before the argument
/// list, stripped of the common prefix, split into pieces.
pub open spec fn spec_stem_of(key: Seq<char>) -> Seq<Seq<char>> {
    spec_chop(spec_trim_prefix(spec_before_paren(key), jit_prefix()))
}

/// Adjacent deduplication, keeping the first of each run of equal elements.
pub open spec fn spec_dedup_texts(s: Seq<Seq<char>>) -> Seq<Seq<char>>
    decreases s.len(),
{
    if s.len() <= 1 {
        s
    } else if s.last() == s[s.len() - 2] {
        spec_dedup_texts(s.drop_last())
    } else {
        spec_dedup_texts(s.drop_last()).push(s.last())
    }
}

pub proof fn lemma_dedup_texts_last(s: Seq<Seq<char>>)
    requires
        s.len() > 0,
    ensures
        spec_dedup_texts(s).len() > 0,
        spec_dedup_texts(s).last() == s.last(),
    decreases s.len(),
{
    if s.len() > 1 && s.last() == s[s.len() - 2] {
        lemma_dedup_texts_last(s.drop_last());
    }
}

/// Adjacent deduplication of stems, keeping the first of each run.
pub open spec fn spec_dedup_stems(s: Seq<Seq<Seq<char>>>) -> Seq<Seq<Seq<char>>>
    decreases s.len(),
{
    if s.len() <= 1 {
        s
    } else if s.last() == s[s.len() - 2] {
        spec_dedup_stems(s.drop_last())
    } else {
        spec_dedup_stems(s.drop_last()).push(s.last())
    }
}

pub proof fn lemma_dedup_stems_last(s: Seq<Seq<Seq<char>>>)
    requires
        s.len() > 0,
    ensures
        spec_dedup_stems(s).len() > 0,
        spec_dedup_stems(s).last() == s.last(),
    decreases s.len(),
{
    if s.len() > 1 && s.last() == s[s.len() - 2] {
        lemma_dedup_stems_last(s.drop_last());
    }
}

/// Executable equality of two piece lists.
pub fn texts_eq_exec(a: &Vec<Vec<char>>, b: &Vec<Vec<char>>) -> (r: bool)
    ensures
        r == (texts_view(a@) == texts_view(b@)),
{
    if a.len() != b.len() {
        assert(texts_view(a@).len() != texts_view(b@).len());
        return false;
    }
    let mut i: usize = 0;
    while i < a.len()
        invariant
            i <= a.len(),
            a.len() == b.len(),
            forall|j: int| 0 <= j < i ==> texts_view(a@)[j] == texts_view(b@)[j],
        decreases a.len() - i,
    {
        if !text_eq(&a[i], &b[i]) {
            assert(texts_view(a@)[i as int] != texts_view(b@)[i as int]);
            return false;
        }
        assert(texts_view(a@)[i as int] == texts_view(b@)[i as int]);
        i += 1;
    }
    assert(texts_view(a@) =~= texts_view(b@));
    true
}

/// Copies the text before the first opening parenthesis.
#[verifier::loop_isolation(false)]
pub fn before_paren(s: &Vec<char>) -> (r: Vec<char>)
    ensures
        r@ == spec_before_paren(s@),
{
    let mut j: usize = 0;
    while j < s.len() && s[j] != '('
        invariant
            j <= s.len(),
            forall|k: int| 0 <= k < j ==> s@[k] != '(',
        decreases s.len() - j,
    {
        j += 1;
    }
    proof {
        lemma_spec_char_ix_unique(s@, '(', j as int);
    }
    subrange_vec(s, 0, j)
}

/// Removes every leading repetition of `p` from `s`.
#[verifier::loop_isolation(false)]
pub fn trim_prefix(s: &Vec<char>, p: &Vec<char>) -> (r: Vec<char>)
    requires
        p@.len() > 0,
    ensures
        r@ == spec_trim_prefix(s@, p@),
{
    let mut off: usize = 0;
    let mut more = true;
    assert(s@.skip(0) =~= s@);
    while more
        invariant
            off <= s.len(),
            p@.len() > 0,
            spec_trim_prefix(s@, p@) == spec_trim_prefix(s@.skip(off as int), p@),
            !more ==> spec_trim_prefix(s@.skip(off as int), p@) == s@.skip(off as int),
        decreases s.len() - off + if more {
            1int
        } else {
            0int
        },
    {
        let ghost tail = s@.skip(off as int);
        if s.len() - off >= p.len() && p.len() > 0 {
            let window = subrange_vec(s, off, off + p.len());
            if text_eq(&window, p) {
                proof {
                    assert forall|k: int| 0 <= k < p@.len() implies tail[k] == p@[k] by {
                        assert(window@[k] == s@[off + k]);
                    }
                    assert(p@ =~= tail.take(p@.len() as int));
                    assert(p@.is_prefix_of(tail));
                    assert(tail.len() > 0);
                    assert(tail.skip(p@.len() as int) =~= s@.skip(off + p@.len()));
                }
                off = off + p.len();
                continue;
            }
        }
        proof {
            if p@.is_prefix_of(tail) && tail.len() > 0 {
                assert(tail.len() >= p@.len());
                let window2 = s@.subrange(off as int, off + p@.len());
                assert forall|k: int| 0 <= k < p@.len() implies window2[k] == p@[k] by {
                    assert(tail[k] == p@[k]);
                }
                assert(window2 =~= p@);
            }
            assert(spec_trim_prefix(tail, p@) == tail);
        }
        more = false;
    }
    let r = subrange_vec(s, off, s.len());
    assert(r@ =~= s@.skip(off as int));
    r
}

/// The decomposed stem of one raw entry name.
pub fn stem_of(key: &Vec<char>) -> (r: Vec<Vec<char>>)
    ensures
        texts_view(r@) == spec_stem_of(key@),
{
    let brief = before_paren(key);
    let prefix = vec!['j', 'i', 't', '_'];
    assert(prefix@ =~= jit_prefix());
    let core = trim_prefix(&brief, &prefix);
    chop_suffixes(&core)
}

/// The deduplicated, sorted list of decomposed stems of a key list.
pub open spec fn spec_make_stems(keys: Seq<Seq<char>>) -> Seq<Seq<Seq<char>>> {
    spec_dedup_stems(
        keys.map_values(|k: Seq<char>| spec_stem_of(k)).sort_by(
            |x: Seq<Seq<char>>, y: Seq<Seq<char>>| texts_le(x, y),
        ),
    )
}

/// Adjacent deduplication of a stem list.
#[verifier::loop_isolation(false)]
pub fn dedup_stems(v: &Vec<Vec<Vec<char>>>) -> (r: Vec<Vec<Vec<char>>>)
    ensures
        stems_view(r@) == spec_dedup_stems(stems_view(v@)),
{
    let ghost full = stems_view(v@);
    let mut out: Vec<Vec<Vec<char>>> = Vec::new();
    let mut i: usize = 0;
    assert(stems_view(out@) =~= spec_dedup_stems(full.take(0)));
    while i < v.len()
        invariant
            i <= v.len(),
            stems_view(out@) == spec_dedup_stems(full.take(i as int)),
        decreases v.len() - i,
    {
        proof {
            assert(full.take(i + 1).drop_last() =~= full.take(i as int));
            assert(full.take(i + 1).last() == full[i as int]);
        }
        let keep: bool;
        if out.len() == 0 {
            keep = true;
            proof {
                if i > 0 {
                    lemma_dedup_stems_last(full.take(i as int));
                }
                assert(i == 0);
            }
        } else {
            proof {
                assert(i > 0) by {
                    if i == 0 {
                        assert(full.take(0) =~= Seq::<Seq<Seq<char>>>::empty());
                    }
                }
                lemma_dedup_stems_last(full.take(i as int));
                assert(stems_view(out@).last() == full[i - 1]);
                assert(texts_view(out@[out@.len() - 1]@) == full[i - 1]);
                assert(full.take(i + 1)[i - 1] == full[i - 1]);
            }
            let last_ix = out.len() - 1;
            keep = !texts_eq_exec(&out[last_ix], &v[i]);
            assert(keep == (full[i - 1] != full[i as int]));
        }
        if keep {
            proof {
                crate::text::lemma_stems_view_push(out@, v@[i as int]);
                assert(texts_view(v@[i as int]@) == full[i as int]);
            }
            let e = clone_texts(&v[i]);
            proof {
                crate::text::lemma_stems_view_push(out@, e);
            }
            out.push(e);
            assert(stems_view(out@) =~= spec_dedup_stems(full.take(i + 1)));
        } else {
            assert(stems_view(out@) == spec_dedup_stems(full.take(i + 1)));
        }
        i += 1;
    }
    assert(full.take(v@.len() as int) =~= full);
    out
}

/// Builds the deduplicated sorted stem list from the raw entry names.
#[verifier::loop_isolation(false)]
pub fn make_stems(keys: &Vec<Vec<char>>) -> (r: Vec<Vec<Vec<char>>>)
    ensures
        stems_view(r@) == spec_make_stems(texts_view(keys@)),
{
    let ghost kv = texts_view(keys@);
    let mut mapped: Vec<Vec<Vec<char>>> = Vec::new();
    let mut i: usize = 0;
    assert(stems_view(mapped@) =~= kv.take(0).map_values(|k: Seq<char>| spec_stem_of(k)));
    while i < keys.len()
        invariant
            i <= keys.len(),
            stems_view(mapped@) == kv.take(i as int).map_values(|k: Seq<char>| spec_stem_of(k)),
        decreases keys.len() - i,
    {
        let st = stem_of(&keys[i]);
        proof {
            crate::text::lemma_stems_view_push(mapped@, st);
        }
        mapped.push(st);
        proof {
            assert(stems_view(mapped@) =~= kv.take(i + 1).map_values(
                |k: Seq<char>| spec_stem_of(k),
            ));
        }
        i += 1;
    }
    assert(kv.take(kv.len() as int) =~= kv);

    let sorted = sort_stems(&mapped);
    proof {
        let leq = |x: Seq<Seq<char>>, y: Seq<Seq<char>>| texts_le(x, y);
        let spec_sorted = kv.map_values(|k: Seq<char>| spec_stem_of(k)).sort_by(leq);
        crate::text::lemma_texts_le_total_ordering();
        kv.map_values(|k: Seq<char>| spec_stem_of(k)).lemma_sort_by_ensures(leq);
        crate::text::lemma_stems_sorted_by(stems_view(sorted@));
        vstd::seq_lib::lemma_sorted_unique(stems_view(sorted@), spec_sorted, leq);
        assert(stems_view(sorted@) == spec_sorted);
    }
    dedup_stems(&sorted)
}

/// The first piece of a stem (empty when the stem has no pieces).
pub open spec fn spec_first(stem: Seq<Seq<char>>) -> Seq<char> {
    if stem.len() == 0 {
        Seq::empty()
    } else {
        stem[0]
    }
}

/// The root of a first piece: the piece with one trailing discriminator
/// letter (register form `r` or immediate form `i`) removed, if present.
pub open spec fn spec_root_of(p: Seq<char>) -> Seq<char> {
    if p.len() > 0 && spec_is_discriminator(p.last()) {
        p.drop_last()
    } else {
        p
    }
}

/// The family-membership rule: a first piece belongs to a root when it starts
/// with the root, is at most one character longer, and any extra trailing
/// character is a discriminator letter on an underscore-free piece.
pub open spec fn spec_kind_match(needle: Seq<char>, hay: Seq<char>) -> bool {
    let last_ok = hay.len() > 1 && spec_is_discriminator(hay.last()) && spec_count_char(
        hay,
        '_',
    ) == 0;
    needle.is_prefix_of(hay) && hay.len() - needle.len() < 2 && (hay.len() == needle.len()
        || last_ok)
}

/// The deduplicated sorted list of roots of a stem list.
pub open spec fn spec_make_roots(stems: Seq<Seq<Seq<char>>>) -> Seq<Seq<char>> {
    spec_dedup_texts(
        stems.map_values(|st: Seq<Seq<char>>| spec_root_of(spec_first(st))).sort_by(
            |x: Seq<char>, y: Seq<char>| chars_le(x, y),
        ),
    )
}

/// The variant set of a root: the stems whose first piece matches it, in
/// stem-list order.
pub open spec fn spec_variants_of(root: Seq<char>, stems: Seq<Seq<Seq<char>>>) -> Seq<
    Seq<Seq<char>>,
>
    decreases stems.len(),
{
    if stems.len() == 0 {
        Seq::empty()
    } else {
        let rest = spec_variants_of(root, stems.drop_last());
        if spec_kind_match(root, spec_first(stems.last())) {
            rest.push(stems.last())
        } else {
            rest
        }
    }
}

/// Every member of a variant set matches its root and comes from the stem
/// list.
pub proof fn lemma_variants_of_members(root: Seq<char>, stems: Seq<Seq<Seq<char>>>, m: int)
    requires
        0 <= m < spec_variants_of(root, stems).len(),
    ensures
        spec_kind_match(root, spec_first(spec_variants_of(root, stems)[m])),
        exists|k: int|
            0 <= k < stems.len() && stems[k] == spec_variants_of(root, stems)[m],
    decreases stems.len(),
{
    if stems.len() > 0 {
        let rest = spec_variants_of(root, stems.drop_last());
        if m < rest.len() {
            lemma_variants_of_members(root, stems.drop_last(), m);
            let k = choose|k: int|
                0 <= k < stems.drop_last().len() && stems.drop_last()[k] == rest[m];
            assert(stems[k] == spec_variants_of(root, stems)[m]);
        } else {
            assert(stems[stems.len() - 1] == spec_variants_of(root, stems)[m]);
        }
    }
}

/// Copies the first piece of a stem (empty when the stem has no pieces).
pub fn first_piece(stem: &Vec<Vec<char>>) -> (r: Vec<char>)
    ensures
        r@ == spec_first(texts_view(stem@)),
{
    if stem.len() == 0 {
        let r: Vec<char> = Vec::new();
        assert(r@ =~= Seq::<char>::empty());
        r
    } else {
        let r = clone_text(&stem[0]);
        assert(texts_view(stem@)[0] == stem@[0]@);
        r
    }
}

/// The root of a first piece.
pub fn root_of(p: &Vec<char>) -> (r: Vec<char>)
    ensures
        r@ == spec_root_of(p@),
{
    if p.len() > 0 {
        let last = p[p.len() - 1];
        if is_discriminator(last) {
            let r = subrange_vec(p, 0, p.len() - 1);
            assert(r@ =~= p@.drop_last());
            return r;
        }
    }
    clone_text(p)
}

/// Adjacent deduplication of a root list.
#[verifier::loop_isolation(false)]
pub fn dedup_texts(v: &Vec<Vec<char>>) -> (r: Vec<Vec<char>>)
    ensures
        texts_view(r@) == spec_dedup_texts(texts_view(v@)),
{
    let ghost full = texts_view(v@);
    let mut out: Vec<Vec<char>> = Vec::new();
    let mut i: usize = 0;
    assert(texts_view(out@) =~= spec_dedup_texts(full.take(0)));
    while i < v.len()
        invariant
            i <= v.len(),
            texts_view(out@) == spec_dedup_texts(full.take(i as int)),
        decreases v.len() - i,
    {
        proof {
            assert(full.take(i + 1).drop_last() =~= full.take(i as int));
            assert(full.take(i + 1).last() == full[i as int]);
        }
        let keep: bool;
        if out.len() == 0 {
            keep = true;
            proof {
                if i > 0 {
                    lemma_dedup_texts_last(full.take(i as int));
                }
                assert(i == 0);
            }
        } else {
            proof {
                assert(i > 0) by {
                    if i == 0 {
                        assert(full.take(0) =~= Seq::<Seq<char>>::empty());
                    }
                }
                lemma_dedup_texts_last(full.take(i as int));
                assert(texts_view(out@).last() == full[i - 1]);
                assert(out@[out@.len() - 1]@ == full[i - 1]);
                assert(full.take(i + 1)[i - 1] == full[i - 1]);
            }
            let last_ix = out.len() - 1;
            keep = !text_eq(&out[last_ix], &v[i]);
            assert(keep == (full[i - 1] != full[i as int]));
        }
        if keep {
            let e = clone_text(&v[i]);
            proof {
                crate::text::lemma_texts_view_push(out@, e);
                assert(e@ == full[i as int]);
            }
            out.push(e);
            assert(texts_view(out@) =~= spec_dedup_texts(full.take(i + 1)));
        } else {
            assert(texts_view(out@) == spec_dedup_texts(full.take(i + 1)));
        }
        i += 1;
    }
    assert(full.take(v@.len() as int) =~= full);
    out
}

/// Builds the deduplicated sorted root list of a stem list.
#[verifier::loop_isolation(false)]
pub fn make_roots(stems: &Vec<Vec<Vec<char>>>) -> (r: Vec<Vec<char>>)
    ensures
        texts_view(r@) == spec_make_roots(stems_view(stems@)),
{
    let ghost sv = stems_view(stems@);
    let mut mapped: Vec<Vec<char>> = Vec::new();
    let mut i: usize = 0;
    assert(texts_view(mapped@) =~= sv.take(0).map_values(
        |st: Seq<Seq<char>>| spec_root_of(spec_first(st)),
    ));
    while i < stems.len()
        invariant
            i <= stems.len(),
            texts_view(mapped@) == sv.take(i as int).map_values(
                |st: Seq<Seq<char>>| spec_root_of(spec_first(st)),
            ),
        decreases stems.len() - i,
    {
        let fp = first_piece(&stems[i]);
        let rt = root_of(&fp);
        proof {
            crate::text::lemma_texts_view_push(mapped@, rt);
            assert(texts_view(stems@[i as int]@) == sv[i as int]);
        }
        mapped.push(rt);
        proof {
            assert(texts_view(mapped@) =~= sv.take(i + 1).map_values(
                |st: Seq<Seq<char>>| spec_root_of(spec_first(st)),
            ));
        }
        i += 1;
    }
    assert(sv.take(sv.len() as int) =~= sv);

    let sorted = sort_texts(&mapped);
    proof {
        let leq = |x: Seq<char>, y: Seq<char>| chars_le(x, y);
        let spec_sorted = sv.map_values(|st: Seq<Seq<char>>| spec_root_of(spec_first(st))).sort_by(
            leq,
        );
        crate::text::lemma_chars_le_total_ordering();
        sv.map_values(|st: Seq<Seq<char>>| spec_root_of(spec_first(st))).lemma_sort_by_ensures(
            leq,
        );
        crate::text::lemma_texts_sorted_by(texts_view(sorted@));
        vstd::seq_lib::lemma_sorted_unique(texts_view(sorted@), spec_sorted, leq);
        assert(texts_view(sorted@) == spec_sorted);
    }
    dedup_texts(&sorted)
}

/// Decides the family-membership rule.
pub fn kind_match(needle: &Vec<char>, hay: &Vec<char>) -> (r: bool)
    ensures
        r == spec_kind_match(needle@, hay@),
{
    if !starts_with(hay, needle) {
        return false;
    }
    if hay.len() - needle.len() >= 2 {
        return false;
    }
    if hay.len() == needle.len() {
        return true;
    }
    if hay.len() <= 1 {
        return false;
    }
    let last = hay[hay.len() - 1];
    if !is_discriminator(last) {
        return false;
    }
    let underscores = count_char(hay, '_');
    underscores == 0
}

/// The variant set of one root, in stem-list order.
#[verifier::loop_isolation(false)]
pub fn variants_of(root: &Vec<char>, stems: &Vec<Vec<Vec<char>>>) -> (r: Vec<Vec<Vec<char>>>)
    ensures
        stems_view(r@) == spec_variants_of(root@, stems_view(stems@)),
{
    let ghost sv = stems_view(stems@);
    let mut out: Vec<Vec<Vec<char>>> = Vec::new();
    let mut i: usize = 0;
    assert(stems_view(out@) =~= spec_variants_of(root@, sv.take(0)));
    while i < stems.len()
        invariant
            i <= stems.len(),
            stems_view(out@) == spec_variants_of(root@, sv.take(i as int)),
        decreases stems.len() - i,
    {
        proof {
            assert(sv.take(i + 1).drop_last() =~= sv.take(i as int));
            assert(sv.take(i + 1).last() == sv[i as int]);
        }
        let fp = first_piece(&stems[i]);
        proof {
            assert(texts_view(stems@[i as int]@) == sv[i as int]);
        }
        if kind_match(root, &fp) {
            let e = clone_texts(&stems[i]);
            proof {
                crate::text::lemma_stems_view_push(out@, e);
            }
            out.push(e);
            assert(stems_view(out@) =~= spec_variants_of(root@, sv.take(i + 1)));
        } else {
            assert(stems_view(out@) == spec_variants_of(root@, sv.take(i + 1)));
        }
        i += 1;
    }
    assert(sv.take(sv.len() as int) =~= sv);
    out
}

/// One entry of the inverse map: a concatenated stem and its owning root.
pub struct InversePair {
    pub key: Vec<char>,
    pub root: Vec<char>,
}

/// The abstraction of an inverse-map entry list.
pub open spec fn pairs_view(v: Seq<InversePair>) -> Seq<(Seq<char>, Seq<char>)> {
    Seq::new(v.len(), |i: int| (v[i].key@, v[i].root@))
}

/// The inverse-map entries contributed by one root, in variant-set order.
pub open spec fn spec_pairs_of(root: Seq<char>, stems: Seq<Seq<Seq<char>>>) -> Seq<
    (Seq<char>, Seq<char>),
>
    decreases stems.len(),
{
    if stems.len() == 0 {
        Seq::empty()
    } else {
        let rest = spec_pairs_of(root, stems.drop_last());
        if spec_kind_match(root, spec_first(stems.last())) {
            rest.push((stems.last().flatten(), root))
        } else {
            rest
        }
    }
}

/// The full inverse map: entries of each root in root-list order, so that a
/// key claimed by several roots is owned by the latest.
pub open spec fn spec_inverse_pairs(roots: Seq<Seq<char>>, stems: Seq<Seq<Seq<char>>>) -> Seq<
    (Seq<char>, Seq<char>),
>
    decreases roots.len(),
{
    if roots.len() == 0 {
        Seq::empty()
    } else {
        spec_inverse_pairs(roots.drop_last(), stems) + spec_pairs_of(roots.last(), stems)
    }
}

/// The root owning `key`: the value of the latest entry whose key matches.
pub open spec fn spec_lookup_root(pairs: Seq<(Seq<char>, Seq<char>)>, key: Seq<char>) -> Option<
    Seq<char>,
>
    decreases pairs.len(),
{
    if pairs.len() == 0 {
        Option::None
    } else if pairs.last().0 == key {
        Option::Some(pairs.last().1)
    } else {
        spec_lookup_root(pairs.drop_last(), key)
    }
}

/// Concatenates the pieces of a stem.
#[verifier::loop_isolation(false)]
pub fn concat_pieces(stem: &Vec<Vec<char>>) -> (r: Vec<char>)
    ensures
        r@ == texts_view(stem@).flatten(),
{
    let ghost sv = texts_view(stem@);
    let mut out: Vec<char> = Vec::new();
    let mut i: usize = 0;
    proof {
        vstd::seq_lib::lemma_flatten_concat(sv.take(0), sv.skip(0));
        assert(sv.take(0) + sv.skip(0) =~= sv);
        assert(sv.take(0).flatten() =~= Seq::<char>::empty());
        assert(out@ =~= sv.take(0).flatten());
    }
    while i < stem.len()
        invariant
            i <= stem.len(),
            out@ == sv.take(i as int).flatten(),
        decreases stem.len() - i,
    {
        let piece = &stem[i];
        let mut k: usize = 0;
        while k < piece.len()
            invariant
                k <= piece.len(),
                piece@ == stem@[i as int]@,
                out@ == sv.take(i as int).flatten() + piece@.take(k as int),
            decreases piece.len() - k,
        {
            out.push(piece[k]);
            assert(out@ =~= sv.take(i as int).flatten() + piece@.take(k + 1));
            k += 1;
        }
        proof {
            vstd::seq_lib::lemma_flatten_concat(sv.take(i as int), seq![sv[i as int]]);
            crate::decompose::lemma_flatten_single(sv[i as int]);
            assert(sv.take(i as int) + seq![sv[i as int]] =~= sv.take(i + 1));
            assert(piece@.take(piece@.len() as int) =~= sv[i as int]);
            assert(out@ =~= sv.take(i + 1).flatten());
        }
        i += 1;
    }
    assert(sv.take(sv.len() as int) =~= sv);
    out
}

/// Builds the inverse map from roots and stems.
#[verifier::loop_isolation(false)]
pub fn make_inverse_variants(roots: &Vec<Vec<char>>, stems: &Vec<Vec<Vec<char>>>) -> (r: Vec<
    InversePair,
>)
    ensures
        pairs_view(r@) == spec_inverse_pairs(texts_view(roots@), stems_view(stems@)),
{
    let ghost rv = texts_view(roots@);
    let ghost sv = stems_view(stems@);
    let mut out: Vec<InversePair> = Vec::new();
    let mut i: usize = 0;
    assert(pairs_view(out@) =~= spec_inverse_pairs(rv.take(0), sv));
    while i < roots.len()
        invariant
            i <= roots.len(),
            pairs_view(out@) == spec_inverse_pairs(rv.take(i as int), sv),
        decreases roots.len() - i,
    {
        let members = variants_of(&roots[i], stems);
        let ghost root = rv[i as int];
        proof {
            assert(roots@[i as int]@ == rv[i as int]);
        }
        let ghost mv = stems_view(members@);
        let ghost base = pairs_view(out@);
        let mut m: usize = 0;
        proof {
            lemma_pairs_of_from_variants(root, sv);
            assert(base + spec_pairs_of(root, sv).take(0) =~= base);
        }
        while m < members.len()
            invariant
                m <= members.len(),
                mv == stems_view(members@),
                mv == spec_variants_of(root, sv),
                spec_pairs_of(root, sv).len() == mv.len(),
                forall|t: int|
                    0 <= t < mv.len() ==> #[trigger] spec_pairs_of(root, sv)[t] == (
                    mv[t].flatten(),
                    root,
                ),
                pairs_view(out@) == base + spec_pairs_of(root, sv).take(m as int),
            decreases members.len() - m,
        {
            let key = concat_pieces(&members[m]);
            let rootcopy = clone_text(&roots[i]);
            let pair = InversePair { key, root: rootcopy };
            let ghost pre = out@;
            out.push(pair);
            proof {
                assert(texts_view(members@[m as int]@) == mv[m as int]);
                assert forall|t: int| 0 <= t < out@.len() implies pairs_view(out@)[t] == (base
                    + spec_pairs_of(root, sv).take(m + 1))[t] by {
                    if t < pre.len() {
                        assert(out@[t] == pre[t]);
                        assert(pairs_view(pre)[t] == (base + spec_pairs_of(root, sv).take(
                            m as int,
                        ))[t]);
                    }
                }
                assert(pairs_view(out@) =~= base + spec_pairs_of(root, sv).take(m + 1));
            }
            m += 1;
        }
        proof {
            assert(spec_pairs_of(root, sv).take(mv.len() as int) =~= spec_pairs_of(root, sv));
            assert(rv.take(i + 1).drop_last() =~= rv.take(i as int));
            assert(rv.take(i + 1).last() == root);
            assert(pairs_view(out@) == spec_inverse_pairs(rv.take(i + 1), sv));
        }
        i += 1;
    }
    assert(rv.take(rv.len() as int) =~= rv);
    out
}

/// The entries of one root line up with its variant set: entry `t` is the
/// concatenation of member `t`, owned by the root.
pub proof fn lemma_pairs_of_from_variants(root: Seq<char>, stems: Seq<Seq<Seq<char>>>)
    ensures
        spec_pairs_of(root, stems).len() == spec_variants_of(root, stems).len(),
        forall|t: int|
            0 <= t < spec_variants_of(root, stems).len() ==> #[trigger] spec_pairs_of(
                root,
                stems,
            )[t] == (spec_variants_of(root, stems)[t].flatten(), root),
    decreases stems.len(),
{
    if stems.len() > 0 {
        lemma_pairs_of_from_variants(root, stems.drop_last());
    }
}

/// Looks the owning root of a concatenated stem up in the inverse map,
/// latest entry first.
#[verifier::loop_isolation(false)]
pub fn lookup_root(pairs: &Vec<InversePair>, key: &Vec<char>) -> (r: Option<Vec<char>>)
    ensures
        match r {
            Option::Some(root) => spec_lookup_root(pairs_view(pairs@), key@) == Option::Some(
                root@,
            ),
            Option::None => spec_lookup_root(pairs_view(pairs@), key@) == Option::None::<
                Seq<char>,
            >,
        },
{
    let ghost pv = pairs_view(pairs@);
    let mut i: usize = pairs.len();
    assert(pv.take(pairs@.len() as int) =~= pv);
    while i > 0
        invariant
            i <= pairs.len(),
            spec_lookup_root(pv, key@) == spec_lookup_root(pv.take(i as int), key@),
        decreases i,
    {
        i -= 1;
        proof {
            assert(pv.take(i + 1).drop_last() =~= pv.take(i as int));
            assert(pv.take(i + 1).last() == pv[i as int]);
        }
        if text_eq(&pairs[i].key, key) {
            let r = clone_text(&pairs[i].root);
            assert(pv[i as int] == (pairs@[i as int].key@, pairs@[i as int].root@));
            return Option::Some(r);
        }
    }
    assert(pv.take(0) =~= Seq::<(Seq<char>, Seq<char>)>::empty());
    Option::None
}

/// A successful lookup names an entry of the map; a failed one means no
/// entry carries the key.
pub proof fn lemma_lookup_root_entry(pairs: Seq<(Seq<char>, Seq<char>)>, key: Seq<char>)
    ensures
        match spec_lookup_root(pairs, key) {
            Option::Some(rt) => exists|t: int|
                0 <= t < pairs.len() && #[trigger] pairs[t] == (key, rt),
            Option::None => forall|t: int| 0 <= t < pairs.len() ==> (#[trigger] pairs[t]).0 != key,
        },
    decreases pairs.len(),
{
    if pairs.len() > 0 {
        if pairs.last().0 == key {
            assert(pairs[pairs.len() - 1] == (key, pairs.last().1));
        } else {
            lemma_lookup_root_entry(pairs.drop_last(), key);
            match spec_lookup_root(pairs.drop_last(), key) {
                Option::Some(rt) => {
                    let t = choose|t: int|
                        0 <= t < pairs.drop_last().len() && #[trigger] pairs.drop_last()[t] == (
                        key,
                        rt,
                        );
                    assert(pairs[t] == (key, rt));
                },
                Option::None => {
                    assert forall|t: int| 0 <= t < pairs.len() implies (#[trigger] pairs[t]).0
                        != key by {
                        if t < pairs.len() - 1 {
                            assert(pairs.drop_last()[t] == pairs[t]);
                        }
                    }
                },
            }
        }
    }
}

/// Every entry of the inverse map pairs the concatenation of some variant
/// member with its owning root.
pub proof fn lemma_inverse_pairs_member(
    roots: Seq<Seq<char>>,
    stems: Seq<Seq<Seq<char>>>,
    t: int,
)
    requires
        0 <= t < spec_inverse_pairs(roots, stems).len(),
    ensures
        exists|rix: int, m: int|
            0 <= rix < roots.len() && 0 <= m < spec_variants_of(roots[rix], stems).len()
                && spec_inverse_pairs(roots, stems)[t] == (
            (#[trigger] spec_variants_of(roots[rix], stems)[m]).flatten(),
            roots[rix],
            ),
    decreases roots.len(),
{
    if roots.len() > 0 {
        let left = spec_inverse_pairs(roots.drop_last(), stems);
        let root = roots.last();
        lemma_pairs_of_from_variants(root, stems);
        if t < left.len() {
            lemma_inverse_pairs_member(roots.drop_last(), stems, t);
            let (rix, m) = choose|rix: int, m: int|
                0 <= rix < roots.drop_last().len() && 0 <= m < spec_variants_of(
                    roots.drop_last()[rix],
                    stems,
                ).len() && left[t] == (
                (#[trigger] spec_variants_of(roots.drop_last()[rix], stems)[m]).flatten(),
                roots.drop_last()[rix],
                );
            assert(roots[rix] == roots.drop_last()[rix]);
            assert(spec_inverse_pairs(roots, stems)[t] == left[t]);
            assert(0 <= rix < roots.len() && 0 <= m < spec_variants_of(
                roots[rix],
                stems,
            ).len() && spec_inverse_pairs(roots, stems)[t] == (
                spec_variants_of(roots[rix], stems)[m].flatten(),
                roots[rix],
            ));
        } else {
            let m = t - left.len();
            let rix = roots.len() - 1;
            assert(spec_inverse_pairs(roots, stems)[t] == spec_pairs_of(root, stems)[m]);
            assert(spec_pairs_of(root, stems)[m] == (
                spec_variants_of(root, stems)[m].flatten(),
                root,
            ));
            assert(0 <= rix < roots.len() && 0 <= m < spec_variants_of(
                roots[rix],
                stems,
            ).len() && spec_inverse_pairs(roots, stems)[t] == (
                spec_variants_of(roots[rix], stems)[m].flatten(),
                roots[rix],
            ));
        }
    }
}

} // verus!
