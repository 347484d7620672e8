//! Splits a raw mnemonic into its ordered pieces: a stem followed by
//! discriminator/width suffixes.
//!
//! The rules are applied in a fixed order: a short list of special whole
//! prefixes first, then a multi-underscore "mov" family split on every
//! underscore, then atomic names without underscores, then a fixed list of
//! known suffixes, and finally the name unsplit. Reordering these rules would
//! change the classification of ambiguous names.

use vstd::prelude::*;
use crate::text::{
    spec_count_char, texts_view, clone_text, count_char, ends_with, starts_with, subrange_vec,
};

verus! {

/// Special whole-prefix mnemonics, checked first and in this order:
/// node construction, vararg access, extraction, truncation.
pub open spec fn special_names() -> Seq<Seq<char>> {
    seq![
        seq!['n', 'e', 'w', '_', 'n', 'o', 'd', 'e'],
        seq!['v', 'a', '_', 'a', 'r', 'g'],
        seq!['e', 'x', 't', 'r'],
        seq!['t', 'r', 'u', 'n', 'c', 'r'],
    ]
}

/// Known trailing suffixes (signedness and width markers), matched in this
/// order against names with exactly one underscore.
pub open spec fn suffix_names() -> Seq<Seq<char>> {
    seq![
        seq!['_', 'f'],
        seq!['_', 'd'],
        seq!['_', 'u'],
        seq!['_', 'c'],
        seq!['_', 'i'],
        seq!['_', 'l'],
        seq!['_', 's'],
        seq!['_', 'u', 'c'],
        seq!['_', 'u', 'i'],
        seq!['_', 'u', 'l'],
        seq!['_', 'u', 's'],
        seq!['_', 'p'],
    ]
}

/// The stem prefix of the "mov" family, whose multi-suffix members are split
/// on every underscore.
pub open spec fn mov_prefix() -> Seq<char> {
    seq!['m', 'o', 'v']
}

/// Index of the first table entry that is a prefix of `s`, scanning from
/// position `k`; the table length when none matches.
pub open spec fn first_prefix_match(tbl: Seq<Seq<char>>, s: Seq<char>, k: int) -> int
    decreases tbl.len() - k,
{
    if k < 0 || k >= tbl.len() {
        tbl.len() as int
    } else if tbl[k].is_prefix_of(s) {
        k
    } else {
        first_prefix_match(tbl, s, k + 1)
    }
}

pub proof fn lemma_first_prefix_match(tbl: Seq<Seq<char>>, s: Seq<char>, k: int)
    requires
        0 <= k <= tbl.len(),
    ensures
        k <= first_prefix_match(tbl, s, k) <= tbl.len(),
        first_prefix_match(tbl, s, k) < tbl.len() ==> tbl[first_prefix_match(
            tbl,
            s,
            k,
        )].is_prefix_of(s),
        forall|m: int| k <= m < first_prefix_match(tbl, s, k) ==> !(#[trigger] tbl[m]).is_prefix_of(
            s,
        ),
    decreases tbl.len() - k,
{
    if k < tbl.len() && !tbl[k].is_prefix_of(s) {
        lemma_first_prefix_match(tbl, s, k + 1);
    }
}

/// Index of the first table entry that is a suffix of `s`, scanning from
/// position `k`; the table length when none matches.
pub open spec fn first_suffix_match(tbl: Seq<Seq<char>>, s: Seq<char>, k: int) -> int
    decreases tbl.len() - k,
{
    if k < 0 || k >= tbl.len() {
        tbl.len() as int
    } else if tbl[k].is_suffix_of(s) {
        k
    } else {
        first_suffix_match(tbl, s, k + 1)
    }
}

pub proof fn lemma_first_suffix_match(tbl: Seq<Seq<char>>, s: Seq<char>, k: int)
    requires
        0 <= k <= tbl.len(),
    ensures
        k <= first_suffix_match(tbl, s, k) <= tbl.len(),
        first_suffix_match(tbl, s, k) < tbl.len() ==> tbl[first_suffix_match(
            tbl,
            s,
            k,
        )].is_suffix_of(s),
        forall|m: int| k <= m < first_suffix_match(tbl, s, k) ==> !(#[trigger] tbl[m]).is_suffix_of(
            s,
        ),
    decreases tbl.len() - k,
{
    if k < tbl.len() && !tbl[k].is_suffix_of(s) {
        lemma_first_suffix_match(tbl, s, k + 1);
    }
}

/// Index of the first occurrence of `c` in `s`, or the length of `s`.
pub open spec fn spec_char_ix(s: Seq<char>, c: char) -> int
    decreases s.len(),
{
    if s.len() == 0 {
        0
    } else if s[0] == c {
        0
    } else {
        1 + spec_char_ix(s.drop_first(), c)
    }
}

pub proof fn lemma_spec_char_ix(s: Seq<char>, c: char)
    ensures
        0 <= spec_char_ix(s, c) <= s.len(),
        spec_char_ix(s, c) < s.len() ==> s[spec_char_ix(s, c)] == c,
        forall|m: int| 0 <= m < spec_char_ix(s, c) ==> s[m] != c,
    decreases s.len(),
{
    if s.len() > 0 && s[0] != c {
        lemma_spec_char_ix(s.drop_first(), c);
        let ix = spec_char_ix(s, c);
        assert forall|m: int| 0 <= m < ix implies s[m] != c by {
            if m > 0 {
                assert(s.drop_first()[m - 1] != c);
            }
        }
    }
}

/// Any index with the first-occurrence properties is `spec_char_ix`.
pub proof fn lemma_spec_char_ix_unique(s: Seq<char>, c: char, m: int)
    requires
        0 <= m <= s.len(),
        m < s.len() ==> s[m] == c,
        forall|k: int| 0 <= k < m ==> s[k] != c,
    ensures
        spec_char_ix(s, c) == m,
{
    lemma_spec_char_ix(s, c);
    let ix = spec_char_ix(s, c);
    if ix < m {
        assert(s[ix] != c);
    }
    if m < ix {
        assert(s[m] != c);
    }
}

/// Splits `s` on every occurrence of `c`; the separators are dropped.
pub open spec fn spec_split_all(s: Seq<char>, c: char) -> Seq<Seq<char>>
    decreases s.len(),
{
    let ix = spec_char_ix(s, c);
    if ix == s.len() {
        seq![s]
    } else if 0 <= ix < s.len() {
        seq![s.take(ix)] + spec_split_all(s.skip(ix + 1), c)
    } else {
        seq![s]
    }
}

/// The ordered piece list of a raw mnemonic.
///
/// A special whole prefix yields the special and the remainder (or the name
/// alone when they are equal). A "mov"-prefixed name with more than one
/// underscore is split on every underscore. A name without underscores is
/// atomic. Otherwise the first matching known suffix is chopped off, and a
/// name matching no rule is returned unsplit.
pub open spec fn spec_chop(orig: Seq<char>) -> Seq<Seq<char>> {
    let sp = first_prefix_match(special_names(), orig, 0);
    if sp < special_names().len() {
        let name = special_names()[sp];
        if orig == name {
            seq![orig]
        } else {
            seq![name, orig.skip(name.len() as int)]
        }
    } else {
        let n = spec_count_char(orig, '_');
        if mov_prefix().is_prefix_of(orig) && n > 1 {
            spec_split_all(orig, '_')
        } else if n == 0 {
            seq![orig]
        } else {
            let sx = first_suffix_match(suffix_names(), orig, 0);
            if sx < suffix_names().len() {
                let suff = suffix_names()[sx];
                seq![
                    orig.take(orig.len() - suff.len()),
                    orig.skip(orig.len() - suff.len()),
                ]
            } else {
                seq![orig]
            }
        }
    }
}

/// The executable table of special whole-prefix mnemonics.
pub fn special_names_exec() -> (r: Vec<Vec<char>>)
    ensures
        texts_view(r@) == special_names(),
{
    let mut out: Vec<Vec<char>> = Vec::new();
    out.push(vec!['n', 'e', 'w', '_', 'n', 'o', 'd', 'e']);
    out.push(vec!['v', 'a', '_', 'a', 'r', 'g']);
    out.push(vec!['e', 'x', 't', 'r']);
    out.push(vec!['t', 'r', 'u', 'n', 'c', 'r']);
    proof {
        assert(texts_view(out@) =~= special_names());
    }
    out
}

/// The executable table of known suffixes.
pub fn suffix_names_exec() -> (r: Vec<Vec<char>>)
    ensures
        texts_view(r@) == suffix_names(),
{
    let mut out: Vec<Vec<char>> = Vec::new();
    out.push(vec!['_', 'f']);
    out.push(vec!['_', 'd']);
    out.push(vec!['_', 'u']);
    out.push(vec!['_', 'c']);
    out.push(vec!['_', 'i']);
    out.push(vec!['_', 'l']);
    out.push(vec!['_', 's']);
    out.push(vec!['_', 'u', 'c']);
    out.push(vec!['_', 'u', 'i']);
    out.push(vec!['_', 'u', 'l']);
    out.push(vec!['_', 'u', 's']);
    out.push(vec!['_', 'p']);
    proof {
        assert(texts_view(out@) =~= suffix_names());
    }
    out
}

/// Splits `s` on every underscore.
pub fn split_all_underscores(s: &Vec<char>) -> (r: Vec<Vec<char>>)
    ensures
        texts_view(r@) == spec_split_all(s@, '_'),
{
    let mut out: Vec<Vec<char>> = Vec::new();
    let mut pos: usize = 0;
    assert(s@.skip(0) =~= s@);
    loop
        invariant
            pos <= s.len(),
            spec_split_all(s@, '_') == texts_view(out@) + spec_split_all(
                s@.skip(pos as int),
                '_',
            ),
        decreases s.len() - pos,
    {
        let ghost tail = s@.skip(pos as int);
        let mut j: usize = pos;
        while j < s.len() && s[j] != '_'
            invariant
                pos <= j <= s.len(),
                forall|k: int| pos <= k < j ==> s@[k] != '_',
            decreases s.len() - j,
        {
            j += 1;
        }
        proof {
            assert forall|k: int| 0 <= k < j - pos implies tail[k] != '_' by {
                assert(tail[k] == s@[pos + k]);
            }
            lemma_spec_char_ix_unique(tail, '_', j - pos);
        }
        let piece = subrange_vec(s, pos, j);
        assert(piece@ == tail.take(j - pos));
        proof {
            crate::text::lemma_texts_view_push(out@, piece);
        }
        out.push(piece);
        if j == s.len() {
            proof {
                assert(tail.take(j - pos) =~= tail);
                assert(texts_view(out@) =~= spec_split_all(s@, '_'));
            }
            return out;
        }
        proof {
            assert(spec_split_all(tail, '_') == seq![tail.take(j - pos)] + spec_split_all(
                tail.skip(j - pos + 1),
                '_',
            ));
            assert(tail.skip(j - pos + 1) =~= s@.skip(j + 1));
            assert(texts_view(out@) + spec_split_all(s@.skip(j + 1), '_') =~= spec_split_all(
                s@,
                '_',
            ));
        }
        pos = j + 1;
    }
}

/// Splits a raw mnemonic into its ordered pieces. See [`spec_chop`] for the
/// exact rule order.
#[verifier::loop_isolation(false)]
pub fn chop_suffixes(orig: &Vec<char>) -> (r: Vec<Vec<char>>)
    ensures
        texts_view(r@) == spec_chop(orig@),
{
    let specials = special_names_exec();
    let mut k: usize = 0;
    while k < specials.len()
        invariant
            k <= specials.len(),
            texts_view(specials@) == special_names(),
            first_prefix_match(special_names(), orig@, 0) == first_prefix_match(
                special_names(),
                orig@,
                k as int,
            ),
        decreases specials.len() - k,
    {
        assert(special_names()[k as int] == specials@[k as int]@);
        if starts_with(orig, &specials[k]) {
            let mut out: Vec<Vec<char>> = Vec::new();
            if orig.len() == specials[k].len() {
                proof {
                    assert(specials@[k as int]@ =~= orig@);
                }
                out.push(clone_text(orig));
                proof {
                    assert(texts_view(out@) =~= spec_chop(orig@));
                }
            } else {
                let rest = subrange_vec(orig, specials[k].len(), orig.len());
                let name = clone_text(&specials[k]);
                out.push(name);
                out.push(rest);
                proof {
                    assert(orig@ != special_names()[k as int]);
                    assert(texts_view(out@) =~= spec_chop(orig@));
                }
            }
            return out;
        }
        k += 1;
    }
    assert(first_prefix_match(special_names(), orig@, 0) == special_names().len());

    let underscores = count_char(orig, '_');
    let mov = vec!['m', 'o', 'v'];
    assert(mov@ =~= mov_prefix());
    if starts_with(orig, &mov) && underscores > 1 {
        return split_all_underscores(orig);
    }
    if underscores == 0 {
        let mut out: Vec<Vec<char>> = Vec::new();
        out.push(clone_text(orig));
        proof {
            assert(texts_view(out@) =~= spec_chop(orig@));
        }
        return out;
    }

    let suffixes = suffix_names_exec();
    let mut k: usize = 0;
    while k < suffixes.len()
        invariant
            k <= suffixes.len(),
            texts_view(suffixes@) == suffix_names(),
            first_suffix_match(suffix_names(), orig@, 0) == first_suffix_match(
                suffix_names(),
                orig@,
                k as int,
            ),
        decreases suffixes.len() - k,
    {
        assert(suffix_names()[k as int] == suffixes@[k as int]@);
        if ends_with(orig, &suffixes[k]) {
            let cut = orig.len() - suffixes[k].len();
            let head = subrange_vec(orig, 0, cut);
            let tail = subrange_vec(orig, cut, orig.len());
            let mut out: Vec<Vec<char>> = Vec::new();
            out.push(head);
            out.push(tail);
            proof {
                let suff = suffix_names()[k as int];
                assert(suff.is_suffix_of(orig@));
                assert(first_suffix_match(suffix_names(), orig@, k as int) == k as int);
                assert(spec_chop(orig@) == seq![
                    orig@.take(orig@.len() - suff.len()),
                    orig@.skip(orig@.len() - suff.len()),
                ]);
                assert(out@[0]@ =~= orig@.take(cut as int));
                assert(out@[1]@ =~= orig@.skip(cut as int));
                assert(texts_view(out@) =~= spec_chop(orig@));
            }
            return out;
        }
        k += 1;
    }
    assert(first_suffix_match(suffix_names(), orig@, 0) == suffix_names().len());

    let mut out: Vec<Vec<char>> = Vec::new();
    out.push(clone_text(orig));
    proof {
        assert(texts_view(out@) =~= spec_chop(orig@));
    }
    out
}

/// Round-trip law: re-concatenating the pieces of a decomposed mnemonic
/// reproduces the original name exactly. The one family this cannot hold for
/// is the multi-underscore "mov" family, whose split drops its separators;
/// those names are excluded here.
#[verifier::rlimit(50)]
pub proof fn lemma_chop_round_trip(orig: Seq<char>)
    requires
        !(mov_prefix().is_prefix_of(orig) && spec_count_char(orig, '_') >= 2),
    ensures
        spec_chop(orig).flatten() == orig,
{
    let pieces = spec_chop(orig);
    let sp = first_prefix_match(special_names(), orig, 0);
    lemma_first_prefix_match(special_names(), orig, 0);
    if sp < special_names().len() {
        let name = special_names()[sp];
        if orig == name {
            lemma_flatten_single(orig);
        } else {
            assert(name.is_prefix_of(orig));
            lemma_flatten_pair(name, orig.skip(name.len() as int));
            assert(name + orig.skip(name.len() as int) =~= orig);
        }
    } else {
        let n = spec_count_char(orig, '_');
        if n == 0 {
            lemma_flatten_single(orig);
        } else {
            let sx = first_suffix_match(suffix_names(), orig, 0);
            lemma_first_suffix_match(suffix_names(), orig, 0);
            if sx < suffix_names().len() {
                let suff = suffix_names()[sx];
                assert(suff.is_suffix_of(orig));
                let cut = orig.len() - suff.len();
                lemma_flatten_pair(orig.take(cut as int), orig.skip(cut as int));
                assert(orig.take(cut as int) + orig.skip(cut as int) =~= orig);
            } else {
                lemma_flatten_single(orig);
            }
        }
    }
}

/// `flatten` of a one-piece list is the piece.
pub proof fn lemma_flatten_single(s: Seq<char>)
    ensures
        seq![s].flatten() == s,
{
    assert(seq![s].drop_first() =~= Seq::<Seq<char>>::empty());
    assert(seq![s].flatten() == s + Seq::<Seq<char>>::empty().flatten());
    assert(s + Seq::<char>::empty() =~= s);
}

/// `flatten` of a two-piece list is their concatenation.
pub proof fn lemma_flatten_pair(a: Seq<char>, b: Seq<char>)
    ensures
        seq![a, b].flatten() == a + b,
{
    assert(seq![a, b].drop_first() =~= seq![b]);
    assert(seq![a, b].flatten() == a + seq![b].flatten());
    lemma_flatten_single(b);
}

} // verus!
