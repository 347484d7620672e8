//! Produces one structured record per mappable raw entry.
//!
//! For each raw (name, expansion) pair, the text before the argument list is
//! stripped of the common prefix and traced back to its owning root through
//! the inverse map. The record carries the entry name, the stem, the ordered
//! display pieces (the root followed by the non-empty discriminator and
//! suffix labels), and the original expansion text. An entry whose stem
//! cannot be traced to any root is skipped: this is the permissive
//! configuration, and the skipped entries are exactly the inverse-map misses.

use vstd::prelude::*;
use crate::text::{stems_view, texts_view, clone_text};
use crate::variants::{
    InversePair, jit_prefix, lookup_root, make_inverse_variants, make_roots, make_stems,
    pairs_view, spec_before_paren, spec_inverse_pairs, spec_lookup_root, spec_make_roots,
    spec_make_stems, spec_trim_prefix, spec_variants_of, before_paren, trim_prefix, variants_of,
    lemma_variants_of_members, concat_pieces,
};

verus! {

/// One classified entry: the full entry text, its stem, the ordered display
/// pieces, and the original expansion text.
pub struct Record {
    pub entry: Vec<char>,
    pub stem: Vec<char>,
    pub pieces: Vec<Vec<char>>,
    pub orig: Vec<char>,
}

/// The mathematical content of a record.
#[verifier::ext_equal]
pub ghost struct RecordView {
    pub entry: Seq<char>,
    pub stem: Seq<char>,
    pub pieces: Seq<Seq<char>>,
    pub orig: Seq<char>,
}

impl View for Record {
    type V = RecordView;

    open spec fn view(&self) -> RecordView {
        RecordView {
            entry: self.entry@,
            stem: self.stem@,
            pieces: texts_view(self.pieces@),
            orig: self.orig@,
        }
    }
}

/// The abstraction of a record list.
pub open spec fn records_view(v: Seq<Record>) -> Seq<RecordView> {
    Seq::new(v.len(), |i: int| v[i]@)
}

/// One raw entry: a macro name with its argument list, and its expansion.
pub struct RawEntry {
    pub name: Vec<char>,
    pub expansion: Vec<char>,
}

/// The mathematical content of a raw entry.
#[verifier::ext_equal]
pub ghost struct RawEntryView {
    pub name: Seq<char>,
    pub expansion: Seq<char>,
}

impl View for RawEntry {
    type V = RawEntryView;

    open spec fn view(&self) -> RawEntryView {
        RawEntryView { name: self.name@, expansion: self.expansion@ }
    }
}

/// The abstraction of a raw entry list.
pub open spec fn entries_view(v: Seq<RawEntry>) -> Seq<RawEntryView> {
    Seq::new(v.len(), |i: int| v[i]@)
}

/// Index of the first variant-set member whose concatenation is `core`, or
/// the member count when none matches.
pub open spec fn spec_find_member(members: Seq<Seq<Seq<char>>>, core: Seq<char>) -> int
    decreases members.len(),
{
    if members.len() == 0 {
        0
    } else if members[0].flatten() == core {
        0
    } else {
        1 + spec_find_member(members.drop_first(), core)
    }
}

pub proof fn lemma_spec_find_member(members: Seq<Seq<Seq<char>>>, core: Seq<char>)
    ensures
        0 <= spec_find_member(members, core) <= members.len(),
        spec_find_member(members, core) < members.len() ==> members[spec_find_member(
            members,
            core,
        )].flatten() == core,
        forall|m: int|
            0 <= m < spec_find_member(members, core) ==> (#[trigger] members[m]).flatten()
                != core,
    decreases members.len(),
{
    if members.len() > 0 && members[0].flatten() != core {
        lemma_spec_find_member(members.drop_first(), core);
        let ix = spec_find_member(members, core);
        assert forall|m: int| 0 <= m < ix implies (#[trigger] members[m]).flatten() != core by {
            if m > 0 {
                assert(members.drop_first()[m - 1] == members[m]);
            }
        }
    }
}

/// Any index with the first-match properties is `spec_find_member`.
pub proof fn lemma_spec_find_member_unique(
    members: Seq<Seq<Seq<char>>>,
    core: Seq<char>,
    m: int,
)
    requires
        0 <= m <= members.len(),
        m < members.len() ==> members[m].flatten() == core,
        forall|k: int| 0 <= k < m ==> (#[trigger] members[k]).flatten() != core,
    ensures
        spec_find_member(members, core) == m,
{
    lemma_spec_find_member(members, core);
    let ix = spec_find_member(members, core);
    if ix < m {
        assert(members[ix].flatten() != core);
    }
    if m < ix {
        assert(members[m].flatten() != core);
    }
}

/// The ordered display pieces derived from one stem.
pub open spec fn spec_display_of(iv: Seq<char>, member: Seq<Seq<char>>) -> Seq<Seq<char>> {
    if member.len() == 0 {
        seq![iv]
    } else {
        let t = spec_trim_prefix(member[0], iv);
        let head: Seq<Seq<char>> = if t.len() == 0 {
            seq![iv]
        } else {
            seq![iv, t]
        };
        head + member.skip(1)
    }
}

/// The record extracted from one raw entry, if its stem can be traced to a
/// root; the permissive configuration skips the others.
pub open spec fn spec_extract(
    roots: Seq<Seq<char>>,
    stems: Seq<Seq<Seq<char>>>,
    entry: Seq<char>,
    orig: Seq<char>,
) -> Option<RecordView> {
    let core = spec_trim_prefix(spec_before_paren(entry), jit_prefix());
    match spec_lookup_root(spec_inverse_pairs(roots, stems), core) {
        Option::Some(iv) => {
            let members = spec_variants_of(iv, stems);
            let f = spec_find_member(members, core);
            if f == members.len() {
                Option::None
            } else {
                Option::Some(
                    RecordView {
                        entry: entry,
                        stem: core,
                        pieces: spec_display_of(iv, members[f]),
                        orig: orig,
                    },
                )
            }
        },
        Option::None => Option::None,
    }
}

/// Builds the display pieces of one found member.
#[verifier::loop_isolation(false)]
pub fn display_of(iv: &Vec<char>, member: &Vec<Vec<char>>) -> (r: Vec<Vec<char>>)
    ensures
        texts_view(r@) == spec_display_of(iv@, texts_view(member@)),
{
    let ghost mv = texts_view(member@);
    let mut out: Vec<Vec<char>> = Vec::new();
    let root = clone_text(iv);
    proof {
        crate::text::lemma_texts_view_push(out@, root);
    }
    out.push(root);
    if member.len() == 0 {
        assert(texts_view(out@) =~= spec_display_of(iv@, mv));
        return out;
    }
    let trimmed = if iv.len() == 0 {
        let t = clone_text(&member[0]);
        assert(t@ == spec_trim_prefix(mv[0], iv@));
        t
    } else {
        let t = trim_prefix(&member[0], iv);
        assert(member@[0]@ == mv[0]);
        t
    };
    if trimmed.len() > 0 {
        proof {
            crate::text::lemma_texts_view_push(out@, trimmed);
        }
        out.push(trimmed);
    }
    let ghost head = texts_view(out@);
    let mut k: usize = 1;
    proof {
        assert(mv.subrange(1, 1) =~= Seq::<Seq<char>>::empty());
        assert(head + mv.subrange(1, 1) =~= head);
    }
    while k < member.len()
        invariant
            1 <= k <= member.len(),
            texts_view(out@) == head + mv.subrange(1, k as int),
        decreases member.len() - k,
    {
        let piece = clone_text(&member[k]);
        proof {
            crate::text::lemma_texts_view_push(out@, piece);
            assert(member@[k as int]@ == mv[k as int]);
        }
        out.push(piece);
        assert(texts_view(out@) =~= head + mv.subrange(1, k + 1));
        k += 1;
    }
    proof {
        assert(mv.subrange(1, mv.len() as int) =~= mv.skip(1));
        assert(texts_view(out@) =~= spec_display_of(iv@, mv));
    }
    out
}

/// Extracts the record of one raw entry against the family tables.
#[verifier::loop_isolation(false)]
pub fn extract(
    roots: &Vec<Vec<char>>,
    stems: &Vec<Vec<Vec<char>>>,
    inverse: &Vec<InversePair>,
    entry: &Vec<char>,
    orig: &Vec<char>,
) -> (r: Option<Record>)
    requires
        pairs_view(inverse@) == spec_inverse_pairs(texts_view(roots@), stems_view(stems@)),
    ensures
        match r {
            Option::Some(rec) => spec_extract(
                texts_view(roots@),
                stems_view(stems@),
                entry@,
                orig@,
            ) == Option::Some(rec@),
            Option::None => spec_extract(
                texts_view(roots@),
                stems_view(stems@),
                entry@,
                orig@,
            ) is None,
        },
{
    let brief = before_paren(entry);
    let prefix = vec!['j', 'i', 't', '_'];
    assert(prefix@ =~= jit_prefix());
    let core = trim_prefix(&brief, &prefix);
    let found = lookup_root(inverse, &core);
    match found {
        Option::Some(iv) => {
            let members = variants_of(&iv, stems);
            let ghost msv = stems_view(members@);
            let mut f: usize = 0;
            while f < members.len()
                invariant
                    f <= members.len(),
                    msv == stems_view(members@),
                    forall|m: int| 0 <= m < f ==> (#[trigger] msv[m]).flatten() != core@,
                decreases members.len() - f,
            {
                let key = concat_pieces(&members[f]);
                proof {
                    assert(texts_view(members@[f as int]@) == msv[f as int]);
                }
                if crate::text::text_eq(&key, &core) {
                    proof {
                        lemma_spec_find_member_unique(msv, core@, f as int);
                    }
                    let pieces = display_of(&iv, &members[f]);
                    let rec = Record {
                        entry: clone_text(entry),
                        stem: core,
                        pieces,
                        orig: clone_text(orig),
                    };
                    return Option::Some(rec);
                }
                f += 1;
            }
            proof {
                lemma_spec_find_member_unique(msv, core@, msv.len() as int);
            }
            Option::None
        },
        Option::None => Option::None,
    }
}

/// Applies extraction to every raw entry in order, keeping the successes.
pub open spec fn spec_extract_all(
    roots: Seq<Seq<char>>,
    stems: Seq<Seq<Seq<char>>>,
    entries: Seq<RawEntryView>,
) -> Seq<RecordView>
    decreases entries.len(),
{
    if entries.len() == 0 {
        Seq::empty()
    } else {
        let rest = spec_extract_all(roots, stems, entries.drop_last());
        match spec_extract(roots, stems, entries.last().name, entries.last().expansion) {
            Option::Some(rec) => rest.push(rec),
            Option::None => rest,
        }
    }
}

/// The classification pipeline on a raw entry list: stems, roots, and one
/// record per mappable entry, in input order.
pub open spec fn spec_parse_macros(entries: Seq<RawEntryView>) -> Seq<RecordView> {
    let keys = entries.map_values(|e: RawEntryView| e.name);
    let stems = spec_make_stems(keys);
    let roots = spec_make_roots(stems);
    spec_extract_all(roots, stems, entries)
}

/// At most one record comes out of each raw entry.
pub proof fn lemma_extract_all_len(
    roots: Seq<Seq<char>>,
    stems: Seq<Seq<Seq<char>>>,
    entries: Seq<RawEntryView>,
)
    ensures
        spec_extract_all(roots, stems, entries).len() <= entries.len(),
    decreases entries.len(),
{
    if entries.len() > 0 {
        lemma_extract_all_len(roots, stems, entries.drop_last());
    }
}

/// Parses a raw entry list into records.
#[verifier::loop_isolation(false)]
pub fn parse_macros(pairs: &Vec<RawEntry>) -> (r: Vec<Record>)
    ensures
        records_view(r@) == spec_parse_macros(entries_view(pairs@)),
        r@.len() <= pairs@.len(),
{
    let ghost ev = entries_view(pairs@);
    let mut keys: Vec<Vec<char>> = Vec::new();
    let mut i: usize = 0;
    assert(texts_view(keys@) =~= ev.take(0).map_values(|e: RawEntryView| e.name));
    while i < pairs.len()
        invariant
            i <= pairs.len(),
            texts_view(keys@) == ev.take(i as int).map_values(|e: RawEntryView| e.name),
        decreases pairs.len() - i,
    {
        let name = clone_text(&pairs[i].name);
        proof {
            crate::text::lemma_texts_view_push(keys@, name);
            assert(ev[i as int] == pairs@[i as int]@);
        }
        keys.push(name);
        assert(texts_view(keys@) =~= ev.take(i + 1).map_values(|e: RawEntryView| e.name));
        i += 1;
    }
    assert(ev.take(ev.len() as int) =~= ev);

    let stems = make_stems(&keys);
    let roots = make_roots(&stems);
    let inverse = make_inverse_variants(&roots, &stems);

    let ghost rv = texts_view(roots@);
    let ghost sv = stems_view(stems@);
    let mut out: Vec<Record> = Vec::new();
    let mut i: usize = 0;
    assert(records_view(out@) =~= spec_extract_all(rv, sv, ev.take(0)));
    while i < pairs.len()
        invariant
            i <= pairs.len(),
            records_view(out@) == spec_extract_all(rv, sv, ev.take(i as int)),
            out@.len() <= i,
            pairs_view(inverse@) == spec_inverse_pairs(rv, sv),
        decreases pairs.len() - i,
    {
        proof {
            assert(ev.take(i + 1).drop_last() =~= ev.take(i as int));
            assert(ev.take(i + 1).last() == ev[i as int]);
            assert(ev[i as int] == pairs@[i as int]@);
        }
        let got = extract(&roots, &stems, &inverse, &pairs[i].name, &pairs[i].expansion);
        match got {
            Option::Some(rec) => {
                let ghost pre = out@;
                out.push(rec);
                proof {
                    assert forall|t: int| 0 <= t < out@.len() implies records_view(out@)[t]
                        == spec_extract_all(rv, sv, ev.take(i + 1))[t] by {
                        if t < pre.len() {
                            assert(out@[t] == pre[t]);
                            assert(records_view(pre)[t] == spec_extract_all(
                                rv,
                                sv,
                                ev.take(i as int),
                            )[t]);
                        }
                    }
                    assert(records_view(out@) =~= spec_extract_all(rv, sv, ev.take(i + 1)));
                }
            },
            Option::None => {
                assert(records_view(out@) == spec_extract_all(rv, sv, ev.take(i + 1)));
            },
        }
        i += 1;
    }
    assert(ev.take(ev.len() as int) =~= ev);
    out
}

/// The root heads every record: the first display piece is the owning root,
/// and it is a prefix of the record's stem.
pub proof fn lemma_extract_root_prefix(
    roots: Seq<Seq<char>>,
    stems: Seq<Seq<Seq<char>>>,
    entry: Seq<char>,
    orig: Seq<char>,
)
    ensures
        match spec_extract(roots, stems, entry, orig) {
            Option::Some(rec) => rec.pieces.len() > 0 && rec.pieces[0].is_prefix_of(rec.stem),
            Option::None => true,
        },
{
    let core = spec_trim_prefix(spec_before_paren(entry), jit_prefix());
    match spec_lookup_root(spec_inverse_pairs(roots, stems), core) {
        Option::Some(iv) => {
            let members = spec_variants_of(iv, stems);
            let f = spec_find_member(members, core);
            lemma_spec_find_member(members, core);
            if f < members.len() {
                let member = members[f];
                lemma_variants_of_members(iv, stems, f);
                assert(iv.is_prefix_of(crate::variants::spec_first(member)));
                let pieces = spec_display_of(iv, member);
                assert(pieces[0] == iv);
                if member.len() == 0 {
                    assert(member.flatten() == Seq::<char>::empty());
                    assert(iv.len() == 0);
                    assert(iv.is_prefix_of(core));
                } else {
                    lemma_first_prefix_of_flatten(member);
                    lemma_prefix_trans(iv, member[0], member.flatten());
                }
            }
        },
        Option::None => {},
    }
}

/// The first piece of a non-empty stem is a prefix of its concatenation.
pub proof fn lemma_first_prefix_of_flatten(member: Seq<Seq<char>>)
    requires
        member.len() > 0,
    ensures
        member[0].is_prefix_of(member.flatten()),
{
    assert(member.flatten() == member[0] + member.drop_first().flatten());
    assert((member[0] + member.drop_first().flatten()).take(member[0].len() as int) =~= member[0]);
}

/// Prefixes chain: a prefix of a prefix is a prefix.
pub proof fn lemma_prefix_trans(a: Seq<char>, b: Seq<char>, c: Seq<char>)
    requires
        a.is_prefix_of(b),
        b.is_prefix_of(c),
    ensures
        a.is_prefix_of(c),
{
    assert(a =~= c.take(a.len() as int)) by {
        assert forall|k: int| 0 <= k < a.len() implies a[k] == c[k] by {
            assert(a[k] == b[k]);
            assert(b[k] == c.take(b.len() as int)[k]);
        }
    }
}

/// Permissive-skip law: extraction of an entry succeeds exactly when its
/// stem can be traced to a root through the inverse map. A skipped entry is
/// precisely an inverse-map miss; a mappable entry is never silently
/// dropped.
pub proof fn lemma_extract_some_iff(
    roots: Seq<Seq<char>>,
    stems: Seq<Seq<Seq<char>>>,
    entry: Seq<char>,
    orig: Seq<char>,
)
    ensures
        (spec_extract(roots, stems, entry, orig) is Some) <==> (spec_lookup_root(
            spec_inverse_pairs(roots, stems),
            spec_trim_prefix(spec_before_paren(entry), jit_prefix()),
        ) is Some),
{
    let core = spec_trim_prefix(spec_before_paren(entry), jit_prefix());
    let inv = spec_inverse_pairs(roots, stems);
    match spec_lookup_root(inv, core) {
        Option::Some(iv) => {
            crate::variants::lemma_lookup_root_entry(inv, core);
            let t = choose|t: int| 0 <= t < inv.len() && #[trigger] inv[t] == (core, iv);
            crate::variants::lemma_inverse_pairs_member(roots, stems, t);
            let (rix, m) = choose|rix: int, m: int|
                0 <= rix < roots.len() && 0 <= m < spec_variants_of(roots[rix], stems).len()
                    && inv[t] == (
                (#[trigger] spec_variants_of(roots[rix], stems)[m]).flatten(),
                roots[rix],
                );
            assert(roots[rix] == iv);
            let members = spec_variants_of(iv, stems);
            assert(members[m].flatten() == core);
            lemma_spec_find_member(members, core);
            if spec_find_member(members, core) == members.len() {
                assert(members[m].flatten() != core);
            }
        },
        Option::None => {},
    }
}

/// The root-prefix law over the whole pipeline: every record the parse
/// produces is headed by its owning root, and that root is a prefix of the
/// record's stem.
pub proof fn lemma_extract_all_root_prefix(
    roots: Seq<Seq<char>>,
    stems: Seq<Seq<Seq<char>>>,
    entries: Seq<RawEntryView>,
    k: int,
)
    requires
        0 <= k < spec_extract_all(roots, stems, entries).len(),
    ensures
        spec_extract_all(roots, stems, entries)[k].pieces.len() > 0,
        spec_extract_all(roots, stems, entries)[k].pieces[0].is_prefix_of(
            spec_extract_all(roots, stems, entries)[k].stem,
        ),
    decreases entries.len(),
{
    if entries.len() > 0 {
        let rest = spec_extract_all(roots, stems, entries.drop_last());
        if k < rest.len() {
            lemma_extract_all_root_prefix(roots, stems, entries.drop_last(), k);
        } else {
            lemma_extract_root_prefix(
                roots,
                stems,
                entries.last().name,
                entries.last().expansion,
            );
        }
    }
}

} // verus!
