//! Renders classified records as a stable table of entry declarations.
//!
//! Each record becomes one line binding the entry to its stem, its display
//! pieces, and its original expansion, with every column padded to the width
//! of its widest value. The records are sorted first, so the output is a
//! function of the record set alone: regenerating from the same set, in any
//! order, reproduces the output byte for byte.

use vstd::prelude::*;
use vstd::relations::{sorted_by, total_ordering};
use crate::text::{
    chars_le, texts_le, texts_view, append_text, chars_le_exec, clone_text, clone_texts, text_eq,
    texts_le_exec, lemma_chars_le_antisym, lemma_chars_le_refl, lemma_chars_le_total,
    lemma_chars_le_trans, lemma_texts_le_antisym, lemma_texts_le_total, lemma_texts_le_trans,
    lemma_insert_multiset,
};
use crate::extract::{Record, RecordView, records_view};
use crate::variants::texts_eq_exec;

verus! {

/// Total order on records: by entry, then stem, then pieces, then expansion.
pub open spec fn record_le(a: RecordView, b: RecordView) -> bool {
    if a.entry != b.entry {
        chars_le(a.entry, b.entry)
    } else if a.stem != b.stem {
        chars_le(a.stem, b.stem)
    } else if a.pieces != b.pieces {
        texts_le(a.pieces, b.pieces)
    } else {
        chars_le(a.orig, b.orig)
    }
}

pub proof fn lemma_record_le_refl(a: RecordView)
    ensures
        record_le(a, a),
{
    lemma_chars_le_refl(a.orig);
}

pub proof fn lemma_record_le_total(a: RecordView, b: RecordView)
    ensures
        record_le(a, b) || record_le(b, a),
{
    if a.entry != b.entry {
        lemma_chars_le_total(a.entry, b.entry);
    } else if a.stem != b.stem {
        lemma_chars_le_total(a.stem, b.stem);
    } else if a.pieces != b.pieces {
        lemma_texts_le_total(a.pieces, b.pieces);
    } else {
        lemma_chars_le_total(a.orig, b.orig);
    }
}

pub proof fn lemma_record_le_antisym(a: RecordView, b: RecordView)
    requires
        record_le(a, b),
        record_le(b, a),
    ensures
        a == b,
{
    if a.entry != b.entry {
        lemma_chars_le_antisym(a.entry, b.entry);
    }
    if a.stem != b.stem {
        lemma_chars_le_antisym(a.stem, b.stem);
    }
    if a.pieces != b.pieces {
        lemma_texts_le_antisym(a.pieces, b.pieces);
    }
    lemma_chars_le_antisym(a.orig, b.orig);
    assert(a =~= b);
}

pub proof fn lemma_record_le_trans(a: RecordView, b: RecordView, c: RecordView)
    requires
        record_le(a, b),
        record_le(b, c),
    ensures
        record_le(a, c),
{
    if a == b || b == c {
    } else if a.entry != b.entry && b.entry != c.entry {
        lemma_chars_le_trans(a.entry, b.entry, c.entry);
        if a.entry == c.entry {
            lemma_chars_le_antisym(a.entry, b.entry);
        }
    } else if a.entry == b.entry && b.entry == c.entry {
        if a.stem != b.stem && b.stem != c.stem {
            lemma_chars_le_trans(a.stem, b.stem, c.stem);
            if a.stem == c.stem {
                lemma_chars_le_antisym(a.stem, b.stem);
            }
        } else if a.stem == b.stem && b.stem == c.stem {
            if a.pieces != b.pieces && b.pieces != c.pieces {
                lemma_texts_le_trans(a.pieces, b.pieces, c.pieces);
                if a.pieces == c.pieces {
                    lemma_texts_le_antisym(a.pieces, b.pieces);
                }
            } else if a.pieces == b.pieces && b.pieces == c.pieces {
                lemma_chars_le_trans(a.orig, b.orig, c.orig);
            }
        }
    }
}

/// `record_le` is a total ordering, in the form the sorting lemmas expect.
pub proof fn lemma_record_le_total_ordering()
    ensures
        total_ordering(|x: RecordView, y: RecordView| record_le(x, y)),
{
    let leq = |x: RecordView, y: RecordView| record_le(x, y);
    assert forall|x: RecordView| #[trigger] leq(x, x) by {
        lemma_record_le_refl(x);
    }
    assert forall|x: RecordView, y: RecordView| #[trigger] leq(x, y) && #[trigger] leq(y, x)
        implies x == y by {
        lemma_record_le_antisym(x, y);
    }
    assert forall|x: RecordView, y: RecordView, z: RecordView|
        #[trigger] leq(x, y) && #[trigger] leq(y, z) implies leq(x, z) by {
        lemma_record_le_trans(x, y, z);
    }
    assert forall|x: RecordView, y: RecordView| #[trigger] leq(x, y) || #[trigger] leq(y, x) by {
        lemma_record_le_total(x, y);
    }
}

/// Sortedness of a record list under `record_le`.
pub open spec fn records_sorted(s: Seq<RecordView>) -> bool {
    forall|p: int, q: int| 0 <= p < q < s.len() ==> record_le(s[p], s[q])
}

/// `records_sorted` is `sorted_by` the `record_le` closure.
pub proof fn lemma_records_sorted_by(s: Seq<RecordView>)
    requires
        records_sorted(s),
    ensures
        sorted_by(s, |x: RecordView, y: RecordView| record_le(x, y)),
{
    let leq = |x: RecordView, y: RecordView| record_le(x, y);
    assert forall|p: int, q: int| 0 <= p < q < s.len() implies #[trigger] leq(s[p], s[q]) by {
        assert(record_le(s[p], s[q]));
    }
}

/// Decides `record_le`.
pub fn record_le_exec(a: &Record, b: &Record) -> (r: bool)
    ensures
        r == record_le(a@, b@),
{
    if !text_eq(&a.entry, &b.entry) {
        return chars_le_exec(&a.entry, &b.entry);
    }
    if !text_eq(&a.stem, &b.stem) {
        return chars_le_exec(&a.stem, &b.stem);
    }
    if !texts_eq_exec(&a.pieces, &b.pieces) {
        return texts_le_exec(&a.pieces, &b.pieces);
    }
    chars_le_exec(&a.orig, &b.orig)
}

/// Copies a record.
pub fn clone_record(r: &Record) -> (c: Record)
    ensures
        c@ == r@,
{
    let c = Record {
        entry: clone_text(&r.entry),
        stem: clone_text(&r.stem),
        pieces: clone_texts(&r.pieces),
        orig: clone_text(&r.orig),
    };
    assert(c@ =~= r@);
    c
}

/// Sorts records by `record_le` (insertion sort).
#[verifier::loop_isolation(false)]
pub fn sort_records(v: &Vec<Record>) -> (r: Vec<Record>)
    ensures
        records_sorted(records_view(r@)),
        records_view(r@).to_multiset() == records_view(v@).to_multiset(),
{
    broadcast use vstd::seq_lib::group_to_multiset_ensures;

    let ghost full = records_view(v@);
    assert(full.len() == v@.len());
    let mut out: Vec<Record> = Vec::new();
    assert(records_view(out@) =~= full.take(0));
    let mut i: usize = 0;
    while i < v.len()
        invariant
            i <= v.len(),
            full == records_view(v@),
            full.len() == v@.len(),
            records_sorted(records_view(out@)),
            records_view(out@).to_multiset() == full.take(i as int).to_multiset(),
        decreases v.len() - i,
    {
        let e = clone_record(&v[i]);
        assert(e@ == full[i as int]);
        let ghost pre = records_view(out@);
        proof {
            assert(pre.len() == out@.len());
        }
        let mut j: usize = 0;
        while j < out.len() && record_le_exec(&out[j], &e)
            invariant
                j <= out.len(),
                records_view(out@) == pre,
                pre.len() == out@.len(),
                e@ == full[i as int],
                forall|k: int| 0 <= k < j ==> record_le(#[trigger] pre[k], e@),
            decreases out.len() - j,
        {
            assert(pre[j as int] == out@[j as int]@);
            j += 1;
        }
        proof {
            if j < out.len() {
                assert(pre[j as int] == out@[j as int]@);
                lemma_record_le_total(pre[j as int], e@);
                assert(record_le(e@, pre[j as int]));
            }
            lemma_insert_multiset(pre, j as int, e@);
        }
        out.insert(j, e);
        proof {
            let x = full[i as int];
            let post = pre.insert(j as int, x);
            assert forall|t: int| 0 <= t < out@.len() implies records_view(out@)[t] == post[t] by {
                assert(records_view(out@)[t] == out@[t]@);
                if t < j {
                    assert(post[t] == pre[t]);
                } else if t == j {
                    assert(post[t] == x);
                } else {
                    assert(post[t] == pre[t - 1]);
                }
            }
            assert(records_view(out@) =~= post);
            assert(records_view(out@) == post);
            assert forall|p: int, q: int| 0 <= p < q < post.len() implies record_le(
                #[trigger] post[p],
                #[trigger] post[q],
            ) by {
                if p < j && q == j {
                    assert(post[p] == pre[p]);
                    assert(record_le(pre[p], x));
                } else if p == j && q > j {
                    assert(record_le(x, pre[j as int]));
                    if j < q - 1 {
                        assert(record_le(pre[j as int], pre[q - 1]));
                        lemma_record_le_trans(x, pre[j as int], pre[q - 1]);
                    }
                    assert(record_le(x, pre[q - 1]));
                } else if p < j && q > j {
                    assert(record_le(pre[p], pre[q - 1]));
                } else if q < j {
                    assert(record_le(pre[p], pre[q]));
                } else if p > j {
                    assert(record_le(pre[p - 1], pre[q - 1]));
                }
            }
            assert(post.to_multiset() == pre.to_multiset().insert(x));
            assert(full.take(i + 1) =~= full.take(i as int).push(x));
            full.take(i as int).to_multiset_ensures();
            assert(full.take(i as int).push(x).to_multiset() =~= full.take(
                i as int,
            ).to_multiset().insert(x));
        }
        i += 1;
    }
    assert(full.take(v@.len() as int) =~= full);
    out
}

/// The column separator between display pieces.
pub open spec fn sep_cs() -> Seq<char> {
    seq![',', ' ']
}

/// Joins pieces with the column separator.
pub open spec fn spec_join(pieces: Seq<Seq<char>>, sep: Seq<char>) -> Seq<char>
    decreases pieces.len(),
{
    if pieces.len() == 0 {
        Seq::empty()
    } else if pieces.len() == 1 {
        pieces[0]
    } else {
        spec_join(pieces.drop_last(), sep) + sep + pieces.last()
    }
}

/// Joins pieces with `", "`.
#[verifier::loop_isolation(false)]
pub fn join_pieces(pieces: &Vec<Vec<char>>) -> (r: Vec<char>)
    ensures
        r@ == spec_join(texts_view(pieces@), sep_cs()),
{
    let ghost pv = texts_view(pieces@);
    let sep = vec![',', ' '];
    assert(sep@ =~= sep_cs());
    let mut out: Vec<char> = Vec::new();
    let mut i: usize = 0;
    assert(pv.take(0) =~= Seq::<Seq<char>>::empty());
    while i < pieces.len()
        invariant
            i <= pieces.len(),
            out@ == spec_join(pv.take(i as int), sep_cs()),
        decreases pieces.len() - i,
    {
        if i > 0 {
            append_text(&mut out, &sep);
        }
        append_text(&mut out, &pieces[i]);
        proof {
            assert(pieces@[i as int]@ == pv[i as int]);
            assert(pv.take(i + 1).drop_last() =~= pv.take(i as int));
            assert(pv.take(i + 1).last() == pv[i as int]);
            if i == 0 {
                assert(out@ =~= spec_join(pv.take(1), sep_cs()));
            } else {
                assert(out@ =~= spec_join(pv.take(i + 1), sep_cs()));
            }
        }
        i += 1;
    }
    assert(pv.take(pv.len() as int) =~= pv);
    out
}

/// A run of spaces.
pub open spec fn spec_spaces(n: int) -> Seq<char> {
    if n <= 0 {
        Seq::empty()
    } else {
        Seq::new(n as nat, |i: int| ' ')
    }
}

/// `s` padded on the right with spaces to width `w`.
pub open spec fn spec_pad(s: Seq<char>, w: int) -> Seq<char> {
    s + spec_spaces(w - s.len())
}

/// Appends `s` padded to width `w`.
#[verifier::loop_isolation(false)]
pub fn append_padded(dst: &mut Vec<char>, s: &Vec<char>, w: usize)
    ensures
        final(dst)@ == old(dst)@ + spec_pad(s@, w as int),
{
    append_text(dst, s);
    let mut k: usize = s.len();
    while k < w
        invariant
            s.len() <= k,
            k <= w || k == s.len(),
            dst@ == old(dst)@ + s@ + spec_spaces(k - s@.len()),
        decreases w - k,
    {
        dst.push(' ');
        assert(dst@ =~= old(dst)@ + s@ + spec_spaces(k + 1 - s@.len()));
        k += 1;
    }
    assert(dst@ =~= old(dst)@ + spec_pad(s@, w as int));
}

/// The widest entry text of a record list.
pub open spec fn spec_w_entry(rs: Seq<RecordView>) -> int
    decreases rs.len(),
{
    if rs.len() == 0 {
        0
    } else {
        let rest = spec_w_entry(rs.drop_last());
        if rs.last().entry.len() > rest {
            rs.last().entry.len() as int
        } else {
            rest
        }
    }
}

/// The widest stem text of a record list.
pub open spec fn spec_w_stem(rs: Seq<RecordView>) -> int
    decreases rs.len(),
{
    if rs.len() == 0 {
        0
    } else {
        let rest = spec_w_stem(rs.drop_last());
        if rs.last().stem.len() > rest {
            rs.last().stem.len() as int
        } else {
            rest
        }
    }
}

/// The widest joined piece text of a record list.
pub open spec fn spec_w_pieces(rs: Seq<RecordView>) -> int
    decreases rs.len(),
{
    if rs.len() == 0 {
        0
    } else {
        let rest = spec_w_pieces(rs.drop_last());
        if spec_join(rs.last().pieces, sep_cs()).len() > rest {
            spec_join(rs.last().pieces, sep_cs()).len() as int
        } else {
            rest
        }
    }
}

/// The widest expansion text of a record list.
pub open spec fn spec_w_orig(rs: Seq<RecordView>) -> int
    decreases rs.len(),
{
    if rs.len() == 0 {
        0
    } else {
        let rest = spec_w_orig(rs.drop_last());
        if rs.last().orig.len() > rest {
            rs.last().orig.len() as int
        } else {
            rest
        }
    }
}

pub open spec fn lit_head() -> Seq<char> {
    seq!['j', 'i', 't', '_', 'e', 'n', 't', 'r', 'y', '!', '{', ' ']
}

pub open spec fn lit_arrow() -> Seq<char> {
    seq![' ', '=', '>', ' ']
}

pub open spec fn lit_open_list() -> Seq<char> {
    seq![' ', '=', '>', ' ', '[', ' ']
}

pub open spec fn lit_close_list() -> Seq<char> {
    seq![' ', ']', ' ', '=', '>', ' ']
}

pub open spec fn lit_tail() -> Seq<char> {
    seq![' ', '}']
}

/// One rendered line: the entry, stem, joined pieces, and expansion, each
/// padded to its column width.
pub open spec fn spec_render_line(rec: RecordView, w1: int, w2: int, w3: int, w4: int) -> Seq<
    char,
> {
    lit_head() + spec_pad(rec.entry, w1) + lit_arrow() + spec_pad(rec.stem, w2) + lit_open_list()
        + spec_pad(spec_join(rec.pieces, sep_cs()), w3) + lit_close_list() + spec_pad(
        rec.orig,
        w4,
    ) + lit_tail()
}

/// The rendered lines of a record list, in list order.
pub open spec fn spec_render_lines(rs: Seq<RecordView>, w1: int, w2: int, w3: int, w4: int) -> Seq<
    Seq<char>,
>
    decreases rs.len(),
{
    if rs.len() == 0 {
        Seq::empty()
    } else {
        spec_render_lines(rs.drop_last(), w1, w2, w3, w4).push(
            spec_render_line(rs.last(), w1, w2, w3, w4),
        )
    }
}

/// The emitted table of a record set: the records sorted, then rendered with
/// shared column widths.
pub open spec fn spec_emit_lines(records: Seq<RecordView>) -> Seq<Seq<char>> {
    let sorted = records.sort_by(|x: RecordView, y: RecordView| record_le(x, y));
    spec_render_lines(
        sorted,
        spec_w_entry(sorted),
        spec_w_stem(sorted),
        spec_w_pieces(sorted),
        spec_w_orig(sorted),
    )
}

/// The table has exactly one line per record.
pub proof fn lemma_render_lines_len(rs: Seq<RecordView>, w1: int, w2: int, w3: int, w4: int)
    ensures
        spec_render_lines(rs, w1, w2, w3, w4).len() == rs.len(),
    decreases rs.len(),
{
    if rs.len() > 0 {
        lemma_render_lines_len(rs.drop_last(), w1, w2, w3, w4);
    }
}

/// The emitted table has exactly one line per record.
pub proof fn lemma_emit_count(records: Seq<RecordView>)
    ensures
        spec_emit_lines(records).len() == records.len(),
{
    broadcast use vstd::seq_lib::group_to_multiset_ensures;

    let leq = |x: RecordView, y: RecordView| record_le(x, y);
    lemma_record_le_total_ordering();
    records.lemma_sort_by_ensures(leq);
    let sorted = records.sort_by(leq);
    assert(sorted.to_multiset().len() == records.to_multiset().len());
    lemma_render_lines_len(
        sorted,
        spec_w_entry(sorted),
        spec_w_stem(sorted),
        spec_w_pieces(sorted),
        spec_w_orig(sorted),
    );
}

/// Regeneration law: the emitted table depends on the record set alone. Two
/// record lists with the same elements — the same set, in any order —
/// produce identical output.
pub proof fn lemma_emit_order_independent(r1: Seq<RecordView>, r2: Seq<RecordView>)
    requires
        r1.to_multiset() == r2.to_multiset(),
    ensures
        spec_emit_lines(r1) == spec_emit_lines(r2),
{
    let leq = |x: RecordView, y: RecordView| record_le(x, y);
    lemma_record_le_total_ordering();
    r1.lemma_sort_by_ensures(leq);
    r2.lemma_sort_by_ensures(leq);
    vstd::seq_lib::lemma_sorted_unique(r1.sort_by(leq), r2.sort_by(leq), leq);
}

/// Computes the four column widths of a record list.
#[verifier::loop_isolation(false)]
pub fn column_widths(rs: &Vec<Record>) -> (w: (usize, usize, usize, usize))
    ensures
        w.0 == spec_w_entry(records_view(rs@)),
        w.1 == spec_w_stem(records_view(rs@)),
        w.2 == spec_w_pieces(records_view(rs@)),
        w.3 == spec_w_orig(records_view(rs@)),
{
    let ghost rv = records_view(rs@);
    let mut w1: usize = 0;
    let mut w2: usize = 0;
    let mut w3: usize = 0;
    let mut w4: usize = 0;
    let mut i: usize = 0;
    assert(rv.take(0) =~= Seq::<RecordView>::empty());
    while i < rs.len()
        invariant
            i <= rs.len(),
            w1 == spec_w_entry(rv.take(i as int)),
            w2 == spec_w_stem(rv.take(i as int)),
            w3 == spec_w_pieces(rv.take(i as int)),
            w4 == spec_w_orig(rv.take(i as int)),
        decreases rs.len() - i,
    {
        proof {
            assert(rv.take(i + 1).drop_last() =~= rv.take(i as int));
            assert(rv.take(i + 1).last() == rv[i as int]);
            assert(rv[i as int] == rs@[i as int]@);
        }
        if rs[i].entry.len() > w1 {
            w1 = rs[i].entry.len();
        }
        if rs[i].stem.len() > w2 {
            w2 = rs[i].stem.len();
        }
        let joined = join_pieces(&rs[i].pieces);
        if joined.len() > w3 {
            w3 = joined.len();
        }
        if rs[i].orig.len() > w4 {
            w4 = rs[i].orig.len();
        }
        i += 1;
    }
    assert(rv.take(rv.len() as int) =~= rv);
    (w1, w2, w3, w4)
}

/// Renders one line. See [`spec_render_line`].
pub fn render_line(rec: &Record, w1: usize, w2: usize, w3: usize, w4: usize) -> (r: Vec<char>)
    ensures
        r@ == spec_render_line(rec@, w1 as int, w2 as int, w3 as int, w4 as int),
{
    let mut out: Vec<char> = Vec::new();
    let head = vec!['j', 'i', 't', '_', 'e', 'n', 't', 'r', 'y', '!', '{', ' '];
    let arrow = vec![' ', '=', '>', ' '];
    let open_list = vec![' ', '=', '>', ' ', '[', ' '];
    let close_list = vec![' ', ']', ' ', '=', '>', ' '];
    let tail = vec![' ', '}'];
    proof {
        assert(head@ =~= lit_head());
        assert(arrow@ =~= lit_arrow());
        assert(open_list@ =~= lit_open_list());
        assert(close_list@ =~= lit_close_list());
        assert(tail@ =~= lit_tail());
    }
    append_text(&mut out, &head);
    append_padded(&mut out, &rec.entry, w1);
    append_text(&mut out, &arrow);
    append_padded(&mut out, &rec.stem, w2);
    append_text(&mut out, &open_list);
    let joined = join_pieces(&rec.pieces);
    append_padded(&mut out, &joined, w3);
    append_text(&mut out, &close_list);
    append_padded(&mut out, &rec.orig, w4);
    append_text(&mut out, &tail);
    assert(out@ =~= spec_render_line(rec@, w1 as int, w2 as int, w3 as int, w4 as int));
    out
}

/// Renders the sorted table of a record list, one line per record.
#[verifier::loop_isolation(false)]
pub fn emit_lines(records: &Vec<Record>) -> (r: Vec<Vec<char>>)
    ensures
        texts_view(r@) == spec_emit_lines(records_view(records@)),
{
    let sorted = sort_records(records);
    let ghost leq = |x: RecordView, y: RecordView| record_le(x, y);
    proof {
        lemma_record_le_total_ordering();
        records_view(records@).lemma_sort_by_ensures(leq);
        lemma_records_sorted_by(records_view(sorted@));
        vstd::seq_lib::lemma_sorted_unique(
            records_view(sorted@),
            records_view(records@).sort_by(leq),
            leq,
        );
        assert(records_view(sorted@) == records_view(records@).sort_by(leq));
    }
    let ghost sv = records_view(sorted@);
    let (w1, w2, w3, w4) = column_widths(&sorted);
    let mut out: Vec<Vec<char>> = Vec::new();
    let mut i: usize = 0;
    assert(texts_view(out@) =~= spec_render_lines(
        sv.take(0),
        w1 as int,
        w2 as int,
        w3 as int,
        w4 as int,
    ));
    while i < sorted.len()
        invariant
            i <= sorted.len(),
            texts_view(out@) == spec_render_lines(
                sv.take(i as int),
                w1 as int,
                w2 as int,
                w3 as int,
                w4 as int,
            ),
        decreases sorted.len() - i,
    {
        let line = render_line(&sorted[i], w1, w2, w3, w4);
        proof {
            crate::text::lemma_texts_view_push(out@, line);
            assert(sv.take(i + 1).drop_last() =~= sv.take(i as int));
            assert(sv.take(i + 1).last() == sv[i as int]);
            assert(sv[i as int] == sorted@[i as int]@);
        }
        out.push(line);
        i += 1;
    }
    assert(sv.take(sv.len() as int) =~= sv);
    out
}

pub open spec fn lit_file_head() -> Seq<char> {
    seq!['j', 'i', 't', '_', 'e', 'n', 't', 'r', 'i', 'e', 's', '!', '{', '\n']
}

pub open spec fn lit_indent() -> Seq<char> {
    seq![' ', ' ', ' ', ' ']
}

pub open spec fn lit_file_tail() -> Seq<char> {
    seq!['}', '\n']
}

/// The body of the entries file: each line indented and newline-terminated.
pub open spec fn spec_file_body(lines: Seq<Seq<char>>) -> Seq<char>
    decreases lines.len(),
{
    if lines.len() == 0 {
        Seq::empty()
    } else {
        spec_file_body(lines.drop_last()) + lit_indent() + lines.last() + seq!['\n']
    }
}

/// The whole entries file: header, sorted table, footer. Regenerating from
/// the same record set reproduces this text byte for byte.
pub open spec fn spec_entries_file(records: Seq<RecordView>) -> Seq<char> {
    lit_file_head() + spec_file_body(spec_emit_lines(records)) + lit_file_tail()
}

/// Renders the whole entries file.
#[verifier::loop_isolation(false)]
pub fn render_entries_file(records: &Vec<Record>) -> (r: Vec<char>)
    ensures
        r@ == spec_entries_file(records_view(records@)),
{
    let lines = emit_lines(records);
    let ghost lv = texts_view(lines@);
    let mut out: Vec<char> = Vec::new();
    let file_head = vec!['j', 'i', 't', '_', 'e', 'n', 't', 'r', 'i', 'e', 's', '!', '{', '\n'];
    let indent = vec![' ', ' ', ' ', ' '];
    proof {
        assert(file_head@ =~= lit_file_head());
        assert(indent@ =~= lit_indent());
    }
    append_text(&mut out, &file_head);
    let ghost base = out@;
    let mut i: usize = 0;
    assert(out@ =~= base + spec_file_body(lv.take(0)));
    while i < lines.len()
        invariant
            i <= lines.len(),
            out@ == base + spec_file_body(lv.take(i as int)),
        decreases lines.len() - i,
    {
        append_text(&mut out, &indent);
        append_text(&mut out, &lines[i]);
        out.push('\n');
        proof {
            assert(lv.take(i + 1).drop_last() =~= lv.take(i as int));
            assert(lv.take(i + 1).last() == lv[i as int]);
            assert(lines@[i as int]@ == lv[i as int]);
            assert(out@ =~= base + spec_file_body(lv.take(i + 1)));
        }
        i += 1;
    }
    assert(lv.take(lv.len() as int) =~= lv);
    let file_tail = vec!['}', '\n'];
    assert(file_tail@ =~= lit_file_tail());
    append_text(&mut out, &file_tail);
    assert(out@ =~= spec_entries_file(records_view(records@)));
    out
}

} // verus!
