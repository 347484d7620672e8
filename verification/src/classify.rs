//! Maps each record's piece sequence and terminal primitive operation to a
//! concrete parameter-type signature.
//!
//! The rules form a prioritized ladder: exclusions first (raw node
//! construction and the internal two-stage move helpers), then rules by name
//! (immediate calls and jumps, loads and stores, immediate moves, vararg
//! access), then catch-alls by the terminal primitive's shape, and finally a
//! hard error — an unmatched combination must be classified explicitly,
//! never guessed.

use vstd::prelude::*;
use crate::text::{texts_view, clone_text, clone_texts, text_eq};
use crate::extract::Record;
use crate::variants::spec_before_paren;
use crate::variants::before_paren;

verus! {

/// The type of one parameter of a generated entry.
#[derive(Clone, Copy, Debug, PartialEq, Eq)]
pub enum ParamKind {
    /// A register identifier.
    Register,
    /// A signed machine word.
    Word,
    /// A 32-bit float immediate.
    Float32Imm,
    /// A 64-bit float immediate.
    Float64Imm,
    /// An opaque pointer.
    Pointer,
    /// A 32-bit integer tag.
    Int32,
}

/// The outcome of classifying one record.
#[derive(Debug, PartialEq, Eq)]
pub enum Classification {
    /// The entry is not part of the public surface.
    Excluded,
    /// The entry's ordered parameter list.
    Params(Vec<ParamKind>),
}

/// The unrecognized pattern, reported verbatim: classification must stop the
/// build rather than guess.
#[derive(Debug)]
pub struct ClassifyError {
    pub parts: Vec<Vec<char>>,
    pub invokes: Vec<char>,
}

/// The mathematical outcome of classification.
#[verifier::ext_equal]
pub ghost enum SpecClassification {
    Excluded,
    Params(Seq<ParamKind>),
    Unhandled,
}

/// The abstraction of an executable classification result.
pub open spec fn classification_of(
    r: Result<Classification, ClassifyError>,
) -> SpecClassification {
    match r {
        Result::Ok(Classification::Excluded) => SpecClassification::Excluded,
        Result::Ok(Classification::Params(v)) => SpecClassification::Params(v@),
        Result::Err(_) => SpecClassification::Unhandled,
    }
}

pub open spec fn tok_new_node() -> Seq<char> {
    seq!['n', 'e', 'w', '_', 'n', 'o', 'd', 'e']
}

pub open spec fn tok_mov() -> Seq<char> {
    seq!['m', 'o', 'v']
}

pub open spec fn tok_call() -> Seq<char> {
    seq!['c', 'a', 'l', 'l']
}

pub open spec fn tok_jmp() -> Seq<char> {
    seq!['j', 'm', 'p']
}

pub open spec fn tok_ld() -> Seq<char> {
    seq!['l', 'd']
}

pub open spec fn tok_st() -> Seq<char> {
    seq!['s', 't']
}

pub open spec fn tok_stx() -> Seq<char> {
    seq!['s', 't', 'x']
}

pub open spec fn tok_va_arg() -> Seq<char> {
    seq!['v', 'a', '_', 'a', 'r', 'g']
}

pub open spec fn tok_i() -> Seq<char> {
    seq!['i']
}

pub open spec fn tok_r() -> Seq<char> {
    seq!['r']
}

pub open spec fn tok_d() -> Seq<char> {
    seq!['_', 'd']
}

pub open spec fn tok_f() -> Seq<char> {
    seq!['_', 'f']
}

pub open spec fn nn_qww() -> Seq<char> {
    seq!['j', 'i', 't', '_', 'n', 'e', 'w', '_', 'n', 'o', 'd', 'e', '_', 'q', 'w', 'w']
}

pub open spec fn nn_pwd() -> Seq<char> {
    seq!['j', 'i', 't', '_', 'n', 'e', 'w', '_', 'n', 'o', 'd', 'e', '_', 'p', 'w', 'd']
}

pub open spec fn nn_pwf() -> Seq<char> {
    seq!['j', 'i', 't', '_', 'n', 'e', 'w', '_', 'n', 'o', 'd', 'e', '_', 'p', 'w', 'f']
}

pub open spec fn nn_pww() -> Seq<char> {
    seq!['j', 'i', 't', '_', 'n', 'e', 'w', '_', 'n', 'o', 'd', 'e', '_', 'p', 'w', 'w']
}

pub open spec fn nn_wwd() -> Seq<char> {
    seq!['j', 'i', 't', '_', 'n', 'e', 'w', '_', 'n', 'o', 'd', 'e', '_', 'w', 'w', 'd']
}

pub open spec fn nn_wwf() -> Seq<char> {
    seq!['j', 'i', 't', '_', 'n', 'e', 'w', '_', 'n', 'o', 'd', 'e', '_', 'w', 'w', 'f']
}

pub open spec fn nn_w() -> Seq<char> {
    seq!['j', 'i', 't', '_', 'n', 'e', 'w', '_', 'n', 'o', 'd', 'e', '_', 'w']
}

pub open spec fn nn_ww() -> Seq<char> {
    seq!['j', 'i', 't', '_', 'n', 'e', 'w', '_', 'n', 'o', 'd', 'e', '_', 'w', 'w']
}

pub open spec fn nn_www() -> Seq<char> {
    seq!['j', 'i', 't', '_', 'n', 'e', 'w', '_', 'n', 'o', 'd', 'e', '_', 'w', 'w', 'w']
}

/// The classification ladder, applied to the display pieces of a record and
/// the name of the terminal primitive its expansion invokes. The rule order
/// is load-bearing.
pub open spec fn spec_classify(parts: Seq<Seq<char>>, invokes: Seq<char>) -> SpecClassification {
    if parts.len() >= 1 && parts[0] == tok_new_node() {
        // bottom-level node construction is not part of the public surface
        SpecClassification::Excluded
    } else if parts.len() == 4 && parts[0] == tok_mov() && (parts[1] == tok_i() || parts[1]
        == tok_r()) {
        // internal two-stage move helpers
        SpecClassification::Excluded
    } else if parts.len() == 2 && parts[0] == tok_call() && parts[1] == tok_i() {
        SpecClassification::Params(seq![ParamKind::Pointer])
    } else if parts.len() == 2 && parts[0] == tok_jmp() && parts[1] == tok_i() {
        SpecClassification::Params(Seq::empty())
    } else if (parts.len() == 2 || parts.len() == 3) && parts[0] == tok_ld() && parts[1]
        == tok_i() {
        SpecClassification::Params(seq![ParamKind::Register, ParamKind::Pointer])
    } else if (parts.len() == 2 || parts.len() == 3) && parts[0] == tok_st() && parts[1]
        == tok_i() {
        SpecClassification::Params(seq![ParamKind::Pointer, ParamKind::Register])
    } else if (parts.len() == 2 || parts.len() == 3) && parts[0] == tok_stx() && parts[1]
        == tok_i() {
        SpecClassification::Params(
            seq![ParamKind::Word, ParamKind::Register, ParamKind::Register],
        )
    } else if (parts.len() == 2 || parts.len() == 3) && parts[0] == tok_mov() && parts[1]
        == tok_i() {
        // the immediate's type is inferred from the suffix
        if parts.len() == 2 {
            SpecClassification::Params(seq![ParamKind::Register, ParamKind::Word])
        } else if parts[2] == tok_d() {
            SpecClassification::Params(seq![ParamKind::Register, ParamKind::Float64Imm])
        } else if parts[2] == tok_f() {
            SpecClassification::Params(seq![ParamKind::Register, ParamKind::Float32Imm])
        } else {
            SpecClassification::Unhandled
        }
    } else if parts.len() == 1 && parts[0] == tok_va_arg() {
        SpecClassification::Params(seq![ParamKind::Register, ParamKind::Register])
    } else if parts.len() == 2 && parts[0] == tok_va_arg() && parts[1] == tok_d() {
        SpecClassification::Params(seq![ParamKind::Register, ParamKind::Register])
    } else if parts.len() >= 2 && parts[1] == tok_i() && invokes == nn_qww() {
        SpecClassification::Params(
            seq![ParamKind::Int32, ParamKind::Int32, ParamKind::Register, ParamKind::Register],
        )
    } else if parts.len() >= 2 && parts[1] == tok_r() && invokes == nn_qww() {
        SpecClassification::Params(
            seq![
                ParamKind::Register,
                ParamKind::Register,
                ParamKind::Register,
                ParamKind::Register,
            ],
        )
    } else if parts.len() >= 1 && invokes == nn_pwd() {
        SpecClassification::Params(seq![ParamKind::Register, ParamKind::Float64Imm])
    } else if parts.len() >= 1 && invokes == nn_pwf() {
        SpecClassification::Params(seq![ParamKind::Register, ParamKind::Float32Imm])
    } else if parts.len() >= 2 && parts[1] == tok_r() && invokes == nn_pww() {
        SpecClassification::Params(seq![ParamKind::Register, ParamKind::Register])
    } else if parts.len() >= 2 && parts[1] == tok_i() && invokes == nn_pww() {
        SpecClassification::Params(seq![ParamKind::Register, ParamKind::Word])
    } else if parts.len() == 3 && parts[1] == tok_i() && parts[2] == tok_d() && invokes
        == nn_wwd() {
        SpecClassification::Params(
            seq![ParamKind::Register, ParamKind::Register, ParamKind::Float64Imm],
        )
    } else if parts.len() == 3 && parts[1] == tok_i() && parts[2] == tok_f() && invokes
        == nn_wwf() {
        SpecClassification::Params(
            seq![ParamKind::Register, ParamKind::Register, ParamKind::Float32Imm],
        )
    } else if parts.len() == 2 && parts[1] == tok_r() && invokes == nn_w() {
        SpecClassification::Params(seq![ParamKind::Register])
    } else if parts.len() == 1 && invokes == nn_w() {
        SpecClassification::Params(seq![ParamKind::Word])
    } else if parts.len() >= 2 && parts[1] == tok_r() && invokes == nn_ww() {
        SpecClassification::Params(seq![ParamKind::Register, ParamKind::Register])
    } else if (parts.len() == 2 || parts.len() == 3) && parts[1] == tok_i() && invokes
        == nn_www() {
        SpecClassification::Params(seq![ParamKind::Register, ParamKind::Register, ParamKind::Word])
    } else if (parts.len() == 2 || parts.len() == 3) && parts[1] == tok_r() && invokes
        == nn_www() {
        SpecClassification::Params(
            seq![ParamKind::Register, ParamKind::Register, ParamKind::Register],
        )
    } else {
        SpecClassification::Unhandled
    }
}

/// Classifies one record's display pieces against its terminal primitive.
/// See [`spec_classify`] for the exact ladder.
#[verifier::loop_isolation(false)]
#[verifier::rlimit(60)]
pub fn classify(parts: &Vec<Vec<char>>, invokes: &Vec<char>) -> (r: Result<
    Classification,
    ClassifyError,
>)
    ensures
        classification_of(r) == spec_classify(texts_view(parts@), invokes@),
        r matches Result::Err(e) ==> texts_view(e.parts@) == texts_view(parts@) && e.invokes@
            == invokes@,
{
    let ghost pv = texts_view(parts@);
    let t_new_node = vec!['n', 'e', 'w', '_', 'n', 'o', 'd', 'e'];
    let t_mov = vec!['m', 'o', 'v'];
    let t_call = vec!['c', 'a', 'l', 'l'];
    let t_jmp = vec!['j', 'm', 'p'];
    let t_ld = vec!['l', 'd'];
    let t_st = vec!['s', 't'];
    let t_stx = vec!['s', 't', 'x'];
    let t_va_arg = vec!['v', 'a', '_', 'a', 'r', 'g'];
    let t_i = vec!['i'];
    let t_r = vec!['r'];
    let t_d = vec!['_', 'd'];
    let t_f = vec!['_', 'f'];
    let nn = vec!['j', 'i', 't', '_', 'n', 'e', 'w', '_', 'n', 'o', 'd', 'e', '_'];
    proof {
        assert(t_new_node@ =~= tok_new_node());
        assert(t_mov@ =~= tok_mov());
        assert(t_call@ =~= tok_call());
        assert(t_jmp@ =~= tok_jmp());
        assert(t_ld@ =~= tok_ld());
        assert(t_st@ =~= tok_st());
        assert(t_stx@ =~= tok_stx());
        assert(t_va_arg@ =~= tok_va_arg());
        assert(t_i@ =~= tok_i());
        assert(t_r@ =~= tok_r());
        assert(t_d@ =~= tok_d());
        assert(t_f@ =~= tok_f());
    }
    let mut n_qww = clone_text(&nn);
    n_qww.push('q');
    n_qww.push('w');
    n_qww.push('w');
    let mut n_pwd = clone_text(&nn);
    n_pwd.push('p');
    n_pwd.push('w');
    n_pwd.push('d');
    let mut n_pwf = clone_text(&nn);
    n_pwf.push('p');
    n_pwf.push('w');
    n_pwf.push('f');
    let mut n_pww = clone_text(&nn);
    n_pww.push('p');
    n_pww.push('w');
    n_pww.push('w');
    let mut n_wwd = clone_text(&nn);
    n_wwd.push('w');
    n_wwd.push('w');
    n_wwd.push('d');
    let mut n_wwf = clone_text(&nn);
    n_wwf.push('w');
    n_wwf.push('w');
    n_wwf.push('f');
    let mut n_w = clone_text(&nn);
    n_w.push('w');
    let mut n_ww = clone_text(&nn);
    n_ww.push('w');
    n_ww.push('w');
    let mut n_www = clone_text(&nn);
    n_www.push('w');
    n_www.push('w');
    n_www.push('w');
    proof {
        assert(n_qww@ =~= nn_qww());
        assert(n_pwd@ =~= nn_pwd());
        assert(n_pwf@ =~= nn_pwf());
        assert(n_pww@ =~= nn_pww());
        assert(n_wwd@ =~= nn_wwd());
        assert(n_wwf@ =~= nn_wwf());
        assert(n_w@ =~= nn_w());
        assert(n_ww@ =~= nn_ww());
        assert(n_www@ =~= nn_www());
    }
    proof {
        assert forall|k: int| 0 <= k < parts@.len() implies pv[k] == parts@[k]@ by {}
    }

    let len = parts.len();
    if len >= 1 && text_eq(&parts[0], &t_new_node) {
        return Result::Ok(Classification::Excluded);
    }
    if len == 4 && text_eq(&parts[0], &t_mov) && (text_eq(&parts[1], &t_i) || text_eq(
        &parts[1],
        &t_r,
    )) {
        return Result::Ok(Classification::Excluded);
    }
    if len == 2 && text_eq(&parts[0], &t_call) && text_eq(&parts[1], &t_i) {
        let ps = vec![ParamKind::Pointer];
        assert(ps@ =~= seq![ParamKind::Pointer]);
        return Result::Ok(Classification::Params(ps));
    }
    if len == 2 && text_eq(&parts[0], &t_jmp) && text_eq(&parts[1], &t_i) {
        let ps: Vec<ParamKind> = Vec::new();
        assert(ps@ =~= Seq::<ParamKind>::empty());
        return Result::Ok(Classification::Params(ps));
    }
    if (len == 2 || len == 3) && text_eq(&parts[0], &t_ld) && text_eq(&parts[1], &t_i) {
        let ps = vec![ParamKind::Register, ParamKind::Pointer];
        assert(ps@ =~= seq![ParamKind::Register, ParamKind::Pointer]);
        return Result::Ok(Classification::Params(ps));
    }
    if (len == 2 || len == 3) && text_eq(&parts[0], &t_st) && text_eq(&parts[1], &t_i) {
        let ps = vec![ParamKind::Pointer, ParamKind::Register];
        assert(ps@ =~= seq![ParamKind::Pointer, ParamKind::Register]);
        return Result::Ok(Classification::Params(ps));
    }
    if (len == 2 || len == 3) && text_eq(&parts[0], &t_stx) && text_eq(&parts[1], &t_i) {
        let ps = vec![ParamKind::Word, ParamKind::Register, ParamKind::Register];
        assert(ps@ =~= seq![ParamKind::Word, ParamKind::Register, ParamKind::Register]);
        return Result::Ok(Classification::Params(ps));
    }
    if (len == 2 || len == 3) && text_eq(&parts[0], &t_mov) && text_eq(&parts[1], &t_i) {
        if len == 2 {
            let ps = vec![ParamKind::Register, ParamKind::Word];
            assert(ps@ =~= seq![ParamKind::Register, ParamKind::Word]);
            return Result::Ok(Classification::Params(ps));
        }
        if text_eq(&parts[2], &t_d) {
            let ps = vec![ParamKind::Register, ParamKind::Float64Imm];
            assert(ps@ =~= seq![ParamKind::Register, ParamKind::Float64Imm]);
            return Result::Ok(Classification::Params(ps));
        }
        if text_eq(&parts[2], &t_f) {
            let ps = vec![ParamKind::Register, ParamKind::Float32Imm];
            assert(ps@ =~= seq![ParamKind::Register, ParamKind::Float32Imm]);
            return Result::Ok(Classification::Params(ps));
        }
        return Result::Err(
            ClassifyError { parts: clone_texts(parts), invokes: clone_text(invokes) },
        );
    }
    if len == 1 && text_eq(&parts[0], &t_va_arg) {
        let ps = vec![ParamKind::Register, ParamKind::Register];
        assert(ps@ =~= seq![ParamKind::Register, ParamKind::Register]);
        return Result::Ok(Classification::Params(ps));
    }
    if len == 2 && text_eq(&parts[0], &t_va_arg) && text_eq(&parts[1], &t_d) {
        let ps = vec![ParamKind::Register, ParamKind::Register];
        assert(ps@ =~= seq![ParamKind::Register, ParamKind::Register]);
        return Result::Ok(Classification::Params(ps));
    }
    if len >= 2 && text_eq(&parts[1], &t_i) && text_eq(invokes, &n_qww) {
        let ps = vec![ParamKind::Int32, ParamKind::Int32, ParamKind::Register, ParamKind::Register];
        assert(ps@ =~= seq![
            ParamKind::Int32,
            ParamKind::Int32,
            ParamKind::Register,
            ParamKind::Register,
        ]);
        return Result::Ok(Classification::Params(ps));
    }
    if len >= 2 && text_eq(&parts[1], &t_r) && text_eq(invokes, &n_qww) {
        let ps = vec![
            ParamKind::Register,
            ParamKind::Register,
            ParamKind::Register,
            ParamKind::Register,
        ];
        assert(ps@ =~= seq![
            ParamKind::Register,
            ParamKind::Register,
            ParamKind::Register,
            ParamKind::Register,
        ]);
        return Result::Ok(Classification::Params(ps));
    }
    if len >= 1 && text_eq(invokes, &n_pwd) {
        let ps = vec![ParamKind::Register, ParamKind::Float64Imm];
        assert(ps@ =~= seq![ParamKind::Register, ParamKind::Float64Imm]);
        return Result::Ok(Classification::Params(ps));
    }
    if len >= 1 && text_eq(invokes, &n_pwf) {
        let ps = vec![ParamKind::Register, ParamKind::Float32Imm];
        assert(ps@ =~= seq![ParamKind::Register, ParamKind::Float32Imm]);
        return Result::Ok(Classification::Params(ps));
    }
    if len >= 2 && text_eq(&parts[1], &t_r) && text_eq(invokes, &n_pww) {
        let ps = vec![ParamKind::Register, ParamKind::Register];
        assert(ps@ =~= seq![ParamKind::Register, ParamKind::Register]);
        return Result::Ok(Classification::Params(ps));
    }
    if len >= 2 && text_eq(&parts[1], &t_i) && text_eq(invokes, &n_pww) {
        let ps = vec![ParamKind::Register, ParamKind::Word];
        assert(ps@ =~= seq![ParamKind::Register, ParamKind::Word]);
        return Result::Ok(Classification::Params(ps));
    }
    if len == 3 && text_eq(&parts[1], &t_i) && text_eq(&parts[2], &t_d) && text_eq(
        invokes,
        &n_wwd,
    ) {
        let ps = vec![ParamKind::Register, ParamKind::Register, ParamKind::Float64Imm];
        assert(ps@ =~= seq![ParamKind::Register, ParamKind::Register, ParamKind::Float64Imm]);
        return Result::Ok(Classification::Params(ps));
    }
    if len == 3 && text_eq(&parts[1], &t_i) && text_eq(&parts[2], &t_f) && text_eq(
        invokes,
        &n_wwf,
    ) {
        let ps = vec![ParamKind::Register, ParamKind::Register, ParamKind::Float32Imm];
        assert(ps@ =~= seq![ParamKind::Register, ParamKind::Register, ParamKind::Float32Imm]);
        return Result::Ok(Classification::Params(ps));
    }
    if len == 2 && text_eq(&parts[1], &t_r) && text_eq(invokes, &n_w) {
        let ps = vec![ParamKind::Register];
        assert(ps@ =~= seq![ParamKind::Register]);
        return Result::Ok(Classification::Params(ps));
    }
    if len == 1 && text_eq(invokes, &n_w) {
        let ps = vec![ParamKind::Word];
        assert(ps@ =~= seq![ParamKind::Word]);
        return Result::Ok(Classification::Params(ps));
    }
    if len >= 2 && text_eq(&parts[1], &t_r) && text_eq(invokes, &n_ww) {
        let ps = vec![ParamKind::Register, ParamKind::Register];
        assert(ps@ =~= seq![ParamKind::Register, ParamKind::Register]);
        return Result::Ok(Classification::Params(ps));
    }
    if (len == 2 || len == 3) && text_eq(&parts[1], &t_i) && text_eq(invokes, &n_www) {
        let ps = vec![ParamKind::Register, ParamKind::Register, ParamKind::Word];
        assert(ps@ =~= seq![ParamKind::Register, ParamKind::Register, ParamKind::Word]);
        return Result::Ok(Classification::Params(ps));
    }
    if (len == 2 || len == 3) && text_eq(&parts[1], &t_r) && text_eq(invokes, &n_www) {
        let ps = vec![ParamKind::Register, ParamKind::Register, ParamKind::Register];
        assert(ps@ =~= seq![ParamKind::Register, ParamKind::Register, ParamKind::Register]);
        return Result::Ok(Classification::Params(ps));
    }
    Result::Err(ClassifyError { parts: clone_texts(parts), invokes: clone_text(invokes) })
}

/// The terminal primitive name referenced by an expansion text: the leading
/// identifier before its argument list.
pub open spec fn spec_invokes_of(orig: Seq<char>) -> Seq<char> {
    spec_before_paren(orig)
}

/// Classifies one extracted record: its display pieces against the terminal
/// primitive named by its expansion text.
pub fn classify_record(rec: &Record) -> (r: Result<Classification, ClassifyError>)
    ensures
        classification_of(r) == spec_classify(rec@.pieces, spec_invokes_of(rec@.orig)),
{
    let invokes = before_paren(&rec.orig);
    classify(&rec.pieces, &invokes)
}

pub open spec fn nn_plain() -> Seq<char> {
    seq!['j', 'i', 't', '_', 'n', 'e', 'w', '_', 'n', 'o', 'd', 'e']
}

pub open spec fn nn_d() -> Seq<char> {
    nn_plain() + seq!['_', 'd']
}

pub open spec fn nn_dp() -> Seq<char> {
    nn_plain() + seq!['_', 'd', 'p']
}

pub open spec fn nn_f() -> Seq<char> {
    nn_plain() + seq!['_', 'f']
}

pub open spec fn nn_fp() -> Seq<char> {
    nn_plain() + seq!['_', 'f', 'p']
}

pub open spec fn nn_p() -> Seq<char> {
    nn_plain() + seq!['_', 'p']
}

pub open spec fn nn_pw() -> Seq<char> {
    nn_plain() + seq!['_', 'p', 'w']
}

pub open spec fn nn_wd() -> Seq<char> {
    nn_plain() + seq!['_', 'w', 'd']
}

pub open spec fn nn_wf() -> Seq<char> {
    nn_plain() + seq!['_', 'w', 'f']
}

pub open spec fn nn_wp() -> Seq<char> {
    nn_plain() + seq!['_', 'w', 'p']
}

/// The parameter-type template of one raw node-construction primitive,
/// after its instruction-selector argument: plain, word, word-word,
/// word-word-word, quad-word, pointer-word with optional float, word-float,
/// and word-double shapes. Any other name is not a node-construction
/// primitive.
pub open spec fn spec_primitive_signature(name: Seq<char>) -> Option<Seq<ParamKind>> {
    if name == nn_plain() {
        Option::Some(Seq::empty())
    } else if name == nn_d() {
        Option::Some(seq![ParamKind::Float64Imm])
    } else if name == nn_dp() {
        Option::Some(seq![ParamKind::Float64Imm, ParamKind::Pointer])
    } else if name == nn_f() {
        Option::Some(seq![ParamKind::Float32Imm])
    } else if name == nn_fp() {
        Option::Some(seq![ParamKind::Float32Imm, ParamKind::Pointer])
    } else if name == nn_p() {
        Option::Some(seq![ParamKind::Pointer])
    } else if name == nn_pw() {
        Option::Some(seq![ParamKind::Pointer, ParamKind::Word])
    } else if name == nn_pwd() {
        Option::Some(seq![ParamKind::Pointer, ParamKind::Word, ParamKind::Float64Imm])
    } else if name == nn_pwf() {
        Option::Some(seq![ParamKind::Pointer, ParamKind::Word, ParamKind::Float32Imm])
    } else if name == nn_pww() {
        Option::Some(seq![ParamKind::Pointer, ParamKind::Word, ParamKind::Word])
    } else if name == nn_qww() {
        Option::Some(seq![ParamKind::Int32, ParamKind::Int32, ParamKind::Word, ParamKind::Word])
    } else if name == nn_w() {
        Option::Some(seq![ParamKind::Word])
    } else if name == nn_wd() {
        Option::Some(seq![ParamKind::Word, ParamKind::Float64Imm])
    } else if name == nn_wf() {
        Option::Some(seq![ParamKind::Word, ParamKind::Float32Imm])
    } else if name == nn_wp() {
        Option::Some(seq![ParamKind::Word, ParamKind::Pointer])
    } else if name == nn_ww() {
        Option::Some(seq![ParamKind::Word, ParamKind::Word])
    } else if name == nn_wwd() {
        Option::Some(seq![ParamKind::Word, ParamKind::Word, ParamKind::Float64Imm])
    } else if name == nn_wwf() {
        Option::Some(seq![ParamKind::Word, ParamKind::Word, ParamKind::Float32Imm])
    } else if name == nn_www() {
        Option::Some(seq![ParamKind::Word, ParamKind::Word, ParamKind::Word])
    } else {
        Option::None
    }
}

/// The parameter-type template of a raw node-construction primitive, or
/// nothing for any other name. See [`spec_primitive_signature`].
#[verifier::rlimit(60)]
pub fn primitive_signature(name: &Vec<char>) -> (r: Option<Vec<ParamKind>>)
    ensures
        match r {
            Option::Some(ps) => spec_primitive_signature(name@) == Option::Some(ps@),
            Option::None => spec_primitive_signature(name@) is None,
        },
{
    let nn = vec!['j', 'i', 't', '_', 'n', 'e', 'w', '_', 'n', 'o', 'd', 'e'];
    proof {
        assert(nn@ =~= nn_plain());
    }
    if text_eq(name, &nn) {
        let ps: Vec<ParamKind> = Vec::new();
        assert(ps@ =~= Seq::<ParamKind>::empty());
        return Option::Some(ps);
    }
    let mut two = clone_text(&nn);
    two.push('_');
    let mut n_d = clone_text(&two);
    n_d.push('d');
    let mut n_f = clone_text(&two);
    n_f.push('f');
    let mut n_p = clone_text(&two);
    n_p.push('p');
    let mut n_w = clone_text(&two);
    n_w.push('w');
    proof {
        assert(n_d@ =~= nn_d());
        assert(n_f@ =~= nn_f());
        assert(n_p@ =~= nn_p());
        assert(n_w@ =~= nn_w());
    }
    if text_eq(name, &n_d) {
        let ps = vec![ParamKind::Float64Imm];
        assert(ps@ =~= seq![ParamKind::Float64Imm]);
        return Option::Some(ps);
    }
    if text_eq(name, &n_f) {
        let ps = vec![ParamKind::Float32Imm];
        assert(ps@ =~= seq![ParamKind::Float32Imm]);
        return Option::Some(ps);
    }
    if text_eq(name, &n_p) {
        let ps = vec![ParamKind::Pointer];
        assert(ps@ =~= seq![ParamKind::Pointer]);
        return Option::Some(ps);
    }
    if text_eq(name, &n_w) {
        let ps = vec![ParamKind::Word];
        assert(ps@ =~= seq![ParamKind::Word]);
        return Option::Some(ps);
    }
    let mut n_dp = clone_text(&n_d);
    n_dp.push('p');
    let mut n_fp = clone_text(&n_f);
    n_fp.push('p');
    let mut n_pw = clone_text(&n_p);
    n_pw.push('w');
    let mut n_pwd = clone_text(&n_pw);
    n_pwd.push('d');
    let mut n_pwf = clone_text(&n_pw);
    n_pwf.push('f');
    let mut n_pww = clone_text(&n_pw);
    n_pww.push('w');
    let mut n_qww = clone_text(&two);
    n_qww.push('q');
    n_qww.push('w');
    n_qww.push('w');
    let mut n_wd = clone_text(&n_w);
    n_wd.push('d');
    let mut n_wf = clone_text(&n_w);
    n_wf.push('f');
    let mut n_wp = clone_text(&n_w);
    n_wp.push('p');
    let mut n_ww = clone_text(&n_w);
    n_ww.push('w');
    let mut n_wwd = clone_text(&n_ww);
    n_wwd.push('d');
    let mut n_wwf = clone_text(&n_ww);
    n_wwf.push('f');
    let mut n_www = clone_text(&n_ww);
    n_www.push('w');
    proof {
        assert(n_dp@ =~= nn_dp());
        assert(n_fp@ =~= nn_fp());
        assert(n_pw@ =~= nn_pw());
        assert(n_pwd@ =~= nn_pwd());
        assert(n_pwf@ =~= nn_pwf());
        assert(n_pww@ =~= nn_pww());
        assert(n_qww@ =~= nn_qww());
        assert(n_wd@ =~= nn_wd());
        assert(n_wf@ =~= nn_wf());
        assert(n_wp@ =~= nn_wp());
        assert(n_ww@ =~= nn_ww());
        assert(n_wwd@ =~= nn_wwd());
        assert(n_wwf@ =~= nn_wwf());
        assert(n_www@ =~= nn_www());
    }
    if text_eq(name, &n_dp) {
        let ps = vec![ParamKind::Float64Imm, ParamKind::Pointer];
        assert(ps@ =~= seq![ParamKind::Float64Imm, ParamKind::Pointer]);
        return Option::Some(ps);
    }
    if text_eq(name, &n_fp) {
        let ps = vec![ParamKind::Float32Imm, ParamKind::Pointer];
        assert(ps@ =~= seq![ParamKind::Float32Imm, ParamKind::Pointer]);
        return Option::Some(ps);
    }
    if text_eq(name, &n_pw) {
        let ps = vec![ParamKind::Pointer, ParamKind::Word];
        assert(ps@ =~= seq![ParamKind::Pointer, ParamKind::Word]);
        return Option::Some(ps);
    }
    if text_eq(name, &n_pwd) {
        let ps = vec![ParamKind::Pointer, ParamKind::Word, ParamKind::Float64Imm];
        assert(ps@ =~= seq![ParamKind::Pointer, ParamKind::Word, ParamKind::Float64Imm]);
        return Option::Some(ps);
    }
    if text_eq(name, &n_pwf) {
        let ps = vec![ParamKind::Pointer, ParamKind::Word, ParamKind::Float32Imm];
        assert(ps@ =~= seq![ParamKind::Pointer, ParamKind::Word, ParamKind::Float32Imm]);
        return Option::Some(ps);
    }
    if text_eq(name, &n_pww) {
        let ps = vec![ParamKind::Pointer, ParamKind::Word, ParamKind::Word];
        assert(ps@ =~= seq![ParamKind::Pointer, ParamKind::Word, ParamKind::Word]);
        return Option::Some(ps);
    }
    if text_eq(name, &n_qww) {
        let ps = vec![ParamKind::Int32, ParamKind::Int32, ParamKind::Word, ParamKind::Word];
        assert(ps@ =~= seq![
            ParamKind::Int32,
            ParamKind::Int32,
            ParamKind::Word,
            ParamKind::Word,
        ]);
        return Option::Some(ps);
    }
    if text_eq(name, &n_wd) {
        let ps = vec![ParamKind::Word, ParamKind::Float64Imm];
        assert(ps@ =~= seq![ParamKind::Word, ParamKind::Float64Imm]);
        return Option::Some(ps);
    }
    if text_eq(name, &n_wf) {
        let ps = vec![ParamKind::Word, ParamKind::Float32Imm];
        assert(ps@ =~= seq![ParamKind::Word, ParamKind::Float32Imm]);
        return Option::Some(ps);
    }
    if text_eq(name, &n_wp) {
        let ps = vec![ParamKind::Word, ParamKind::Pointer];
        assert(ps@ =~= seq![ParamKind::Word, ParamKind::Pointer]);
        return Option::Some(ps);
    }
    if text_eq(name, &n_ww) {
        let ps = vec![ParamKind::Word, ParamKind::Word];
        assert(ps@ =~= seq![ParamKind::Word, ParamKind::Word]);
        return Option::Some(ps);
    }
    if text_eq(name, &n_wwd) {
        let ps = vec![ParamKind::Word, ParamKind::Word, ParamKind::Float64Imm];
        assert(ps@ =~= seq![ParamKind::Word, ParamKind::Word, ParamKind::Float64Imm]);
        return Option::Some(ps);
    }
    if text_eq(name, &n_wwf) {
        let ps = vec![ParamKind::Word, ParamKind::Word, ParamKind::Float32Imm];
        assert(ps@ =~= seq![ParamKind::Word, ParamKind::Word, ParamKind::Float32Imm]);
        return Option::Some(ps);
    }
    if text_eq(name, &n_www) {
        let ps = vec![ParamKind::Word, ParamKind::Word, ParamKind::Word];
        assert(ps@ =~= seq![ParamKind::Word, ParamKind::Word, ParamKind::Word]);
        return Option::Some(ps);
    }
    Option::None
}

/// True exactly for the names of the raw node-construction primitives.
pub fn is_new_node_name(name: &Vec<char>) -> (r: bool)
    ensures
        r == (spec_primitive_signature(name@) is Some),
{
    match primitive_signature(name) {
        Option::Some(_) => true,
        Option::None => false,
    }
}

} // verus!
