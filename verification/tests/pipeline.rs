use lightning_sys::classify::{
    classify, is_new_node_name, primitive_signature, Classification, ParamKind,
};
use lightning_sys::decompose::chop_suffixes;
use lightning_sys::emit::{emit_lines, render_entries_file};
use lightning_sys::extract::{parse_macros, RawEntry, Record};
use lightning_sys::variants::{kind_match, make_inverse_variants, make_roots, make_stems};

fn t(s: &str) -> Vec<char> {
    s.chars().collect()
}

fn ts(v: &Vec<char>) -> String {
    v.iter().collect()
}

fn pieces_of(v: &Vec<Vec<char>>) -> Vec<String> {
    v.iter().map(|p| p.iter().collect()).collect()
}

fn pair(name: &str, expansion: &str) -> RawEntry {
    RawEntry { name: t(name), expansion: t(expansion) }
}

#[test]
fn chop_known_suffix() {
    assert_eq!(pieces_of(&chop_suffixes(&t("addr_f"))), vec!["addr", "_f"]);
    assert_eq!(pieces_of(&chop_suffixes(&t("ldr_ui"))), vec!["ldr", "_ui"]);
    assert_eq!(pieces_of(&chop_suffixes(&t("stxr_i"))), vec!["stxr", "_i"]);
    assert_eq!(pieces_of(&chop_suffixes(&t("ldi_p"))), vec!["ldi", "_p"]);
}

#[test]
fn chop_specials() {
    assert_eq!(pieces_of(&chop_suffixes(&t("new_node_ww"))), vec!["new_node", "_ww"]);
    assert_eq!(pieces_of(&chop_suffixes(&t("new_node"))), vec!["new_node"]);
    assert_eq!(pieces_of(&chop_suffixes(&t("va_arg_d"))), vec!["va_arg", "_d"]);
    assert_eq!(pieces_of(&chop_suffixes(&t("va_arg"))), vec!["va_arg"]);
    assert_eq!(pieces_of(&chop_suffixes(&t("extr_d"))), vec!["extr", "_d"]);
    assert_eq!(pieces_of(&chop_suffixes(&t("truncr_f_i"))), vec!["truncr", "_f_i"]);
}

#[test]
fn chop_atomic_and_fallback() {
    assert_eq!(pieces_of(&chop_suffixes(&t("addr"))), vec!["addr"]);
    assert_eq!(pieces_of(&chop_suffixes(&t("va_end"))), vec!["va_end"]);
}

#[test]
fn chop_multi_underscore_mov() {
    assert_eq!(pieces_of(&chop_suffixes(&t("movi_d_w"))), vec!["movi", "d", "w"]);
    assert_eq!(pieces_of(&chop_suffixes(&t("movr_w_f"))), vec!["movr", "w", "f"]);
}

#[test]
fn chop_round_trip() {
    // re-joining the pieces reproduces the input for every rule but the
    // multi-underscore mov split
    for name in ["addr_f", "new_node_ww", "va_arg_d", "va_end", "stxr_i", "ret", "extr_d"] {
        let joined: String = chop_suffixes(&t(name)).iter().flat_map(|p| p.iter()).collect();
        assert_eq!(joined, name);
    }
    // the excluded family: the separators are dropped
    let joined: String = chop_suffixes(&t("movi_d_w")).iter().flat_map(|p| p.iter()).collect();
    assert_eq!(joined, "movidw");
}

#[test]
fn stems_and_roots() {
    let keys = vec![
        t("jit_stxr_i(u,v,w)"),
        t("jit_stxi_i(u,v,w)"),
        t("jit_addr(u,v,w)"),
        t("jit_addi(u,v,w)"),
        t("jit_ret()"),
        t("jit_addr(u,v,w)"),
    ];
    let stems = make_stems(&keys);
    // deduplicated and sorted
    assert_eq!(stems.len(), 5);
    let as_strings: Vec<Vec<String>> = stems.iter().map(pieces_of).collect();
    assert_eq!(
        as_strings,
        vec![
            vec!["addi".to_string()],
            vec!["addr".to_string()],
            vec!["ret".to_string()],
            vec!["stxi".to_string(), "_i".to_string()],
            vec!["stxr".to_string(), "_i".to_string()],
        ]
    );
    let roots = make_roots(&stems);
    let root_strings: Vec<String> = roots.iter().map(ts).collect();
    assert_eq!(root_strings, vec!["add", "ret", "stx"]);
}

#[test]
fn kind_match_tie_break() {
    // one extra character is accepted only when it is a discriminator letter
    assert!(kind_match(&t("st"), &t("str")));
    assert!(kind_match(&t("stx"), &t("stxr")));
    assert!(kind_match(&t("stx"), &t("stxi")));
    assert!(!kind_match(&t("st"), &t("stx")));
    assert!(!kind_match(&t("st"), &t("stxr")));
    // equal pieces always match
    assert!(kind_match(&t("ret"), &t("ret")));
    // a discriminator-looking piece with an underscore does not match
    assert!(!kind_match(&t("va_arg"), &t("va_argr")));
}

#[test]
fn extract_records() {
    let pairs = vec![
        pair("jit_addr(u,v,w)", "jit_new_node_www(jit_code_addr,u,v,w)"),
        pair("jit_addi(u,v,w)", "jit_new_node_www(jit_code_addi,u,v,w)"),
        pair("jit_ret()", "_jit_ret(_jit)"),
        pair("jit_movi_d_w(u,v)", "jit_new_node_wd(jit_code_movi_d_w,u,v)"),
    ];
    let records = parse_macros(&pairs);
    // the multi-underscore mov is unmappable and skipped; nothing else is
    assert_eq!(records.len(), 3);
    assert!(records.len() <= pairs.len());

    assert_eq!(ts(&records[0].entry), "jit_addr(u,v,w)");
    assert_eq!(ts(&records[0].stem), "addr");
    assert_eq!(pieces_of(&records[0].pieces), vec!["add", "r"]);
    assert_eq!(ts(&records[0].orig), "jit_new_node_www(jit_code_addr,u,v,w)");

    assert_eq!(pieces_of(&records[1].pieces), vec!["add", "i"]);

    // an exact-form entry shows the bare root: nothing remains after
    // trimming the root off the stem
    assert_eq!(ts(&records[2].stem), "ret");
    assert_eq!(pieces_of(&records[2].pieces), vec!["ret"]);

    // the root heads every record and is a prefix of its stem
    for rec in &records {
        let root = ts(&rec.pieces[0]);
        assert!(ts(&rec.stem).starts_with(&root));
    }
}

#[test]
fn inverse_map_misses_are_skipped() {
    let keys = vec![t("jit_movi_d_w(u,v)"), t("jit_movr(u,v)"), t("jit_movi(u,v)")];
    let stems = make_stems(&keys);
    let roots = make_roots(&stems);
    let inverse = make_inverse_variants(&roots, &stems);
    // movr and movi are mappable; the split of movi_d_w drops its
    // underscores, so its key never appears
    let keys_present: Vec<String> = inverse.iter().map(|p| ts(&p.key)).collect();
    assert!(keys_present.contains(&"movr".to_string()));
    assert!(keys_present.contains(&"movi".to_string()));
    assert!(!keys_present.contains(&"movi_d_w".to_string()));
    assert!(keys_present.contains(&"movidw".to_string()));
}

fn params(r: Result<Classification, lightning_sys::classify::ClassifyError>) -> Vec<ParamKind> {
    match r {
        Ok(Classification::Params(v)) => v,
        other => panic!("expected a parameter list, got {:?}", other),
    }
}

fn tt(parts: &[&str]) -> Vec<Vec<char>> {
    parts.iter().map(|p| t(p)).collect()
}

#[test]
fn classify_exclusions() {
    let r = classify(&tt(&["new_node", "_ww"]), &t("_jit_new_node_ww"));
    assert!(matches!(r, Ok(Classification::Excluded)));
    let r = classify(&tt(&["mov", "i", "d", "w"]), &t("jit_new_node_wd"));
    assert!(matches!(r, Ok(Classification::Excluded)));
    let r = classify(&tt(&["mov", "r", "w", "f"]), &t("jit_new_node_wf"));
    assert!(matches!(r, Ok(Classification::Excluded)));
}

#[test]
fn classify_by_name() {
    assert_eq!(params(classify(&tt(&["call", "i"]), &t("jit_new_node_p"))), vec![ParamKind::Pointer]);
    assert_eq!(params(classify(&tt(&["jmp", "i"]), &t("jit_new_node_p"))), vec![]);
    assert_eq!(
        params(classify(&tt(&["ld", "i", "_l"]), &t("jit_new_node_wp"))),
        vec![ParamKind::Register, ParamKind::Pointer]
    );
    assert_eq!(
        params(classify(&tt(&["st", "i", "_s"]), &t("jit_new_node_pw"))),
        vec![ParamKind::Pointer, ParamKind::Register]
    );
    assert_eq!(
        params(classify(&tt(&["stx", "i", "_c"]), &t("jit_new_node_www"))),
        vec![ParamKind::Word, ParamKind::Register, ParamKind::Register]
    );
    assert_eq!(params(classify(&tt(&["mov", "i"]), &t("jit_new_node_w"))), vec![ParamKind::Register, ParamKind::Word]);
    assert_eq!(
        params(classify(&tt(&["mov", "i", "_d"]), &t("jit_new_node_wd"))),
        vec![ParamKind::Register, ParamKind::Float64Imm]
    );
    assert_eq!(
        params(classify(&tt(&["mov", "i", "_f"]), &t("jit_new_node_wf"))),
        vec![ParamKind::Register, ParamKind::Float32Imm]
    );
    assert_eq!(
        params(classify(&tt(&["va_arg"]), &t("jit_new_node_ww"))),
        vec![ParamKind::Register, ParamKind::Register]
    );
    assert_eq!(
        params(classify(&tt(&["va_arg", "_d"]), &t("jit_new_node_ww"))),
        vec![ParamKind::Register, ParamKind::Register]
    );
}

#[test]
fn classify_by_primitive() {
    assert_eq!(
        params(classify(&tt(&["qmul", "r"]), &t("jit_new_node_qww"))),
        vec![ParamKind::Register, ParamKind::Register, ParamKind::Register, ParamKind::Register]
    );
    assert_eq!(
        params(classify(&tt(&["qmul", "i"]), &t("jit_new_node_qww"))),
        vec![ParamKind::Int32, ParamKind::Int32, ParamKind::Register, ParamKind::Register]
    );
    assert_eq!(
        params(classify(&tt(&["beq", "i", "_d"]), &t("jit_new_node_pwd"))),
        vec![ParamKind::Register, ParamKind::Float64Imm]
    );
    assert_eq!(
        params(classify(&tt(&["beq", "i", "_f"]), &t("jit_new_node_pwf"))),
        vec![ParamKind::Register, ParamKind::Float32Imm]
    );
    assert_eq!(
        params(classify(&tt(&["beq", "r"]), &t("jit_new_node_pww"))),
        vec![ParamKind::Register, ParamKind::Register]
    );
    assert_eq!(
        params(classify(&tt(&["beq", "i"]), &t("jit_new_node_pww"))),
        vec![ParamKind::Register, ParamKind::Word]
    );
    assert_eq!(
        params(classify(&tt(&["add", "i", "_d"]), &t("jit_new_node_wwd"))),
        vec![ParamKind::Register, ParamKind::Register, ParamKind::Float64Imm]
    );
    assert_eq!(
        params(classify(&tt(&["add", "i", "_f"]), &t("jit_new_node_wwf"))),
        vec![ParamKind::Register, ParamKind::Register, ParamKind::Float32Imm]
    );
    assert_eq!(params(classify(&tt(&["jmp", "r"]), &t("jit_new_node_w"))), vec![ParamKind::Register]);
    assert_eq!(params(classify(&tt(&["calli"]), &t("jit_new_node_w"))), vec![ParamKind::Word]);
    assert_eq!(
        params(classify(&tt(&["neg", "r"]), &t("jit_new_node_ww"))),
        vec![ParamKind::Register, ParamKind::Register]
    );
    assert_eq!(
        params(classify(&tt(&["add", "i"]), &t("jit_new_node_www"))),
        vec![ParamKind::Register, ParamKind::Register, ParamKind::Word]
    );
    assert_eq!(
        params(classify(&tt(&["add", "r"]), &t("jit_new_node_www"))),
        vec![ParamKind::Register, ParamKind::Register, ParamKind::Register]
    );
}

#[test]
fn classify_unhandled_is_an_error() {
    let r = classify(&tt(&["zzz", "q"]), &t("mystery_primitive"));
    match r {
        Err(e) => {
            let parts: Vec<String> = e.parts.iter().map(|p| p.iter().collect()).collect();
            assert_eq!(parts, vec!["zzz", "q"]);
            let invokes: String = e.invokes.iter().collect();
            assert_eq!(invokes, "mystery_primitive");
        }
        other => panic!("an unhandled pattern must be an error, got {:?}", other),
    }
    // an unknown immediate-move suffix is also unhandled
    assert!(classify(&tt(&["mov", "i", "_w"]), &t("jit_new_node_ww")).is_err());
}

fn sample_pairs() -> Vec<RawEntry> {
    vec![
        pair("jit_addr(u,v,w)", "jit_new_node_www(jit_code_addr,u,v,w)"),
        pair("jit_addi(u,v,w)", "jit_new_node_www(jit_code_addi,u,v,w)"),
        pair("jit_ret()", "_jit_ret(_jit)"),
    ]
}

#[test]
fn emit_exact_lines() {
    let records = parse_macros(&sample_pairs());
    let lines = emit_lines(&records);
    assert_eq!(lines.len(), records.len());
    let rendered: Vec<String> = lines.iter().map(|l| l.iter().collect()).collect();
    assert_eq!(
        rendered[0],
        "jit_entry!{ jit_addi(u,v,w) => addi => [ add, i ] => jit_new_node_www(jit_code_addi,u,v,w) }"
    );
    assert_eq!(
        rendered[1],
        "jit_entry!{ jit_addr(u,v,w) => addr => [ add, r ] => jit_new_node_www(jit_code_addr,u,v,w) }"
    );
    assert_eq!(
        rendered[2],
        "jit_entry!{ jit_ret()       => ret  => [ ret    ] => _jit_ret(_jit)                        }"
    );
}

#[test]
fn emit_idempotent_and_order_independent() {
    let once = render_entries_file(&parse_macros(&sample_pairs()));
    let twice = render_entries_file(&parse_macros(&sample_pairs()));
    assert_eq!(once, twice);

    // the same entry set in another order produces identical output
    let mut shuffled = sample_pairs();
    shuffled.reverse();
    let reordered = render_entries_file(&parse_macros(&shuffled));
    assert_eq!(once, reordered);

    let text: String = once.iter().collect();
    assert!(text.starts_with("jit_entries!{\n"));
    assert!(text.ends_with("}\n"));
}

#[test]
fn records_never_outnumber_entries() {
    let pairs = vec![
        pair("jit_addr(u,v,w)", "jit_new_node_www(jit_code_addr,u,v,w)"),
        pair("jit_movi_d_w(u,v)", "jit_new_node_wd(jit_code_movi_d_w,u,v)"),
        pair("jit_movr_w_d(u,v)", "jit_new_node_ww(jit_code_movr_w_d,u,v)"),
    ];
    let records: Vec<Record> = parse_macros(&pairs);
    assert!(records.len() <= pairs.len());
    assert_eq!(records.len(), 1);
}

#[test]
fn primitive_signature_table() {
    // the node-construction primitives and their arity/type templates
    let names = [
        "jit_new_node",
        "jit_new_node_d",
        "jit_new_node_dp",
        "jit_new_node_f",
        "jit_new_node_fp",
        "jit_new_node_p",
        "jit_new_node_pw",
        "jit_new_node_pwd",
        "jit_new_node_pwf",
        "jit_new_node_pww",
        "jit_new_node_qww",
        "jit_new_node_w",
        "jit_new_node_wd",
        "jit_new_node_wf",
        "jit_new_node_wp",
        "jit_new_node_ww",
        "jit_new_node_wwd",
        "jit_new_node_wwf",
        "jit_new_node_www",
    ];
    assert_eq!(names.len(), 19);
    for name in names {
        assert!(is_new_node_name(&t(name)), "{} must be in the table", name);
    }
    assert_eq!(primitive_signature(&t("jit_new_node")), Some(vec![]));
    assert_eq!(
        primitive_signature(&t("jit_new_node_qww")),
        Some(vec![ParamKind::Int32, ParamKind::Int32, ParamKind::Word, ParamKind::Word])
    );
    assert_eq!(
        primitive_signature(&t("jit_new_node_pwf")),
        Some(vec![ParamKind::Pointer, ParamKind::Word, ParamKind::Float32Imm])
    );
    assert_eq!(
        primitive_signature(&t("jit_new_node_www")),
        Some(vec![ParamKind::Word, ParamKind::Word, ParamKind::Word])
    );
    assert!(!is_new_node_name(&t("_jit_ret")));
    assert!(!is_new_node_name(&t("jit_new_node_wwq")));
    assert_eq!(primitive_signature(&t("jit_cpu")), None);
}

#[test]
fn emitter_matches_hand_worked_corpus() {
    // a corpus spanning every decomposition rule, with the table each
    // entry must produce, worked out by hand from the rules
    let pairs = vec![
        pair("jit_addi(u,v,w)", "jit_new_node_www(jit_code_addi,u,v,w)"),
        pair("jit_addi_d(u,v,w)", "jit_new_node_wwd(jit_code_addi_d,u,v,w)"),
        pair("jit_addr(u,v,w)", "jit_new_node_www(jit_code_addr,u,v,w)"),
        pair("jit_addr_f(u,v,w)", "jit_new_node_www(jit_code_addr_f,u,v,w)"),
        pair("jit_beqi(v,w)", "jit_new_node_pww(jit_code_beqi,NULL,v,w)"),
        pair("jit_beqi_d(v,w)", "jit_new_node_pwd(jit_code_beqi_d,NULL,v,w)"),
        pair("jit_beqr(v,w)", "jit_new_node_pww(jit_code_beqr,NULL,v,w)"),
        pair("jit_calli(u)", "jit_new_node_p(jit_code_calli,u)"),
        pair("jit_callr(u)", "jit_new_node_w(jit_code_callr,u)"),
        pair("jit_extr(u,v)", "jit_new_node_ww(jit_code_extr,u,v)"),
        pair("jit_extr_d(u,v)", "jit_new_node_ww(jit_code_extr_d,u,v)"),
        pair("jit_jmpi()", "jit_new_node(jit_code_jmpi)"),
        pair("jit_jmpr(u)", "jit_new_node_w(jit_code_jmpr,u)"),
        pair("jit_ldi_ui(u,v)", "jit_new_node_wp(jit_code_ldi_ui,u,v)"),
        pair("jit_ldxi_l(u,v,w)", "jit_new_node_www(jit_code_ldxi_l,u,v,w)"),
        pair("jit_movi(u,v)", "jit_new_node_ww(jit_code_movi,u,v)"),
        pair("jit_movi_d(u,v)", "jit_new_node_wd(jit_code_movi_d,u,v)"),
        pair("jit_movi_d_w(u,v)", "jit_new_node_wd(jit_code_movi_d_w,u,v)"),
        pair("jit_movr(u,v)", "jit_new_node_ww(jit_code_movr,u,v)"),
        pair("jit_movr_w_f(u,v)", "jit_new_node_ww(jit_code_movr_w_f,u,v)"),
        pair("jit_new_node_ww(c,u,v)", "_jit_new_node_ww(_jit,c,u,v)"),
        pair("jit_qmuli(l,h,v,w)", "jit_new_node_qww(jit_code_qmuli,l,h,v,w)"),
        pair("jit_qmulr(l,h,v,w)", "jit_new_node_qww(jit_code_qmulr,l,h,v,w)"),
        pair("jit_ret()", "_jit_ret(_jit)"),
        pair("jit_sti_i(u,v)", "jit_new_node_pw(jit_code_sti_i,u,v)"),
        pair("jit_stxr_i(u,v,w)", "jit_new_node_www(jit_code_stxr_i,u,v,w)"),
        pair("jit_truncr_d_i(u,v)", "jit_new_node_ww(jit_code_truncr_d_i,u,v)"),
        pair("jit_va_arg(u,v)", "jit_new_node_ww(jit_code_va_arg,u,v)"),
        pair("jit_va_arg_d(u,v)", "jit_new_node_ww(jit_code_va_arg_d,u,v)"),
        pair("jit_va_end(u)", "_jit_va_end(_jit,u)"),
    ];
    let records = parse_macros(&pairs);
    // the two multi-underscore movs are unmappable; all else maps
    assert_eq!(records.len(), 28);
    let rendered: Vec<String> = emit_lines(&records).iter().map(|l| l.iter().collect()).collect();
    let expected = vec![
        "jit_entry!{ jit_addi(u,v,w)        => addi        => [ add, i         ] => jit_new_node_www(jit_code_addi,u,v,w)      }",
        "jit_entry!{ jit_addi_d(u,v,w)      => addi_d      => [ add, i, _d     ] => jit_new_node_wwd(jit_code_addi_d,u,v,w)    }",
        "jit_entry!{ jit_addr(u,v,w)        => addr        => [ add, r         ] => jit_new_node_www(jit_code_addr,u,v,w)      }",
        "jit_entry!{ jit_addr_f(u,v,w)      => addr_f      => [ add, r, _f     ] => jit_new_node_www(jit_code_addr_f,u,v,w)    }",
        "jit_entry!{ jit_beqi(v,w)          => beqi        => [ beq, i         ] => jit_new_node_pww(jit_code_beqi,NULL,v,w)   }",
        "jit_entry!{ jit_beqi_d(v,w)        => beqi_d      => [ beq, i, _d     ] => jit_new_node_pwd(jit_code_beqi_d,NULL,v,w) }",
        "jit_entry!{ jit_beqr(v,w)          => beqr        => [ beq, r         ] => jit_new_node_pww(jit_code_beqr,NULL,v,w)   }",
        "jit_entry!{ jit_calli(u)           => calli       => [ call, i        ] => jit_new_node_p(jit_code_calli,u)           }",
        "jit_entry!{ jit_callr(u)           => callr       => [ call, r        ] => jit_new_node_w(jit_code_callr,u)           }",
        "jit_entry!{ jit_extr(u,v)          => extr        => [ ext, r         ] => jit_new_node_ww(jit_code_extr,u,v)         }",
        "jit_entry!{ jit_extr_d(u,v)        => extr_d      => [ ext, r, _d     ] => jit_new_node_ww(jit_code_extr_d,u,v)       }",
        "jit_entry!{ jit_jmpi()             => jmpi        => [ jmp, i         ] => jit_new_node(jit_code_jmpi)                }",
        "jit_entry!{ jit_jmpr(u)            => jmpr        => [ jmp, r         ] => jit_new_node_w(jit_code_jmpr,u)            }",
        "jit_entry!{ jit_ldi_ui(u,v)        => ldi_ui      => [ ld, i, _ui     ] => jit_new_node_wp(jit_code_ldi_ui,u,v)       }",
        "jit_entry!{ jit_ldxi_l(u,v,w)      => ldxi_l      => [ ldx, i, _l     ] => jit_new_node_www(jit_code_ldxi_l,u,v,w)    }",
        "jit_entry!{ jit_movi(u,v)          => movi        => [ mov, i         ] => jit_new_node_ww(jit_code_movi,u,v)         }",
        "jit_entry!{ jit_movi_d(u,v)        => movi_d      => [ mov, i, _d     ] => jit_new_node_wd(jit_code_movi_d,u,v)       }",
        "jit_entry!{ jit_movr(u,v)          => movr        => [ mov, r         ] => jit_new_node_ww(jit_code_movr,u,v)         }",
        "jit_entry!{ jit_new_node_ww(c,u,v) => new_node_ww => [ new_node, _ww  ] => _jit_new_node_ww(_jit,c,u,v)               }",
        "jit_entry!{ jit_qmuli(l,h,v,w)     => qmuli       => [ qmul, i        ] => jit_new_node_qww(jit_code_qmuli,l,h,v,w)   }",
        "jit_entry!{ jit_qmulr(l,h,v,w)     => qmulr       => [ qmul, r        ] => jit_new_node_qww(jit_code_qmulr,l,h,v,w)   }",
        "jit_entry!{ jit_ret()              => ret         => [ ret            ] => _jit_ret(_jit)                             }",
        "jit_entry!{ jit_sti_i(u,v)         => sti_i       => [ st, i, _i      ] => jit_new_node_pw(jit_code_sti_i,u,v)        }",
        "jit_entry!{ jit_stxr_i(u,v,w)      => stxr_i      => [ stx, r, _i     ] => jit_new_node_www(jit_code_stxr_i,u,v,w)    }",
        "jit_entry!{ jit_truncr_d_i(u,v)    => truncr_d_i  => [ trunc, r, _d_i ] => jit_new_node_ww(jit_code_truncr_d_i,u,v)   }",
        "jit_entry!{ jit_va_arg(u,v)        => va_arg      => [ va_arg         ] => jit_new_node_ww(jit_code_va_arg,u,v)       }",
        "jit_entry!{ jit_va_arg_d(u,v)      => va_arg_d    => [ va_arg, _d     ] => jit_new_node_ww(jit_code_va_arg_d,u,v)     }",
        "jit_entry!{ jit_va_end(u)          => va_end      => [ va_end         ] => _jit_va_end(_jit,u)                        }",
    ];
    assert_eq!(rendered, expected);
}
