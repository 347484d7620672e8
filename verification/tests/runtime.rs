use lightning_sys::jit::{Jit, JitLib, SingletonError};
use lightning_sys::jitstate::{EmitError, NodeKind, OpCode, Operand};
use lightning_sys::types::{Reg, RegCaps, RegClass, RegError};

fn caps() -> RegCaps {
    RegCaps { r: 16, v: 8, f: 8 }
}

fn t(s: &str) -> Vec<char> {
    s.chars().collect()
}

#[test]
fn singleton_init_teardown_cycle() {
    let mut lib = JitLib::new();
    assert!(lib.try_init().is_ok());
    // a second initialization while one is active is rejected
    assert_eq!(lib.try_init(), Err(SingletonError::AlreadyActive));
    // after the active one is torn down, initialization succeeds again
    assert_eq!(lib.teardown(), Ok(true));
    assert!(lib.try_init().is_ok());
    assert_eq!(lib.teardown(), Ok(true));
    // a teardown without an active initialization is rejected
    assert_eq!(lib.teardown(), Err(SingletonError::NotActive));
}

#[test]
fn test_jit() {
    let mut lib = JitLib::new();
    {
        let (jit, first) = Jit::new(&mut lib, caps());
        assert!(first);
        let (jit2, first2) = Jit::new(&mut lib, caps());
        assert!(!first2);
        assert!(!jit2.release(&mut lib));
        assert!(jit.release(&mut lib));
    }
    {
        // the whole cycle repeats once the state returned to uninitialized
        let (jit, first) = Jit::new(&mut lib, caps());
        assert!(first);
        let (jit2, first2) = Jit::new(&mut lib, caps());
        assert!(!first2);
        assert!(!jit.release(&mut lib));
        assert!(jit2.release(&mut lib));
    }
}

#[test]
fn test_reg_num() {
    let mut lib = JitLib::new();
    let (jit, _) = Jit::new(&mut lib, caps());
    assert!(jit.r_num() >= 3);
    assert!(jit.v_num() >= 3);
    assert!(jit.f_num() >= 6);
    assert_eq!(jit.r_num(), 16);
    assert_eq!(jit.v_num(), 8);
    assert_eq!(jit.f_num(), 8);
    jit.release(&mut lib);
}

#[test]
fn register_validation_bounds() {
    let c = caps();
    // index equal to the class's reported count fails, class-labeled
    assert_eq!(
        Reg::R(c.r).validate(&c),
        Err(RegError { class: RegClass::General, index: 16 })
    );
    assert_eq!(Reg::V(c.v).validate(&c), Err(RegError { class: RegClass::Saved, index: 8 }));
    assert_eq!(Reg::F(c.f).validate(&c), Err(RegError { class: RegClass::Float, index: 8 }));
    // one below the count succeeds
    assert!(Reg::R(c.r - 1).validate(&c).is_ok());
    assert!(Reg::V(c.v - 1).validate(&c).is_ok());
    assert!(Reg::F(c.f - 1).validate(&c).is_ok());
    // index zero succeeds
    assert!(Reg::R(0).validate(&c).is_ok());
    assert!(Reg::V(0).validate(&c).is_ok());
    assert!(Reg::F(0).validate(&c).is_ok());
    // the frame pointer is always valid
    assert!(Reg::FP.validate(&c).is_ok());
}

#[test]
fn increment_function_structure() {
    // build: prolog, fetch the argument, add one, return it
    let mut lib = JitLib::new();
    let (mut jit, _) = Jit::new(&mut lib, caps());
    let mut js = jit.new_state();

    js.prolog();
    let inarg = js.arg();
    js.getarg(Reg::R(0), &inarg).unwrap();
    js.addi(Reg::R(0), Reg::R(0), 1).unwrap();
    js.retr(Reg::R(0)).unwrap();

    assert_eq!(js.nodes.len(), 5);
    assert_eq!(js.nodes[0].code, Some(OpCode::Prolog));
    assert_eq!(js.nodes[1].code, Some(OpCode::Arg));
    assert_eq!(js.nodes[2].code, Some(OpCode::Getarg));
    assert_eq!(
        js.nodes[2].operands,
        vec![Operand::Gpr(Reg::R(0)), Operand::NodeRef(inarg.index)]
    );
    assert_eq!(js.nodes[3].code, Some(OpCode::Addi));
    assert_eq!(
        js.nodes[3].operands,
        vec![Operand::Gpr(Reg::R(0)), Operand::Gpr(Reg::R(0)), Operand::Imm(1)]
    );
    assert_eq!(js.nodes[4].code, Some(OpCode::Retr));

    // the model semantics of the built program: adding one
    assert_eq!(js.run(vec![5], 1000), Some(6));
    assert_eq!(js.run(vec![6], 1000), Some(7));
    assert_eq!(js.run(vec![-1], 1000), Some(0));

    let base = js.emit(0x1000);
    assert_eq!(base, 0x1000);
    js.clear_state();
    assert_eq!(js.nodes.len(), 0);
    assert!(!js.realized);
    jit.release(&mut lib);
}

#[test]
fn factorial_unit_structure() {
    // a self-referential two-function unit: the entry calls the
    // forward-declared accumulator-passing body through a patched call, and
    // the body loops through a patched tail jump
    let mut lib = JitLib::new();
    let (mut jit, _) = Jit::new(&mut lib, caps());
    let mut js = jit.new_state();

    let fact = js.forward();

    js.prolog();
    let inarg = js.arg();
    js.getarg(Reg::R(0), &inarg).unwrap();
    js.prepare();
    js.pushargi(1);
    js.pushargr(Reg::R(0)).unwrap();
    let call = js.finishi(0);
    js.patch_at(&call, &fact).unwrap();
    js.retval(Reg::R(0)).unwrap();
    js.retr(Reg::R(0)).unwrap();
    js.epilog();

    js.link(&fact).unwrap();
    js.prolog();
    js.frame(16);
    let f_ent = js.label();
    let ac = js.arg();
    let ina = js.arg();
    js.getarg(Reg::R(0), &ac).unwrap();
    js.getarg(Reg::R(1), &ina).unwrap();
    let f_out = js.blei(Reg::R(1), 1).unwrap();
    js.mulr(Reg::R(0), Reg::R(0), Reg::R(1)).unwrap();
    js.putargr(Reg::R(0), &ac).unwrap();
    js.subi(Reg::R(1), Reg::R(1), 1).unwrap();
    js.putargr(Reg::R(1), &ina).unwrap();
    let jump = js.jmpi();
    js.patch_at(&jump, &f_ent).unwrap();
    js.patch(&f_out).unwrap();
    js.retr(Reg::R(0)).unwrap();

    // the call targets the forward declaration, the tail jump targets the
    // loop entry
    assert_eq!(js.nodes[call.index].target, Some(fact.index));
    assert_eq!(js.nodes[jump.index].target, Some(f_ent.index));
    // linking placed the forward declaration
    assert!(js.nodes[fact.index].placed.is_some());
    // the exit branch was patched to the label placed after the loop
    assert!(js.nodes[f_out.index].target.is_some());

    // the model semantics of the built unit: factorial through
    // accumulator-passing tail calls
    assert_eq!(js.run(vec![5], 10_000), Some(120));
    assert_eq!(js.run(vec![1], 10_000), Some(1));
    assert_eq!(js.run(vec![4], 10_000), Some(24));

    let base = js.emit(0x4000);
    // the patched call resolves to the linked body's final address
    assert_eq!(js.target_address(&call).unwrap(), js.address(&fact).unwrap());
    // the tail jump resolves to the loop entry's address
    assert_eq!(js.target_address(&jump).unwrap(), js.address(&f_ent).unwrap());
    assert!(js.address(&fact).unwrap() >= base);
    jit.release(&mut lib);
}

#[test]
fn forward_link_patch_resolution() {
    let mut lib = JitLib::new();
    let (mut jit, _) = Jit::new(&mut lib, caps());
    let mut js = jit.new_state();

    let fwd = js.forward();
    assert_eq!(js.forward_p(&fwd), Ok(true));

    js.prolog();
    let call = js.finishi(0);
    js.patch_at(&call, &fwd).unwrap();

    // two placed nodes so far: prolog and the call; the forward reference
    // is linked at position 2
    js.link(&fwd).unwrap();
    assert_eq!(js.forward_p(&fwd), Ok(false));
    js.ret();

    js.emit(100);
    assert_eq!(js.address(&fwd), Ok(102));
    assert_eq!(js.target_address(&call), Ok(102));
    // prolog, call, linked forward, return: four placed positions
    assert_eq!(js.get_code(), (100, 4));
    jit.release(&mut lib);
}

#[test]
fn handle_and_register_rejections() {
    let mut lib = JitLib::new();
    let (mut jit, _) = Jit::new(&mut lib, caps());
    let mut js = jit.new_state();
    let mut other = jit.new_state();

    let label = js.label();
    let foreign = other.label();

    // a handle from a different session is rejected
    assert_eq!(js.patch_at(&label, &foreign), Err(EmitError::ForeignHandle));
    assert_eq!(js.link(&foreign), Err(EmitError::ForeignHandle));
    assert_eq!(js.getarg(Reg::R(0), &foreign), Err(EmitError::ForeignHandle));

    // linking anything but an unplaced forward declaration is rejected
    assert_eq!(js.link(&label), Err(EmitError::NotLinkable));

    // an out-of-range register is rejected with its class label, and the
    // stream is left untouched
    let before = js.nodes.len();
    assert_eq!(
        js.addi(Reg::R(99), Reg::R(0), 1),
        Err(EmitError::Register(RegError { class: RegClass::General, index: 99 }))
    );
    assert_eq!(
        js.mulr(Reg::R(0), Reg::V(8), Reg::R(1)),
        Err(EmitError::Register(RegError { class: RegClass::Saved, index: 8 }))
    );
    assert_eq!(js.nodes.len(), before);

    // an address query for a node that never got a position is rejected
    let fwd = js.forward();
    js.emit(0);
    assert_eq!(js.address(&fwd), Err(EmitError::Unplaced));
    assert_eq!(js.target_address(&label), Err(EmitError::Unplaced));
    jit.release(&mut lib);
}

#[test]
fn reversed_subtract_swaps_operands() {
    let mut lib = JitLib::new();
    let (mut jit, _) = Jit::new(&mut lib, caps());
    let mut js = jit.new_state();

    let a = Reg::V(0);
    let b = Reg::V(1);
    let c = Reg::V(2);
    let n = js.rsbr(a, b, c).unwrap();
    assert_eq!(js.nodes[n.index].code, Some(OpCode::Subr));
    assert_eq!(
        js.nodes[n.index].operands,
        vec![Operand::Gpr(a), Operand::Gpr(c), Operand::Gpr(b)]
    );

    let nf = js.rsbr_f(Reg::F(0), Reg::F(1), Reg::F(2)).unwrap();
    assert_eq!(js.nodes[nf.index].code, Some(OpCode::SubrF));
    let nd = js.rsbr_d(Reg::F(3), Reg::F(4), Reg::F(5)).unwrap();
    assert_eq!(js.nodes[nd.index].code, Some(OpCode::SubrD));
    assert_eq!(
        js.nodes[nd.index].operands,
        vec![Operand::Gpr(Reg::F(3)), Operand::Gpr(Reg::F(5)), Operand::Gpr(Reg::F(4))]
    );
    jit.release(&mut lib);
}

#[test]
fn name_and_note_markers() {
    let mut lib = JitLib::new();
    let (mut jit, _) = Jit::new(&mut lib, caps());
    let mut js = jit.new_state();

    let n = js.name(&t("factorial"));
    assert_eq!(js.nodes[n.index].kind, NodeKind::Name);
    assert_eq!(js.nodes[n.index].text, Some(t("factorial")));

    let file = t("factorial.rs");
    let m = js.note(Some(&file), 42);
    assert_eq!(js.nodes[m.index].kind, NodeKind::Note);
    assert_eq!(js.nodes[m.index].text, Some(t("factorial.rs")));
    assert_eq!(js.nodes[m.index].line, 42);

    let anon = js.note(None, 7);
    assert_eq!(js.nodes[anon.index].text, None);

    // markers and indirect labels are placed and introspectable
    let ind = js.indirect();
    assert_eq!(js.indirect_p(&ind), Ok(true));
    assert_eq!(js.indirect_p(&n), Ok(false));

    // after realizing, the covering note of an address is the latest note
    // placed at or before it
    js.emit(1000);
    assert_eq!(js.get_note(1001), Ok((Some(t("factorial.rs")), 42)));
    assert_eq!(js.get_note(1005), Ok((None, 7)));
    assert_eq!(js.get_note(999), Err(EmitError::Unplaced));
    jit.release(&mut lib);
}

#[test]
fn target_query_sees_patches() {
    let mut lib = JitLib::new();
    let (mut jit, _) = Jit::new(&mut lib, caps());
    let mut js = jit.new_state();

    let label = js.label();
    assert_eq!(js.target_p(&label), Ok(false));
    let jump = js.jmpi();
    js.patch_at(&jump, &label).unwrap();
    assert_eq!(js.target_p(&label), Ok(true));
    assert_eq!(js.target_p(&jump), Ok(false));
    jit.release(&mut lib);
}

#[test]
fn evaluation_stops_outside_the_model() {
    let mut lib = JitLib::new();
    let (mut jit, _) = Jit::new(&mut lib, caps());
    let mut js = jit.new_state();

    // an unpatched jump leaves the model
    js.prolog();
    js.jmpi();
    assert_eq!(js.run(vec![], 100), None);
    js.clear_state();

    // so does running out of fuel
    js.prolog();
    let back = js.label();
    let jump = js.jmpi();
    js.patch_at(&jump, &back).unwrap();
    assert_eq!(js.run(vec![], 100), None);
    jit.release(&mut lib);
}

#[test]
fn sessions_get_distinct_serials() {
    let mut lib = JitLib::new();
    let (mut jit, _) = Jit::new(&mut lib, caps());
    let a = jit.new_state();
    let b = jit.new_state();
    assert_eq!(a.guard, b.guard);
    assert_ne!(a.serial, b.serial);
    jit.release(&mut lib);
}
