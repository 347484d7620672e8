//! The executable meaning of a recorded instruction stream.
//!
//! A session records instructions as data; this module says what that data
//! computes, as a small step machine over machine words: registers by class,
//! one frame of incoming arguments, a call stack driven by patched calls,
//! and branches that follow patched targets. Word arithmetic wraps, as the
//! generated code's would. A stream that leaves the model — an unpatched
//! branch, a call through a register, float arithmetic, a malformed node —
//! stops evaluation rather than guessing.

use vstd::prelude::*;
use crate::jitstate::{JitState, Node, NodeKind, NodeView, OpCode, Operand, nodes_view};
use crate::types::{JitWord, Reg, RegCaps};
use vstd::wrapping::i64_specs;

verus! {

/// One call frame: where to resume, the incoming argument words, and the
/// argument nodes of the running function in declaration order.
pub struct Frame {
    pub ret_pc: usize,
    pub args: Vec<JitWord>,
    pub arg_nodes: Vec<usize>,
}

/// The mathematical content of a frame.
#[verifier::ext_equal]
pub ghost struct FrameView {
    pub ret_pc: usize,
    pub args: Seq<JitWord>,
    pub arg_nodes: Seq<usize>,
}

impl View for Frame {
    type V = FrameView;

    open spec fn view(&self) -> FrameView {
        FrameView { ret_pc: self.ret_pc, args: self.args@, arg_nodes: self.arg_nodes@ }
    }
}

/// The abstraction of a frame stack.
pub open spec fn frames_view(v: Seq<Frame>) -> Seq<FrameView> {
    Seq::new(v.len(), |i: int| v[i]@)
}

/// The machine: a position in the node list, the three register files, the
/// running frame, the call stack, the pending call arguments, and the last
/// returned value.
pub struct Machine {
    pub pc: usize,
    pub gpr: Vec<JitWord>,
    pub sav: Vec<JitWord>,
    pub flt: Vec<JitWord>,
    pub frame: Frame,
    pub stack: Vec<Frame>,
    pub pending: Vec<JitWord>,
    pub last_return: JitWord,
}

/// The mathematical content of the machine.
#[verifier::ext_equal]
pub ghost struct MachineView {
    pub pc: usize,
    pub gpr: Seq<JitWord>,
    pub sav: Seq<JitWord>,
    pub flt: Seq<JitWord>,
    pub frame: FrameView,
    pub stack: Seq<FrameView>,
    pub pending: Seq<JitWord>,
    pub last_return: JitWord,
}

impl View for Machine {
    type V = MachineView;

    open spec fn view(&self) -> MachineView {
        MachineView {
            pc: self.pc,
            gpr: self.gpr@,
            sav: self.sav@,
            flt: self.flt@,
            frame: self.frame@,
            stack: frames_view(self.stack@),
            pending: self.pending@,
            last_return: self.last_return,
        }
    }
}

/// The outcome of one step.
#[verifier::ext_equal]
pub ghost enum Step {
    Next(MachineView),
    Done(JitWord),
    Stuck,
}

/// The value of a register in the machine, when its index is in range. The
/// frame pointer holds no modeled value.
pub open spec fn spec_reg_value(m: MachineView, r: Reg) -> Option<JitWord> {
    match r {
        Reg::R(i) => if i < m.gpr.len() {
            Option::Some(m.gpr[i as int])
        } else {
            Option::None
        },
        Reg::V(i) => if i < m.sav.len() {
            Option::Some(m.sav[i as int])
        } else {
            Option::None
        },
        Reg::F(i) => if i < m.flt.len() {
            Option::Some(m.flt[i as int])
        } else {
            Option::None
        },
        Reg::FP => Option::None,
    }
}

/// The machine with a register set, when its index is in range.
pub open spec fn spec_set_reg(m: MachineView, r: Reg, val: JitWord) -> Option<MachineView> {
    match r {
        Reg::R(i) => if i < m.gpr.len() {
            Option::Some(MachineView { gpr: m.gpr.update(i as int, val), ..m })
        } else {
            Option::None
        },
        Reg::V(i) => if i < m.sav.len() {
            Option::Some(MachineView { sav: m.sav.update(i as int, val), ..m })
        } else {
            Option::None
        },
        Reg::F(i) => if i < m.flt.len() {
            Option::Some(MachineView { flt: m.flt.update(i as int, val), ..m })
        } else {
            Option::None
        },
        Reg::FP => Option::None,
    }
}

/// First index of `x` in `s`, or the length of `s`.
pub open spec fn spec_index_of(s: Seq<usize>, x: usize) -> int
    decreases s.len(),
{
    if s.len() == 0 {
        0
    } else if s[0] == x {
        0
    } else {
        1 + spec_index_of(s.drop_first(), x)
    }
}

pub proof fn lemma_spec_index_of(s: Seq<usize>, x: usize)
    ensures
        0 <= spec_index_of(s, x) <= s.len(),
        spec_index_of(s, x) < s.len() ==> s[spec_index_of(s, x)] == x,
        forall|k: int| 0 <= k < spec_index_of(s, x) ==> s[k] != x,
    decreases s.len(),
{
    if s.len() > 0 && s[0] != x {
        lemma_spec_index_of(s.drop_first(), x);
        assert forall|k: int| 0 <= k < spec_index_of(s, x) implies s[k] != x by {
            if k > 0 {
                assert(s.drop_first()[k - 1] != x);
            }
        }
    }
}

pub proof fn lemma_spec_index_of_unique(s: Seq<usize>, x: usize, m: int)
    requires
        0 <= m <= s.len(),
        m < s.len() ==> s[m] == x,
        forall|k: int| 0 <= k < m ==> s[k] != x,
    ensures
        spec_index_of(s, x) == m,
{
    lemma_spec_index_of(s, x);
    let ix = spec_index_of(s, x);
    if ix < m {
        assert(s[ix] != x);
    }
    if m < ix {
        assert(s[m] != x);
    }
}

/// First index of the node placed at position `q`, or the node count.
pub open spec fn spec_node_at(nodes: Seq<NodeView>, q: usize) -> int
    decreases nodes.len(),
{
    if nodes.len() == 0 {
        0
    } else if nodes[0].placed == Option::Some(q) {
        0
    } else {
        1 + spec_node_at(nodes.drop_first(), q)
    }
}

pub proof fn lemma_spec_node_at(nodes: Seq<NodeView>, q: usize)
    ensures
        0 <= spec_node_at(nodes, q) <= nodes.len(),
        spec_node_at(nodes, q) < nodes.len() ==> nodes[spec_node_at(nodes, q)].placed
            == Option::Some(q),
        forall|k: int| 0 <= k < spec_node_at(nodes, q) ==> nodes[k].placed != Option::Some(q),
    decreases nodes.len(),
{
    if nodes.len() > 0 && nodes[0].placed != Option::Some(q) {
        lemma_spec_node_at(nodes.drop_first(), q);
        assert forall|k: int| 0 <= k < spec_node_at(nodes, q) implies nodes[k].placed
            != Option::Some(q) by {
            if k > 0 {
                assert(nodes.drop_first()[k - 1].placed != Option::Some(q));
            }
        }
    }
}

pub proof fn lemma_spec_node_at_unique(nodes: Seq<NodeView>, q: usize, m: int)
    requires
        0 <= m <= nodes.len(),
        m < nodes.len() ==> nodes[m].placed == Option::Some(q),
        forall|k: int| 0 <= k < m ==> nodes[k].placed != Option::Some(q),
    ensures
        spec_node_at(nodes, q) == m,
{
    lemma_spec_node_at(nodes, q);
    let ix = spec_node_at(nodes, q);
    if ix < m {
        assert(nodes[ix].placed != Option::Some(q));
    }
    if m < ix {
        assert(nodes[m].placed != Option::Some(q));
    }
}

/// Where control continues for a branch or call to node `t`: at `t` itself,
/// except that a linked forward declaration stands for the code right after
/// its linked position.
pub open spec fn spec_resolve_target(nodes: Seq<NodeView>, t: usize) -> Option<usize> {
    if t >= nodes.len() {
        Option::None
    } else if nodes[t as int].kind == NodeKind::Forward {
        match nodes[t as int].placed {
            Option::Some(p) => if p + 1 <= usize::MAX {
                let j = spec_node_at(nodes, (p + 1) as usize);
                if j < nodes.len() {
                    Option::Some(j as usize)
                } else {
                    Option::None
                }
            } else {
                Option::None
            },
            Option::None => Option::None,
        }
    } else {
        Option::Some(t)
    }
}

/// Returning a value: the machine finishes when no caller waits, and
/// otherwise resumes the caller's frame.
pub open spec fn spec_return(m: MachineView, val: JitWord) -> Step {
    if m.stack.len() == 0 {
        Step::Done(val)
    } else {
        Step::Next(
            MachineView {
                pc: m.frame.ret_pc,
                frame: m.stack.last(),
                stack: m.stack.drop_last(),
                last_return: val,
                ..m
            },
        )
    }
}

/// A jump through a node's patched target.
pub open spec fn spec_jump(nodes: Seq<NodeView>, m: MachineView) -> Step {
    match nodes[m.pc as int].target {
        Option::Some(t) => match spec_resolve_target(nodes, t) {
            Option::Some(j) => Step::Next(MachineView { pc: j, ..m }),
            Option::None => Step::Stuck,
        },
        Option::None => Step::Stuck,
    }
}

/// The machine advanced to the next node.
pub open spec fn spec_next(m: MachineView) -> Step {
    if m.pc + 1 <= usize::MAX {
        Step::Next(MachineView { pc: (m.pc + 1) as usize, ..m })
    } else {
        Step::Stuck
    }
}

/// One step of the machine on a node list. See the module description for
/// the model's scope; anything outside it is `Stuck`.
pub open spec fn spec_step(nodes: Seq<NodeView>, m: MachineView) -> Step {
    if m.pc >= nodes.len() {
        Step::Stuck
    } else {
        let n = nodes[m.pc as int];
        if n.kind != NodeKind::Instr {
            // labels, linked or pending forwards, and markers emit no code
            spec_next(m)
        } else {
            match n.code {
                Option::None => Step::Stuck,
                Option::Some(code) => spec_step_instr(nodes, m, n, code),
            }
        }
    }
}

/// One instruction step.
pub open spec fn spec_step_instr(
    nodes: Seq<NodeView>,
    m: MachineView,
    n: NodeView,
    code: OpCode,
) -> Step {
    match code {
        OpCode::Prolog => spec_next(m),
        OpCode::Epilog => spec_next(m),
        OpCode::Frame => spec_next(m),
        OpCode::Ellipsis => spec_next(m),
        OpCode::Prepare => spec_next(MachineView { pending: Seq::empty(), ..m }),
        OpCode::Arg => if m.frame.arg_nodes.contains(m.pc) {
            // re-entered through a loop: the slot is already declared
            spec_next(m)
        } else {
            spec_next(
                MachineView {
                    frame: FrameView { arg_nodes: m.frame.arg_nodes.push(m.pc), ..m.frame },
                    ..m
                },
            )
        },
        OpCode::Getarg => if n.operands.len() == 2 {
            match (n.operands[0], n.operands[1]) {
                (Operand::Gpr(r), Operand::NodeRef(nx)) => {
                    let s = spec_index_of(m.frame.arg_nodes, nx);
                    if s < m.frame.arg_nodes.len() && s < m.frame.args.len() {
                        match spec_set_reg(m, r, m.frame.args[s]) {
                            Option::Some(m2) => spec_next(m2),
                            Option::None => Step::Stuck,
                        }
                    } else {
                        Step::Stuck
                    }
                },
                _ => Step::Stuck,
            }
        } else {
            Step::Stuck
        },
        OpCode::Putargr => if n.operands.len() == 2 {
            match (n.operands[0], n.operands[1]) {
                (Operand::Gpr(r), Operand::NodeRef(nx)) => {
                    let s = spec_index_of(m.frame.arg_nodes, nx);
                    if s < m.frame.arg_nodes.len() && s < m.frame.args.len() {
                        match spec_reg_value(m, r) {
                            Option::Some(v) => spec_next(
                                MachineView {
                                    frame: FrameView {
                                        args: m.frame.args.update(s, v),
                                        ..m.frame
                                    },
                                    ..m
                                },
                            ),
                            Option::None => Step::Stuck,
                        }
                    } else {
                        Step::Stuck
                    }
                },
                _ => Step::Stuck,
            }
        } else {
            Step::Stuck
        },
        OpCode::Movi => if n.operands.len() == 2 {
            match (n.operands[0], n.operands[1]) {
                (Operand::Gpr(r), Operand::Imm(i)) => match spec_set_reg(m, r, i) {
                    Option::Some(m2) => spec_next(m2),
                    Option::None => Step::Stuck,
                },
                _ => Step::Stuck,
            }
        } else {
            Step::Stuck
        },
        OpCode::Movr => if n.operands.len() == 2 {
            match (n.operands[0], n.operands[1]) {
                (Operand::Gpr(a), Operand::Gpr(b)) => match spec_reg_value(m, b) {
                    Option::Some(v) => match spec_set_reg(m, a, v) {
                        Option::Some(m2) => spec_next(m2),
                        Option::None => Step::Stuck,
                    },
                    Option::None => Step::Stuck,
                },
                _ => Step::Stuck,
            }
        } else {
            Step::Stuck
        },
        OpCode::Addr => spec_arith_rrr(m, n, OpCode::Addr),
        OpCode::Subr => spec_arith_rrr(m, n, OpCode::Subr),
        OpCode::Mulr => spec_arith_rrr(m, n, OpCode::Mulr),
        OpCode::Addi => spec_arith_rri(m, n, OpCode::Addi),
        OpCode::Subi => spec_arith_rri(m, n, OpCode::Subi),
        OpCode::Pushargi => if n.operands.len() == 1 {
            match n.operands[0] {
                Operand::Imm(i) => spec_next(MachineView { pending: m.pending.push(i), ..m }),
                _ => Step::Stuck,
            }
        } else {
            Step::Stuck
        },
        OpCode::Pushargr => if n.operands.len() == 1 {
            match n.operands[0] {
                Operand::Gpr(r) => match spec_reg_value(m, r) {
                    Option::Some(v) => spec_next(
                        MachineView { pending: m.pending.push(v), ..m },
                    ),
                    Option::None => Step::Stuck,
                },
                _ => Step::Stuck,
            }
        } else {
            Step::Stuck
        },
        OpCode::Finishi => match n.target {
            Option::Some(t) => if spec_resolve_target(nodes, t) is Some && m.pc + 1
                <= usize::MAX {
                Step::Next(
                    MachineView {
                        pc: spec_resolve_target(nodes, t)->Some_0,
                        frame: FrameView {
                            ret_pc: (m.pc + 1) as usize,
                            args: m.pending,
                            arg_nodes: Seq::empty(),
                        },
                        stack: m.stack.push(m.frame),
                        pending: Seq::empty(),
                        ..m
                    },
                )
            } else {
                Step::Stuck
            },
            // a call to an address outside the stream leaves the model
            Option::None => Step::Stuck,
        },
        OpCode::Retval => if n.operands.len() == 1 {
            match n.operands[0] {
                Operand::Gpr(r) => match spec_set_reg(m, r, m.last_return) {
                    Option::Some(m2) => spec_next(m2),
                    Option::None => Step::Stuck,
                },
                _ => Step::Stuck,
            }
        } else {
            Step::Stuck
        },
        OpCode::Retr => if n.operands.len() == 1 {
            match n.operands[0] {
                Operand::Gpr(r) => match spec_reg_value(m, r) {
                    Option::Some(v) => spec_return(m, v),
                    Option::None => Step::Stuck,
                },
                _ => Step::Stuck,
            }
        } else {
            Step::Stuck
        },
        OpCode::Reti => if n.operands.len() == 1 {
            match n.operands[0] {
                Operand::Imm(i) => spec_return(m, i),
                _ => Step::Stuck,
            }
        } else {
            Step::Stuck
        },
        OpCode::Ret => spec_return(m, m.last_return),
        OpCode::Jmpi => spec_jump(nodes, m),
        OpCode::Beqi => spec_branch_imm(nodes, m, n, OpCode::Beqi),
        OpCode::Blei => spec_branch_imm(nodes, m, n, OpCode::Blei),
        // float arithmetic and register-indirect calls leave the model
        OpCode::SubrF => Step::Stuck,
        OpCode::SubrD => Step::Stuck,
        OpCode::Finishr => Step::Stuck,
    }
}

/// A three-register wrapping arithmetic step.
pub open spec fn spec_arith_rrr(m: MachineView, n: NodeView, code: OpCode) -> Step {
    if n.operands.len() == 3 {
        match (n.operands[0], n.operands[1], n.operands[2]) {
            (Operand::Gpr(t), Operand::Gpr(a), Operand::Gpr(b)) => match (
                spec_reg_value(m, a),
                spec_reg_value(m, b),
            ) {
                (Option::Some(x), Option::Some(y)) => {
                    let v = if code == OpCode::Addr {
                        i64_specs::wrapping_add(x, y)
                    } else if code == OpCode::Subr {
                        i64_specs::wrapping_sub(x, y)
                    } else {
                        i64_specs::wrapping_mul(x, y)
                    };
                    match spec_set_reg(m, t, v) {
                        Option::Some(m2) => spec_next(m2),
                        Option::None => Step::Stuck,
                    }
                },
                _ => Step::Stuck,
            },
            _ => Step::Stuck,
        }
    } else {
        Step::Stuck
    }
}

/// A register-register-immediate wrapping arithmetic step.
pub open spec fn spec_arith_rri(m: MachineView, n: NodeView, code: OpCode) -> Step {
    if n.operands.len() == 3 {
        match (n.operands[0], n.operands[1], n.operands[2]) {
            (Operand::Gpr(t), Operand::Gpr(a), Operand::Imm(i)) => match spec_reg_value(m, a) {
                Option::Some(x) => {
                    let v = if code == OpCode::Addi {
                        i64_specs::wrapping_add(x, i)
                    } else {
                        i64_specs::wrapping_sub(x, i)
                    };
                    match spec_set_reg(m, t, v) {
                        Option::Some(m2) => spec_next(m2),
                        Option::None => Step::Stuck,
                    }
                },
                _ => Step::Stuck,
            },
            _ => Step::Stuck,
        }
    } else {
        Step::Stuck
    }
}

/// A conditional branch against a word immediate.
pub open spec fn spec_branch_imm(
    nodes: Seq<NodeView>,
    m: MachineView,
    n: NodeView,
    code: OpCode,
) -> Step {
    if n.operands.len() == 2 {
        match (n.operands[0], n.operands[1]) {
            (Operand::Gpr(r), Operand::Imm(i)) => match spec_reg_value(m, r) {
                Option::Some(v) => {
                    let taken = if code == OpCode::Beqi {
                        v == i
                    } else {
                        v <= i
                    };
                    if taken {
                        spec_jump(nodes, m)
                    } else {
                        spec_next(m)
                    }
                },
                Option::None => Step::Stuck,
            },
            _ => Step::Stuck,
        }
    } else {
        Step::Stuck
    }
}

/// Evaluation with fuel: the result of the recorded stream from a machine
/// state, or nothing when it stops or runs out of fuel.
pub open spec fn spec_eval(nodes: Seq<NodeView>, m: MachineView, fuel: nat) -> Option<JitWord>
    decreases fuel,
{
    if fuel == 0 {
        Option::None
    } else {
        match spec_step(nodes, m) {
            Step::Done(v) => Option::Some(v),
            Step::Stuck => Option::None,
            Step::Next(m2) => spec_eval(nodes, m2, (fuel - 1) as nat),
        }
    }
}

/// The initial machine: registers sized by the per-class counts and zeroed,
/// the given words as incoming arguments, position zero.
pub open spec fn spec_init(caps: RegCaps, args: Seq<JitWord>) -> MachineView {
    MachineView {
        pc: 0,
        gpr: Seq::new(caps.r as nat, |i: int| 0i64),
        sav: Seq::new(caps.v as nat, |i: int| 0i64),
        flt: Seq::new(caps.f as nat, |i: int| 0i64),
        frame: FrameView { ret_pc: 0, args: args, arg_nodes: Seq::empty() },
        stack: Seq::empty(),
        pending: Seq::empty(),
        last_return: 0,
    }
}

/// The executable outcome of one step.
pub enum Outcome {
    Next(Machine),
    Done(JitWord),
    Stuck,
}

/// Reads a register.
fn reg_value(m: &Machine, r: Reg) -> (v: Option<JitWord>)
    ensures
        v == spec_reg_value(m@, r),
{
    match r {
        Reg::R(i) => {
            if (i as usize) < m.gpr.len() {
                Option::Some(m.gpr[i as usize])
            } else {
                Option::None
            }
        },
        Reg::V(i) => {
            if (i as usize) < m.sav.len() {
                Option::Some(m.sav[i as usize])
            } else {
                Option::None
            }
        },
        Reg::F(i) => {
            if (i as usize) < m.flt.len() {
                Option::Some(m.flt[i as usize])
            } else {
                Option::None
            }
        },
        Reg::FP => Option::None,
    }
}

/// Writes a register, handing the machine back.
fn set_reg(m: Machine, r: Reg, val: JitWord) -> (res: Option<Machine>)
    ensures
        match res {
            Option::Some(m2) => spec_set_reg(m@, r, val) == Option::Some(m2@),
            Option::None => spec_set_reg(m@, r, val) is None,
        },
{
    let mut m = m;
    match r {
        Reg::R(i) => {
            if (i as usize) < m.gpr.len() {
                m.gpr[i as usize] = val;
                Option::Some(m)
            } else {
                Option::None
            }
        },
        Reg::V(i) => {
            if (i as usize) < m.sav.len() {
                m.sav[i as usize] = val;
                Option::Some(m)
            } else {
                Option::None
            }
        },
        Reg::F(i) => {
            if (i as usize) < m.flt.len() {
                m.flt[i as usize] = val;
                Option::Some(m)
            } else {
                Option::None
            }
        },
        Reg::FP => Option::None,
    }
}

/// First index of `x` in a vector, or its length.
#[verifier::loop_isolation(false)]
fn index_of(s: &Vec<usize>, x: usize) -> (r: usize)
    ensures
        r == spec_index_of(s@, x),
{
    let mut i: usize = 0;
    while i < s.len()
        invariant
            i <= s.len(),
            forall|k: int| 0 <= k < i ==> s@[k] != x,
        decreases s.len() - i,
    {
        if s[i] == x {
            proof {
                lemma_spec_index_of_unique(s@, x, i as int);
            }
            return i;
        }
        i += 1;
    }
    proof {
        lemma_spec_index_of_unique(s@, x, s@.len() as int);
    }
    s.len()
}

/// Where control continues for a branch or call to node `t`.
#[verifier::loop_isolation(false)]
fn resolve_target(nodes: &Vec<Node>, t: usize) -> (r: Option<usize>)
    ensures
        r == spec_resolve_target(nodes_view(nodes@), t),
{
    let ghost nv = nodes_view(nodes@);
    if t >= nodes.len() {
        return Option::None;
    }
    proof {
        assert(nv[t as int] == nodes@[t as int]@);
    }
    let is_fwd = match nodes[t].kind {
        NodeKind::Forward => true,
        _ => false,
    };
    if !is_fwd {
        return Option::Some(t);
    }
    let p = match nodes[t].placed {
        Option::Some(p) => p,
        Option::None => {
            return Option::None;
        },
    };
    if p == usize::MAX {
        return Option::None;
    }
    let q = p + 1;
    let mut j: usize = 0;
    while j < nodes.len()
        invariant
            j <= nodes.len(),
            forall|k: int| 0 <= k < j ==> nv[k].placed != Option::Some(q),
        decreases nodes.len() - j,
    {
        let hit = match nodes[j].placed {
            Option::Some(pj) => pj == q,
            Option::None => false,
        };
        proof {
            assert(nv[j as int] == nodes@[j as int]@);
        }
        if hit {
            proof {
                lemma_spec_node_at_unique(nv, q, j as int);
            }
            return Option::Some(j);
        }
        j += 1;
    }
    proof {
        lemma_spec_node_at_unique(nv, q, nv.len() as int);
    }
    Option::None
}

/// Executes the instruction at the machine's position.
#[verifier::loop_isolation(false)]
#[verifier::rlimit(100)]
pub fn step(nodes: &Vec<Node>, m: Machine) -> (r: Outcome)
    ensures
        match r {
            Outcome::Next(m2) => spec_step(nodes_view(nodes@), m@) == Step::Next(m2@),
            Outcome::Done(v) => spec_step(nodes_view(nodes@), m@) == Step::Done(v),
            Outcome::Stuck => spec_step(nodes_view(nodes@), m@) == Step::Stuck,
        },
{
    let ghost nv = nodes_view(nodes@);
    let ghost mv = m@;
    let total = nodes.len();
    if m.pc >= total {
        return Outcome::Stuck;
    }
    proof {
        assert(nv[mv.pc as int] == nodes@[mv.pc as int]@);
    }
    let pc = m.pc;
    let is_instr = match nodes[pc].kind {
        NodeKind::Instr => true,
        _ => false,
    };
    if !is_instr {
        let m2 = Machine { pc: pc + 1, ..m };
        assert(spec_next(mv) == Step::Next(m2@)) by {
            assert(m2@ =~= (MachineView { pc: (mv.pc + 1) as usize, ..mv }));
        }
        return Outcome::Next(m2);
    }
    let code = match nodes[pc].code {
        Option::Some(c) => c,
        Option::None => {
            return Outcome::Stuck;
        },
    };
    let ops = &nodes[pc].operands;
    let ghost n = nv[mv.pc as int];
    proof {
        assert(n.operands == ops@);
        assert(n.code == Option::Some(code));
    }
    match code {
        OpCode::Prolog | OpCode::Epilog | OpCode::Frame | OpCode::Ellipsis => {
            let m2 = Machine { pc: pc + 1, ..m };
            assert(spec_next(mv) == Step::Next(m2@)) by {
                assert(m2@ =~= (MachineView { pc: (mv.pc + 1) as usize, ..mv }));
            }
            Outcome::Next(m2)
        },
        OpCode::Prepare => {
            let m2 = Machine { pc: pc + 1, pending: Vec::new(), ..m };
            assert(spec_step_instr(nv, mv, n, code) == Step::Next(m2@)) by {
                assert(m2@ =~= (MachineView {
                    pc: (mv.pc + 1) as usize,
                    pending: Seq::empty(),
                    ..mv
                }));
            }
            Outcome::Next(m2)
        },
        OpCode::Arg => {
            let slot = index_of(&m.frame.arg_nodes, pc);
            if slot < m.frame.arg_nodes.len() {
                proof {
                    lemma_spec_index_of(mv.frame.arg_nodes, pc);
                    assert(mv.frame.arg_nodes.contains(mv.pc));
                }
                let m2 = Machine { pc: pc + 1, ..m };
                assert(spec_step_instr(nv, mv, n, code) == Step::Next(m2@)) by {
                    assert(m2@ =~= (MachineView { pc: (mv.pc + 1) as usize, ..mv }));
                }
                Outcome::Next(m2)
            } else {
                proof {
                    lemma_spec_index_of(mv.frame.arg_nodes, pc);
                    assert(!mv.frame.arg_nodes.contains(mv.pc)) by {
                        if mv.frame.arg_nodes.contains(mv.pc) {
                            let k = choose|k: int|
                                0 <= k < mv.frame.arg_nodes.len() && mv.frame.arg_nodes[k]
                                    == mv.pc;
                            assert(mv.frame.arg_nodes[k] != mv.pc);
                        }
                    }
                }
                let mut m2 = m;
                m2.frame.arg_nodes.push(pc);
                m2.pc = pc + 1;
                assert(spec_step_instr(nv, mv, n, code) == Step::Next(m2@)) by {
                    assert(m2@ =~= (MachineView {
                        pc: (mv.pc + 1) as usize,
                        frame: FrameView {
                            arg_nodes: mv.frame.arg_nodes.push(mv.pc),
                            ..mv.frame
                        },
                        ..mv
                    }));
                }
                Outcome::Next(m2)
            }
        },
        OpCode::Getarg => {
            if ops.len() != 2 {
                return Outcome::Stuck;
            }
            match (ops[0], ops[1]) {
                (Operand::Gpr(r), Operand::NodeRef(nx)) => {
                    let slot = index_of(&m.frame.arg_nodes, nx);
                    if slot < m.frame.arg_nodes.len() && slot < m.frame.args.len() {
                        let val = m.frame.args[slot];
                        match set_reg(m, r, val) {
                            Option::Some(m2) => {
                                let m3 = Machine { pc: pc + 1, ..m2 };
                                assert(spec_step_instr(nv, mv, n, code) == Step::Next(m3@)) by {
                                    assert(spec_set_reg(mv, r, val) is Some);
                                    let m2v = spec_set_reg(mv, r, val)->Some_0;
                                    assert(m3@ =~= (MachineView {
                                        pc: (m2v.pc + 1) as usize,
                                        ..m2v
                                    }));
                                }
                                Outcome::Next(m3)
                            },
                            Option::None => Outcome::Stuck,
                        }
                    } else {
                        Outcome::Stuck
                    }
                },
                _ => Outcome::Stuck,
            }
        },
        OpCode::Putargr => {
            if ops.len() != 2 {
                return Outcome::Stuck;
            }
            match (ops[0], ops[1]) {
                (Operand::Gpr(r), Operand::NodeRef(nx)) => {
                    let slot = index_of(&m.frame.arg_nodes, nx);
                    if slot < m.frame.arg_nodes.len() && slot < m.frame.args.len() {
                        match reg_value(&m, r) {
                            Option::Some(v) => {
                                let mut m2 = m;
                                m2.frame.args[slot] = v;
                                m2.pc = pc + 1;
                                assert(spec_step_instr(nv, mv, n, code) == Step::Next(m2@)) by {
                                    assert(m2@ =~= (MachineView {
                                        pc: (mv.pc + 1) as usize,
                                        frame: FrameView {
                                            args: mv.frame.args.update(slot as int, v),
                                            ..mv.frame
                                        },
                                        ..mv
                                    }));
                                }
                                Outcome::Next(m2)
                            },
                            Option::None => Outcome::Stuck,
                        }
                    } else {
                        Outcome::Stuck
                    }
                },
                _ => Outcome::Stuck,
            }
        },
        OpCode::Movi => {
            if ops.len() != 2 {
                return Outcome::Stuck;
            }
            match (ops[0], ops[1]) {
                (Operand::Gpr(r), Operand::Imm(i)) => match set_reg(m, r, i) {
                    Option::Some(m2) => {
                        let m3 = Machine { pc: pc + 1, ..m2 };
                        assert(spec_step_instr(nv, mv, n, code) == Step::Next(m3@)) by {
                            let m2v = spec_set_reg(mv, r, i)->Some_0;
                            assert(m3@ =~= (MachineView { pc: (m2v.pc + 1) as usize, ..m2v }));
                        }
                        Outcome::Next(m3)
                    },
                    Option::None => Outcome::Stuck,
                },
                _ => Outcome::Stuck,
            }
        },
        OpCode::Movr => {
            if ops.len() != 2 {
                return Outcome::Stuck;
            }
            match (ops[0], ops[1]) {
                (Operand::Gpr(a), Operand::Gpr(b)) => match reg_value(&m, b) {
                    Option::Some(v) => match set_reg(m, a, v) {
                        Option::Some(m2) => {
                            let m3 = Machine { pc: pc + 1, ..m2 };
                            assert(spec_step_instr(nv, mv, n, code) == Step::Next(m3@)) by {
                                let m2v = spec_set_reg(mv, a, v)->Some_0;
                                assert(m3@ =~= (MachineView {
                                    pc: (m2v.pc + 1) as usize,
                                    ..m2v
                                }));
                            }
                            Outcome::Next(m3)
                        },
                        Option::None => Outcome::Stuck,
                    },
                    Option::None => Outcome::Stuck,
                },
                _ => Outcome::Stuck,
            }
        },
        OpCode::Addr | OpCode::Subr | OpCode::Mulr => {
            if ops.len() != 3 {
                return Outcome::Stuck;
            }
            match (ops[0], ops[1], ops[2]) {
                (Operand::Gpr(t), Operand::Gpr(a), Operand::Gpr(b)) => {
                    match (reg_value(&m, a), reg_value(&m, b)) {
                        (Option::Some(x), Option::Some(y)) => {
                            let v = match code {
                                OpCode::Addr => x.wrapping_add(y),
                                OpCode::Subr => x.wrapping_sub(y),
                                _ => x.wrapping_mul(y),
                            };
                            match set_reg(m, t, v) {
                                Option::Some(m2) => {
                                    let m3 = Machine { pc: pc + 1, ..m2 };
                                    assert(spec_arith_rrr(mv, n, code) == Step::Next(m3@)) by {
                                        let m2v = spec_set_reg(mv, t, v)->Some_0;
                                        assert(m3@ =~= (MachineView {
                                            pc: (m2v.pc + 1) as usize,
                                            ..m2v
                                        }));
                                    }
                                    Outcome::Next(m3)
                                },
                                Option::None => Outcome::Stuck,
                            }
                        },
                        _ => Outcome::Stuck,
                    }
                },
                _ => Outcome::Stuck,
            }
        },
        OpCode::Addi | OpCode::Subi => {
            if ops.len() != 3 {
                return Outcome::Stuck;
            }
            match (ops[0], ops[1], ops[2]) {
                (Operand::Gpr(t), Operand::Gpr(a), Operand::Imm(i)) => {
                    match reg_value(&m, a) {
                        Option::Some(x) => {
                            let v = match code {
                                OpCode::Addi => x.wrapping_add(i),
                                _ => x.wrapping_sub(i),
                            };
                            match set_reg(m, t, v) {
                                Option::Some(m2) => {
                                    let m3 = Machine { pc: pc + 1, ..m2 };
                                    assert(spec_arith_rri(mv, n, code) == Step::Next(m3@)) by {
                                        let m2v = spec_set_reg(mv, t, v)->Some_0;
                                        assert(m3@ =~= (MachineView {
                                            pc: (m2v.pc + 1) as usize,
                                            ..m2v
                                        }));
                                    }
                                    Outcome::Next(m3)
                                },
                                Option::None => Outcome::Stuck,
                            }
                        },
                        Option::None => Outcome::Stuck,
                    }
                },
                _ => Outcome::Stuck,
            }
        },
        OpCode::Pushargi => {
            if ops.len() != 1 {
                return Outcome::Stuck;
            }
            match ops[0] {
                Operand::Imm(i) => {
                    let mut m2 = m;
                    m2.pending.push(i);
                    m2.pc = pc + 1;
                    assert(spec_step_instr(nv, mv, n, code) == Step::Next(m2@)) by {
                        assert(m2@ =~= (MachineView {
                            pc: (mv.pc + 1) as usize,
                            pending: mv.pending.push(i),
                            ..mv
                        }));
                    }
                    Outcome::Next(m2)
                },
                _ => Outcome::Stuck,
            }
        },
        OpCode::Pushargr => {
            if ops.len() != 1 {
                return Outcome::Stuck;
            }
            match ops[0] {
                Operand::Gpr(r) => match reg_value(&m, r) {
                    Option::Some(v) => {
                        let mut m2 = m;
                        m2.pending.push(v);
                        m2.pc = pc + 1;
                        assert(spec_step_instr(nv, mv, n, code) == Step::Next(m2@)) by {
                            assert(m2@ =~= (MachineView {
                                pc: (mv.pc + 1) as usize,
                                pending: mv.pending.push(v),
                                ..mv
                            }));
                        }
                        Outcome::Next(m2)
                    },
                    Option::None => Outcome::Stuck,
                },
                _ => Outcome::Stuck,
            }
        },
        OpCode::Finishi => {
            let raw = match nodes[pc].target {
                Option::Some(t) => t,
                Option::None => {
                    return Outcome::Stuck;
                },
            };
            let target = match resolve_target(nodes, raw) {
                Option::Some(j) => j,
                Option::None => {
                    return Outcome::Stuck;
                },
            };
            let Machine { pc: _, gpr, sav, flt, frame, mut stack, pending, last_return } = m;
            let ghost prestack = stack@;
            stack.push(frame);
            let m2 = Machine {
                pc: target,
                gpr,
                sav,
                flt,
                frame: Frame { ret_pc: pc + 1, args: pending, arg_nodes: Vec::new() },
                stack,
                pending: Vec::new(),
                last_return,
            };
            assert(spec_step_instr(nv, mv, n, code) == Step::Next(m2@)) by {
                assert forall|k: int| 0 <= k < m2.stack@.len() implies frames_view(m2.stack@)[k]
                    == mv.stack.push(mv.frame)[k] by {
                    if k < prestack.len() {
                        assert(m2.stack@[k] == prestack[k]);
                        assert(frames_view(prestack)[k] == prestack[k]@);
                    }
                }
                assert(frames_view(m2.stack@) =~= mv.stack.push(mv.frame));
                assert(m2@ =~= (MachineView {
                    pc: target,
                    frame: FrameView {
                        ret_pc: (mv.pc + 1) as usize,
                        args: mv.pending,
                        arg_nodes: Seq::empty(),
                    },
                    stack: mv.stack.push(mv.frame),
                    pending: Seq::empty(),
                    ..mv
                }));
            }
            Outcome::Next(m2)
        },
        OpCode::Retval => {
            if ops.len() != 1 {
                return Outcome::Stuck;
            }
            match ops[0] {
                Operand::Gpr(r) => {
                    let val = m.last_return;
                    match set_reg(m, r, val) {
                        Option::Some(m2) => {
                            let m3 = Machine { pc: pc + 1, ..m2 };
                            assert(spec_step_instr(nv, mv, n, code) == Step::Next(m3@)) by {
                                let m2v = spec_set_reg(mv, r, mv.last_return)->Some_0;
                                assert(m3@ =~= (MachineView {
                                    pc: (m2v.pc + 1) as usize,
                                    ..m2v
                                }));
                            }
                            Outcome::Next(m3)
                        },
                        Option::None => Outcome::Stuck,
                    }
                },
                _ => Outcome::Stuck,
            }
        },
        OpCode::Retr | OpCode::Reti | OpCode::Ret => {
            let val: JitWord;
            match code {
                OpCode::Retr => {
                    if ops.len() != 1 {
                        return Outcome::Stuck;
                    }
                    match ops[0] {
                        Operand::Gpr(r) => match reg_value(&m, r) {
                            Option::Some(v) => {
                                val = v;
                            },
                            Option::None => {
                                return Outcome::Stuck;
                            },
                        },
                        _ => {
                            return Outcome::Stuck;
                        },
                    }
                },
                OpCode::Reti => {
                    if ops.len() != 1 {
                        return Outcome::Stuck;
                    }
                    match ops[0] {
                        Operand::Imm(i) => {
                            val = i;
                        },
                        _ => {
                            return Outcome::Stuck;
                        },
                    }
                },
                _ => {
                    val = m.last_return;
                },
            }
            if m.stack.len() == 0 {
                assert(spec_return(mv, val) == Step::Done(val));
                return Outcome::Done(val);
            }
            let Machine { pc: _, gpr, sav, flt, frame, mut stack, pending, last_return: _ } = m;
            let resume = frame.ret_pc;
            let ghost prestack = stack@;
            let top = match stack.pop() {
                Option::Some(f) => f,
                Option::None => {
                    return Outcome::Stuck;
                },
            };
            let m2 = Machine {
                pc: resume,
                gpr,
                sav,
                flt,
                frame: top,
                stack,
                pending,
                last_return: val,
            };
            assert(spec_return(mv, val) == Step::Next(m2@)) by {
                assert forall|k: int| 0 <= k < m2.stack@.len() implies frames_view(m2.stack@)[k]
                    == mv.stack.drop_last()[k] by {
                    assert(m2.stack@[k] == prestack[k]);
                    assert(frames_view(prestack)[k] == prestack[k]@);
                }
                assert(frames_view(m2.stack@) =~= mv.stack.drop_last());
                assert(m2.frame@ == mv.stack.last());
                assert(m2@ =~= (MachineView {
                    pc: mv.frame.ret_pc,
                    frame: mv.stack.last(),
                    stack: mv.stack.drop_last(),
                    last_return: val,
                    ..mv
                }));
            }
            Outcome::Next(m2)
        },
        OpCode::Jmpi => {
            let raw = match nodes[pc].target {
                Option::Some(t) => t,
                Option::None => {
                    return Outcome::Stuck;
                },
            };
            let target = match resolve_target(nodes, raw) {
                Option::Some(j) => j,
                Option::None => {
                    return Outcome::Stuck;
                },
            };
            let m2 = Machine { pc: target, ..m };
            assert(spec_jump(nv, mv) == Step::Next(m2@)) by {
                assert(m2@ =~= (MachineView { pc: target, ..mv }));
            }
            Outcome::Next(m2)
        },
        OpCode::Beqi | OpCode::Blei => {
            if ops.len() != 2 {
                return Outcome::Stuck;
            }
            match (ops[0], ops[1]) {
                (Operand::Gpr(r), Operand::Imm(i)) => match reg_value(&m, r) {
                    Option::Some(v) => {
                        let taken = match code {
                            OpCode::Beqi => v == i,
                            _ => v <= i,
                        };
                        if taken {
                            let raw = match nodes[pc].target {
                                Option::Some(t) => t,
                                Option::None => {
                                    return Outcome::Stuck;
                                },
                            };
                            let target = match resolve_target(nodes, raw) {
                                Option::Some(j) => j,
                                Option::None => {
                                    return Outcome::Stuck;
                                },
                            };
                            let m2 = Machine { pc: target, ..m };
                            assert(spec_jump(nv, mv) == Step::Next(m2@)) by {
                                assert(m2@ =~= (MachineView { pc: target, ..mv }));
                            }
                            Outcome::Next(m2)
                        } else {
                            let m2 = Machine { pc: pc + 1, ..m };
                            assert(spec_next(mv) == Step::Next(m2@)) by {
                                assert(m2@ =~= (MachineView { pc: (mv.pc + 1) as usize, ..mv }));
                            }
                            Outcome::Next(m2)
                        }
                    },
                    Option::None => Outcome::Stuck,
                },
                _ => Outcome::Stuck,
            }
        },
        OpCode::SubrF | OpCode::SubrD | OpCode::Finishr => Outcome::Stuck,
    }
}

/// A zeroed register file of the given size.
#[verifier::loop_isolation(false)]
fn zero_words(n: u32) -> (r: Vec<JitWord>)
    ensures
        r@ == Seq::new(n as nat, |i: int| 0i64),
{
    let mut out: Vec<JitWord> = Vec::new();
    let mut i: u32 = 0;
    while i < n
        invariant
            i <= n,
            out@ =~= Seq::new(i as nat, |k: int| 0i64),
        decreases n - i,
    {
        out.push(0);
        assert(out@ =~= Seq::new((i + 1) as nat, |k: int| 0i64));
        i += 1;
    }
    assert(out@ =~= Seq::new(n as nat, |k: int| 0i64));
    out
}

/// Evaluates a recorded node list from the start, with registers sized by
/// the per-class counts, the given argument words, and a fuel bound.
#[verifier::loop_isolation(false)]
pub fn eval(nodes: &Vec<Node>, caps: &RegCaps, args: Vec<JitWord>, fuel: u32) -> (r: Option<
    JitWord,
>)
    ensures
        r == spec_eval(nodes_view(nodes@), spec_init(*caps, args@), fuel as nat),
{
    let ghost nv = nodes_view(nodes@);
    let ghost m0 = spec_init(*caps, args@);
    let mut m = Machine {
        pc: 0,
        gpr: zero_words(caps.r),
        sav: zero_words(caps.v),
        flt: zero_words(caps.f),
        frame: Frame { ret_pc: 0, args, arg_nodes: Vec::new() },
        stack: Vec::new(),
        pending: Vec::new(),
        last_return: 0,
    };
    proof {
        assert(frames_view(m.stack@) =~= Seq::<FrameView>::empty());
        assert(m@ =~= m0);
    }
    let mut left = fuel;
    loop
        invariant
            spec_eval(nv, m0, fuel as nat) == spec_eval(nv, m@, left as nat),
        decreases left,
    {
        if left == 0 {
            return Option::None;
        }
        let ghost cur = m@;
        match step(nodes, m) {
            Outcome::Done(v) => {
                assert(spec_eval(nv, cur, left as nat) == Option::Some(v));
                return Option::Some(v);
            },
            Outcome::Stuck => {
                assert(spec_eval(nv, cur, left as nat) == Option::<JitWord>::None);
                return Option::None;
            },
            Outcome::Next(m2) => {
                assert(spec_eval(nv, cur, left as nat) == spec_eval(
                    nv,
                    m2@,
                    (left - 1) as nat,
                ));
                m = m2;
                left = left - 1;
            },
        }
    }
}

impl JitState {
    /// Runs this session's recorded stream on the given argument words under
    /// the model semantics, with a fuel bound.
    pub fn run(&self, args: Vec<JitWord>, fuel: u32) -> (r: Option<JitWord>)
        ensures
            r == spec_eval(self@.nodes, spec_init(self@.caps, args@), fuel as nat),
    {
        eval(&self.nodes, &self.caps, args, fuel)
    }
}

} // verus!
