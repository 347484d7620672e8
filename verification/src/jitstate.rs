//! Per-session emission contexts and the instruction-node model.
//!
//! A session owns one emission context: an ordered list of nodes, a count of
//! placed nodes (those occupying a position in the code stream), and a phase
//! flag. Instructions are appended while building; `emit` realizes the
//! stream at a code base supplied by the embedder, after which every placed
//! node has the address `base + position`. Handles are honored only by the
//! session that created them, registers are validated against the reported
//! per-class counts before every use, and a rejected call leaves the
//! session's already-built instructions untouched.

use vstd::prelude::*;
use crate::jit::Jit;
use crate::types::{JitNode, JitPointer, JitWord, Reg, RegCaps, RegError};
use crate::text::clone_text;

verus! {

/// The structural kind of one node.
#[derive(Clone, Copy, Debug, PartialEq, Eq, Structural)]
pub enum NodeKind {
    /// A placed label.
    Label,
    /// A forward declaration, unplaced until linked.
    Forward,
    /// An indirect-callable label.
    Indirect,
    /// A symbol-name marker.
    Name,
    /// A source-note marker.
    Note,
    /// An emitted instruction.
    Instr,
}

/// The instruction selectors the session records.
#[derive(Clone, Copy, Debug, PartialEq, Eq, Structural)]
pub enum OpCode {
    Prolog,
    Epilog,
    Prepare,
    Ellipsis,
    Frame,
    Arg,
    Getarg,
    Putargr,
    Pushargr,
    Pushargi,
    Finishr,
    Finishi,
    Ret,
    Retr,
    Reti,
    Retval,
    Addr,
    Addi,
    Subr,
    Subi,
    SubrF,
    SubrD,
    Mulr,
    Movr,
    Movi,
    Beqi,
    Blei,
    Jmpi,
}

/// One operand of a recorded instruction.
#[derive(Clone, Copy, Debug, PartialEq, Eq, Structural)]
pub enum Operand {
    /// A validated register.
    Gpr(Reg),
    /// A word immediate.
    Imm(JitWord),
    /// An address immediate.
    Ptr(JitPointer),
    /// A 32-bit integer immediate.
    I32(i32),
    /// A reference to an earlier node of the same session.
    NodeRef(usize),
}

/// One node of a session's stream.
pub struct Node {
    pub kind: NodeKind,
    pub code: Option<OpCode>,
    pub operands: Vec<Operand>,
    pub text: Option<Vec<char>>,
    pub line: u32,
    pub placed: Option<usize>,
    pub target: Option<usize>,
}

/// The mathematical content of a node.
#[verifier::ext_equal]
pub ghost struct NodeView {
    pub kind: NodeKind,
    pub code: Option<OpCode>,
    pub operands: Seq<Operand>,
    pub text: Option<Seq<char>>,
    pub line: u32,
    pub placed: Option<usize>,
    pub target: Option<usize>,
}

impl View for Node {
    type V = NodeView;

    open spec fn view(&self) -> NodeView {
        NodeView {
            kind: self.kind,
            code: self.code,
            operands: self.operands@,
            text: match self.text {
                Option::Some(t) => Option::Some(t@),
                Option::None => Option::None,
            },
            line: self.line,
            placed: self.placed,
            target: self.target,
        }
    }
}

/// The abstraction of a node list.
pub open spec fn nodes_view(v: Seq<Node>) -> Seq<NodeView> {
    Seq::new(v.len(), |i: int| v[i]@)
}

/// A rejected session operation. A rejection never disturbs the
/// instructions already built.
#[derive(Clone, Copy, Debug, PartialEq, Eq, Structural)]
pub enum EmitError {
    /// An out-of-range register, with its class label.
    Register(RegError),
    /// A handle from a different or expired session.
    ForeignHandle,
    /// A link of a node that is not an unplaced forward declaration.
    NotLinkable,
    /// An address query for a node without a code position.
    Unplaced,
}

/// One per-compilation-unit session.
pub struct JitState {
    pub guard: u64,
    pub serial: u64,
    pub caps: RegCaps,
    pub nodes: Vec<Node>,
    pub placed_count: usize,
    pub realized: bool,
    pub code_base: JitPointer,
}

/// The mathematical content of a session.
#[verifier::ext_equal]
pub ghost struct StateView {
    pub guard: u64,
    pub serial: u64,
    pub caps: RegCaps,
    pub nodes: Seq<NodeView>,
    pub placed_count: usize,
    pub realized: bool,
    pub code_base: JitPointer,
}

impl View for JitState {
    type V = StateView;

    open spec fn view(&self) -> StateView {
        StateView {
            guard: self.guard,
            serial: self.serial,
            caps: self.caps,
            nodes: nodes_view(self.nodes@),
            placed_count: self.placed_count,
            realized: self.realized,
            code_base: self.code_base,
        }
    }
}

impl StateView {
    /// Session well-formedness: placed positions are below the placed
    /// count, the placed count never exceeds the node count, and a realized
    /// session's addresses fit the address space.
    pub open spec fn wf(self) -> bool {
        &&& self.placed_count == count_placed(self.nodes)
        &&& forall|k: int|
            0 <= k < self.nodes.len() ==> match (#[trigger] self.nodes[k]).placed {
                Option::Some(p) => p < self.placed_count,
                Option::None => true,
            }
        &&& (self.realized ==> self.code_base + self.placed_count <= usize::MAX)
    }

    /// This session honors `node`: it was produced by this session and
    /// names one of its nodes.
    pub open spec fn owns(self, node: JitNode) -> bool {
        node.guard == self.guard && node.serial == self.serial && node.index < self.nodes.len()
    }

    /// The handle the next appended node will get.
    pub open spec fn next_handle(self) -> JitNode {
        JitNode { guard: self.guard, serial: self.serial, index: self.nodes.len() as usize }
    }

    /// This session extended by one placed instruction.
    pub open spec fn with_instr(self, code: OpCode, operands: Seq<Operand>) -> StateView {
        StateView {
            nodes: self.nodes.push(
                NodeView {
                    kind: NodeKind::Instr,
                    code: Option::Some(code),
                    operands: operands,
                    text: Option::None,
                    line: 0,
                    placed: Option::Some(self.placed_count),
                    target: Option::None,
                },
            ),
            placed_count: (self.placed_count + 1) as usize,
            ..self
        }
    }

    /// This session extended by one placed marker node without operands.
    pub open spec fn with_marker(self, kind: NodeKind, text: Option<Seq<char>>, line: u32)
        -> StateView {
        StateView {
            nodes: self.nodes.push(
                NodeView {
                    kind: kind,
                    code: Option::None,
                    operands: Seq::empty(),
                    text: text,
                    line: line,
                    placed: Option::Some(self.placed_count),
                    target: Option::None,
                },
            ),
            placed_count: (self.placed_count + 1) as usize,
            ..self
        }
    }

    /// This session extended by one unplaced forward declaration.
    pub open spec fn with_forward(self) -> StateView {
        StateView {
            nodes: self.nodes.push(
                NodeView {
                    kind: NodeKind::Forward,
                    code: Option::None,
                    operands: Seq::empty(),
                    text: Option::None,
                    line: 0,
                    placed: Option::None,
                    target: Option::None,
                },
            ),
            ..self
        }
    }

    /// The address of a placed node once the session is realized.
    pub open spec fn spec_address(self, i: int) -> Option<JitPointer> {
        match self.nodes[i].placed {
            Option::Some(p) => Option::Some((self.code_base + p) as JitPointer),
            Option::None => Option::None,
        }
    }

    /// Where a patched node's jump or call resolves: the address of its
    /// target node.
    pub open spec fn spec_target_address(self, i: int) -> Option<JitPointer> {
        match self.nodes[i].target {
            Option::Some(t) => if t < self.nodes.len() {
                self.spec_address(t as int)
            } else {
                Option::None
            },
            Option::None => Option::None,
        }
    }
}

/// The first out-of-range register among `regs`, scanning left to right.
pub open spec fn spec_reg_check(regs: Seq<Reg>, caps: RegCaps) -> Option<RegError>
    decreases regs.len(),
{
    if regs.len() == 0 {
        Option::None
    } else if !regs[0].spec_valid(caps) {
        Option::Some(regs[0].spec_error())
    } else {
        spec_reg_check(regs.drop_first(), caps)
    }
}

proof fn lemma_reg_check_skip(regs: Seq<Reg>, caps: RegCaps, i: int)
    requires
        0 <= i <= regs.len(),
        forall|j: int| 0 <= j < i ==> (#[trigger] regs[j]).spec_valid(caps),
    ensures
        spec_reg_check(regs, caps) == spec_reg_check(regs.skip(i), caps),
    decreases i,
{
    if i > 0 {
        lemma_reg_check_skip(regs.drop_first(), caps, i - 1);
        assert(regs.drop_first().skip(i - 1) =~= regs.skip(i));
    } else {
        assert(regs.skip(0) =~= regs);
    }
}

/// Validates registers left to right, reporting the first failure.
#[verifier::loop_isolation(false)]
fn check_regs(regs: &Vec<Reg>, caps: &RegCaps) -> (r: Result<(), RegError>)
    ensures
        match r {
            Result::Ok(()) => spec_reg_check(regs@, *caps) is None,
            Result::Err(e) => spec_reg_check(regs@, *caps) == Option::Some(e),
        },
{
    let mut i: usize = 0;
    while i < regs.len()
        invariant
            i <= regs.len(),
            forall|j: int| 0 <= j < i ==> (#[trigger] regs@[j]).spec_valid(*caps),
        decreases regs.len() - i,
    {
        proof {
            lemma_reg_check_skip(regs@, *caps, i as int);
            assert(regs@.skip(i as int)[0] == regs@[i as int]);
        }
        match regs[i].validate(caps) {
            Result::Ok(()) => {},
            Result::Err(e) => {
                return Result::Err(e);
            },
        }
        i += 1;
    }
    proof {
        lemma_reg_check_skip(regs@, *caps, regs@.len() as int);
        assert(regs@.skip(regs@.len() as int).len() == 0);
    }
    Result::Ok(())
}

impl Jit {
    /// Creates a fresh session under this guard. The session starts empty,
    /// in the building phase, with this guard's register counts and a
    /// serial number never given out before by this guard.
    pub fn new_state(&mut self) -> (s: JitState)
        requires
            old(self).next_state_serial() < u64::MAX,
        ensures
            final(self).guard_id() == old(self).guard_id(),
            final(self).spec_caps() == old(self).spec_caps(),
            final(self).next_state_serial() == old(self).next_state_serial() + 1,
            s@.guard == old(self).guard_id(),
            s@.serial == old(self).next_state_serial(),
            s@.caps == old(self).spec_caps(),
            s@.nodes == Seq::<NodeView>::empty(),
            s@.placed_count == 0,
            !s@.realized,
            s@.wf(),
    {
        let serial = self.bump_serial();
        let s = JitState {
            guard: self.guard_id_exec(),
            serial,
            caps: self.caps_exec(),
            nodes: Vec::new(),
            placed_count: 0,
            realized: false,
            code_base: 0,
        };
        assert(s@.nodes =~= Seq::<NodeView>::empty());
        s
    }
}

impl JitState {
    /// Appends one node, optionally placing it at the next code position.
    fn append_node(&mut self, node: Node, place: bool) -> (h: JitNode)
        requires
            old(self)@.wf(),
            !old(self)@.realized,
            node@.placed is None,
            node@.target is None,
        ensures
            h == old(self)@.next_handle(),
            final(self)@ == (StateView {
                nodes: old(self)@.nodes.push(
                    NodeView {
                        placed: if place {
                            Option::Some(old(self)@.placed_count)
                        } else {
                            Option::None
                        },
                        ..node@
                    },
                ),
                placed_count: if place {
                    (old(self)@.placed_count + 1) as usize
                } else {
                    old(self)@.placed_count
                },
                ..old(self)@
            }),
            final(self)@.wf(),
    {
        let h = JitNode { guard: self.guard, serial: self.serial, index: self.nodes.len() };
        let mut node = node;
        let ghost pre = self.nodes@;
        if place {
            node.placed = Option::Some(self.placed_count);
        }
        let ghost nv = node@;
        self.nodes.push(node);
        let grown = self.nodes.len();
        if place {
            proof {
                lemma_count_placed_le_len(nodes_view(pre));
            }
            assert(self.placed_count < grown);
            self.placed_count = self.placed_count + 1;
        }
        proof {
            assert forall|k: int| 0 <= k < self.nodes@.len() implies nodes_view(self.nodes@)[k]
                == nodes_view(pre).push(nv)[k] by {
                if k < pre.len() {
                    assert(self.nodes@[k] == pre[k]);
                    assert(nodes_view(pre)[k] == pre[k]@);
                }
            }
            assert(nodes_view(self.nodes@) =~= nodes_view(pre).push(nv));
            assert(nodes_view(pre).push(nv).drop_last() =~= nodes_view(pre));
            assert(final(self)@ =~= (StateView {
                nodes: old(self)@.nodes.push(nv),
                placed_count: if place {
                    (old(self)@.placed_count + 1) as usize
                } else {
                    old(self)@.placed_count
                },
                ..old(self)@
            }));
        }
        h
    }

    /// Appends one placed instruction node.
    fn push_instr(&mut self, code: OpCode, operands: Vec<Operand>) -> (h: JitNode)
        requires
            old(self)@.wf(),
            !old(self)@.realized,
        ensures
            h == old(self)@.next_handle(),
            final(self)@ == old(self)@.with_instr(code, operands@),
            final(self)@.wf(),
    {
        let ghost ops = operands@;
        let node = Node {
            kind: NodeKind::Instr,
            code: Option::Some(code),
            operands,
            text: Option::None,
            line: 0,
            placed: Option::None,
            target: Option::None,
        };
        let h = self.append_node(node, true);
        proof {
            assert(final(self)@ =~= old(self)@.with_instr(code, ops));
        }
        h
    }

    /// True when this session honors `node`.
    pub fn check_handle(&self, node: &JitNode) -> (r: bool)
        ensures
            r == self@.owns(*node),
    {
        node.guard == self.guard && node.serial == self.serial && node.index < self.nodes.len()
    }
}

/// Number of placed nodes in a node list.
pub open spec fn count_placed(nodes: Seq<NodeView>) -> nat
    decreases nodes.len(),
{
    if nodes.len() == 0 {
        0
    } else {
        count_placed(nodes.drop_last()) + if nodes.last().placed is Some {
            1nat
        } else {
            0nat
        }
    }
}

/// No more nodes are placed than exist.
pub proof fn lemma_count_placed_le_len(nodes: Seq<NodeView>)
    ensures
        count_placed(nodes) <= nodes.len(),
    decreases nodes.len(),
{
    if nodes.len() > 0 {
        lemma_count_placed_le_len(nodes.drop_last());
    }
}

/// With an unplaced node present, strictly fewer nodes are placed than
/// exist.
pub proof fn lemma_count_placed_lt_len(nodes: Seq<NodeView>, i: int)
    requires
        0 <= i < nodes.len(),
        nodes[i].placed is None,
    ensures
        count_placed(nodes) < nodes.len(),
    decreases nodes.len(),
{
    if i == nodes.len() - 1 {
        lemma_count_placed_le_len(nodes.drop_last());
    } else {
        lemma_count_placed_lt_len(nodes.drop_last(), i);
    }
}

/// Placing one unplaced node raises the placed count by one.
pub proof fn lemma_count_placed_update(nodes: Seq<NodeView>, i: int, nv: NodeView)
    requires
        0 <= i < nodes.len(),
        nodes[i].placed is None,
        nv.placed is Some,
    ensures
        count_placed(nodes.update(i, nv)) == count_placed(nodes) + 1,
    decreases nodes.len(),
{
    if i == nodes.len() - 1 {
        assert(nodes.update(i, nv).drop_last() =~= nodes.drop_last());
    } else {
        assert(nodes.update(i, nv).drop_last() =~= nodes.drop_last().update(i, nv));
        assert(nodes.update(i, nv).last() == nodes.last());
        lemma_count_placed_update(nodes.drop_last(), i, nv);
    }
}

/// Changing only a node's target leaves the placed count unchanged.
pub proof fn lemma_count_placed_retarget(nodes: Seq<NodeView>, i: int, nv: NodeView)
    requires
        0 <= i < nodes.len(),
        nv.placed == nodes[i].placed,
    ensures
        count_placed(nodes.update(i, nv)) == count_placed(nodes),
    decreases nodes.len(),
{
    if i == nodes.len() - 1 {
        assert(nodes.update(i, nv).drop_last() =~= nodes.drop_last());
    } else {
        assert(nodes.update(i, nv).drop_last() =~= nodes.drop_last().update(i, nv));
        assert(nodes.update(i, nv).last() == nodes.last());
        lemma_count_placed_retarget(nodes.drop_last(), i, nv);
    }
}

impl JitState {
    /// Appends a placed label and returns its handle.
    pub fn label(&mut self) -> (h: JitNode)
        requires
            old(self)@.wf(),
            !old(self)@.realized,
        ensures
            final(self)@.wf(),
            h == old(self)@.next_handle(),
            final(self)@ == old(self)@.with_marker(NodeKind::Label, Option::None, 0),
    {
        let node = Node {
            kind: NodeKind::Label,
            code: Option::None,
            operands: Vec::new(),
            text: Option::None,
            line: 0,
            placed: Option::None,
            target: Option::None,
        };
        let h = self.append_node(node, true);
        proof {
            assert(final(self)@ =~= old(self)@.with_marker(NodeKind::Label, Option::None, 0));
        }
        h
    }

    /// Appends an indirect-callable label and returns its handle.
    pub fn indirect(&mut self) -> (h: JitNode)
        requires
            old(self)@.wf(),
            !old(self)@.realized,
        ensures
            final(self)@.wf(),
            h == old(self)@.next_handle(),
            final(self)@ == old(self)@.with_marker(NodeKind::Indirect, Option::None, 0),
    {
        let node = Node {
            kind: NodeKind::Indirect,
            code: Option::None,
            operands: Vec::new(),
            text: Option::None,
            line: 0,
            placed: Option::None,
            target: Option::None,
        };
        let h = self.append_node(node, true);
        proof {
            assert(final(self)@ =~= old(self)@.with_marker(NodeKind::Indirect, Option::None, 0));
        }
        h
    }

    /// Declares a forward reference: a node without a position, to be
    /// placed later by `link`.
    pub fn forward(&mut self) -> (h: JitNode)
        requires
            old(self)@.wf(),
            !old(self)@.realized,
        ensures
            final(self)@.wf(),
            h == old(self)@.next_handle(),
            final(self)@ == old(self)@.with_forward(),
    {
        let node = Node {
            kind: NodeKind::Forward,
            code: Option::None,
            operands: Vec::new(),
            text: Option::None,
            line: 0,
            placed: Option::None,
            target: Option::None,
        };
        let h = self.append_node(node, false);
        proof {
            assert(final(self)@ =~= old(self)@.with_forward());
        }
        h
    }

    /// Places a forward declaration at the current position. Rejected for a
    /// foreign handle or for a node that is not an unplaced forward
    /// declaration; a rejection changes nothing.
    pub fn link(&mut self, node: &JitNode) -> (r: Result<(), EmitError>)
        requires
            old(self)@.wf(),
            !old(self)@.realized,
        ensures
            final(self)@.wf(),
            !old(self)@.owns(*node) ==> r == Result::<(), EmitError>::Err(
                EmitError::ForeignHandle,
            ) && final(self)@ == old(self)@,
            old(self)@.owns(*node) && !(old(self)@.nodes[node.index as int].kind
                == NodeKind::Forward && old(self)@.nodes[node.index as int].placed is None) ==> r
                == Result::<(), EmitError>::Err(EmitError::NotLinkable) && final(self)@ == old(
                self,
            )@,
            old(self)@.owns(*node) && old(self)@.nodes[node.index as int].kind
                == NodeKind::Forward && old(self)@.nodes[node.index as int].placed is None ==> r
                == Result::<(), EmitError>::Ok(()) && final(self)@ == (StateView {
                nodes: old(self)@.nodes.update(
                    node.index as int,
                    NodeView {
                        placed: Option::Some(old(self)@.placed_count),
                        ..old(self)@.nodes[node.index as int]
                    },
                ),
                placed_count: (old(self)@.placed_count + 1) as usize,
                ..old(self)@
            }),
    {
        if !self.check_handle(node) {
            return Result::Err(EmitError::ForeignHandle);
        }
        let is_fwd = match self.nodes[node.index].kind {
            NodeKind::Forward => true,
            _ => false,
        };
        let unplaced = match self.nodes[node.index].placed {
            Option::None => true,
            Option::Some(_) => false,
        };
        proof {
            assert(old(self)@.nodes[node.index as int] == self.nodes@[node.index as int]@);
        }
        if !(is_fwd && unplaced) {
            return Result::Err(EmitError::NotLinkable);
        }
        let ghost pre = self@;
        let total = self.nodes.len();
        proof {
            lemma_count_placed_lt_len(pre.nodes, node.index as int);
            assert(self.placed_count < total);
        }
        self.nodes[node.index].placed = Option::Some(self.placed_count);
        self.placed_count = self.placed_count + 1;
        proof {
            let nv = NodeView {
                placed: Option::Some(pre.placed_count),
                ..pre.nodes[node.index as int]
            };
            assert forall|k: int| 0 <= k < self.nodes@.len() implies nodes_view(self.nodes@)[k]
                == pre.nodes.update(node.index as int, nv)[k] by {
                if k != node.index {
                    assert(self.nodes@[k] == old(self).nodes@[k]);
                    assert(pre.nodes[k] == old(self).nodes@[k]@);
                } else {
                    assert(self.nodes@[k]@ =~= nv);
                }
            }
            assert(nodes_view(self.nodes@) =~= pre.nodes.update(node.index as int, nv));
            lemma_count_placed_update(pre.nodes, node.index as int, nv);
            assert(final(self)@ =~= (StateView {
                nodes: pre.nodes.update(node.index as int, nv),
                placed_count: (pre.placed_count + 1) as usize,
                ..pre
            }));
        }
        Result::Ok(())
    }

    /// Patches an earlier branch or call to target another node of this
    /// session. Rejected for a foreign handle on either side; a rejection
    /// changes nothing.
    pub fn patch_at(&mut self, instr: &JitNode, target: &JitNode) -> (r: Result<(), EmitError>)
        requires
            old(self)@.wf(),
            !old(self)@.realized,
        ensures
            final(self)@.wf(),
            !(old(self)@.owns(*instr) && old(self)@.owns(*target)) ==> r == Result::<
                (),
                EmitError,
            >::Err(EmitError::ForeignHandle) && final(self)@ == old(self)@,
            old(self)@.owns(*instr) && old(self)@.owns(*target) ==> r == Result::<
                (),
                EmitError,
            >::Ok(()) && final(self)@ == (StateView {
                nodes: old(self)@.nodes.update(
                    instr.index as int,
                    NodeView {
                        target: Option::Some(target.index),
                        ..old(self)@.nodes[instr.index as int]
                    },
                ),
                ..old(self)@
            }),
    {
        if !self.check_handle(instr) || !self.check_handle(target) {
            return Result::Err(EmitError::ForeignHandle);
        }
        let ghost pre = self@;
        self.nodes[instr.index].target = Option::Some(target.index);
        proof {
            let nv = NodeView {
                target: Option::Some(target.index),
                ..pre.nodes[instr.index as int]
            };
            assert forall|k: int| 0 <= k < self.nodes@.len() implies nodes_view(self.nodes@)[k]
                == pre.nodes.update(instr.index as int, nv)[k] by {
                if k != instr.index {
                    assert(self.nodes@[k] == old(self).nodes@[k]);
                    assert(pre.nodes[k] == old(self).nodes@[k]@);
                } else {
                    assert(self.nodes@[k]@ =~= nv);
                }
            }
            assert(nodes_view(self.nodes@) =~= pre.nodes.update(instr.index as int, nv));
            lemma_count_placed_retarget(pre.nodes, instr.index as int, nv);
            assert(final(self)@ =~= (StateView {
                nodes: pre.nodes.update(instr.index as int, nv),
                ..pre
            }));
        }
        Result::Ok(())
    }

    /// Patches an earlier branch to the current position: a label is placed
    /// here and the branch is retargeted to it.
    pub fn patch(&mut self, instr: &JitNode) -> (r: Result<JitNode, EmitError>)
        requires
            old(self)@.wf(),
            !old(self)@.realized,
        ensures
            final(self)@.wf(),
            !old(self)@.owns(*instr) ==> r == Result::<JitNode, EmitError>::Err(
                EmitError::ForeignHandle,
            ) && final(self)@ == old(self)@,
            old(self)@.owns(*instr) ==> r == Result::<JitNode, EmitError>::Ok(
                old(self)@.next_handle(),
            ) && final(self)@ == (StateView {
                nodes: old(self)@.with_marker(NodeKind::Label, Option::None, 0).nodes.update(
                    instr.index as int,
                    NodeView {
                        target: Option::Some(old(self)@.next_handle().index),
                        ..old(self)@.nodes[instr.index as int]
                    },
                ),
                placed_count: (old(self)@.placed_count + 1) as usize,
                ..old(self)@
            }),
    {
        if !self.check_handle(instr) {
            return Result::Err(EmitError::ForeignHandle);
        }
        let here = self.label();
        let r = self.patch_at(instr, &here);
        proof {
            assert(r is Ok);
        }
        match r {
            Result::Ok(()) => Result::Ok(here),
            Result::Err(e) => Result::Err(e),
        }
    }
}

impl JitState {
    /// Records a symbol-name marker at the current position.
    pub fn name(&mut self, text: &Vec<char>) -> (h: JitNode)
        requires
            old(self)@.wf(),
            !old(self)@.realized,
        ensures
            final(self)@.wf(),
            h == old(self)@.next_handle(),
            final(self)@ == old(self)@.with_marker(
                NodeKind::Name,
                Option::Some(text@),
                0,
            ),
    {
        let node = Node {
            kind: NodeKind::Name,
            code: Option::None,
            operands: Vec::new(),
            text: Option::Some(clone_text(text)),
            line: 0,
            placed: Option::None,
            target: Option::None,
        };
        let h = self.append_node(node, true);
        proof {
            assert(final(self)@ =~= old(self)@.with_marker(NodeKind::Name, Option::Some(text@), 0));
        }
        h
    }

    /// Records a source note (file and line) at the current position.
    pub fn note(&mut self, file: Option<&Vec<char>>, line: u32) -> (h: JitNode)
        requires
            old(self)@.wf(),
            !old(self)@.realized,
        ensures
            final(self)@.wf(),
            h == old(self)@.next_handle(),
            final(self)@ == old(self)@.with_marker(
                NodeKind::Note,
                match file {
                    Option::Some(t) => Option::Some(t@),
                    Option::None => Option::None,
                },
                line,
            ),
    {
        let text = match file {
            Option::Some(t) => Option::Some(clone_text(t)),
            Option::None => Option::None,
        };
        let node = Node {
            kind: NodeKind::Note,
            code: Option::None,
            operands: Vec::new(),
            text,
            line,
            placed: Option::None,
            target: Option::None,
        };
        let h = self.append_node(node, true);
        proof {
            assert(final(self)@ =~= old(self)@.with_marker(
                NodeKind::Note,
                match file {
                    Option::Some(t) => Option::Some(t@),
                    Option::None => Option::None,
                },
                line,
            ));
        }
        h
    }

    /// True when `node` is an unplaced forward declaration of this session.
    pub fn forward_p(&self, node: &JitNode) -> (r: Result<bool, EmitError>)
        ensures
            !self@.owns(*node) ==> r == Result::<bool, EmitError>::Err(EmitError::ForeignHandle),
            self@.owns(*node) ==> r == Result::<bool, EmitError>::Ok(
                self@.nodes[node.index as int].kind == NodeKind::Forward
                    && self@.nodes[node.index as int].placed is None,
            ),
    {
        if !self.check_handle(node) {
            return Result::Err(EmitError::ForeignHandle);
        }
        let is_fwd = match self.nodes[node.index].kind {
            NodeKind::Forward => true,
            _ => false,
        };
        let unplaced = match self.nodes[node.index].placed {
            Option::None => true,
            Option::Some(_) => false,
        };
        proof {
            assert(self@.nodes[node.index as int] == self.nodes@[node.index as int]@);
        }
        Result::Ok(is_fwd && unplaced)
    }

    /// True when `node` is an indirect-callable label of this session.
    pub fn indirect_p(&self, node: &JitNode) -> (r: Result<bool, EmitError>)
        ensures
            !self@.owns(*node) ==> r == Result::<bool, EmitError>::Err(EmitError::ForeignHandle),
            self@.owns(*node) ==> r == Result::<bool, EmitError>::Ok(
                self@.nodes[node.index as int].kind == NodeKind::Indirect,
            ),
    {
        if !self.check_handle(node) {
            return Result::Err(EmitError::ForeignHandle);
        }
        let v = match self.nodes[node.index].kind {
            NodeKind::Indirect => true,
            _ => false,
        };
        proof {
            assert(self@.nodes[node.index as int] == self.nodes@[node.index as int]@);
        }
        Result::Ok(v)
    }

    /// True when some patched node of this session targets `node`.
    #[verifier::loop_isolation(false)]
    pub fn target_p(&self, node: &JitNode) -> (r: Result<bool, EmitError>)
        ensures
            !self@.owns(*node) ==> r == Result::<bool, EmitError>::Err(EmitError::ForeignHandle),
            self@.owns(*node) ==> r == Result::<bool, EmitError>::Ok(
                exists|k: int|
                    0 <= k < self@.nodes.len() && (#[trigger] self@.nodes[k]).target
                        == Option::Some(node.index),
            ),
    {
        if !self.check_handle(node) {
            return Result::Err(EmitError::ForeignHandle);
        }
        let mut k: usize = 0;
        while k < self.nodes.len()
            invariant
                k <= self.nodes@.len(),
                forall|m: int|
                    0 <= m < k ==> (#[trigger] self@.nodes[m]).target != Option::Some(node.index),
            decreases self.nodes@.len() - k,
        {
            let hit = match self.nodes[k].target {
                Option::Some(t) => t == node.index,
                Option::None => false,
            };
            proof {
                assert(self@.nodes[k as int] == self.nodes@[k as int]@);
            }
            if hit {
                return Result::Ok(true);
            }
            k += 1;
        }
        Result::Ok(false)
    }

    /// Realizes the session at the code base the embedder obtained from the
    /// native layer: every placed node now has the address `base` plus its
    /// position.
    pub fn emit(&mut self, code_base: JitPointer) -> (r: JitPointer)
        requires
            old(self)@.wf(),
            !old(self)@.realized,
            code_base + old(self)@.placed_count <= usize::MAX,
        ensures
            final(self)@.wf(),
            final(self)@ == (StateView { realized: true, code_base, ..old(self)@ }),
            r == code_base,
    {
        self.realized = true;
        self.code_base = code_base;
        proof {
            assert(final(self)@ =~= (StateView { realized: true, code_base, ..old(self)@ }));
        }
        code_base
    }

    /// The address of a placed node of this realized session.
    pub fn address(&self, node: &JitNode) -> (r: Result<JitPointer, EmitError>)
        requires
            self@.wf(),
            self@.realized,
        ensures
            !self@.owns(*node) ==> r == Result::<JitPointer, EmitError>::Err(
                EmitError::ForeignHandle,
            ),
            self@.owns(*node) ==> r == (match self@.spec_address(node.index as int) {
                Option::Some(a) => Result::<JitPointer, EmitError>::Ok(a),
                Option::None => Result::<JitPointer, EmitError>::Err(EmitError::Unplaced),
            }),
    {
        if !self.check_handle(node) {
            return Result::Err(EmitError::ForeignHandle);
        }
        proof {
            assert(self@.nodes[node.index as int] == self.nodes@[node.index as int]@);
        }
        match self.nodes[node.index].placed {
            Option::Some(p) => Result::Ok(self.code_base + p),
            Option::None => Result::Err(EmitError::Unplaced),
        }
    }

    /// Where a patched node's branch or call resolves in this realized
    /// session: the address of its target.
    pub fn target_address(&self, instr: &JitNode) -> (r: Result<JitPointer, EmitError>)
        requires
            self@.wf(),
            self@.realized,
        ensures
            !self@.owns(*instr) ==> r == Result::<JitPointer, EmitError>::Err(
                EmitError::ForeignHandle,
            ),
            self@.owns(*instr) ==> r == (match self@.spec_target_address(instr.index as int) {
                Option::Some(a) => Result::<JitPointer, EmitError>::Ok(a),
                Option::None => Result::<JitPointer, EmitError>::Err(EmitError::Unplaced),
            }),
    {
        if !self.check_handle(instr) {
            return Result::Err(EmitError::ForeignHandle);
        }
        proof {
            assert(self@.nodes[instr.index as int] == self.nodes@[instr.index as int]@);
        }
        let t = match self.nodes[instr.index].target {
            Option::Some(t) => t,
            Option::None => {
                return Result::Err(EmitError::Unplaced);
            },
        };
        if t >= self.nodes.len() {
            return Result::Err(EmitError::Unplaced);
        }
        proof {
            assert(self@.nodes[t as int] == self.nodes@[t as int]@);
        }
        match self.nodes[t].placed {
            Option::Some(p) => Result::Ok(self.code_base + p),
            Option::None => Result::Err(EmitError::Unplaced),
        }
    }

    /// The realized code extent: the base address the session was realized
    /// at and the number of placed positions it covers.
    pub fn get_code(&self) -> (r: (JitPointer, usize))
        requires
            self@.realized,
        ensures
            r == (self@.code_base, self@.placed_count),
    {
        (self.code_base, self.placed_count)
    }

    /// Resets the session for reuse: the node stream is dropped and
    /// building may start over.
    pub fn clear_state(&mut self)
        ensures
            final(self)@.wf(),
            final(self)@ == (StateView {
                nodes: Seq::<NodeView>::empty(),
                placed_count: 0,
                realized: false,
                code_base: 0,
                ..old(self)@
            }),
    {
        self.nodes = Vec::new();
        self.placed_count = 0;
        self.realized = false;
        self.code_base = 0;
        proof {
            assert(nodes_view(self.nodes@) =~= Seq::<NodeView>::empty());
            assert(final(self)@ =~= (StateView {
                nodes: Seq::<NodeView>::empty(),
                placed_count: 0,
                realized: false,
                code_base: 0,
                ..old(self)@
            }));
        }
    }
}

impl JitState {
    /// Emits an instruction with no operands.
    fn simple_instr(&mut self, code: OpCode)
        requires
            old(self)@.wf(),
            !old(self)@.realized,
        ensures
            final(self)@.wf(),
            final(self)@ == old(self)@.with_instr(code, Seq::empty()),
    {
        let ops: Vec<Operand> = Vec::new();
        assert(ops@ =~= Seq::<Operand>::empty());
        let _ = self.push_instr(code, ops);
    }

    /// Emits a function prolog.
    pub fn prolog(&mut self)
        requires
            old(self)@.wf(),
            !old(self)@.realized,
        ensures
            final(self)@.wf(),
            final(self)@ == old(self)@.with_instr(OpCode::Prolog, Seq::empty()),
    {
        self.simple_instr(OpCode::Prolog);
    }

    /// Emits a function epilog.
    pub fn epilog(&mut self)
        requires
            old(self)@.wf(),
            !old(self)@.realized,
        ensures
            final(self)@.wf(),
            final(self)@ == old(self)@.with_instr(OpCode::Epilog, Seq::empty()),
    {
        self.simple_instr(OpCode::Epilog);
    }

    /// Opens a call-argument sequence.
    pub fn prepare(&mut self)
        requires
            old(self)@.wf(),
            !old(self)@.realized,
        ensures
            final(self)@.wf(),
            final(self)@ == old(self)@.with_instr(OpCode::Prepare, Seq::empty()),
    {
        self.simple_instr(OpCode::Prepare);
    }

    /// Marks the variadic part of a call-argument sequence.
    pub fn ellipsis(&mut self)
        requires
            old(self)@.wf(),
            !old(self)@.realized,
        ensures
            final(self)@.wf(),
            final(self)@ == old(self)@.with_instr(OpCode::Ellipsis, Seq::empty()),
    {
        self.simple_instr(OpCode::Ellipsis);
    }

    /// Emits a bare return.
    pub fn ret(&mut self)
        requires
            old(self)@.wf(),
            !old(self)@.realized,
        ensures
            final(self)@.wf(),
            final(self)@ == old(self)@.with_instr(OpCode::Ret, Seq::empty()),
    {
        self.simple_instr(OpCode::Ret);
    }

    /// Emits a return of a word immediate.
    pub fn reti(&mut self, imm: JitWord)
        requires
            old(self)@.wf(),
            !old(self)@.realized,
        ensures
            final(self)@.wf(),
            final(self)@ == old(self)@.with_instr(OpCode::Reti, seq![Operand::Imm(imm)]),
    {
        let ops = vec![Operand::Imm(imm)];
        assert(ops@ =~= seq![Operand::Imm(imm)]);
        let _ = self.push_instr(OpCode::Reti, ops);
    }

    /// Pushes a word immediate as the next call argument.
    pub fn pushargi(&mut self, imm: JitWord)
        requires
            old(self)@.wf(),
            !old(self)@.realized,
        ensures
            final(self)@.wf(),
            final(self)@ == old(self)@.with_instr(OpCode::Pushargi, seq![Operand::Imm(imm)]),
    {
        let ops = vec![Operand::Imm(imm)];
        assert(ops@ =~= seq![Operand::Imm(imm)]);
        let _ = self.push_instr(OpCode::Pushargi, ops);
    }

    /// Reserves a stack frame of the given size.
    pub fn frame(&mut self, size: i32)
        requires
            old(self)@.wf(),
            !old(self)@.realized,
        ensures
            final(self)@.wf(),
            final(self)@ == old(self)@.with_instr(OpCode::Frame, seq![Operand::I32(size)]),
    {
        let ops = vec![Operand::I32(size)];
        assert(ops@ =~= seq![Operand::I32(size)]);
        let _ = self.push_instr(OpCode::Frame, ops);
    }

    /// Declares the next incoming word argument and returns its node.
    pub fn arg(&mut self) -> (h: JitNode)
        requires
            old(self)@.wf(),
            !old(self)@.realized,
        ensures
            final(self)@.wf(),
            h == old(self)@.next_handle(),
            final(self)@ == old(self)@.with_instr(OpCode::Arg, Seq::empty()),
    {
        let ops: Vec<Operand> = Vec::new();
        assert(ops@ =~= Seq::<Operand>::empty());
        self.push_instr(OpCode::Arg, ops)
    }

    /// Emits an unconditional jump and returns its patchable node.
    pub fn jmpi(&mut self) -> (h: JitNode)
        requires
            old(self)@.wf(),
            !old(self)@.realized,
        ensures
            final(self)@.wf(),
            h == old(self)@.next_handle(),
            final(self)@ == old(self)@.with_instr(OpCode::Jmpi, Seq::empty()),
    {
        let ops: Vec<Operand> = Vec::new();
        assert(ops@ =~= Seq::<Operand>::empty());
        self.push_instr(OpCode::Jmpi, ops)
    }

    /// Emits a call to an address immediate and returns its patchable node.
    pub fn finishi(&mut self, addr: JitPointer) -> (h: JitNode)
        requires
            old(self)@.wf(),
            !old(self)@.realized,
        ensures
            final(self)@.wf(),
            h == old(self)@.next_handle(),
            final(self)@ == old(self)@.with_instr(OpCode::Finishi, seq![Operand::Ptr(addr)]),
    {
        let ops = vec![Operand::Ptr(addr)];
        assert(ops@ =~= seq![Operand::Ptr(addr)]);
        self.push_instr(OpCode::Finishi, ops)
    }
}

impl JitState {
    /// Emits a three-register instruction after validating its registers in
    /// order.
    fn instr_rrr(&mut self, code: OpCode, targ: Reg, a: Reg, b: Reg) -> (r: Result<
        JitNode,
        EmitError,
    >)
        requires
            old(self)@.wf(),
            !old(self)@.realized,
        ensures
            final(self)@.wf(),
            match spec_reg_check(seq![targ, a, b], old(self)@.caps) {
                Option::Some(e) => r == Result::<JitNode, EmitError>::Err(EmitError::Register(e))
                    && final(self)@ == old(self)@,
                Option::None => r == Result::<JitNode, EmitError>::Ok(old(self)@.next_handle())
                    && final(self)@ == old(self)@.with_instr(
                    code,
                    seq![Operand::Gpr(targ), Operand::Gpr(a), Operand::Gpr(b)],
                ),
            },
    {
        let regs = vec![targ, a, b];
        assert(regs@ =~= seq![targ, a, b]);
        match check_regs(&regs, &self.caps) {
            Result::Err(e) => Result::Err(EmitError::Register(e)),
            Result::Ok(()) => {
                let ops = vec![Operand::Gpr(targ), Operand::Gpr(a), Operand::Gpr(b)];
                assert(ops@ =~= seq![Operand::Gpr(targ), Operand::Gpr(a), Operand::Gpr(b)]);
                Result::Ok(self.push_instr(code, ops))
            },
        }
    }

    /// Emits a register-register-immediate instruction after validating its
    /// registers in order.
    fn instr_rri(&mut self, code: OpCode, targ: Reg, a: Reg, imm: JitWord) -> (r: Result<
        JitNode,
        EmitError,
    >)
        requires
            old(self)@.wf(),
            !old(self)@.realized,
        ensures
            final(self)@.wf(),
            match spec_reg_check(seq![targ, a], old(self)@.caps) {
                Option::Some(e) => r == Result::<JitNode, EmitError>::Err(EmitError::Register(e))
                    && final(self)@ == old(self)@,
                Option::None => r == Result::<JitNode, EmitError>::Ok(old(self)@.next_handle())
                    && final(self)@ == old(self)@.with_instr(
                    code,
                    seq![Operand::Gpr(targ), Operand::Gpr(a), Operand::Imm(imm)],
                ),
            },
    {
        let regs = vec![targ, a];
        assert(regs@ =~= seq![targ, a]);
        match check_regs(&regs, &self.caps) {
            Result::Err(e) => Result::Err(EmitError::Register(e)),
            Result::Ok(()) => {
                let ops = vec![Operand::Gpr(targ), Operand::Gpr(a), Operand::Imm(imm)];
                assert(ops@ =~= seq![Operand::Gpr(targ), Operand::Gpr(a), Operand::Imm(imm)]);
                Result::Ok(self.push_instr(code, ops))
            },
        }
    }

    /// Emits a two-register instruction after validating its registers in
    /// order.
    fn instr_rr(&mut self, code: OpCode, targ: Reg, a: Reg) -> (r: Result<JitNode, EmitError>)
        requires
            old(self)@.wf(),
            !old(self)@.realized,
        ensures
            final(self)@.wf(),
            match spec_reg_check(seq![targ, a], old(self)@.caps) {
                Option::Some(e) => r == Result::<JitNode, EmitError>::Err(EmitError::Register(e))
                    && final(self)@ == old(self)@,
                Option::None => r == Result::<JitNode, EmitError>::Ok(old(self)@.next_handle())
                    && final(self)@ == old(self)@.with_instr(
                    code,
                    seq![Operand::Gpr(targ), Operand::Gpr(a)],
                ),
            },
    {
        let regs = vec![targ, a];
        assert(regs@ =~= seq![targ, a]);
        match check_regs(&regs, &self.caps) {
            Result::Err(e) => Result::Err(EmitError::Register(e)),
            Result::Ok(()) => {
                let ops = vec![Operand::Gpr(targ), Operand::Gpr(a)];
                assert(ops@ =~= seq![Operand::Gpr(targ), Operand::Gpr(a)]);
                Result::Ok(self.push_instr(code, ops))
            },
        }
    }

    /// Emits a register-immediate instruction after validating the register.
    fn instr_ri(&mut self, code: OpCode, targ: Reg, imm: JitWord) -> (r: Result<
        JitNode,
        EmitError,
    >)
        requires
            old(self)@.wf(),
            !old(self)@.realized,
        ensures
            final(self)@.wf(),
            match spec_reg_check(seq![targ], old(self)@.caps) {
                Option::Some(e) => r == Result::<JitNode, EmitError>::Err(EmitError::Register(e))
                    && final(self)@ == old(self)@,
                Option::None => r == Result::<JitNode, EmitError>::Ok(old(self)@.next_handle())
                    && final(self)@ == old(self)@.with_instr(
                    code,
                    seq![Operand::Gpr(targ), Operand::Imm(imm)],
                ),
            },
    {
        let regs = vec![targ];
        assert(regs@ =~= seq![targ]);
        match check_regs(&regs, &self.caps) {
            Result::Err(e) => Result::Err(EmitError::Register(e)),
            Result::Ok(()) => {
                let ops = vec![Operand::Gpr(targ), Operand::Imm(imm)];
                assert(ops@ =~= seq![Operand::Gpr(targ), Operand::Imm(imm)]);
                Result::Ok(self.push_instr(code, ops))
            },
        }
    }

    /// Emits a one-register instruction after validating the register.
    fn instr_r(&mut self, code: OpCode, reg: Reg) -> (r: Result<JitNode, EmitError>)
        requires
            old(self)@.wf(),
            !old(self)@.realized,
        ensures
            final(self)@.wf(),
            match spec_reg_check(seq![reg], old(self)@.caps) {
                Option::Some(e) => r == Result::<JitNode, EmitError>::Err(EmitError::Register(e))
                    && final(self)@ == old(self)@,
                Option::None => r == Result::<JitNode, EmitError>::Ok(old(self)@.next_handle())
                    && final(self)@ == old(self)@.with_instr(code, seq![Operand::Gpr(reg)]),
            },
    {
        let regs = vec![reg];
        assert(regs@ =~= seq![reg]);
        match check_regs(&regs, &self.caps) {
            Result::Err(e) => Result::Err(EmitError::Register(e)),
            Result::Ok(()) => {
                let ops = vec![Operand::Gpr(reg)];
                assert(ops@ =~= seq![Operand::Gpr(reg)]);
                Result::Ok(self.push_instr(code, ops))
            },
        }
    }

    /// Emits an instruction on a register and an earlier node of this
    /// session: the handle is checked first, then the register.
    fn instr_rn(&mut self, code: OpCode, reg: Reg, node: &JitNode) -> (r: Result<(), EmitError>)
        requires
            old(self)@.wf(),
            !old(self)@.realized,
        ensures
            final(self)@.wf(),
            !old(self)@.owns(*node) ==> r == Result::<(), EmitError>::Err(
                EmitError::ForeignHandle,
            ) && final(self)@ == old(self)@,
            old(self)@.owns(*node) ==> match spec_reg_check(seq![reg], old(self)@.caps) {
                Option::Some(e) => r == Result::<(), EmitError>::Err(EmitError::Register(e))
                    && final(self)@ == old(self)@,
                Option::None => r == Result::<(), EmitError>::Ok(()) && final(self)@ == old(
                    self,
                )@.with_instr(code, seq![Operand::Gpr(reg), Operand::NodeRef(node.index)]),
            },
    {
        if !self.check_handle(node) {
            return Result::Err(EmitError::ForeignHandle);
        }
        let regs = vec![reg];
        assert(regs@ =~= seq![reg]);
        match check_regs(&regs, &self.caps) {
            Result::Err(e) => Result::Err(EmitError::Register(e)),
            Result::Ok(()) => {
                let ops = vec![Operand::Gpr(reg), Operand::NodeRef(node.index)];
                assert(ops@ =~= seq![Operand::Gpr(reg), Operand::NodeRef(node.index)]);
                let _ = self.push_instr(code, ops);
                Result::Ok(())
            },
        }
    }

    /// Emits a three-register add.
    pub fn addr(&mut self, targ: Reg, a: Reg, b: Reg) -> (r: Result<JitNode, EmitError>)
        requires
            old(self)@.wf(),
            !old(self)@.realized,
        ensures
            final(self)@.wf(),
            match spec_reg_check(seq![targ, a, b], old(self)@.caps) {
                Option::Some(e) => r == Result::<JitNode, EmitError>::Err(EmitError::Register(e))
                    && final(self)@ == old(self)@,
                Option::None => r == Result::<JitNode, EmitError>::Ok(old(self)@.next_handle())
                    && final(self)@ == old(self)@.with_instr(
                    OpCode::Addr,
                    seq![Operand::Gpr(targ), Operand::Gpr(a), Operand::Gpr(b)],
                ),
            },
    {
        self.instr_rrr(OpCode::Addr, targ, a, b)
    }

    /// Emits an add of a register and a word immediate.
    pub fn addi(&mut self, targ: Reg, a: Reg, imm: JitWord) -> (r: Result<JitNode, EmitError>)
        requires
            old(self)@.wf(),
            !old(self)@.realized,
        ensures
            final(self)@.wf(),
            match spec_reg_check(seq![targ, a], old(self)@.caps) {
                Option::Some(e) => r == Result::<JitNode, EmitError>::Err(EmitError::Register(e))
                    && final(self)@ == old(self)@,
                Option::None => r == Result::<JitNode, EmitError>::Ok(old(self)@.next_handle())
                    && final(self)@ == old(self)@.with_instr(
                    OpCode::Addi,
                    seq![Operand::Gpr(targ), Operand::Gpr(a), Operand::Imm(imm)],
                ),
            },
    {
        self.instr_rri(OpCode::Addi, targ, a, imm)
    }

    /// Emits a three-register subtract.
    pub fn subr(&mut self, targ: Reg, a: Reg, b: Reg) -> (r: Result<JitNode, EmitError>)
        requires
            old(self)@.wf(),
            !old(self)@.realized,
        ensures
            final(self)@.wf(),
            match spec_reg_check(seq![targ, a, b], old(self)@.caps) {
                Option::Some(e) => r == Result::<JitNode, EmitError>::Err(EmitError::Register(e))
                    && final(self)@ == old(self)@,
                Option::None => r == Result::<JitNode, EmitError>::Ok(old(self)@.next_handle())
                    && final(self)@ == old(self)@.with_instr(
                    OpCode::Subr,
                    seq![Operand::Gpr(targ), Operand::Gpr(a), Operand::Gpr(b)],
                ),
            },
    {
        self.instr_rrr(OpCode::Subr, targ, a, b)
    }

    /// Emits a subtract of a word immediate from a register.
    pub fn subi(&mut self, targ: Reg, a: Reg, imm: JitWord) -> (r: Result<JitNode, EmitError>)
        requires
            old(self)@.wf(),
            !old(self)@.realized,
        ensures
            final(self)@.wf(),
            match spec_reg_check(seq![targ, a], old(self)@.caps) {
                Option::Some(e) => r == Result::<JitNode, EmitError>::Err(EmitError::Register(e))
                    && final(self)@ == old(self)@,
                Option::None => r == Result::<JitNode, EmitError>::Ok(old(self)@.next_handle())
                    && final(self)@ == old(self)@.with_instr(
                    OpCode::Subi,
                    seq![Operand::Gpr(targ), Operand::Gpr(a), Operand::Imm(imm)],
                ),
            },
    {
        self.instr_rri(OpCode::Subi, targ, a, imm)
    }

    /// Emits a three-register subtract on 32-bit float registers.
    pub fn subr_f(&mut self, targ: Reg, a: Reg, b: Reg) -> (r: Result<JitNode, EmitError>)
        requires
            old(self)@.wf(),
            !old(self)@.realized,
        ensures
            final(self)@.wf(),
            match spec_reg_check(seq![targ, a, b], old(self)@.caps) {
                Option::Some(e) => r == Result::<JitNode, EmitError>::Err(EmitError::Register(e))
                    && final(self)@ == old(self)@,
                Option::None => r == Result::<JitNode, EmitError>::Ok(old(self)@.next_handle())
                    && final(self)@ == old(self)@.with_instr(
                    OpCode::SubrF,
                    seq![Operand::Gpr(targ), Operand::Gpr(a), Operand::Gpr(b)],
                ),
            },
    {
        self.instr_rrr(OpCode::SubrF, targ, a, b)
    }

    /// Emits a three-register subtract on 64-bit float registers.
    pub fn subr_d(&mut self, targ: Reg, a: Reg, b: Reg) -> (r: Result<JitNode, EmitError>)
        requires
            old(self)@.wf(),
            !old(self)@.realized,
        ensures
            final(self)@.wf(),
            match spec_reg_check(seq![targ, a, b], old(self)@.caps) {
                Option::Some(e) => r == Result::<JitNode, EmitError>::Err(EmitError::Register(e))
                    && final(self)@ == old(self)@,
                Option::None => r == Result::<JitNode, EmitError>::Ok(old(self)@.next_handle())
                    && final(self)@ == old(self)@.with_instr(
                    OpCode::SubrD,
                    seq![Operand::Gpr(targ), Operand::Gpr(a), Operand::Gpr(b)],
                ),
            },
    {
        self.instr_rrr(OpCode::SubrD, targ, a, b)
    }

    /// Reversed subtract: the subtrahend and minuend change places.
    pub fn rsbr(&mut self, a: Reg, b: Reg, c: Reg) -> (r: Result<JitNode, EmitError>)
        requires
            old(self)@.wf(),
            !old(self)@.realized,
        ensures
            final(self)@.wf(),
            match spec_reg_check(seq![a, c, b], old(self)@.caps) {
                Option::Some(e) => r == Result::<JitNode, EmitError>::Err(EmitError::Register(e))
                    && final(self)@ == old(self)@,
                Option::None => r == Result::<JitNode, EmitError>::Ok(old(self)@.next_handle())
                    && final(self)@ == old(self)@.with_instr(
                    OpCode::Subr,
                    seq![Operand::Gpr(a), Operand::Gpr(c), Operand::Gpr(b)],
                ),
            },
    {
        self.subr(a, c, b)
    }

    /// Reversed subtract on 32-bit float registers.
    pub fn rsbr_f(&mut self, a: Reg, b: Reg, c: Reg) -> (r: Result<JitNode, EmitError>)
        requires
            old(self)@.wf(),
            !old(self)@.realized,
        ensures
            final(self)@.wf(),
            match spec_reg_check(seq![a, c, b], old(self)@.caps) {
                Option::Some(e) => r == Result::<JitNode, EmitError>::Err(EmitError::Register(e))
                    && final(self)@ == old(self)@,
                Option::None => r == Result::<JitNode, EmitError>::Ok(old(self)@.next_handle())
                    && final(self)@ == old(self)@.with_instr(
                    OpCode::SubrF,
                    seq![Operand::Gpr(a), Operand::Gpr(c), Operand::Gpr(b)],
                ),
            },
    {
        self.subr_f(a, c, b)
    }

    /// Reversed subtract on 64-bit float registers.
    pub fn rsbr_d(&mut self, a: Reg, b: Reg, c: Reg) -> (r: Result<JitNode, EmitError>)
        requires
            old(self)@.wf(),
            !old(self)@.realized,
        ensures
            final(self)@.wf(),
            match spec_reg_check(seq![a, c, b], old(self)@.caps) {
                Option::Some(e) => r == Result::<JitNode, EmitError>::Err(EmitError::Register(e))
                    && final(self)@ == old(self)@,
                Option::None => r == Result::<JitNode, EmitError>::Ok(old(self)@.next_handle())
                    && final(self)@ == old(self)@.with_instr(
                    OpCode::SubrD,
                    seq![Operand::Gpr(a), Operand::Gpr(c), Operand::Gpr(b)],
                ),
            },
    {
        self.subr_d(a, c, b)
    }

    /// Emits a three-register multiply.
    pub fn mulr(&mut self, targ: Reg, a: Reg, b: Reg) -> (r: Result<JitNode, EmitError>)
        requires
            old(self)@.wf(),
            !old(self)@.realized,
        ensures
            final(self)@.wf(),
            match spec_reg_check(seq![targ, a, b], old(self)@.caps) {
                Option::Some(e) => r == Result::<JitNode, EmitError>::Err(EmitError::Register(e))
                    && final(self)@ == old(self)@,
                Option::None => r == Result::<JitNode, EmitError>::Ok(old(self)@.next_handle())
                    && final(self)@ == old(self)@.with_instr(
                    OpCode::Mulr,
                    seq![Operand::Gpr(targ), Operand::Gpr(a), Operand::Gpr(b)],
                ),
            },
    {
        self.instr_rrr(OpCode::Mulr, targ, a, b)
    }

    /// Emits a register-to-register move.
    pub fn movr(&mut self, targ: Reg, src: Reg) -> (r: Result<JitNode, EmitError>)
        requires
            old(self)@.wf(),
            !old(self)@.realized,
        ensures
            final(self)@.wf(),
            match spec_reg_check(seq![targ, src], old(self)@.caps) {
                Option::Some(e) => r == Result::<JitNode, EmitError>::Err(EmitError::Register(e))
                    && final(self)@ == old(self)@,
                Option::None => r == Result::<JitNode, EmitError>::Ok(old(self)@.next_handle())
                    && final(self)@ == old(self)@.with_instr(
                    OpCode::Movr,
                    seq![Operand::Gpr(targ), Operand::Gpr(src)],
                ),
            },
    {
        self.instr_rr(OpCode::Movr, targ, src)
    }

    /// Emits a move of a word immediate into a register.
    pub fn movi(&mut self, targ: Reg, imm: JitWord) -> (r: Result<JitNode, EmitError>)
        requires
            old(self)@.wf(),
            !old(self)@.realized,
        ensures
            final(self)@.wf(),
            match spec_reg_check(seq![targ], old(self)@.caps) {
                Option::Some(e) => r == Result::<JitNode, EmitError>::Err(EmitError::Register(e))
                    && final(self)@ == old(self)@,
                Option::None => r == Result::<JitNode, EmitError>::Ok(old(self)@.next_handle())
                    && final(self)@ == old(self)@.with_instr(
                    OpCode::Movi,
                    seq![Operand::Gpr(targ), Operand::Imm(imm)],
                ),
            },
    {
        self.instr_ri(OpCode::Movi, targ, imm)
    }

    /// Emits a branch taken when a register equals a word immediate, and
    /// returns its patchable node.
    pub fn beqi(&mut self, a: Reg, imm: JitWord) -> (r: Result<JitNode, EmitError>)
        requires
            old(self)@.wf(),
            !old(self)@.realized,
        ensures
            final(self)@.wf(),
            match spec_reg_check(seq![a], old(self)@.caps) {
                Option::Some(e) => r == Result::<JitNode, EmitError>::Err(EmitError::Register(e))
                    && final(self)@ == old(self)@,
                Option::None => r == Result::<JitNode, EmitError>::Ok(old(self)@.next_handle())
                    && final(self)@ == old(self)@.with_instr(
                    OpCode::Beqi,
                    seq![Operand::Gpr(a), Operand::Imm(imm)],
                ),
            },
    {
        self.instr_ri(OpCode::Beqi, a, imm)
    }

    /// Emits a branch taken when a register is at most a word immediate,
    /// and returns its patchable node.
    pub fn blei(&mut self, a: Reg, imm: JitWord) -> (r: Result<JitNode, EmitError>)
        requires
            old(self)@.wf(),
            !old(self)@.realized,
        ensures
            final(self)@.wf(),
            match spec_reg_check(seq![a], old(self)@.caps) {
                Option::Some(e) => r == Result::<JitNode, EmitError>::Err(EmitError::Register(e))
                    && final(self)@ == old(self)@,
                Option::None => r == Result::<JitNode, EmitError>::Ok(old(self)@.next_handle())
                    && final(self)@ == old(self)@.with_instr(
                    OpCode::Blei,
                    seq![Operand::Gpr(a), Operand::Imm(imm)],
                ),
            },
    {
        self.instr_ri(OpCode::Blei, a, imm)
    }

    /// Emits a return of a register.
    pub fn retr(&mut self, rv: Reg) -> (r: Result<(), EmitError>)
        requires
            old(self)@.wf(),
            !old(self)@.realized,
        ensures
            final(self)@.wf(),
            match spec_reg_check(seq![rv], old(self)@.caps) {
                Option::Some(e) => r == Result::<(), EmitError>::Err(EmitError::Register(e))
                    && final(self)@ == old(self)@,
                Option::None => r == Result::<(), EmitError>::Ok(()) && final(self)@ == old(
                    self,
                )@.with_instr(OpCode::Retr, seq![Operand::Gpr(rv)]),
            },
    {
        match self.instr_r(OpCode::Retr, rv) {
            Result::Ok(_) => Result::Ok(()),
            Result::Err(e) => Result::Err(e),
        }
    }

    /// Fetches a finished call's return value into a register.
    pub fn retval(&mut self, rv: Reg) -> (r: Result<(), EmitError>)
        requires
            old(self)@.wf(),
            !old(self)@.realized,
        ensures
            final(self)@.wf(),
            match spec_reg_check(seq![rv], old(self)@.caps) {
                Option::Some(e) => r == Result::<(), EmitError>::Err(EmitError::Register(e))
                    && final(self)@ == old(self)@,
                Option::None => r == Result::<(), EmitError>::Ok(()) && final(self)@ == old(
                    self,
                )@.with_instr(OpCode::Retval, seq![Operand::Gpr(rv)]),
            },
    {
        match self.instr_r(OpCode::Retval, rv) {
            Result::Ok(_) => Result::Ok(()),
            Result::Err(e) => Result::Err(e),
        }
    }

    /// Pushes a register as the next call argument.
    pub fn pushargr(&mut self, arg: Reg) -> (r: Result<(), EmitError>)
        requires
            old(self)@.wf(),
            !old(self)@.realized,
        ensures
            final(self)@.wf(),
            match spec_reg_check(seq![arg], old(self)@.caps) {
                Option::Some(e) => r == Result::<(), EmitError>::Err(EmitError::Register(e))
                    && final(self)@ == old(self)@,
                Option::None => r == Result::<(), EmitError>::Ok(()) && final(self)@ == old(
                    self,
                )@.with_instr(OpCode::Pushargr, seq![Operand::Gpr(arg)]),
            },
    {
        match self.instr_r(OpCode::Pushargr, arg) {
            Result::Ok(_) => Result::Ok(()),
            Result::Err(e) => Result::Err(e),
        }
    }

    /// Emits a call through an address held in a register.
    pub fn finishr(&mut self, arg: Reg) -> (r: Result<(), EmitError>)
        requires
            old(self)@.wf(),
            !old(self)@.realized,
        ensures
            final(self)@.wf(),
            match spec_reg_check(seq![arg], old(self)@.caps) {
                Option::Some(e) => r == Result::<(), EmitError>::Err(EmitError::Register(e))
                    && final(self)@ == old(self)@,
                Option::None => r == Result::<(), EmitError>::Ok(()) && final(self)@ == old(
                    self,
                )@.with_instr(OpCode::Finishr, seq![Operand::Gpr(arg)]),
            },
    {
        match self.instr_r(OpCode::Finishr, arg) {
            Result::Ok(_) => Result::Ok(()),
            Result::Err(e) => Result::Err(e),
        }
    }

    /// Fetches an incoming argument into a register: the argument handle is
    /// checked first, then the register.
    pub fn getarg(&mut self, reg: Reg, node: &JitNode) -> (r: Result<(), EmitError>)
        requires
            old(self)@.wf(),
            !old(self)@.realized,
        ensures
            final(self)@.wf(),
            !old(self)@.owns(*node) ==> r == Result::<(), EmitError>::Err(
                EmitError::ForeignHandle,
            ) && final(self)@ == old(self)@,
            old(self)@.owns(*node) ==> match spec_reg_check(seq![reg], old(self)@.caps) {
                Option::Some(e) => r == Result::<(), EmitError>::Err(EmitError::Register(e))
                    && final(self)@ == old(self)@,
                Option::None => r == Result::<(), EmitError>::Ok(()) && final(self)@ == old(
                    self,
                )@.with_instr(OpCode::Getarg, seq![Operand::Gpr(reg), Operand::NodeRef(node.index)]),
            },
    {
        self.instr_rn(OpCode::Getarg, reg, node)
    }

    /// Stores a register back into an incoming argument slot: the argument
    /// handle is checked first, then the register.
    pub fn putargr(&mut self, reg: Reg, node: &JitNode) -> (r: Result<(), EmitError>)
        requires
            old(self)@.wf(),
            !old(self)@.realized,
        ensures
            final(self)@.wf(),
            !old(self)@.owns(*node) ==> r == Result::<(), EmitError>::Err(
                EmitError::ForeignHandle,
            ) && final(self)@ == old(self)@,
            old(self)@.owns(*node) ==> match spec_reg_check(seq![reg], old(self)@.caps) {
                Option::Some(e) => r == Result::<(), EmitError>::Err(EmitError::Register(e))
                    && final(self)@ == old(self)@,
                Option::None => r == Result::<(), EmitError>::Ok(()) && final(self)@ == old(
                    self,
                )@.with_instr(
                    OpCode::Putargr,
                    seq![Operand::Gpr(reg), Operand::NodeRef(node.index)],
                ),
            },
    {
        self.instr_rn(OpCode::Putargr, reg, node)
    }
}

/// Patching law: take any building session that owns a call (or jump) node
/// and an unplaced forward declaration. Patch the call at the forward
/// reference, then link the forward reference at the current position, then
/// realize the session at some code base. The call's target then resolves to
/// exactly the linked location's final address: the code base plus the
/// position the forward reference was linked at.
pub proof fn lemma_patch_link_realize(s0: StateView, call: JitNode, fwd: JitNode, base: JitPointer)
    requires
        s0.wf(),
        !s0.realized,
        s0.owns(call),
        s0.owns(fwd),
        call.index != fwd.index,
        s0.nodes[fwd.index as int].kind == NodeKind::Forward,
        s0.nodes[fwd.index as int].placed is None,
        base + s0.placed_count + 1 <= usize::MAX,
    ensures
        ({
            // the session after `patch_at(&call, &fwd)`
            let s1 = StateView {
                nodes: s0.nodes.update(
                    call.index as int,
                    NodeView { target: Option::Some(fwd.index), ..s0.nodes[call.index as int] },
                ),
                ..s0
            };
            // the session after `link(&fwd)`
            let s2 = StateView {
                nodes: s1.nodes.update(
                    fwd.index as int,
                    NodeView {
                        placed: Option::Some(s1.placed_count),
                        ..s1.nodes[fwd.index as int]
                    },
                ),
                placed_count: (s1.placed_count + 1) as usize,
                ..s1
            };
            // the session after `emit(base)`
            let s3 = StateView { realized: true, code_base: base, ..s2 };
            &&& s3.spec_address(fwd.index as int) == Option::Some(
                (base + s0.placed_count) as JitPointer,
            )
            &&& s3.spec_target_address(call.index as int) == Option::Some(
                (base + s0.placed_count) as JitPointer,
            )
            &&& s3.spec_target_address(call.index as int) == s3.spec_address(fwd.index as int)
        }),
{
}

/// Index of the last note at or before `code` in the realized stream, when
/// the code base is `base`.
pub open spec fn spec_find_note(nodes: Seq<NodeView>, base: int, code: int) -> Option<int>
    decreases nodes.len(),
{
    if nodes.len() == 0 {
        Option::None
    } else {
        let k = nodes.len() - 1;
        let covers = nodes[k].kind == NodeKind::Note && match nodes[k].placed {
            Option::Some(p) => base + p <= code,
            Option::None => false,
        };
        if covers {
            Option::Some(k)
        } else {
            spec_find_note(nodes.drop_last(), base, code)
        }
    }
}

impl JitState {
    /// The note covering a code address of this realized session: the
    /// latest note marker placed at or before the address, with its file
    /// text and line.
    #[verifier::loop_isolation(false)]
    pub fn get_note(&self, code: JitPointer) -> (r: Result<(Option<Vec<char>>, u32), EmitError>)
        requires
            self@.wf(),
            self@.realized,
        ensures
            match spec_find_note(self@.nodes, self@.code_base as int, code as int) {
                Option::Some(k) => match r {
                    Result::Ok((text, line)) => (match text {
                        Option::Some(t) => Option::Some(t@),
                        Option::None => Option::None,
                    }) == self@.nodes[k].text && line == self@.nodes[k].line,
                    Result::Err(_) => false,
                },
                Option::None => r == Result::<(Option<Vec<char>>, u32), EmitError>::Err(
                    EmitError::Unplaced,
                ),
            },
    {
        let ghost nv = self@.nodes;
        let mut k: usize = self.nodes.len();
        assert(nv.take(self.nodes@.len() as int) =~= nv);
        while k > 0
            invariant
                k <= self.nodes@.len(),
                spec_find_note(nv, self@.code_base as int, code as int) == spec_find_note(
                    nv.take(k as int),
                    self@.code_base as int,
                    code as int,
                ),
            decreases k,
        {
            k -= 1;
            proof {
                assert(nv.take(k + 1).drop_last() =~= nv.take(k as int));
                assert(nv.take(k + 1).last() == nv[k as int]);
                assert(nv[k as int] == self.nodes@[k as int]@);
            }
            let is_note = match self.nodes[k].kind {
                NodeKind::Note => true,
                _ => false,
            };
            if is_note {
                let covers = match self.nodes[k].placed {
                    Option::Some(p) => self.code_base + p <= code,
                    Option::None => false,
                };
                if covers {
                    let text = match &self.nodes[k].text {
                        Option::Some(t) => Option::Some(clone_text(t)),
                        Option::None => Option::None,
                    };
                    return Result::Ok((text, self.nodes[k].line));
                }
            }
        }
        assert(nv.take(0) =~= Seq::<NodeView>::empty());
        Result::Err(EmitError::Unplaced)
    }
}

} // verus!
