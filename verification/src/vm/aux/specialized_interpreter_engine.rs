//! The engine that runs packed kinds.

use crate::vm::api::{Command, CommandView, Condition, NodeKind, NodeKindView, Ref};
use crate::vm::driver::driver::{config, Engine, Kinds, NodeId, RunState};
use crate::vm::driver::interpreter_engine::step_kind;
use crate::vm::driver::machine;
use crate::vm::interpreter;
use crate::vm::interpreter::{get_u32, put_u32, subframe};
use vstd::prelude::*;

verus! {

/// A stack location whose offset fits in a byte.
#[derive(Debug, Eq, PartialEq, Clone, Copy, Structural)]
struct SmallStackRef(u8);

impl SmallStackRef {
    /// The location that this stands for.
    spec fn location(self) -> Ref {
        Ref::Stack(self.0 as u32)
    }

    fn to_ref(self) -> (r: Ref)
        ensures
            r == self.location(),
    {
        Ref::Stack(self.0 as u32)
    }
}

/// A node identifier, given as its distance from the identifier of the node
/// that refers to it.
#[derive(Debug, Eq, PartialEq, Clone, Copy, Structural)]
struct SmallNodeId(i16);

impl SmallNodeId {
    /// Counted from `ctx`, the distance leads to an identifier.
    spec fn reaches(self, ctx: NodeId) -> bool {
        0 <= ctx.0 + self.0 <= u32::MAX
    }

    /// The identifier at this distance from `ctx`.
    spec fn target(self, ctx: NodeId) -> NodeId {
        NodeId((ctx.0 + self.0) as u32)
    }

    fn get(&self, ctx: NodeId) -> (id: NodeId)
        requires
            self.reaches(ctx),
        ensures
            id == self.target(ctx),
    {
        NodeId((ctx.0 as i64 + self.0 as i64) as u32)
    }
}

/// The distance from `ctx` to `id`, where it fits in sixteen bits.
fn small_id(ctx: NodeId, id: NodeId) -> (small: Option<SmallNodeId>)
    ensures
        small is Some <==> -0x8000 <= id.0 - ctx.0 <= 0x7fff,
        small matches Some(distance) ==> distance.0 == id.0 - ctx.0,
{
    let distance: i64 = id.0 as i64 - ctx.0 as i64;
    if -0x8000 <= distance && distance <= 0x7fff {
        Some(SmallNodeId(distance as i16))
    } else {
        None
    }
}

/// The location `r`, where its offset fits in a byte.
fn small_ref(r: Ref) -> (small: Option<SmallStackRef>)
    ensures
        small is Some <==> r.at() <= 0xff,
        small matches Some(location) ==> location.location() == r,
{
    match r {
        Ref::Stack(offset) => {
            if offset <= 0xff {
                Some(SmallStackRef(offset as u8))
            } else {
                None
            }
        },
    }
}

/// A kind packed into eight bytes, or a reference to the kind in full.
/// A name that ends in `N` stands for a command whose successor is the node
/// with the next identifier.
#[derive(Debug, Eq, PartialEq, Clone, Copy, Structural)]
enum CompactKind {
    NotComputed,
    Set4 { dst: SmallStackRef, value: u32, next: SmallNodeId },
    Copy4 { dst: SmallStackRef, op: SmallStackRef, next: SmallNodeId },
    Set4N { dst: SmallStackRef, value: u32 },
    Copy4N { dst: SmallStackRef, op: SmallStackRef },
    Add4 { dst: SmallStackRef, op1: SmallStackRef, op2: SmallStackRef, next: SmallNodeId },
    Add4N { dst: SmallStackRef, op1: SmallStackRef, op2: SmallStackRef },
    Sub4 { dst: SmallStackRef, op1: SmallStackRef, op2: SmallStackRef, next: SmallNodeId },
    Sub4N { dst: SmallStackRef, op1: SmallStackRef, op2: SmallStackRef },
    Ne4 { op1: SmallStackRef, op2: SmallStackRef, if_true: SmallNodeId, if_false: SmallNodeId },
    Ne04 { op: SmallStackRef, if_true: SmallNodeId, if_false: SmallNodeId },
    Call { offset: SmallStackRef, call: SmallNodeId, next: SmallNodeId },
    Full(u32),
    Final,
}

/// The identifier that follows `ctx`.
spec fn successor(ctx: NodeId) -> NodeId {
    NodeId((ctx.0 + 1) as u32)
}

spec fn command_kind(command: CommandView, next: NodeId) -> NodeKindView<NodeId> {
    NodeKindView::Command { command, next }
}

spec fn set4(dst: SmallStackRef, value: u32) -> CommandView {
    CommandView::SetBytes { dst: dst.location(), bytes: interpreter::u32_le(value) }
}

spec fn copy4(dst: SmallStackRef, op: SmallStackRef) -> CommandView {
    CommandView::Copy { dst: dst.location(), size: 4, op: op.location() }
}

spec fn add4(dst: SmallStackRef, op1: SmallStackRef, op2: SmallStackRef) -> CommandView {
    CommandView::Add { size: 4, dst: dst.location(), op1: op1.location(), op2: op2.location() }
}

spec fn sub4(dst: SmallStackRef, op1: SmallStackRef, op2: SmallStackRef) -> CommandView {
    CommandView::Sub { size: 4, dst: dst.location(), op1: op1.location(), op2: op2.location() }
}

impl CompactKind {
    /// Every distance leads to an identifier when counted from `ctx`, and a
    /// reference to a kind in full points into a table of `full` entries.
    spec fn fits(self, ctx: NodeId, full: nat) -> bool {
        match self {
            CompactKind::NotComputed => true,
            CompactKind::Set4 { next, .. } => next.reaches(ctx),
            CompactKind::Copy4 { next, .. } => next.reaches(ctx),
            CompactKind::Set4N { .. } => ctx.0 < u32::MAX,
            CompactKind::Copy4N { .. } => ctx.0 < u32::MAX,
            CompactKind::Add4 { next, .. } => next.reaches(ctx),
            CompactKind::Add4N { .. } => ctx.0 < u32::MAX,
            CompactKind::Sub4 { next, .. } => next.reaches(ctx),
            CompactKind::Sub4N { .. } => ctx.0 < u32::MAX,
            CompactKind::Ne4 { if_true, if_false, .. } => if_true.reaches(ctx) && if_false.reaches(
                ctx,
            ),
            CompactKind::Ne04 { if_true, if_false, .. } => if_true.reaches(ctx)
                && if_false.reaches(ctx),
            CompactKind::Call { call, next, .. } => call.reaches(ctx) && next.reaches(ctx),
            CompactKind::Full(index) => index < full,
            CompactKind::Final => true,
        }
    }

    /// The kind that this stands for, as the kind of the node `ctx`.
    spec fn expand(self, ctx: NodeId, full: Seq<NodeKind<NodeId>>) -> NodeKindView<NodeId> {
        match self {
            CompactKind::NotComputed => NodeKindView::Final,
            CompactKind::Set4 { dst, value, next } => command_kind(
                set4(dst, value),
                next.target(ctx),
            ),
            CompactKind::Copy4 { dst, op, next } => command_kind(copy4(dst, op), next.target(ctx)),
            CompactKind::Set4N { dst, value } => command_kind(set4(dst, value), successor(ctx)),
            CompactKind::Copy4N { dst, op } => command_kind(copy4(dst, op), successor(ctx)),
            CompactKind::Add4 { dst, op1, op2, next } => command_kind(
                add4(dst, op1, op2),
                next.target(ctx),
            ),
            CompactKind::Add4N { dst, op1, op2 } => command_kind(
                add4(dst, op1, op2),
                successor(ctx),
            ),
            CompactKind::Sub4 { dst, op1, op2, next } => command_kind(
                sub4(dst, op1, op2),
                next.target(ctx),
            ),
            CompactKind::Sub4N { dst, op1, op2 } => command_kind(
                sub4(dst, op1, op2),
                successor(ctx),
            ),
            CompactKind::Ne4 { op1, op2, if_true, if_false } => NodeKindView::Branch {
                condition: Condition::Ne { size: 4, op1: op1.location(), op2: op2.location() },
                if_true: if_true.target(ctx),
                if_false: if_false.target(ctx),
            },
            CompactKind::Ne04 { op, if_true, if_false } => NodeKindView::Branch {
                condition: Condition::Ne0 { size: 4, op: op.location() },
                if_true: if_true.target(ctx),
                if_false: if_false.target(ctx),
            },
            CompactKind::Call { offset, call, next } => NodeKindView::Call {
                offset: offset.0 as u32,
                call: call.target(ctx),
                next: next.target(ctx),
            },
            CompactKind::Full(index) => full[index as int]@,
            CompactKind::Final => NodeKindView::Final,
        }
    }
}

/// The distance from `ctx` to `id` fits in sixteen bits.
pub open spec fn near(ctx: NodeId, id: NodeId) -> bool {
    -0x8000 <= id.0 - ctx.0 <= 0x7fff
}

/// The offset of the location fits in a byte.
pub open spec fn low(location: Ref) -> bool {
    location.at() <= 0xff
}

/// Whether the kind `kind` of the node `ctx` packs into eight bytes: its
/// successors are near, and it is `Final`; a call with an offset that fits a
/// byte; a command on 4-byte words at low locations; or a branch on 4-byte
/// words at low locations.
pub open spec fn packs(ctx: NodeId, kind: NodeKindView<NodeId>) -> bool {
    match kind {
        NodeKindView::Final => true,
        NodeKindView::Call { offset, call, next } => near(ctx, call) && near(ctx, next) && offset
            <= 0xff,
        NodeKindView::Command { command, next } => near(ctx, next) && match command {
            CommandView::SetBytes { dst, bytes } => bytes.len() == 4 && low(dst),
            CommandView::Copy { dst, size, op } => size == 4 && low(dst) && low(op),
            CommandView::Add { size, dst, op1, op2 } => size == 4 && low(dst) && low(op1) && low(
                op2,
            ),
            CommandView::Sub { size, dst, op1, op2 } => size == 4 && low(dst) && low(op1) && low(
                op2,
            ),
            _ => false,
        },
        NodeKindView::Branch { condition, if_true, if_false } => near(ctx, if_true) && near(
            ctx,
            if_false,
        ) && match condition {
            Condition::Ne { size, op1, op2 } => size == 4 && low(op1) && low(op2),
            Condition::Ne0 { size, op } => size == 4 && low(op),
        },
    }
}

/// The number of entries that hold a kind.
spec fn registered(computed: Seq<CompactKind>) -> nat
    decreases computed.len(),
{
    if computed.len() == 0 {
        0
    } else {
        registered(computed.drop_last()) + if computed.last() is NotComputed {
            0nat
        } else {
            1nat
        }
    }
}

proof fn lemma_registered_bound(computed: Seq<CompactKind>)
    ensures
        registered(computed) <= computed.len(),
    decreases computed.len(),
{
    if computed.len() > 0 {
        lemma_registered_bound(computed.drop_last());
    }
}

/// Filling an empty entry adds one to the count, which was below the length.
proof fn lemma_registered_update(computed: Seq<CompactKind>, at: int, kind: CompactKind)
    requires
        0 <= at < computed.len(),
        computed[at] is NotComputed,
        !(kind is NotComputed),
    ensures
        registered(computed.update(at, kind)) == registered(computed) + 1,
        registered(computed) < computed.len(),
    decreases computed.len(),
{
    if at == computed.len() - 1 {
        assert(computed.update(at, kind).drop_last() =~= computed.drop_last());
        lemma_registered_bound(computed.drop_last());
    } else {
        assert(computed.update(at, kind).drop_last() =~= computed.drop_last().update(at, kind));
        lemma_registered_update(computed.drop_last(), at, kind);
    }
}

/// The engine that packs the common shapes of kinds into eight bytes each and
/// keeps the others in full in a second table.
pub struct SpecializedInterpreterEngine {
    computed: Vec<CompactKind>,
    full: Vec<NodeKind<NodeId>>,
}

impl SpecializedInterpreterEngine {
    /// The two tables agree: every packed kind leads to identifiers, every
    /// reference to a kind in full points into the second table, and that
    /// table has no more entries than kinds were registered.
    pub closed spec fn well_formed(&self) -> bool {
        &&& self.computed@.len() <= 0x1_0000_0000
        &&& self.full@.len() <= registered(self.computed@)
        &&& forall|at: int|
            0 <= at < self.computed@.len() ==> (#[trigger] self.computed@[at]).fits(
                NodeId(at as u32),
                self.full@.len(),
            )
    }

    /// The number of kinds that are kept in full.
    pub closed spec fn kept_in_full(&self) -> nat {
        self.full@.len()
    }

    /// The kinds that were registered, by identifier.
    pub closed spec fn table(&self) -> Kinds {
        Map::new(
            |id: NodeId| id.0 < self.computed@.len() && !(self.computed@[id.0 as int] is NotComputed),
            |id: NodeId| self.computed@[id.0 as int].expand(id, self.full@),
        )
    }

    /// The number of bytes that a packed kind takes.
    pub fn packed_size() -> (size: usize)
        ensures
            size == vstd::layout::size_of::<CompactKind>(),
    {
        core::mem::size_of::<CompactKind>()
    }

    pub fn new() -> (engine: SpecializedInterpreterEngine)
        ensures
            engine.well_formed(),
            engine.table() == Map::<NodeId, NodeKindView<NodeId>>::empty(),
            engine.kept_in_full() == 0,
    {
        let engine = SpecializedInterpreterEngine { computed: Vec::new(), full: Vec::new() };
        assert(engine.table() =~= Map::<NodeId, NodeKindView<NodeId>>::empty());
        engine
    }

    /// The kinds that are kept in full, in the order in which they came.
    pub fn full_kinds(&self) -> (kinds: &Vec<NodeKind<NodeId>>)
        ensures
            kinds@.len() == self.kept_in_full(),
    {
        &self.full
    }

    /// Whether a kind was registered for `id`.
    fn knows(&self, id: NodeId) -> (known: bool)
        ensures
            known == self.table().contains_key(id),
    {
        if (id.0 as usize) < self.computed.len() {
            match self.computed[id.0 as usize] {
                CompactKind::NotComputed => false,
                _ => true,
            }
        } else {
            false
        }
    }

    /// Records `kind` for `id`, unless a kind was recorded for it before:
    /// a recorded kind is never changed. A kind that does not pack is kept
    /// in full.
    pub fn register(&mut self, id: NodeId, kind: NodeKind<NodeId>)
        requires
            old(self).well_formed(),
        ensures
            final(self).well_formed(),
            final(self).table() == if old(self).table().contains_key(id) {
                old(self).table()
            } else {
                old(self).table().insert(id, kind@)
            },
            final(self).kept_in_full() == if old(self).table().contains_key(id) || packs(
                id,
                kind@,
            ) {
                old(self).kept_in_full()
            } else {
                old(self).kept_in_full() + 1
            },
    {
        while self.computed.len() <= id.0 as usize
            invariant
                self.well_formed(),
                self.table() == old(self).table(),
                self.full@ == old(self).full@,
            decreases id.0 + 1 - self.computed@.len(),
        {
            let ghost before = *self;
            self.computed.push(CompactKind::NotComputed);
            proof {
                assert(self.computed@.drop_last() =~= before.computed@);
                assert(self.table() =~= before.table());
                assert forall|at: int| 0 <= at < self.computed@.len() implies (
                #[trigger] self.computed@[at]).fits(NodeId(at as u32), self.full@.len()) by {
                    if at < before.computed@.len() {
                        assert(before.computed@[at].fits(NodeId(at as u32), before.full@.len()));
                    }
                }
            }
        }
        if self.knows(id) {
            return ;
        }
        let ghost before = *self;
        proof {
            lemma_registered_update(before.computed@, id.0 as int, CompactKind::Final);
        }
        let compact = self.compact(id, kind);
        let ghost middle = *self;
        self.computed[id.0 as usize] = compact;
        proof {
            lemma_registered_update(before.computed@, id.0 as int, compact);
            assert forall|at: int| 0 <= at < self.computed@.len() implies (
            #[trigger] self.computed@[at]).fits(NodeId(at as u32), self.full@.len()) by {
                if at != id.0 {
                    assert(before.computed@[at].fits(NodeId(at as u32), before.full@.len()));
                }
            }
            assert forall|other: NodeId| #[trigger]
                before.table().insert(id, kind@).contains_key(
                    other,
                ) implies self.table().contains_key(other) && self.table()[other]
                == before.table().insert(id, kind@)[other] by {
                if other != id {
                    assert(before.computed@[other.0 as int].fits(other, before.full@.len()));
                }
            }
            assert(self.table() =~= before.table().insert(id, kind@));
        }
    }

    /// Runs the frame machine on the registered kinds until no frame is left
    /// or the node of the innermost frame is not registered. Returns `true`
    /// where it stopped at a node that is not registered.
    pub fn run(&self, state: &mut RunState, stack: &mut [u8]) -> (suspended: bool)
        requires
            self.well_formed(),
            machine::settles(self.table(), config(old(state)@, old(stack)@)),
        ensures
            config(final(state)@, final(stack)@) == machine::outcome(
                self.table(),
                config(old(state)@, old(stack)@),
            ),
            suspended == (final(state)@.len() > 0),
    {
        let ghost graph = self.table();
        let ghost target = machine::outcome(graph, config(state@, stack@));
        let ghost mut left: nat = choose|steps: nat|
            machine::settles_within(graph, config(state@, stack@), steps);
        proof {
            machine::lemma_outcome(graph, config(state@, stack@), left);
        }
        if state.is_empty() {
            return false;
        }
        if !self.knows(state.top()) {
            return true;
        }
        let len: usize = stack.len();
        assert(machine::status(graph, config(state@, stack@)) is Ready) by {
            machine::lemma_run_halted(graph, config(state@, stack@), left);
        }
        let mut offset: usize = state.offset();
        while !state.is_empty()
            invariant
                self.well_formed(),
                graph == self.table(),
                target == machine::outcome(graph, config(old(state)@, old(stack)@)),
                machine::settles_within(graph, config(state@, stack@), left),
                machine::run(graph, config(state@, stack@), left) == target,
                offset == machine::base(state@),
            ensures
                state@.len() == 0,
                config(state@, stack@) == target,
            decreases left,
        {
            proof {
                machine::lemma_run_halted(graph, config(state@, stack@), left);
            }
            if !self.knows(state.top()) {
                return true;
            }
            offset = self.run_internal(state, stack, offset);
            proof {
                left = (left - 1) as nat;
            }
        }
        false
    }

    /// Takes the step of the node of the innermost frame, which is
    /// registered. `offset` is the position at which that frame starts; the
    /// result is that position for the frame that is innermost afterwards.
    fn run_internal(&self, state: &mut RunState, stack: &mut [u8], offset: usize) -> (next_offset:
        usize)
        requires
            self.well_formed(),
            machine::status(self.table(), config(old(state)@, old(stack)@)) is Ready,
            offset == machine::base(old(state)@),
        ensures
            config(final(state)@, final(stack)@) == machine::step(
                self.table(),
                config(old(state)@, old(stack)@),
            ),
            next_offset == machine::base(final(state)@),
    {
        let ghost before = config(state@, stack@);
        let len: usize = stack.len();
        let current = state.top();
        let compact = self.computed[current.0 as usize];
        assert(compact.fits(current, self.full@.len()));
        assert(self.table()[current] == compact.expand(current, self.full@));
        match compact {
            CompactKind::Final => {
                let frame = state.pop();
                offset - frame.offset
            },
            CompactKind::Set4 { dst, value, next } => {
                let frame = subframe(stack, offset);
                put_u32(dst.to_ref(), frame, value);
                state.replace_top(next.get(current));
                offset
            },
            CompactKind::Set4N { dst, value } => {
                let frame = subframe(stack, offset);
                put_u32(dst.to_ref(), frame, value);
                state.replace_top(current.next());
                offset
            },
            CompactKind::Copy4 { dst, op, next } => {
                let frame = subframe(stack, offset);
                let value: u32 = get_u32(op.to_ref(), frame);
                put_u32(dst.to_ref(), frame, value);
                proof {
                    interpreter::lemma_le_u32_round_trip(before.stack.skip(offset as int), op.0 as int);
                }
                state.replace_top(next.get(current));
                offset
            },
            CompactKind::Copy4N { dst, op } => {
                let frame = subframe(stack, offset);
                let value: u32 = get_u32(op.to_ref(), frame);
                put_u32(dst.to_ref(), frame, value);
                proof {
                    interpreter::lemma_le_u32_round_trip(before.stack.skip(offset as int), op.0 as int);
                }
                state.replace_top(current.next());
                offset
            },
            CompactKind::Add4 { dst, op1, op2, next } => {
                let frame = subframe(stack, offset);
                let value: u32 = get_u32(op1.to_ref(), frame).wrapping_add(
                    get_u32(op2.to_ref(), frame),
                );
                put_u32(dst.to_ref(), frame, value);
                state.replace_top(next.get(current));
                offset
            },
            CompactKind::Add4N { dst, op1, op2 } => {
                let frame = subframe(stack, offset);
                let value: u32 = get_u32(op1.to_ref(), frame).wrapping_add(
                    get_u32(op2.to_ref(), frame),
                );
                put_u32(dst.to_ref(), frame, value);
                state.replace_top(current.next());
                offset
            },
            CompactKind::Sub4 { dst, op1, op2, next } => {
                let frame = subframe(stack, offset);
                let value: u32 = get_u32(op1.to_ref(), frame).wrapping_sub(
                    get_u32(op2.to_ref(), frame),
                );
                put_u32(dst.to_ref(), frame, value);
                state.replace_top(next.get(current));
                offset
            },
            CompactKind::Sub4N { dst, op1, op2 } => {
                let frame = subframe(stack, offset);
                let value: u32 = get_u32(op1.to_ref(), frame).wrapping_sub(
                    get_u32(op2.to_ref(), frame),
                );
                put_u32(dst.to_ref(), frame, value);
                state.replace_top(current.next());
                offset
            },
            CompactKind::Ne4 { op1, op2, if_true, if_false } => {
                let frame = subframe(stack, offset);
                let holds = get_u32(op1.to_ref(), frame) != get_u32(op2.to_ref(), frame);
                assert(stack@ =~= before.stack);
                if holds {
                    state.replace_top(if_true.get(current));
                } else {
                    state.replace_top(if_false.get(current));
                }
                offset
            },
            CompactKind::Ne04 { op, if_true, if_false } => {
                let frame = subframe(stack, offset);
                let holds = get_u32(op.to_ref(), frame) != 0;
                assert(stack@ =~= before.stack);
                if holds {
                    state.replace_top(if_true.get(current));
                } else {
                    state.replace_top(if_false.get(current));
                }
                offset
            },
            CompactKind::Call { offset: call_offset, call, next } => {
                state.replace_top(next.get(current));
                let ghost middle = state@;
                state.push(call.get(current), call_offset.0 as usize);
                assert(state@.drop_last() =~= middle);
                offset + call_offset.0 as usize
            },
            CompactKind::Full(index) => step_kind(
                &self.full[index as usize],
                state,
                stack,
                offset,
                Ghost(self.table()),
            ),
            CompactKind::NotComputed => offset,
        }
    }

    /// Packs `kind`, the kind of the node `ctx`. What does not fit goes to
    /// the table of kinds in full.
    fn compact(&mut self, ctx: NodeId, kind: NodeKind<NodeId>) -> (compact: CompactKind)
        requires
            old(self).full@.len() < 0x1_0000_0000,
        ensures
            final(self).computed@ == old(self).computed@,
            !(compact is NotComputed),
            compact.fits(ctx, final(self).full@.len()),
            compact.expand(ctx, final(self).full@) == kind@,
            compact is Full <==> !packs(ctx, kind@),
            !(compact is Full) ==> final(self).full@ == old(self).full@,
            compact is Full ==> final(self).full@.len() == old(self).full@.len() + 1 && final(self).full@.drop_last() == old(self).full@,
    {
        match &kind {
            NodeKind::Command { command, next } => {
                if let Some(next) = small_id(ctx, *next) {
                    return self.compact_command(command, next, ctx);
                }
            },
            NodeKind::Branch { condition, if_true, if_false } => {
                if let Some(if_true) = small_id(ctx, *if_true) {
                    if let Some(if_false) = small_id(ctx, *if_false) {
                        return self.compact_condition(condition, if_true, if_false, ctx);
                    }
                }
            },
            NodeKind::Call { offset, call, next } => {
                if let Some(call) = small_id(ctx, *call) {
                    if let Some(next) = small_id(ctx, *next) {
                        if *offset <= 0xff {
                            return CompactKind::Call {
                                offset: SmallStackRef(*offset as u8),
                                call,
                                next,
                            };
                        }
                    }
                }
            },
            NodeKind::Final => {
                return CompactKind::Final;
            },
        }
        self.full_kind(kind)
    }

    /// Packs a command whose successor is `next`, counted from `ctx`.
    fn compact_command(&mut self, command: &Command, next: SmallNodeId, ctx: NodeId) -> (compact:
        CompactKind)
        requires
            old(self).full@.len() < 0x1_0000_0000,
            next.reaches(ctx),
        ensures
            final(self).computed@ == old(self).computed@,
            !(compact is NotComputed),
            compact.fits(ctx, final(self).full@.len()),
            compact.expand(ctx, final(self).full@) == command_kind(command@, next.target(ctx)),
            compact is Full <==> !packs(ctx, command_kind(command@, next.target(ctx))),
            !(compact is Full) ==> final(self).full@ == old(self).full@,
            compact is Full ==> final(self).full@.len() == old(self).full@.len() + 1 && final(self).full@.drop_last() == old(self).full@,
    {
        match command {
            Command::SetBytes { dst, bytes } => {
                if bytes.len() == 4 {
                    if let Some(dst) = small_ref(*dst) {
                        let value: u32 = get_u32(Ref::Stack(0), bytes.as_slice());
                        proof {
                            interpreter::lemma_le_u32_round_trip(bytes@, 0);
                            assert(bytes@.subrange(0, 4) =~= bytes@);
                        }
                        if next.0 == 1 {
                            return CompactKind::Set4N { dst, value };
                        } else {
                            return CompactKind::Set4 { dst, value, next };
                        }
                    }
                }
            },
            Command::Copy { size, dst, op } => {
                if *size == 4 {
                    if let Some(dst) = small_ref(*dst) {
                        if let Some(op) = small_ref(*op) {
                            if next.0 == 1 {
                                return CompactKind::Copy4N { dst, op };
                            } else {
                                return CompactKind::Copy4 { dst, op, next };
                            }
                        }
                    }
                }
            },
            Command::Add { size, dst, op1, op2 } => {
                if *size == 4 {
                    if let Some(dst) = small_ref(*dst) {
                        if let Some(op1) = small_ref(*op1) {
                            if let Some(op2) = small_ref(*op2) {
                                if next.0 == 1 {
                                    return CompactKind::Add4N { dst, op1, op2 };
                                } else {
                                    return CompactKind::Add4 { dst, op1, op2, next };
                                }
                            }
                        }
                    }
                }
            },
            Command::Sub { size, dst, op1, op2 } => {
                if *size == 4 {
                    if let Some(dst) = small_ref(*dst) {
                        if let Some(op1) = small_ref(*op1) {
                            if let Some(op2) = small_ref(*op2) {
                                if next.0 == 1 {
                                    return CompactKind::Sub4N { dst, op1, op2 };
                                } else {
                                    return CompactKind::Sub4 { dst, op1, op2, next };
                                }
                            }
                        }
                    }
                }
            },
            _ => {},
        }
        self.full_kind(NodeKind::Command { command: command.duplicate(), next: next.get(ctx) })
    }

    /// Packs a branch whose successors are `if_true` and `if_false`, counted
    /// from `ctx`.
    fn compact_condition(
        &mut self,
        condition: &Condition,
        if_true: SmallNodeId,
        if_false: SmallNodeId,
        ctx: NodeId,
    ) -> (compact: CompactKind)
        requires
            old(self).full@.len() < 0x1_0000_0000,
            if_true.reaches(ctx),
            if_false.reaches(ctx),
        ensures
            final(self).computed@ == old(self).computed@,
            !(compact is NotComputed),
            compact.fits(ctx, final(self).full@.len()),
            compact.expand(ctx, final(self).full@) == (NodeKindView::Branch {
                condition: *condition,
                if_true: if_true.target(ctx),
                if_false: if_false.target(ctx),
            }),
            compact is Full <==> !packs(
                ctx,
                NodeKindView::Branch {
                    condition: *condition,
                    if_true: if_true.target(ctx),
                    if_false: if_false.target(ctx),
                },
            ),
            !(compact is Full) ==> final(self).full@ == old(self).full@,
            compact is Full ==> final(self).full@.len() == old(self).full@.len() + 1 && final(self).full@.drop_last() == old(self).full@,
    {
        match condition {
            Condition::Ne { size, op1, op2 } => {
                if *size == 4 {
                    if let Some(op1) = small_ref(*op1) {
                        if let Some(op2) = small_ref(*op2) {
                            return CompactKind::Ne4 { op1, op2, if_true, if_false };
                        }
                    }
                }
            },
            Condition::Ne0 { size, op } => {
                if *size == 4 {
                    if let Some(op) = small_ref(*op) {
                        return CompactKind::Ne04 { op, if_true, if_false };
                    }
                }
            },
        }
        self.full_kind(
            NodeKind::Branch {
                condition: *condition,
                if_true: if_true.get(ctx),
                if_false: if_false.get(ctx),
            },
        )
    }

    /// Keeps `kind` in full and gives the reference to it.
    fn full_kind(&mut self, kind: NodeKind<NodeId>) -> (compact: CompactKind)
        requires
            old(self).full@.len() < 0x1_0000_0000,
        ensures
            final(self).computed@ == old(self).computed@,
            final(self).full@ == old(self).full@.push(kind),
            compact == CompactKind::Full(old(self).full@.len() as u32),
    {
        self.full.push(kind);
        CompactKind::Full((self.full.len() - 1) as u32)
    }
}

impl Engine for SpecializedInterpreterEngine {
    open spec fn well_formed(&self) -> bool {
        self.well_formed()
    }

    open spec fn kinds(&self) -> Kinds {
        self.table()
    }

    fn register(&mut self, id: NodeId, kind: NodeKind<NodeId>) {
        self.register(id, kind)
    }

    fn run(&self, state: &mut RunState, stack: &mut [u8]) -> (suspended: bool) {
        self.run(state, stack)
    }
}

} // verus!
