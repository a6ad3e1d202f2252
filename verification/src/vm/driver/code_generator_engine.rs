//! The bookkeeping of the code generator: where the code of each node lies,
//! which return stubs wait to be turned into branches, and how the driver
//! goes on after generated code has come back.

use crate::vm::driver::aarch64_utils;
use crate::vm::driver::aarch64_utils::OutOfRange;
use crate::vm::driver::driver::{NodeId, RunState};
use multimap::MultiMap;
use std::collections::HashMap;
use vstd::prelude::*;

verus! {

/// The multimap of the crate multimap: a map from keys to vectors of values.
#[verifier::external_type_specification]
#[verifier::external_body]
#[verifier::reject_recursive_types(K)]
#[verifier::reject_recursive_types(V)]
#[verifier::reject_recursive_types(S)]
pub struct ExMultiMap<K, V, S>(MultiMap<K, V, S>);

/// What a multimap of return stubs holds: for each key the pairs that were
/// inserted under it, in the order of their insertion.
pub uninterp spec fn stubs(map: MultiMap<u32, (usize, usize)>) -> Map<u32, Seq<(usize, usize)>>;

/// A multimap of return stubs: under the identifier of a node, the bounds of
/// the stubs that wait for it.
pub type StubMap = MultiMap<u32, (usize, usize)>;

/// No stub under any key.
pub open spec fn nothing_held() -> Map<u32, Seq<(usize, usize)>> {
    Map::empty()
}

/// The pairs under `key`: none where the key is absent.
pub open spec fn stubs_of(held: Map<u32, Seq<(usize, usize)>>, key: u32) -> Seq<(usize, usize)> {
    if held.contains_key(key) {
        held[key]
    } else {
        Seq::empty()
    }
}

/// Stands for `MultiMap::new`, which makes an empty multimap.
#[verifier::external_body]
fn no_stubs() -> (made: StubMap)
    ensures
        stubs(made) == nothing_held(),
{
    MultiMap::new()
}

/// Stands for `MultiMap::insert`, which pushes the value to the vector of
/// the key, and gives the key a vector of this one value where it had none.
#[verifier::external_body]
fn add_stub(map: &mut StubMap, key: u32, stub: (usize, usize))
    ensures
        stubs(*final(map)) == stubs(*old(map)).insert(
            key,
            stubs_of(stubs(*old(map)), key).push(stub),
        ),
{
    map.insert(key, stub)
}

/// Stands for `MultiMap::get_vec_mut`, which lends the vector of the key, if
/// the key is there: what the vector holds when the loan ends is what the
/// multimap holds under the key.
#[verifier::external_body]
fn stubs_mut<'a>(map: &'a mut StubMap, key: u32) -> (found: Option<
    &'a mut Vec<(usize, usize)>,
>)
    ensures
        found is Some <==> stubs(*old(map)).contains_key(key),
        found is Some ==> found->Some_0@ == stubs(*old(map))[key] && stubs(*final(map)) == stubs(
            *old(map),
        ).insert(key, final(found->Some_0)@),
        found is None ==> stubs(*final(map)) == stubs(*old(map)),
{
    map.get_vec_mut(&key)
}

/// A place in the code where execution goes back to the driver because the
/// node `id` was not generated yet: the stub starts at `from` and ends
/// before `to`.
#[derive(Debug, Clone, Copy, PartialEq, Eq, Structural)]
pub struct ReturnInfo {
    pub id: NodeId,
    pub from: usize,
    pub to: usize,
}

/// A record that generated code leaves for the driver: the node to go on
/// with, and the offset of its frame.
#[derive(Debug, Clone, Copy, PartialEq, Eq, Structural)]
pub struct SuspendTrace {
    pub offset: u32,
    pub id: NodeId,
}

/// A branch to write: at `from`, to `dest`.
#[derive(Debug, Clone, Copy, PartialEq, Eq, Structural)]
pub struct Link {
    pub from: usize,
    pub dest: usize,
}

/// The links for those of `exits` whose node has an offset in `offsets`,
/// in their order.
pub open spec fn links_now(exits: Seq<ReturnInfo>, offsets: Map<u32, usize>) -> Seq<Link>
    decreases exits.len(),
{
    if exits.len() == 0 {
        Seq::empty()
    } else {
        let before = links_now(exits.drop_last(), offsets);
        let last = exits.last();
        if offsets.contains_key(last.id.0) {
            before.push(Link { from: last.from, dest: offsets[last.id.0] })
        } else {
            before
        }
    }
}

/// `held` with those of `exits` added whose node has no offset in
/// `offsets`.
pub open spec fn held_later(
    held: Map<u32, Seq<(usize, usize)>>,
    exits: Seq<ReturnInfo>,
    offsets: Map<u32, usize>,
) -> Map<u32, Seq<(usize, usize)>>
    decreases exits.len(),
{
    if exits.len() == 0 {
        held
    } else {
        let before = held_later(held, exits.drop_last(), offsets);
        let last = exits.last();
        if offsets.contains_key(last.id.0) {
            before
        } else {
            before.insert(last.id.0, stubs_of(before, last.id.0).push((last.from, last.to)))
        }
    }
}

/// The links from the stubs `waiting` to `dest`.
pub open spec fn links_to(waiting: Seq<(usize, usize)>, dest: usize) -> Seq<Link> {
    Seq::new(waiting.len(), |at: int| Link { from: waiting[at].0, dest })
}

/// The first position in `waiting` of a stub that ends at `end`.
pub open spec fn first_ending_at(waiting: Seq<(usize, usize)>, end: usize) -> Option<int>
    decreases waiting.len(),
{
    if waiting.len() == 0 {
        None
    } else {
        match first_ending_at(waiting.drop_last(), end) {
            Some(at) => Some(at),
            None => if waiting.last().1 == end {
                Some(waiting.len() - 1)
            } else {
                None
            },
        }
    }
}

/// The first position is the one before which no stub ends at `end`.
pub proof fn lemma_first_ending_at(waiting: Seq<(usize, usize)>, end: usize, at: int)
    requires
        0 <= at <= waiting.len(),
        forall|before: int| 0 <= before < at ==> waiting[before].1 != end,
        at < waiting.len() ==> waiting[at].1 == end,
    ensures
        first_ending_at(waiting, end) == if at < waiting.len() {
            Some(at)
        } else {
            None
        },
    decreases waiting.len(),
{
    if waiting.len() > 0 {
        let shorter = waiting.drop_last();
        if at < shorter.len() {
            lemma_first_ending_at(shorter, end, at);
        } else {
            lemma_first_ending_at(shorter, end, shorter.len() as int);
        }
    }
}

/// The book that the code generator keeps of the code that it wrote: where
/// the code of each node starts, where the next code goes, and which stubs
/// wait for a node to be generated.
pub struct CodeLinker {
    offset: usize,
    offsets: HashMap<u32, usize>,
    pending: StubMap,
}

impl CodeLinker {
    /// Where the next code goes.
    pub closed spec fn end(&self) -> usize {
        self.offset
    }

    /// Where the code of each generated node starts.
    pub closed spec fn entries(&self) -> Map<u32, usize> {
        self.offsets@
    }

    /// The stubs that wait, by the node that they wait for.
    pub closed spec fn waiting(&self) -> Map<u32, Seq<(usize, usize)>> {
        stubs(self.pending)
    }

    pub fn new() -> (linker: CodeLinker)
        ensures
            linker.end() == 0,
            linker.entries() == Map::<u32, usize>::empty(),
            linker.waiting() == Map::<u32, Seq<(usize, usize)>>::empty(),
    {
        CodeLinker { offset: 0, offsets: HashMap::new(), pending: no_stubs() }
    }

    /// Where the code of the node `id` starts, if it was generated.
    pub fn entry(&self, id: NodeId) -> (entry: Option<usize>)
        ensures
            entry is Some <==> self.entries().contains_key(id.0),
            entry matches Some(offset) ==> offset == self.entries()[id.0],
    {
        broadcast use vstd::std_specs::hash::group_hash_axioms;

        match self.offsets.get(&id.0) {
            Some(offset) => Some(*offset),
            None => None,
        }
    }

    /// Where the next code goes.
    pub fn offset(&self) -> (offset: usize)
        ensures
            offset == self.end(),
    {
        self.offset
    }

    /// Where a stub that waits for `id` is the last code written, takes that
    /// stub back: the code of `id` goes in its place, and no branch is
    /// needed.
    pub fn remove_last_return_if_needed(&mut self, id: NodeId)
        ensures
            final(self).entries() == old(self).entries(),
            match first_ending_at(stubs_of(old(self).waiting(), id.0), old(self).end()) {
                Some(at) => {
                    &&& final(self).end() == old(self).waiting()[id.0][at].0
                    &&& final(self).waiting() == old(self).waiting().insert(
                        id.0,
                        old(self).waiting()[id.0].remove(at),
                    )
                },
                None => final(self).end() == old(self).end() && final(self).waiting() == old(
                    self,
                ).waiting(),
            },
    {
        let ghost held = self.waiting();
        let end: usize = self.offset;
        let mut rewound: Option<usize> = None;
        match stubs_mut(&mut self.pending, id.0) {
            Some(list) => {
                let mut at: usize = 0;
                while at < list.len() && list[at].1 != end
                    invariant
                        list@ == held[id.0],
                        at <= list@.len(),
                        forall|before: int| 0 <= before < at ==> list@[before].1 != end,
                    decreases list@.len() - at,
                {
                    at += 1;
                }
                proof {
                    lemma_first_ending_at(held[id.0], end, at as int);
                }
                if at < list.len() {
                    rewound = Some(list[at].0);
                    list.remove(at);
                } else {
                    assert(held.insert(id.0, list@) =~= held);
                }
            },
            None => {},
        }
        match rewound {
            Some(from) => {
                self.offset = from;
            },
            None => {},
        }
    }

    /// Begins the registration of the node `id`: where to write its code, or
    /// `None` where the node was generated before, in which case nothing
    /// changes.
    pub fn begin(&mut self, id: NodeId) -> (start: Option<usize>)
        ensures
            old(self).entries().contains_key(id.0) ==> start is None && final(self).end() == old(
                self,
            ).end() && final(self).entries() == old(self).entries() && final(self).waiting() == old(
                self,
            ).waiting(),
            !old(self).entries().contains_key(id.0) ==> start == Some(final(self).end())
                && final(self).entries() == old(self).entries() && match first_ending_at(
                stubs_of(old(self).waiting(), id.0),
                old(self).end(),
            ) {
                Some(at) => {
                    &&& final(self).end() == old(self).waiting()[id.0][at].0
                    &&& final(self).waiting() == old(self).waiting().insert(
                        id.0,
                        old(self).waiting()[id.0].remove(at),
                    )
                },
                None => final(self).end() == old(self).end() && final(self).waiting() == old(
                    self,
                ).waiting(),
            },
    {
        if self.entry(id).is_some() {
            return None;
        }
        self.remove_last_return_if_needed(id);
        Some(self.offset)
    }

    /// Ends the registration of the node `id`, whose code was written from
    /// `start` to `end` and goes back to the driver at `exits`. Gives the
    /// branches to write: from each of `exits` whose node is generated to
    /// the code of that node, then from each stub that waited for `id` to
    /// `start`. The other stubs of `exits` wait from now on.
    pub fn finish(&mut self, id: NodeId, start: usize, end: usize, exits: Vec<ReturnInfo>) -> (links:
        Vec<Link>)
        ensures
            final(self).end() == end,
            final(self).entries() == old(self).entries().insert(id.0, start),
            links@ == links_now(exits@, final(self).entries()) + links_to(
                stubs_of(held_later(old(self).waiting(), exits@, final(self).entries()), id.0),
                start,
            ),
            final(self).waiting() == if held_later(
                old(self).waiting(),
                exits@,
                final(self).entries(),
            ).contains_key(id.0) {
                held_later(old(self).waiting(), exits@, final(self).entries()).insert(
                    id.0,
                    Seq::empty(),
                )
            } else {
                held_later(old(self).waiting(), exits@, final(self).entries())
            },
    {
        broadcast use vstd::std_specs::hash::group_hash_axioms;

        self.offsets.insert(id.0, start);
        self.offset = end;
        let ghost offsets = self.offsets@;
        let ghost held = old(self).waiting();
        let mut links: Vec<Link> = Vec::new();
        let mut at: usize = 0;
        while at < exits.len()
            invariant
                at <= exits@.len(),
                self.offsets@ == offsets,
                self.offset == end,
                links@ == links_now(exits@.take(at as int), offsets),
                stubs(self.pending) == held_later(held, exits@.take(at as int), offsets),
            decreases exits@.len() - at,
        {
            let ret = exits[at];
            proof {
                assert(exits@.take(at as int + 1).drop_last() =~= exits@.take(at as int));
            }
            match self.offsets.get(&ret.id.0) {
                Some(dest) => {
                    links.push(Link { from: ret.from, dest: *dest });
                },
                None => {
                    add_stub(&mut self.pending, ret.id.0, (ret.from, ret.to));
                },
            }
            at += 1;
        }
        assert(exits@.take(at as int) =~= exits@);
        let ghost later = stubs(self.pending);
        let ghost direct = links@;
        match stubs_mut(&mut self.pending, id.0) {
            Some(waiting) => {
                let mut next: usize = 0;
                while next < waiting.len()
                    invariant
                        next <= waiting@.len(),
                        waiting@ == later[id.0],
                        links@ == direct + links_to(waiting@.take(next as int), start),
                    decreases waiting@.len() - next,
                {
                    links.push(Link { from: waiting[next].0, dest: start });
                    next += 1;
                    assert(links@ =~= direct + links_to(waiting@.take(next as int), start));
                }
                assert(waiting@.take(next as int) =~= waiting@);
                waiting.clear();
            },
            None => {
                assert(links@ =~= direct + links_to(Seq::empty(), start));
            },
        }
        links
    }

    /// The bytes of the branch that takes the place of the stub `ret` once
    /// the code of its node starts at `dest`.
    pub fn replace_ret(ret: ReturnInfo, dest: usize) -> (result: Result<Vec<u8>, OutOfRange>)
        requires
            dest <= isize::MAX,
            ret.from <= isize::MAX,
        ensures
            result is Ok <==> (dest - ret.from) % 4 == 0 && -0x800_0000 <= dest - ret.from
                < 0x800_0000,
            result matches Ok(bytes) ==> bytes@ == crate::vm::interpreter::u32_le(
                (0x1400_0000 + ((dest - ret.from) / 4) % 0x400_0000) as u32,
            ),
    {
        aarch64_utils::b(dest as isize - ret.from as isize)
    }
}

/// The frames in which the driver goes on after generated code has returned
/// with the records `trace`: the records become frames, the last record
/// first, and the frame that becomes the outermost of them starts where the
/// frame that was run started, `offset` bytes further in.
pub open spec fn resumed(frames: Seq<(NodeId, nat)>, offset: nat, trace: Seq<SuspendTrace>) -> Seq<
    (NodeId, nat),
> {
    frames + Seq::new(
        trace.len(),
        |at: int|
            (
                trace[trace.len() - 1 - at].id,
                if at == 0 {
                    trace[trace.len() - 1 - at].offset as nat + offset
                } else {
                    trace[trace.len() - 1 - at].offset as nat
                },
            ),
    )
}

/// Pushes the frames in which to go on after generated code, run for a frame
/// that started `offset` bytes into the frame below, has returned with the
/// records `trace`. Returns `true` where frames are left.
pub fn resume(state: &mut RunState, offset: usize, trace: &Vec<SuspendTrace>) -> (suspended: bool)
    requires
        trace@.len() > 0 ==> trace@.last().offset + offset <= usize::MAX,
    ensures
        final(state)@ == resumed(old(state)@, offset as nat, trace@),
        suspended == (final(state)@.len() > 0),
{
    let mut left: usize = trace.len();
    while left > 0
        invariant
            left <= trace@.len(),
            trace@.len() > 0 ==> trace@.last().offset + offset <= usize::MAX,
            state@ == resumed(old(state)@, offset as nat, trace@).take(
                old(state)@.len() + trace@.len() - left,
            ),
        decreases left,
    {
        left -= 1;
        let entry = trace[left];
        let ghost before = state@;
        if left + 1 == trace.len() {
            state.push(entry.id, entry.offset as usize + offset);
        } else {
            state.push(entry.id, entry.offset as usize);
        }
        assert(state@ =~= resumed(old(state)@, offset as nat, trace@).take(
            old(state)@.len() + trace@.len() - left,
        ));
    }
    assert(state@ =~= resumed(old(state)@, offset as nat, trace@));
    !state.is_empty()
}

} // verus!
