//! Walking a graph: the nodes that can be reached, and a print of the graph.

use crate::vm::api;
use crate::vm::api::{Command, CommandView, Condition, Node, NodeKind, NodeKindView};
use std::collections::HashMap;
use std::collections::HashSet;
use vstd::prelude::*;

verus! {

/// The nodes that `node` hands over to.
pub open spec fn successors<N: Node>(node: N) -> Set<N> {
    match node.kind() {
        NodeKindView::Command { next, .. } => set![next],
        NodeKindView::Branch { if_true, if_false, .. } => set![if_true, if_false],
        NodeKindView::Call { call, next, .. } => set![call, next],
        NodeKindView::Final => Set::empty(),
    }
}

/// A path of at most `steps` successors leads from `from` to `to`.
pub open spec fn reaches_within<N: Node>(from: N, to: N, steps: nat) -> bool
    decreases steps,
{
    from == to || (steps > 0 && exists|middle: N|
        reaches_within(from, middle, (steps - 1) as nat) && successors(middle).contains(to))
}

/// A path of successors leads from `from` to `to`.
pub open spec fn reaches<N: Node>(from: N, to: N) -> bool {
    exists|steps: nat| reaches_within(from, to, steps)
}

/// With a node, `nodes` holds the successors of the node.
pub open spec fn closed<N: Node>(nodes: Set<N>) -> bool {
    forall|node: N, next: N|
        nodes.contains(node) && #[trigger] successors(node).contains(next) ==> nodes.contains(next)
}

/// A closed set holds whatever can be reached from its nodes.
pub proof fn lemma_closed_holds_reachable<N: Node>(nodes: Set<N>, from: N, to: N, steps: nat)
    requires
        closed(nodes),
        nodes.contains(from),
        reaches_within(from, to, steps),
    ensures
        nodes.contains(to),
    decreases steps,
{
    if from != to {
        let middle = choose|middle: N|
            reaches_within(from, middle, (steps - 1) as nat) && successors(middle).contains(to);
        lemma_closed_holds_reachable(nodes, from, middle, (steps - 1) as nat);
    }
}

/// A successor of what can be reached can be reached.
pub proof fn lemma_reaches_successor<N: Node>(from: N, middle: N, to: N)
    requires
        reaches(from, middle),
        successors(middle).contains(to),
    ensures
        reaches(from, to),
{
    let steps = choose|steps: nat| reaches_within(from, middle, steps);
    assert(reaches_within(from, to, steps + 1));
}

fn visit<N: Node>(
    node: N,
    visited: &mut HashSet<N>,
    Ghost(root): Ghost<N>,
    Ghost(bound): Ghost<Set<N>>,
)
    requires
        api::behaves_as_value::<N>(),
        node.valid(),
        bound.finite(),
        closed(bound),
        bound.contains(node),
        old(visited)@.subset_of(bound),
        reaches(root, node),
        forall|seen: N| old(visited)@.contains(seen) ==> reaches(root, seen),
    ensures
        old(visited)@.subset_of(final(visited)@),
        final(visited)@.subset_of(bound),
        final(visited)@.contains(node),
        forall|seen: N| final(visited)@.contains(seen) ==> reaches(root, seen),
        forall|seen: N, next: N|
            final(visited)@.contains(seen) && !old(visited)@.contains(seen)
                && #[trigger] successors(seen).contains(next) ==> final(visited)@.contains(next),
    decreases bound.difference(old(visited)@).len(),
{
    broadcast use vstd::std_specs::hash::group_hash_axioms;

    if visited.contains(&node) {
        return ;
    }
    let kind = node.get();
    let ghost first = visited@;
    let ghost this = node;
    visited.insert(node);
    let ghost second = visited@;
    proof {
        assert(bound.difference(second) =~= bound.difference(first).remove(this));
        assert(bound.difference(first).contains(this));
    }
    match kind {
        NodeKind::Command { next, .. } => {
            proof {
                lemma_reaches_successor(root, this, next);
            }
            visit(next, visited, Ghost(root), Ghost(bound));
        },
        NodeKind::Branch { if_true, if_false, .. } => {
            proof {
                assert(successors(this).contains(if_true));
                assert(successors(this).contains(if_false));
                assert(bound.contains(if_true) && bound.contains(if_false));
                lemma_reaches_successor(root, this, if_true);
                lemma_reaches_successor(root, this, if_false);
            }
            visit(if_true, visited, Ghost(root), Ghost(bound));
            proof {
                vstd::set_lib::lemma_len_subset(
                    bound.difference(visited@),
                    bound.difference(second),
                );
            }
            visit(if_false, visited, Ghost(root), Ghost(bound));
        },
        NodeKind::Call { call, next, .. } => {
            proof {
                assert(successors(this).contains(call));
                assert(successors(this).contains(next));
                assert(bound.contains(call) && bound.contains(next));
                lemma_reaches_successor(root, this, call);
                lemma_reaches_successor(root, this, next);
            }
            visit(call, visited, Ghost(root), Ghost(bound));
            proof {
                vstd::set_lib::lemma_len_subset(
                    bound.difference(visited@),
                    bound.difference(second),
                );
            }
            visit(next, visited, Ghost(root), Ghost(bound));
        },
        NodeKind::Final => {},
    }
}

/// The nodes that can be reached from `node`, `node` among them. The graph
/// may have cycles; it must be finite.
pub fn traverse_node<N: Node>(node: N) -> (visited: HashSet<N>)
    requires
        api::behaves_as_value::<N>(),
        node.valid(),
        exists|bound: Set<N>| bound.finite() && closed(bound) && bound.contains(node),
    ensures
        forall|other: N| visited@.contains(other) <==> reaches(node, other),
{
    let ghost bound = choose|bound: Set<N>| bound.finite() && closed(bound) && bound.contains(node);
    let mut visited: HashSet<N> = HashSet::new();
    proof {
        assert(reaches_within(node, node, 0));
    }
    visit(node, &mut visited, Ghost(node), Ghost(bound));
    proof {
        assert(closed(visited@));
        assert forall|other: N| reaches(node, other) implies visited@.contains(other) by {
            let steps = choose|steps: nat| reaches_within(node, other, steps);
            lemma_closed_holds_reachable(visited@, node, other, steps);
        }
    }
    visited
}


/// What a line of a printed graph says.
#[derive(Debug, Clone, PartialEq, Eq)]
pub enum Content {
    /// The node was printed before, on the line with this number.
    Seen(u32),
    Command(Command),
    Condition(Condition),
    /// What follows is the branch that is taken where the condition fails.
    Else,
    /// A call on the frame that starts at this offset; the callee follows,
    /// indented.
    Call(u32),
    Final,
}

/// The mathematical content of a [`Content`].
pub enum ContentView {
    Seen(u32),
    Command(CommandView),
    Condition(Condition),
    Else,
    Call(u32),
    Final,
}

impl View for Content {
    type V = ContentView;

    open spec fn view(&self) -> ContentView {
        match *self {
            Content::Seen(line) => ContentView::Seen(line),
            Content::Command(command) => ContentView::Command(command@),
            Content::Condition(condition) => ContentView::Condition(condition),
            Content::Else => ContentView::Else,
            Content::Call(offset) => ContentView::Call(offset),
            Content::Final => ContentView::Final,
        }
    }
}

/// A line of a printed graph: its number, counted from 1, its indentation
/// and what it says.
#[derive(Debug, Clone, PartialEq, Eq)]
pub struct Line {
    pub number: u32,
    pub indent: u32,
    pub content: Content,
}

/// The mathematical content of a [`Line`].
pub struct LineView {
    pub number: u32,
    pub indent: u32,
    pub content: ContentView,
}

impl View for Line {
    type V = LineView;

    open spec fn view(&self) -> LineView {
        LineView { number: self.number, indent: self.indent, content: self.content@ }
    }
}

/// The state of printing: the lines so far, and for each node that was
/// printed the number of its line.
#[verifier::reject_recursive_types(N)]
pub struct Page<N> {
    pub lines: Seq<LineView>,
    pub visited: Map<N, u32>,
}

impl<N> Page<N> {
    /// The page with one more line, which says `content` at the indentation
    /// `indent`.
    pub open spec fn with(self, indent: u32, content: ContentView) -> Page<N> {
        Page {
            lines: self.lines.push(
                LineView { number: (self.lines.len() + 1) as u32, indent, content },
            ),
            visited: self.visited,
        }
    }

    /// The page on which `node` is known to start on the next line.
    pub open spec fn noting(self, node: N) -> Page<N> {
        Page { lines: self.lines, visited: self.visited.insert(node, (self.lines.len() + 1) as u32) }
    }
}

/// The page after the graph from `node` on was printed on `page` at the
/// indentation `indent`, where that takes recursion no deeper than `depth`:
/// a node that was printed before gets a line that refers to its first line;
/// a command is followed by its successor; a condition by the branch for
/// which it holds, indented, a line that says "else", and the other branch,
/// indented; a call by the callee, indented, and then by what follows the
/// call.
pub open spec fn printed_within<N: Node>(node: N, indent: u32, page: Page<N>, depth: nat) -> Option<
    Page<N>,
>
    decreases depth,
{
    if depth == 0 {
        None
    } else if page.visited.contains_key(node) {
        Some(page.with(indent, ContentView::Seen(page.visited[node])))
    } else {
        let noted = page.noting(node);
        let rest = (depth - 1) as nat;
        match node.kind() {
            NodeKindView::Command { command, next } => printed_within(
                next,
                indent,
                noted.with(indent, ContentView::Command(command)),
                rest,
            ),
            NodeKindView::Branch { condition, if_true, if_false } => {
                match printed_within(
                    if_true,
                    (indent + 1) as u32,
                    noted.with(indent, ContentView::Condition(condition)),
                    rest,
                ) {
                    Some(middle) => printed_within(
                        if_false,
                        (indent + 1) as u32,
                        middle.with(indent, ContentView::Else),
                        rest,
                    ),
                    None => None,
                }
            },
            NodeKindView::Call { offset, call, next } => {
                match printed_within(
                    call,
                    (indent + 1) as u32,
                    noted.with(indent, ContentView::Call(offset)),
                    rest,
                ) {
                    Some(middle) => printed_within(next, indent, middle, rest),
                    None => None,
                }
            },
            NodeKindView::Final => Some(noted.with(indent, ContentView::Final)),
        }
    }
}

/// More depth does not change what is printed.
pub proof fn lemma_printed_depth_monotone<N: Node>(
    node: N,
    indent: u32,
    page: Page<N>,
    depth: nat,
    more: nat,
)
    requires
        printed_within(node, indent, page, depth) is Some,
        depth <= more,
    ensures
        printed_within(node, indent, page, more) == printed_within(node, indent, page, depth),
    decreases depth,
{
    if !page.visited.contains_key(node) {
        let noted = page.noting(node);
        let rest = (depth - 1) as nat;
        let further = (more - 1) as nat;
        match node.kind() {
            NodeKindView::Command { command, next } => {
                lemma_printed_depth_monotone(
                    next,
                    indent,
                    noted.with(indent, ContentView::Command(command)),
                    rest,
                    further,
                );
            },
            NodeKindView::Branch { condition, if_true, if_false } => {
                let first = noted.with(indent, ContentView::Condition(condition));
                lemma_printed_depth_monotone(if_true, (indent + 1) as u32, first, rest, further);
                let middle = printed_within(if_true, (indent + 1) as u32, first, rest)->Some_0;
                lemma_printed_depth_monotone(
                    if_false,
                    (indent + 1) as u32,
                    middle.with(indent, ContentView::Else),
                    rest,
                    further,
                );
            },
            NodeKindView::Call { offset, call, next } => {
                let first = noted.with(indent, ContentView::Call(offset));
                lemma_printed_depth_monotone(call, (indent + 1) as u32, first, rest, further);
                let middle = printed_within(call, (indent + 1) as u32, first, rest)->Some_0;
                lemma_printed_depth_monotone(next, indent, middle, rest, further);
            },
            NodeKindView::Final => {},
        }
    }
}

/// The graph from `node` on can be printed.
pub open spec fn printable<N: Node>(node: N) -> bool {
    exists|depth: nat|
        printed_within(node, 0, Page { lines: Seq::empty(), visited: Map::empty() }, depth) is Some
}

/// The lines of the printed graph that starts at `node`.
pub open spec fn printed<N: Node>(node: N) -> Seq<LineView> {
    let depth = choose|depth: nat|
        printed_within(node, 0, Page { lines: Seq::empty(), visited: Map::empty() }, depth) is Some;
    printed_within(
        node,
        0,
        Page { lines: Seq::empty(), visited: Map::empty() },
        depth,
    )->Some_0.lines
}

/// Printing adds lines.
pub proof fn lemma_printed_grows<N: Node>(node: N, indent: u32, page: Page<N>, depth: nat)
    requires
        printed_within(node, indent, page, depth) is Some,
    ensures
        printed_within(node, indent, page, depth)->Some_0.lines.len() > page.lines.len(),
    decreases depth,
{
    if !page.visited.contains_key(node) {
        let noted = page.noting(node);
        let rest = (depth - 1) as nat;
        match node.kind() {
            NodeKindView::Command { command, next } => {
                lemma_printed_grows(
                    next,
                    indent,
                    noted.with(indent, ContentView::Command(command)),
                    rest,
                );
            },
            NodeKindView::Branch { condition, if_true, if_false } => {
                let first = noted.with(indent, ContentView::Condition(condition));
                lemma_printed_grows(if_true, (indent + 1) as u32, first, rest);
                let middle = printed_within(if_true, (indent + 1) as u32, first, rest)->Some_0;
                lemma_printed_grows(
                    if_false,
                    (indent + 1) as u32,
                    middle.with(indent, ContentView::Else),
                    rest,
                );
            },
            NodeKindView::Call { offset, call, next } => {
                let first = noted.with(indent, ContentView::Call(offset));
                lemma_printed_grows(call, (indent + 1) as u32, first, rest);
                let middle = printed_within(call, (indent + 1) as u32, first, rest)->Some_0;
                lemma_printed_grows(next, indent, middle, rest);
            },
            NodeKindView::Final => {},
        }
    }
}

/// The lines as they are, mathematically.
pub open spec fn lines_view(lines: Seq<Line>) -> Seq<LineView> {
    Seq::new(lines.len(), |at: int| lines[at]@)
}

fn write_line(lines: &mut Vec<Line>, indent: u32, content: Content)
    requires
        old(lines)@.len() < u32::MAX,
    ensures
        lines_view(final(lines)@) == lines_view(old(lines)@).push(
            LineView { number: (old(lines)@.len() + 1) as u32, indent, content: content@ },
        ),
{
    let number: u32 = (lines.len() + 1) as u32;
    lines.push(Line { number, indent, content });
    assert(lines_view(lines@) =~= lines_view(old(lines)@).push(
        LineView { number: (old(lines)@.len() + 1) as u32, indent, content: content@ },
    ));
}

fn print_from<N: Node>(
    indent: u32,
    node: N,
    lines: &mut Vec<Line>,
    visited: &mut HashMap<N, u32>,
    Ghost(depth): Ghost<nat>,
)
    requires
        api::behaves_as_value::<N>(),
        node.valid(),
        indent <= old(lines)@.len(),
        printed_within(
            node,
            indent,
            Page { lines: lines_view(old(lines)@), visited: old(visited)@ },
            depth,
        ) matches Some(page) && page.lines.len() <= u32::MAX,
    ensures
        Some(Page { lines: lines_view(final(lines)@), visited: final(visited)@ })
            == printed_within(
            node,
            indent,
            Page { lines: lines_view(old(lines)@), visited: old(visited)@ },
            depth,
        ),
    decreases depth,
{
    broadcast use vstd::std_specs::hash::group_hash_axioms;

    let ghost page = Page { lines: lines_view(lines@), visited: visited@ };
    let ghost rest = (depth - 1) as nat;
    proof {
        lemma_printed_grows(node, indent, page, depth);
    }
    match visited.get(&node) {
        Some(line) => {
            let line: u32 = *line;
            write_line(lines, indent, Content::Seen(line));
            return ;
        },
        None => {},
    }
    let number: u32 = (lines.len() + 1) as u32;
    let copy = node.clone();
    assert(cloned(node, copy));
    let kind = node.get();
    visited.insert(copy, number);
    let ghost noted = page.noting(node);
    assert(noted == Page { lines: lines_view(lines@), visited: visited@ });
    match kind {
        NodeKind::Command { command, next } => {
            write_line(lines, indent, Content::Command(command));
            print_from(indent, next, lines, visited, Ghost(rest));
        },
        NodeKind::Branch { condition, if_true, if_false } => {
            let ghost first = noted.with(indent, ContentView::Condition(condition));
            proof {
                lemma_printed_grows(if_true, (indent + 1) as u32, first, rest);
                let middle = printed_within(if_true, (indent + 1) as u32, first, rest)->Some_0;
                lemma_printed_grows(
                    if_false,
                    (indent + 1) as u32,
                    middle.with(indent, ContentView::Else),
                    rest,
                );
            }
            write_line(lines, indent, Content::Condition(condition));
            print_from(indent + 1, if_true, lines, visited, Ghost(rest));
            write_line(lines, indent, Content::Else);
            print_from(indent + 1, if_false, lines, visited, Ghost(rest));
        },
        NodeKind::Call { offset, call, next } => {
            let ghost first = noted.with(indent, ContentView::Call(offset));
            proof {
                lemma_printed_grows(call, (indent + 1) as u32, first, rest);
                let middle = printed_within(call, (indent + 1) as u32, first, rest)->Some_0;
                lemma_printed_grows(next, indent, middle, rest);
            }
            write_line(lines, indent, Content::Call(offset));
            print_from(indent + 1, call, lines, visited, Ghost(rest));
            print_from(indent, next, lines, visited, Ghost(rest));
        },
        NodeKind::Final => {
            write_line(lines, indent, Content::Final);
        },
    }
}

/// The lines of the printed graph that starts at `node`: each node once, in
/// the order in which they are first met, and a reference to its first line
/// wherever a node is met again, so that a graph with cycles has a finite
/// print.
pub fn pretty_lines<N: Node>(node: N) -> (lines: Vec<Line>)
    requires
        api::behaves_as_value::<N>(),
        node.valid(),
        printable(node),
        printed(node).len() <= u32::MAX,
    ensures
        lines_view(lines@) == printed(node),
{
    let ghost depth = choose|depth: nat|
        printed_within(node, 0, Page { lines: Seq::empty(), visited: Map::empty() }, depth) is Some;
    let mut lines: Vec<Line> = Vec::new();
    let mut visited: HashMap<N, u32> = HashMap::new();
    assert(lines_view(lines@) =~= Seq::empty());
    print_from(0, node, &mut lines, &mut visited, Ghost(depth));
    lines
}

} // verus!
