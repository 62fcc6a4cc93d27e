//! The walk through the nodes that one state reaches before the next
//! state, and the logic it writes.

use crate::command::{Command, CommandView};
use crate::emit::{InoutShadow, InoutShadowView};
use crate::node::{views, Node, NodeType, NodeView};
use crate::number::{append_decimal, decimal};
use crate::text::str_eq;
use crate::verilog_code_gen::Code;
use vstd::prelude::*;
use vstd::seq_lib::*;
use vstd::set_lib::*;
use vstd::string::*;

verus! {

/// Why no module could be generated.
#[derive(Debug, PartialEq, Eq)]
pub enum CodegenError {
    /// A walk came back to a node it had entered before without having
    /// reached a state.
    CircularDependency,
    /// An edge names a node that the chart does not hold.
    UnknownNode { name: String },
}

/// The mathematical value of a [`CodegenError`].
pub enum CodegenErrorView {
    CircularDependency,
    UnknownNode { name: Seq<char> },
}

impl View for CodegenError {
    type V = CodegenErrorView;

    open spec fn view(&self) -> CodegenErrorView {
        match self {
            CodegenError::CircularDependency => CodegenErrorView::CircularDependency,
            CodegenError::UnknownNode { name } => CodegenErrorView::UnknownNode { name: name@ },
        }
    }
}

/// The last position of `names` that holds `name`.
pub open spec fn last_index_of(names: Seq<Seq<char>>, name: Seq<char>) -> Option<int>
    decreases names.len(),
{
    if names.len() == 0 {
        None
    } else if names.last() == name {
        Some(names.len() - 1)
    } else {
        last_index_of(names.drop_last(), name)
    }
}

/// The names of the nodes, in order.
pub open spec fn node_names(nodes: Seq<NodeView>) -> Seq<Seq<char>> {
    Seq::new(nodes.len(), |i: int| nodes[i].name)
}

/// The names of the pins that the registers stand behind, in order.
pub open spec fn pin_names(shadows: Seq<InoutShadowView>) -> Seq<Seq<char>> {
    Seq::new(shadows.len(), |i: int| shadows[i].pin_name)
}

/// The node that `name` names: of several with that name, the last.
pub open spec fn lookup(nodes: Seq<NodeView>, name: Seq<char>) -> Option<int> {
    last_index_of(node_names(nodes), name)
}

/// `last_index_of` gives a position that holds the name, after which
/// none does; and none only where no position holds it.
pub proof fn lemma_last_index_of(names: Seq<Seq<char>>, name: Seq<char>)
    ensures
        match last_index_of(names, name) {
            Some(i) => 0 <= i < names.len() && names[i] == name && forall|j: int|
                i < j < names.len() ==> names[j] != name,
            None => forall|j: int| 0 <= j < names.len() ==> names[j] != name,
        },
    decreases names.len(),
{
    if names.len() > 0 && names.last() != name {
        lemma_last_index_of(names.drop_last(), name);
        assert forall|j: int| 0 <= j < names.len() - 1 implies names[j] == names.drop_last()[j] by {
        }
    }
}

/// The target of the last `then` among the commands.
pub open spec fn then_target(commands: Seq<CommandView>) -> Option<Seq<char>>
    decreases commands.len(),
{
    if commands.len() == 0 {
        None
    } else {
        match commands.last() {
            CommandView::Then { next_node } => Some(next_node),
            _ => then_target(commands.drop_last()),
        }
    }
}

/// The condition of the last `check` among the commands; `0` where
/// there is none.
pub open spec fn check_of(commands: Seq<CommandView>) -> Seq<char>
    decreases commands.len(),
{
    if commands.len() == 0 {
        "0"@
    } else {
        match commands.last() {
            CommandView::Check { check } => check,
            _ => check_of(commands.drop_last()),
        }
    }
}

/// The target of the last `yes` among the commands; the empty name where
/// there is none.
pub open spec fn yes_target(commands: Seq<CommandView>) -> Seq<char>
    decreases commands.len(),
{
    if commands.len() == 0 {
        ""@
    } else {
        match commands.last() {
            CommandView::Yes { next_node } => next_node,
            _ => yes_target(commands.drop_last()),
        }
    }
}

/// The target of the last `no` among the commands; the empty name where
/// there is none.
pub open spec fn no_target(commands: Seq<CommandView>) -> Seq<char>
    decreases commands.len(),
{
    if commands.len() == 0 {
        ""@
    } else {
        match commands.last() {
            CommandView::No { next_node } => next_node,
            _ => no_target(commands.drop_last()),
        }
    }
}

/// The assignment of `value` to the register `reg`. Where `reg` is a
/// bidirectional pin, the value goes to the register behind the pin, and
/// the pin is driven.
pub open spec fn transfer_text(
    reg: Seq<char>,
    value: Seq<char>,
    shadows: Seq<InoutShadowView>,
) -> Seq<char> {
    match last_index_of(pin_names(shadows), reg) {
        Some(i) => "\n"@ + shadows[i].value_reg + " <= "@ + value + ";\n"@ + shadows[i].enable_reg
            + " <= 1;"@,
        None => "\n"@ + reg + " <= "@ + value + ";"@,
    }
}

/// The assignments of the register transfers among the commands, in
/// order.
pub open spec fn transfers(commands: Seq<CommandView>, shadows: Seq<InoutShadowView>) -> Seq<
    char,
>
    decreases commands.len(),
{
    if commands.len() == 0 {
        Seq::empty()
    } else {
        transfers(commands.drop_last(), shadows) + match commands.last() {
            CommandView::RegisterTransfer { reg_name, reg_value } => transfer_text(
                reg_name,
                reg_value,
                shadows,
            ),
            _ => Seq::empty(),
        }
    }
}

/// The assignment that makes the state with number `id` the next one.
pub open spec fn transition_text(state_reg: Seq<char>, id: u32) -> Seq<char> {
    "\n"@ + state_reg + " <= "@ + decimal(id as nat) + ";"@
}

/// The number of node names that are not among `seen`.
pub open spec fn unvisited(nodes: Seq<NodeView>, seen: Seq<Seq<char>>) -> nat {
    node_names(nodes).to_set().difference(seen.to_set()).len()
}

/// Entering a node that was not seen takes exactly one name from the
/// unvisited.
pub proof fn lemma_visit_one(nodes: Seq<NodeView>, seen: Seq<Seq<char>>, i: int)
    requires
        0 <= i < nodes.len(),
        !seen.contains(nodes[i].name),
    ensures
        unvisited(nodes, seen + seq![nodes[i].name]) + 1 == unvisited(nodes, seen),
{
    broadcast use seq_to_set_is_finite;

    let names = node_names(nodes).to_set();
    let name = nodes[i].name;
    assert(node_names(nodes)[i] == name);
    assert(names.contains(name));
    Seq::lemma_to_set_insert_commutes(seen, name);
    let before = names.difference(seen.to_set());
    let after = names.difference(seen.to_set().insert(name));
    assert(after =~= before.remove(name));
    lemma_len_difference(names, seen.to_set());
    lemma_set_subset_finite(names, before);
}

/// There are no more names unvisited than nodes.
pub proof fn lemma_unvisited_bound(nodes: Seq<NodeView>, seen: Seq<Seq<char>>)
    ensures
        unvisited(nodes, seen) <= nodes.len(),
{
    broadcast use seq_to_set_is_finite;

    let names = node_names(nodes);
    names.lemma_cardinality_of_set();
    lemma_len_difference(names.to_set(), seen.to_set());
}

/// Seeing more names leaves no more names unvisited.
pub proof fn lemma_seen_more(nodes: Seq<NodeView>, seen: Seq<Seq<char>>, more: Seq<Seq<char>>)
    ensures
        unvisited(nodes, seen + more) <= unvisited(nodes, seen),
{
    broadcast use seq_to_set_is_finite;

    let names = node_names(nodes).to_set();
    let later = seen + more;
    assert forall|x: Seq<char>| seen.to_set().contains(x) implies later.to_set().contains(x) by {
        let j = choose|j: int| 0 <= j < seen.len() && seen[j] == x;
        assert(later[j] == x);
    }
    lemma_len_difference(names, seen.to_set());
    lemma_set_subset_finite(names, names.difference(seen.to_set()));
    lemma_len_subset(names.difference(later.to_set()), names.difference(seen.to_set()));
}

/// What a walk has written, the names of the nodes it has entered, in
/// the order of entry, and the error that ended it, if one did.
pub struct Walked {
    pub text: Seq<char>,
    pub entered: Seq<Seq<char>>,
    pub failure: Option<CodegenErrorView>,
}

/// The walk that arrives at node `i`, with the names in `seen` entered
/// before. `root` says that the walk starts here, at a state.
///
/// Arriving at a state ends the walk with the transition to it, unless
/// the walk starts there. Arriving at any other node that was entered
/// before is an error. Otherwise the node is entered. A decision writes
/// its condition and walks both branches, first `yes`, then `no`, the
/// second with the names that the first has entered as well. Any other
/// node writes its register transfers and walks on to the target of its
/// `then`, if it has one. An edge to a name that no node has is an
/// error. An error ends the walk where it occurs; what was written and
/// entered up to there stays.
pub open spec fn walk(
    nodes: Seq<NodeView>,
    shadows: Seq<InoutShadowView>,
    state_reg: Seq<char>,
    i: int,
    seen: Seq<Seq<char>>,
    root: bool,
) -> Walked
    decreases unvisited(nodes, seen),
{
    if !(0 <= i < nodes.len()) {
        Walked { text: Seq::empty(), entered: Seq::empty(), failure: None }
    } else if !root && nodes[i].node_type == NodeType::State {
        Walked {
            text: transition_text(state_reg, nodes[i].id),
            entered: Seq::empty(),
            failure: None,
        }
    } else if seen.contains(nodes[i].name) {
        Walked {
            text: Seq::empty(),
            entered: Seq::empty(),
            failure: Some(CodegenErrorView::CircularDependency),
        }
    } else {
        let commands = nodes[i].commands;
        let here = seq![nodes[i].name];
        proof {
            lemma_visit_one(nodes, seen, i);
        }
        if nodes[i].node_type == NodeType::Decision {
            let head = "\nif ("@ + check_of(commands) + ") begin"@;
            match lookup(nodes, yes_target(commands)) {
                None => Walked {
                    text: head,
                    entered: here,
                    failure: Some(CodegenErrorView::UnknownNode { name: yes_target(commands) }),
                },
                Some(yes) => {
                    let first = walk(nodes, shadows, state_reg, yes, seen + here, false);
                    if first.failure is Some {
                        Walked {
                            text: head + first.text,
                            entered: here + first.entered,
                            failure: first.failure,
                        }
                    } else {
                        let half = head + first.text + "\nend else begin"@;
                        match lookup(nodes, no_target(commands)) {
                            None => Walked {
                                text: half,
                                entered: here + first.entered,
                                failure: Some(
                                    CodegenErrorView::UnknownNode { name: no_target(commands) },
                                ),
                            },
                            Some(no) => {
                                proof {
                                    lemma_seen_more(nodes, seen + here, first.entered);
                                }
                                let second = walk(
                                    nodes,
                                    shadows,
                                    state_reg,
                                    no,
                                    seen + here + first.entered,
                                    false,
                                );
                                Walked {
                                    text: half + second.text + if second.failure is Some {
                                        Seq::<char>::empty()
                                    } else {
                                        "\nend"@
                                    },
                                    entered: here + first.entered + second.entered,
                                    failure: second.failure,
                                }
                            },
                        }
                    }
                },
            }
        } else {
            let body = transfers(commands, shadows);
            match then_target(commands) {
                None => Walked { text: body, entered: here, failure: None },
                Some(target) => match lookup(nodes, target) {
                    None => Walked {
                        text: body,
                        entered: here,
                        failure: Some(CodegenErrorView::UnknownNode { name: target }),
                    },
                    Some(next) => {
                        let rest = walk(nodes, shadows, state_reg, next, seen + here, false);
                        Walked {
                            text: body + rest.text,
                            entered: here + rest.entered,
                            failure: rest.failure,
                        }
                    },
                },
            }
        }
    }
}

/// A walk enters no node twice, and none that was entered before: each
/// name that it enters is one of the names not yet seen. So a walk
/// enters at most as many nodes as there are names not yet seen.
pub proof fn lemma_walk_enters_once(
    nodes: Seq<NodeView>,
    shadows: Seq<InoutShadowView>,
    state_reg: Seq<char>,
    i: int,
    seen: Seq<Seq<char>>,
    root: bool,
)
    ensures
        ({
            let w = walk(nodes, shadows, state_reg, i, seen, root);
            &&& unvisited(nodes, seen + w.entered) + w.entered.len() == unvisited(nodes, seen)
            &&& w.entered.len() <= unvisited(nodes, seen) <= nodes.len()
            &&& seen.no_duplicates() ==> (seen + w.entered).no_duplicates()
        }),
    decreases unvisited(nodes, seen),
{
    let w = walk(nodes, shadows, state_reg, i, seen, root);
    lemma_unvisited_bound(nodes, seen);
    if 0 <= i < nodes.len() && !(!root && nodes[i].node_type == NodeType::State) && !seen.contains(
        nodes[i].name,
    ) {
        let commands = nodes[i].commands;
        let here = seq![nodes[i].name];
        let entered = seen + here;
        lemma_visit_one(nodes, seen, i);
        assert(seen.no_duplicates() ==> entered.no_duplicates()) by {
            if seen.no_duplicates() {
                assert forall|a: int, b: int|
                    0 <= a < entered.len() && 0 <= b < entered.len() && a != b implies entered[a]
                    != entered[b] by {
                    if a < seen.len() && b < seen.len() {
                        assert(seen[a] != seen[b]);
                    } else if a < seen.len() {
                        assert(seen.contains(seen[a]));
                    } else if b < seen.len() {
                        assert(seen.contains(seen[b]));
                    }
                }
            }
        }
        if nodes[i].node_type == NodeType::Decision {
            match lookup(nodes, yes_target(commands)) {
                None => {
                    assert(seen + w.entered =~= entered);
                },
                Some(yes) => {
                    lemma_walk_enters_once(nodes, shadows, state_reg, yes, entered, false);
                    let first = walk(nodes, shadows, state_reg, yes, entered, false);
                    if first.failure is None && lookup(nodes, no_target(commands)) is Some {
                        let no = lookup(nodes, no_target(commands))->0;
                        lemma_seen_more(nodes, entered, first.entered);
                        lemma_walk_enters_once(
                            nodes,
                            shadows,
                            state_reg,
                            no,
                            entered + first.entered,
                            false,
                        );
                        let second = walk(
                            nodes,
                            shadows,
                            state_reg,
                            no,
                            entered + first.entered,
                            false,
                        );
                        assert(seen + w.entered =~= entered + first.entered + second.entered);
                    } else {
                        assert(seen + w.entered =~= entered + first.entered);
                    }
                },
            }
        } else {
            match then_target(commands) {
                None => {
                    assert(seen + w.entered =~= entered);
                },
                Some(target) => match lookup(nodes, target) {
                    None => {
                        assert(seen + w.entered =~= entered);
                    },
                    Some(next) => {
                        lemma_walk_enters_once(nodes, shadows, state_reg, next, entered, false);
                        let rest = walk(nodes, shadows, state_reg, next, entered, false);
                        assert(seen + w.entered =~= entered + rest.entered);
                    },
                },
            }
        }
    } else {
        assert(seen + w.entered =~= seen);
    }
}

/// Coming back to a node that was entered before fails, unless the
/// node is a state at which the walk ends.
pub proof fn lemma_walk_revisit(
    nodes: Seq<NodeView>,
    shadows: Seq<InoutShadowView>,
    state_reg: Seq<char>,
    i: int,
    seen: Seq<Seq<char>>,
    root: bool,
)
    requires
        0 <= i < nodes.len(),
        seen.contains(nodes[i].name),
        root || nodes[i].node_type != NodeType::State,
    ensures
        walk(nodes, shadows, state_reg, i, seen, root).failure == Some(
            CodegenErrorView::CircularDependency,
        ),
{
}

/// A decision whose `yes` leads back to the decision itself fails with
/// `CircularDependency`, from wherever the walk arrives at it.
pub proof fn lemma_walk_yes_to_itself(
    nodes: Seq<NodeView>,
    shadows: Seq<InoutShadowView>,
    state_reg: Seq<char>,
    i: int,
    seen: Seq<Seq<char>>,
    root: bool,
)
    requires
        0 <= i < nodes.len(),
        nodes[i].node_type == NodeType::Decision,
        lookup(nodes, yes_target(nodes[i].commands)) == Some(i),
    ensures
        walk(nodes, shadows, state_reg, i, seen, root).failure == Some(
            CodegenErrorView::CircularDependency,
        ),
{
    if !seen.contains(nodes[i].name) {
        let entered = seen + seq![nodes[i].name];
        assert(entered[seen.len() as int] == nodes[i].name);
        lemma_walk_revisit(nodes, shadows, state_reg, i, entered, false);
    }
}

/// A conditional node whose `then` leads back to the node itself fails
/// with `CircularDependency`, from wherever the walk arrives at it.
pub proof fn lemma_walk_then_to_itself(
    nodes: Seq<NodeView>,
    shadows: Seq<InoutShadowView>,
    state_reg: Seq<char>,
    i: int,
    seen: Seq<Seq<char>>,
    root: bool,
)
    requires
        0 <= i < nodes.len(),
        nodes[i].node_type == NodeType::Conditional,
        then_target(nodes[i].commands) matches Some(target) && lookup(nodes, target) == Some(i),
    ensures
        walk(nodes, shadows, state_reg, i, seen, root).failure == Some(
            CodegenErrorView::CircularDependency,
        ),
{
    if !seen.contains(nodes[i].name) {
        let entered = seen + seq![nodes[i].name];
        assert(entered[seen.len() as int] == nodes[i].name);
        lemma_walk_revisit(nodes, shadows, state_reg, i, entered, false);
    }
}

/// An edge from a node that the walk enters to a node that was entered
/// before, and is no state, fails with `CircularDependency`: for the
/// `yes` of a decision and for the `then` of any other node.
pub proof fn lemma_walk_back_edge(
    nodes: Seq<NodeView>,
    shadows: Seq<InoutShadowView>,
    state_reg: Seq<char>,
    i: int,
    seen: Seq<Seq<char>>,
    root: bool,
    j: int,
)
    requires
        0 <= i < nodes.len(),
        root || nodes[i].node_type != NodeType::State,
        0 <= j < nodes.len(),
        nodes[j].node_type != NodeType::State,
        seen.contains(nodes[j].name),
        if nodes[i].node_type == NodeType::Decision {
            lookup(nodes, yes_target(nodes[i].commands)) == Some(j)
        } else {
            then_target(nodes[i].commands) matches Some(target) && lookup(nodes, target) == Some(
                j,
            )
        },
    ensures
        walk(nodes, shadows, state_reg, i, seen, root).failure == Some(
            CodegenErrorView::CircularDependency,
        ),
{
    if !seen.contains(nodes[i].name) {
        let entered = seen + seq![nodes[i].name];
        let k = choose|k: int| 0 <= k < seen.len() && seen[k] == nodes[j].name;
        assert(entered[k] == nodes[j].name);
        lemma_walk_revisit(nodes, shadows, state_reg, j, entered, false);
    }
}

/// An edge to a name that no node has fails with `UnknownNode` and that
/// name: for the `yes` of a decision and for the `then` of any other
/// node that the walk enters.
pub proof fn lemma_walk_unknown_target(
    nodes: Seq<NodeView>,
    shadows: Seq<InoutShadowView>,
    state_reg: Seq<char>,
    i: int,
    seen: Seq<Seq<char>>,
    root: bool,
    target: Seq<char>,
)
    requires
        0 <= i < nodes.len(),
        root || nodes[i].node_type != NodeType::State,
        !seen.contains(nodes[i].name),
        lookup(nodes, target) is None,
        if nodes[i].node_type == NodeType::Decision {
            yes_target(nodes[i].commands) == target
        } else {
            then_target(nodes[i].commands) == Some(target)
        },
    ensures
        walk(nodes, shadows, state_reg, i, seen, root).failure == Some(
            CodegenErrorView::UnknownNode { name: target },
        ),
{
}

/// The `no` of a decision to a name that no node has fails with
/// `UnknownNode` and that name, where the walk of `yes` succeeds.
pub proof fn lemma_walk_unknown_no(
    nodes: Seq<NodeView>,
    shadows: Seq<InoutShadowView>,
    state_reg: Seq<char>,
    i: int,
    seen: Seq<Seq<char>>,
    root: bool,
)
    requires
        0 <= i < nodes.len(),
        nodes[i].node_type == NodeType::Decision,
        !seen.contains(nodes[i].name),
        lookup(nodes, yes_target(nodes[i].commands)) matches Some(yes) && walk(
            nodes,
            shadows,
            state_reg,
            yes,
            seen + seq![nodes[i].name],
            false,
        ).failure is None,
        lookup(nodes, no_target(nodes[i].commands)) is None,
    ensures
        walk(nodes, shadows, state_reg, i, seen, root).failure == Some(
            CodegenErrorView::UnknownNode { name: no_target(nodes[i].commands) },
        ),
{
}

/// `lookup` finds a node exactly where some node has the name.
pub proof fn lemma_lookup(nodes: Seq<NodeView>, name: Seq<char>)
    ensures
        match lookup(nodes, name) {
            Some(i) => 0 <= i < nodes.len() && nodes[i].name == name && forall|j: int|
                i < j < nodes.len() ==> nodes[j].name != name,
            None => forall|j: int| 0 <= j < nodes.len() ==> nodes[j].name != name,
        },
{
    lemma_last_index_of(node_names(nodes), name);
    match lookup(nodes, name) {
        Some(i) => {
            assert(node_names(nodes)[i] == nodes[i].name);
            assert forall|j: int| i < j < nodes.len() implies nodes[j].name != name by {
                assert(node_names(nodes)[j] == nodes[j].name);
            }
        },
        None => {
            assert forall|j: int| 0 <= j < nodes.len() implies nodes[j].name != name by {
                assert(node_names(nodes)[j] == nodes[j].name);
            }
        },
    }
}

/// Finds the last of the nodes with the name `name`.
pub fn find_node(nodes: &Vec<Node>, name: &str) -> (r: Option<usize>)
    ensures
        match r {
            Some(i) => lookup(views(nodes@), name@) == Some(i as int) && i < nodes.len(),
            None => lookup(views(nodes@), name@) is None,
        },
{
    let ghost names = node_names(views(nodes@));
    let mut i: usize = nodes.len();
    assert(names.take(i as int) =~= names);
    while i > 0
        invariant
            i <= nodes.len(),
            names == node_names(views(nodes@)),
            last_index_of(names, name@) == last_index_of(names.take(i as int), name@),
        decreases i,
    {
        assert(names.take(i as int).drop_last() =~= names.take(i - 1));
        assert(names.take(i as int).last() == nodes@[i - 1].node_name@);
        if str_eq(nodes[i - 1].node_name.as_str(), name) {
            return Some(i - 1);
        }
        i = i - 1;
    }
    None
}

/// Finds the registers behind the pin `name`: of several entries for
/// that pin, the last.
pub fn find_shadow(shadows: &Vec<InoutShadow>, name: &str) -> (r: Option<usize>)
    ensures
        match r {
            Some(i) => last_index_of(pin_names(views(shadows@)), name@) == Some(i as int) && i
                < shadows.len(),
            None => last_index_of(pin_names(views(shadows@)), name@) is None,
        },
{
    let ghost names = pin_names(views(shadows@));
    let mut i: usize = shadows.len();
    assert(names.take(i as int) =~= names);
    while i > 0
        invariant
            i <= shadows.len(),
            names == pin_names(views(shadows@)),
            last_index_of(names, name@) == last_index_of(names.take(i as int), name@),
        decreases i,
    {
        assert(names.take(i as int).drop_last() =~= names.take(i - 1));
        assert(names.take(i as int).last() == shadows@[i - 1].pin_name@);
        if str_eq(shadows[i - 1].pin_name.as_str(), name) {
            return Some(i - 1);
        }
        i = i - 1;
    }
    None
}

/// Tests whether `name` is among the names seen.
pub fn was_seen(seen: &Vec<String>, name: &str) -> (r: bool)
    ensures
        r == views(seen@).contains(name@),
{
    let mut i: usize = 0;
    while i < seen.len()
        invariant
            i <= seen.len(),
            forall|j: int| 0 <= j < i ==> views(seen@)[j] != name@,
        decreases seen.len() - i,
    {
        if str_eq(seen[i].as_str(), name) {
            assert(views(seen@)[i as int] == name@);
            return true;
        }
        i = i + 1;
    }
    false
}

/// The target of the last `then` among the commands.
pub fn get_then(commands: &Vec<Command>) -> (r: Option<&str>)
    ensures
        match r {
            Some(t) => then_target(views(commands@)) == Some(t@),
            None => then_target(views(commands@)) is None,
        },
{
    let ghost all = views(commands@);
    let mut i: usize = commands.len();
    assert(all.take(i as int) =~= all);
    while i > 0
        invariant
            i <= commands.len(),
            all == views(commands@),
            then_target(all) == then_target(all.take(i as int)),
        decreases i,
    {
        assert(all.take(i as int).drop_last() =~= all.take(i - 1));
        assert(all.take(i as int).last() == commands@[i - 1]@);
        match &commands[i - 1] {
            Command::Then { next_node } => {
                return Some(next_node.as_str());
            },
            _ => {},
        }
        i = i - 1;
    }
    None
}

/// The condition of the last `check` among the commands; `0` where
/// there is none.
pub fn get_check(commands: &Vec<Command>) -> (r: &str)
    ensures
        r@ == check_of(views(commands@)),
{
    let ghost all = views(commands@);
    let mut i: usize = commands.len();
    assert(all.take(i as int) =~= all);
    while i > 0
        invariant
            i <= commands.len(),
            all == views(commands@),
            check_of(all) == check_of(all.take(i as int)),
        decreases i,
    {
        assert(all.take(i as int).drop_last() =~= all.take(i - 1));
        assert(all.take(i as int).last() == commands@[i - 1]@);
        match &commands[i - 1] {
            Command::Check { check } => {
                return check.as_str();
            },
            _ => {},
        }
        i = i - 1;
    }
    "0"
}

/// The target of the last `yes` among the commands; the empty name where
/// there is none.
pub fn get_yes(commands: &Vec<Command>) -> (r: &str)
    ensures
        r@ == yes_target(views(commands@)),
{
    let ghost all = views(commands@);
    let mut i: usize = commands.len();
    assert(all.take(i as int) =~= all);
    while i > 0
        invariant
            i <= commands.len(),
            all == views(commands@),
            yes_target(all) == yes_target(all.take(i as int)),
        decreases i,
    {
        assert(all.take(i as int).drop_last() =~= all.take(i - 1));
        assert(all.take(i as int).last() == commands@[i - 1]@);
        match &commands[i - 1] {
            Command::Yes { next_node } => {
                return next_node.as_str();
            },
            _ => {},
        }
        i = i - 1;
    }
    ""
}

/// The target of the last `no` among the commands; the empty name where
/// there is none.
pub fn get_no(commands: &Vec<Command>) -> (r: &str)
    ensures
        r@ == no_target(views(commands@)),
{
    let ghost all = views(commands@);
    let mut i: usize = commands.len();
    assert(all.take(i as int) =~= all);
    while i > 0
        invariant
            i <= commands.len(),
            all == views(commands@),
            no_target(all) == no_target(all.take(i as int)),
        decreases i,
    {
        assert(all.take(i as int).drop_last() =~= all.take(i - 1));
        assert(all.take(i as int).last() == commands@[i - 1]@);
        match &commands[i - 1] {
            Command::No { next_node } => {
                return next_node.as_str();
            },
            _ => {},
        }
        i = i - 1;
    }
    ""
}

/// Appends the assignment of one register transfer.
pub fn append_transfer(out: &mut String, reg: &str, value: &str, shadows: &Vec<InoutShadow>)
    ensures
        final(out)@ == old(out)@ + transfer_text(reg@, value@, views(shadows@)),
{
    match find_shadow(shadows, reg) {
        Some(i) => {
            out.append("\n");
            out.append(shadows[i].value_reg.as_str());
            out.append(" <= ");
            out.append(value);
            out.append(";\n");
            out.append(shadows[i].enable_reg.as_str());
            out.append(" <= 1;");
            assert(views(shadows@)[i as int] == shadows@[i as int]@);
        },
        None => {
            out.append("\n");
            out.append(reg);
            out.append(" <= ");
            out.append(value);
            out.append(";");
        },
    }
    assert(final(out)@ =~= old(out)@ + transfer_text(reg@, value@, views(shadows@)));
}

/// Writes the assignments of the register transfers among the commands.
pub fn write_transfers(code: &mut Code, commands: &Vec<Command>, shadows: &Vec<InoutShadow>)
    ensures
        final(code).code@ == old(code).code@ + transfers(views(commands@), views(shadows@)),
        final(code).hsh == old(code).hsh,
{
    let mut text = String::new();
    let ghost all = views(commands@);
    let mut i: usize = 0;
    assert(text@ =~= transfers(all.take(0), views(shadows@)));
    while i < commands.len()
        invariant
            i <= commands.len(),
            all == views(commands@),
            text@ == transfers(all.take(i as int), views(shadows@)),
        decreases commands.len() - i,
    {
        proof {
            assert(all.take(i + 1).drop_last() =~= all.take(i as int));
            assert(all.take(i + 1).last() == commands@[i as int]@);
        }
        match &commands[i] {
            Command::RegisterTransfer { reg_name, reg_value } => {
                append_transfer(&mut text, reg_name.as_str(), reg_value.as_str(), shadows);
            },
            _ => {
                assert(text@ + Seq::<char>::empty() =~= text@);
            },
        }
        i = i + 1;
    }
    proof {
        assert(all.take(commands.len() as int) =~= all);
    }
    code.update(text);
}

/// Writes the transition to the state with number `id`.
pub fn write_transition(code: &mut Code, state_reg: &str, id: u32)
    ensures
        final(code).code@ == old(code).code@ + transition_text(state_reg@, id),
        final(code).hsh == old(code).hsh,
{
    let mut text = String::from_str("\n");
    text.append(state_reg);
    text.append(" <= ");
    append_decimal(&mut text, id);
    text.append(";");
    assert(text@ =~= transition_text(state_reg@, id));
    code.update(text);
}

/// The view of an error that ended a walk, or none.
pub open spec fn failure_of(r: Result<(), CodegenError>) -> Option<CodegenErrorView> {
    match r {
        Ok(_) => None,
        Err(e) => Some(e@),
    }
}

/// Walks from the node at position `node` and writes the logic of the
/// walk into `code`. `full_compile` says that the walk starts here, at a
/// state; `seen` holds the names of the nodes entered so far and gets
/// those that the walk enters.
///
/// Where the walk fails, `code` and `seen` hold what it had written and
/// entered up to there.
pub fn compile_node(
    code: &mut Code,
    nodes: &Vec<Node>,
    node: usize,
    seen: &mut Vec<String>,
    current_state_reg: &str,
    full_compile: bool,
    inout_regs: &Vec<InoutShadow>,
) -> (r: Result<(), CodegenError>)
    requires
        node < nodes.len(),
    ensures
        ({
            let w = walk(
                views(nodes@),
                views(inout_regs@),
                current_state_reg@,
                node as int,
                views(old(seen)@),
                full_compile,
            );
            &&& failure_of(r) == w.failure
            &&& final(code).code@ == old(code).code@ + w.text
            &&& views(final(seen)@) == views(old(seen)@) + w.entered
        }),
        final(code).hsh == old(code).hsh,
    decreases unvisited(views(nodes@), views(old(seen)@)),
{
    let ghost g = views(nodes@);
    let ghost sh = views(inout_regs@);
    let ghost seen0 = views(seen@);
    let ghost text0 = code.code@;
    let current = &nodes[node];
    assert(g[node as int] == current@);
    if !full_compile && current.node_type == NodeType::State {
        write_transition(code, current_state_reg, current.id);
        assert(views(seen@) =~= seen0 + Seq::<Seq<char>>::empty());
        return Ok(());
    }
    if was_seen(seen, current.node_name.as_str()) {
        assert(code.code@ =~= text0 + Seq::<char>::empty());
        assert(views(seen@) =~= seen0 + Seq::<Seq<char>>::empty());
        return Err(CodegenError::CircularDependency);
    }
    seen.push(current.node_name.clone());
    let ghost here = seq![current@.name];
    proof {
        assert(views(seen@) =~= seen0 + here);
        lemma_visit_one(g, seen0, node as int);
    }
    if current.node_type == NodeType::Decision {
        let check = get_check(&current.commands);
        let yes_name = get_yes(&current.commands);
        let no_name = get_no(&current.commands);
        let mut head = String::from_str("\nif (");
        head.append(check);
        head.append(") begin");
        code.update(head);
        let ghost head_text = "\nif ("@ + check@ + ") begin"@;
        let yes = match find_node(nodes, yes_name) {
            Some(i) => i,
            None => {
                return Err(CodegenError::UnknownNode { name: String::from_str(yes_name) });
            },
        };
        let ghost first = walk(g, sh, current_state_reg@, yes as int, seen0 + here, false);
        let first_result = compile_node(
            code,
            nodes,
            yes,
            seen,
            current_state_reg,
            false,
            inout_regs,
        );
        proof {
            assert(code.code@ =~= text0 + (head_text + first.text));
            assert(views(seen@) =~= seen0 + (here + first.entered));
            lemma_seen_more(g, seen0 + here, first.entered);
        }
        if first_result.is_err() {
            return first_result;
        }
        code.write("\nend else begin");
        let ghost half = head_text + first.text + "\nend else begin"@;
        assert(code.code@ =~= text0 + half);
        let no = match find_node(nodes, no_name) {
            Some(i) => i,
            None => {
                return Err(CodegenError::UnknownNode { name: String::from_str(no_name) });
            },
        };
        let ghost second = walk(
            g,
            sh,
            current_state_reg@,
            no as int,
            seen0 + here + first.entered,
            false,
        );
        assert(views(seen@) =~= seen0 + here + first.entered);
        let second_result = compile_node(
            code,
            nodes,
            no,
            seen,
            current_state_reg,
            false,
            inout_regs,
        );
        proof {
            assert(views(seen@) =~= seen0 + (here + first.entered + second.entered));
        }
        if second_result.is_err() {
            assert(code.code@ =~= text0 + (half + second.text + Seq::<char>::empty()));
            return second_result;
        }
        code.write("\nend");
        assert(code.code@ =~= text0 + (half + second.text + "\nend"@));
        Ok(())
    } else {
        write_transfers(code, &current.commands, inout_regs);
        let ghost body = transfers(current@.commands, sh);
        match get_then(&current.commands) {
            None => Ok(()),
            Some(target) => {
                let next = match find_node(nodes, target) {
                    Some(i) => i,
                    None => {
                        return Err(CodegenError::UnknownNode { name: String::from_str(target) });
                    },
                };
                let ghost rest = walk(g, sh, current_state_reg@, next as int, seen0 + here, false);
                let r = compile_node(
                    code,
                    nodes,
                    next,
                    seen,
                    current_state_reg,
                    false,
                    inout_regs,
                );
                assert(code.code@ =~= text0 + (body + rest.text));
                assert(views(seen@) =~= seen0 + (here + rest.entered));
                r
            },
        }
    }
}

} // verus!
