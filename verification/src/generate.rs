//! The module as a whole: declarations, the state register, and one
//! block of logic for each state.

use crate::chart::state_count;
use crate::command::{Command, CommandView};
use crate::emit::{
    header_text, register_list, shadow_decls, shadow_list, write_header, write_registers,
    write_shadows, InoutShadow, InoutShadowView,
};
use crate::node::{views, Node, NodeType, NodeView};
use crate::number::{append_decimal, decimal};
use crate::verilog_code_gen::{Code, HSH_SEED};
use crate::walk::{
    compile_node, find_shadow, last_index_of, lemma_walk_unknown_target, lemma_walk_yes_to_itself,
    lookup, pin_names, then_target, walk, yes_target, CodegenError, CodegenErrorView,
};
use vstd::prelude::*;
use vstd::string::*;

verus! {

/// The logarithm of `n` to base two, rounded down; zero for zero.
pub open spec fn floor_log2(n: nat) -> nat
    decreases n,
{
    if n <= 1 {
        0
    } else {
        1 + floor_log2(n / 2)
    }
}

/// The name of the register that holds the number of the current state.
pub open spec fn state_reg() -> Seq<char> {
    "currentState"@
}

/// The declaration of the state register for `count` states. Its
/// highest bit has the number `floor_log2(count)`.
pub open spec fn state_register_text(count: nat) -> Seq<char> {
    "\nreg ["@ + decimal(floor_log2(count)) + ":0]"@ + state_reg() + ";"@
}

/// The block that puts the state register to zero on reset.
pub open spec fn reset_text() -> Seq<char> {
    "\nalways @(posedge reset)\n"@ + state_reg() + " = 0;\n"@
}

/// The assignments that, at each clock edge, stop driving a
/// bidirectional pin and take its value into the register behind it.
pub open spec fn shadow_reset_text(shadow: InoutShadowView) -> Seq<char> {
    "\n"@ + shadow.enable_reg + " <= 0;\n"@ + shadow.value_reg + " <= "@ + shadow.pin_name + ";"@
}

/// Those assignments for the first `n` entries of `shadows`, in order.
/// Where a pin has several entries, only its last one counts.
pub open spec fn shadow_resets(shadows: Seq<InoutShadowView>, n: int) -> Seq<char>
    decreases n,
{
    if n <= 0 || n > shadows.len() {
        Seq::empty()
    } else {
        shadow_resets(shadows, n - 1) + if last_index_of(
            pin_names(shadows),
            shadows[n - 1].pin_name,
        ) == Some(n - 1) {
            shadow_reset_text(shadows[n - 1])
        } else {
            Seq::empty()
        }
    }
}

/// The line that opens the logic of the state with number `id`.
pub open spec fn state_head(id: u32) -> Seq<char> {
    "\nif ("@ + state_reg() + " == "@ + decimal(id as nat) + ") begin"@
}

/// The logic of the state at position `i`: under the test for the
/// state's number, what the walk from it writes.
pub open spec fn state_block(nodes: Seq<NodeView>, shadows: Seq<InoutShadowView>, i: int)
    -> Result<Seq<char>, CodegenErrorView> {
    let w = walk(nodes, shadows, state_reg(), i, Seq::empty(), true);
    match w.failure {
        Some(e) => Err(e),
        None => Ok(state_head(nodes[i].id) + w.text + "\nend else"@),
    }
}

/// The logic of the states among the first `n` nodes, in order. The
/// first walk that fails gives its error for the whole.
pub open spec fn state_blocks(nodes: Seq<NodeView>, shadows: Seq<InoutShadowView>, n: int)
    -> Result<Seq<char>, CodegenErrorView>
    decreases n,
{
    if n <= 0 || n > nodes.len() {
        Ok(Seq::empty())
    } else {
        match state_blocks(nodes, shadows, n - 1) {
            Err(e) => Err(e),
            Ok(before) => if nodes[n - 1].node_type == NodeType::State {
                match state_block(nodes, shadows, n - 1) {
                    Err(e) => Err(e),
                    Ok(block) => Ok(before + block),
                }
            } else {
                Ok(before)
            },
        }
    }
}

/// The end of the module: the branch for a state register that holds no
/// state's number, and the closing lines.
pub open spec fn tail_text() -> Seq<char> {
    " begin\n"@ + state_reg() + " = 0;\nend\nend\nendmodule"@
}

/// The module named `module` for the commands and nodes of a chart, or
/// the error of the first walk that fails.
pub open spec fn module_text(
    module: Seq<char>,
    commands: Seq<CommandView>,
    nodes: Seq<NodeView>,
) -> Result<Seq<char>, CodegenErrorView> {
    let shadows = shadow_list(commands, HSH_SEED);
    match state_blocks(nodes, shadows, nodes.len() as int) {
        Err(e) => Err(e),
        Ok(blocks) => Ok(
            header_text(module, commands) + register_list(commands) + state_register_text(
                state_count(nodes),
            ) + shadow_decls(commands, HSH_SEED) + reset_text() + "\nalways @(posedge clk) begin"@
                + shadow_resets(shadows, shadows.len() as int) + blocks + tail_text(),
        ),
    }
}

/// The first state whose walk fails decides: generation fails with the
/// error of that walk.
pub proof fn lemma_first_failure(
    module: Seq<char>,
    commands: Seq<CommandView>,
    nodes: Seq<NodeView>,
    i: int,
)
    requires
        0 <= i < nodes.len(),
        nodes[i].node_type == NodeType::State,
        walk(nodes, shadow_list(commands, HSH_SEED), state_reg(), i, Seq::empty(), true).failure
            is Some,
        states_before_succeed(commands, nodes, i),
    ensures
        module_text(module, commands, nodes) == Err::<Seq<char>, CodegenErrorView>(
            walk(
                nodes,
                shadow_list(commands, HSH_SEED),
                state_reg(),
                i,
                Seq::empty(),
                true,
            ).failure->0,
        ),
{
    let shadows = shadow_list(commands, HSH_SEED);
    lemma_state_blocks_ok(nodes, shadows, i);
    lemma_state_blocks_error(nodes, shadows, i + 1, nodes.len() as int);
}

/// Whether the walks of the states before position `i` all succeed.
pub open spec fn states_before_succeed(
    commands: Seq<CommandView>,
    nodes: Seq<NodeView>,
    i: int,
) -> bool {
    forall|j: int|
        0 <= j < i && nodes[j].node_type == NodeType::State ==> (#[trigger] walk(
            nodes,
            shadow_list(commands, HSH_SEED),
            state_reg(),
            j,
            Seq::empty(),
            true,
        )).failure is None
}

/// A state that leads to a decision whose `yes` leads back to that
/// decision makes generation fail with `CircularDependency`, where no
/// state before it fails.
pub proof fn lemma_decision_loop_fails(
    module: Seq<char>,
    commands: Seq<CommandView>,
    nodes: Seq<NodeView>,
    i: int,
    d: int,
)
    requires
        0 <= i < nodes.len(),
        0 <= d < nodes.len(),
        nodes[i].node_type == NodeType::State,
        nodes[d].node_type == NodeType::Decision,
        then_target(nodes[i].commands) matches Some(target) && lookup(nodes, target) == Some(d),
        lookup(nodes, yes_target(nodes[d].commands)) == Some(d),
        states_before_succeed(commands, nodes, i),
    ensures
        module_text(module, commands, nodes) == Err::<Seq<char>, CodegenErrorView>(
            CodegenErrorView::CircularDependency,
        ),
{
    let shadows = shadow_list(commands, HSH_SEED);
    let entered = Seq::<Seq<char>>::empty() + seq![nodes[i].name];
    lemma_walk_yes_to_itself(nodes, shadows, state_reg(), d, entered, false);
    lemma_first_failure(module, commands, nodes, i);
}

/// A state whose `then` names a node that the chart does not hold makes
/// generation fail with `UnknownNode` and that name, where no state
/// before it fails.
pub proof fn lemma_unknown_then_fails(
    module: Seq<char>,
    commands: Seq<CommandView>,
    nodes: Seq<NodeView>,
    i: int,
    target: Seq<char>,
)
    requires
        0 <= i < nodes.len(),
        nodes[i].node_type == NodeType::State,
        then_target(nodes[i].commands) == Some(target),
        lookup(nodes, target) is None,
        states_before_succeed(commands, nodes, i),
    ensures
        module_text(module, commands, nodes) == Err::<Seq<char>, CodegenErrorView>(
            CodegenErrorView::UnknownNode { name: target },
        ),
{
    let shadows = shadow_list(commands, HSH_SEED);
    lemma_walk_unknown_target(nodes, shadows, state_reg(), i, Seq::empty(), true, target);
    lemma_first_failure(module, commands, nodes, i);
}

/// Where the walks of the states among the first `n` nodes all
/// succeed, so does their logic.
pub proof fn lemma_state_blocks_ok(nodes: Seq<NodeView>, shadows: Seq<InoutShadowView>, n: int)
    requires
        0 <= n <= nodes.len(),
        forall|j: int|
            0 <= j < n && nodes[j].node_type == NodeType::State ==> (#[trigger] walk(
                nodes,
                shadows,
                state_reg(),
                j,
                Seq::empty(),
                true,
            )).failure is None,
    ensures
        state_blocks(nodes, shadows, n) is Ok,
    decreases n,
{
    if n > 0 {
        lemma_state_blocks_ok(nodes, shadows, n - 1);
        if nodes[n - 1].node_type == NodeType::State {
            assert(walk(nodes, shadows, state_reg(), n - 1, Seq::empty(), true).failure is None);
        }
    }
}

/// Generation succeeds exactly where the walk of every state succeeds.
pub proof fn lemma_module_text_ok(
    module: Seq<char>,
    commands: Seq<CommandView>,
    nodes: Seq<NodeView>,
)
    ensures
        module_text(module, commands, nodes) is Ok <==> states_before_succeed(
            commands,
            nodes,
            nodes.len() as int,
        ),
{
    let shadows = shadow_list(commands, HSH_SEED);
    if forall|j: int|
        0 <= j < nodes.len() && nodes[j].node_type == NodeType::State ==> (#[trigger] walk(
            nodes,
            shadows,
            state_reg(),
            j,
            Seq::empty(),
            true,
        )).failure is None {
        lemma_state_blocks_ok(nodes, shadows, nodes.len() as int);
    } else {
        let j = choose|j: int|
            0 <= j < nodes.len() && nodes[j].node_type == NodeType::State && (#[trigger] walk(
                nodes,
                shadows,
                state_reg(),
                j,
                Seq::empty(),
                true,
            )).failure is Some;
        assert(state_blocks(nodes, shadows, j + 1) is Err) by {
            if state_blocks(nodes, shadows, j) is Ok {
                assert(state_block(nodes, shadows, j) is Err);
            }
        }
        lemma_state_blocks_error(nodes, shadows, j + 1, nodes.len() as int);
    }
}

/// The logarithm of a positive number below two to the `b` is below
/// `b`.
pub proof fn lemma_floor_log2_bound(n: nat, b: nat)
    requires
        0 < n < vstd::arithmetic::power2::pow2(b),
    ensures
        floor_log2(n) < b,
    decreases n,
{
    vstd::arithmetic::power2::lemma2_to64();
    if b == 0 {
        assert(false);
    } else if n > 1 {
        vstd::arithmetic::power2::lemma_pow2_unfold(b);
        lemma_floor_log2_bound(n / 2, (b - 1) as nat);
    }
}

/// Computes the logarithm to base two, rounded down.
pub fn ilog2(n: usize) -> (r: u32)
    requires
        n > 0,
    ensures
        r == floor_log2(n as nat),
        r < 64,
{
    proof {
        vstd::arithmetic::power2::lemma2_to64();
        lemma_floor_log2_bound(n as nat, 64);
    }
    let mut m: usize = n;
    let mut r: u32 = 0;
    while m > 1
        invariant
            m > 0,
            floor_log2(n as nat) == r + floor_log2(m as nat),
            floor_log2(n as nat) < 64,
        decreases m,
    {
        m = m / 2;
        r = r + 1;
    }
    r
}

/// Counts the nodes of type `State`.
pub fn count_states(nodes: &Vec<Node>) -> (r: usize)
    ensures
        r == state_count(views(nodes@)),
{
    let ghost all = views(nodes@);
    let mut count: usize = 0;
    let mut i: usize = 0;
    assert(all.take(0) =~= Seq::<NodeView>::empty());
    while i < nodes.len()
        invariant
            i <= nodes.len(),
            all == views(nodes@),
            count == state_count(all.take(i as int)),
            count <= i,
        decreases nodes.len() - i,
    {
        proof {
            assert(all.take(i + 1).drop_last() =~= all.take(i as int));
            assert(all.take(i + 1).last() == nodes@[i as int]@);
        }
        if nodes[i].node_type == NodeType::State {
            count = count + 1;
        }
        i = i + 1;
    }
    proof {
        assert(all.take(nodes.len() as int) =~= all);
    }
    count
}

/// Writes the declaration of the state register for `count` states.
pub fn write_state_register(code: &mut Code, count: usize)
    requires
        count > 0,
    ensures
        final(code).code@ == old(code).code@ + state_register_text(count as nat),
        final(code).hsh == old(code).hsh,
{
    let mut text = String::from_str("\nreg [");
    append_decimal(&mut text, ilog2(count));
    text.append(":0]");
    text.append("currentState");
    text.append(";");
    assert(text@ =~= state_register_text(count as nat));
    code.update(text);
}

/// Writes, for each bidirectional pin, the assignments that stop
/// driving it and take its value.
pub fn write_shadow_resets(code: &mut Code, shadows: &Vec<InoutShadow>)
    ensures
        final(code).code@ == old(code).code@ + shadow_resets(
            views(shadows@),
            shadows.len() as int,
        ),
        final(code).hsh == old(code).hsh,
{
    let mut text = String::new();
    let ghost all = views(shadows@);
    let mut i: usize = 0;
    while i < shadows.len()
        invariant
            i <= shadows.len(),
            all == views(shadows@),
            text@ == shadow_resets(all, i as int),
        decreases shadows.len() - i,
    {
        let shadow = &shadows[i];
        assert(all[i as int] == shadow@);
        let ghost before = text@;
        match find_shadow(shadows, shadow.pin_name.as_str()) {
            Some(j) => {
                if j == i {
                    text.append("\n");
                    text.append(shadow.enable_reg.as_str());
                    text.append(" <= 0;\n");
                    text.append(shadow.value_reg.as_str());
                    text.append(" <= ");
                    text.append(shadow.pin_name.as_str());
                    text.append(";");
                    assert(text@ =~= before + shadow_reset_text(shadow@));
                } else {
                    assert(text@ =~= before + Seq::<char>::empty());
                }
            },
            None => {
                assert(text@ =~= before + Seq::<char>::empty());
            },
        }
        i = i + 1;
    }
    code.update(text);
}

/// Writes the logic of each state, in the order of the nodes, up to
/// the first walk that fails.
fn write_state_blocks(code: &mut Code, nodes: &Vec<Node>, shadows: &Vec<InoutShadow>) -> (r:
    Result<(), CodegenError>)
    ensures
        match r {
            Ok(_) => state_blocks(views(nodes@), views(shadows@), nodes.len() as int) matches Ok(
                blocks,
            ) && final(code).code@ == old(code).code@ + blocks,
            Err(e) => state_blocks(views(nodes@), views(shadows@), nodes.len() as int) == Err::<
                Seq<char>,
                CodegenErrorView,
            >(e@),
        },
        final(code).hsh == old(code).hsh,
{
    let ghost g = views(nodes@);
    let ghost sh = views(shadows@);
    let mut i: usize = 0;
    assert(code.code@ =~= old(code).code@ + Seq::<char>::empty());
    while i < nodes.len()
        invariant
            i <= nodes.len(),
            g == views(nodes@),
            sh == views(shadows@),
            state_blocks(g, sh, i as int) matches Ok(blocks) && code.code@ == old(code).code@
                + blocks,
            code.hsh == old(code).hsh,
        decreases nodes.len() - i,
    {
        let ghost before = state_blocks(g, sh, i as int)->Ok_0;
        assert(g[i as int] == nodes@[i as int]@);
        if nodes[i].node_type == NodeType::State {
            let mut head = String::from_str("\nif (");
            head.append("currentState");
            head.append(" == ");
            append_decimal(&mut head, nodes[i].id);
            head.append(") begin");
            assert(head@ =~= state_head(nodes@[i as int].id));
            code.update(head);
            let mut seen: Vec<String> = Vec::new();
            assert(views(seen@) =~= Seq::<Seq<char>>::empty());
            match compile_node(code, nodes, i, &mut seen, "currentState", true, shadows) {
                Err(e) => {
                    assert(state_blocks(g, sh, i + 1) == Err::<Seq<char>, CodegenErrorView>(e@));
                    proof {
                        lemma_state_blocks_error(g, sh, i + 1, nodes.len() as int);
                    }
                    return Err(e);
                },
                Ok(_) => {},
            }
            code.write("\nend else");
            proof {
                let w = walk(g, sh, state_reg(), i as int, Seq::empty(), true);
                assert(code.code@ =~= old(code).code@ + (before + (state_head(g[i as int].id)
                    + w.text + "\nend else"@)));
            }
        }
        i = i + 1;
    }
    Ok(())
}

/// An error among the first `n` nodes is the error of any longer run.
pub proof fn lemma_state_blocks_error(
    nodes: Seq<NodeView>,
    shadows: Seq<InoutShadowView>,
    n: int,
    m: int,
)
    requires
        0 <= n <= m <= nodes.len(),
        state_blocks(nodes, shadows, n) is Err,
    ensures
        state_blocks(nodes, shadows, m) == state_blocks(nodes, shadows, n),
    decreases m - n,
{
    if n < m {
        lemma_state_blocks_error(nodes, shadows, n, m - 1);
    }
}

/// Generates the module named `module_name` for the commands outside
/// the blocks and the nodes of a chart.
pub fn generate(commands: &Vec<Command>, nodes: &Vec<Node>, module_name: &str) -> (r: Result<
    String,
    CodegenError,
>)
    requires
        state_count(views(nodes@)) > 0,
    ensures
        match r {
            Ok(text) => module_text(module_name@, views(commands@), views(nodes@)) == Ok::<
                Seq<char>,
                CodegenErrorView,
            >(text@),
            Err(e) => module_text(module_name@, views(commands@), views(nodes@)) == Err::<
                Seq<char>,
                CodegenErrorView,
            >(e@),
        },
{
    let mut code = Code::new();
    write_header(&mut code, module_name, commands);
    write_registers(&mut code, commands);
    write_state_register(&mut code, count_states(nodes));
    let shadows = write_shadows(&mut code, commands);
    code.write("\nalways @(posedge reset)\n");
    code.write("currentState");
    code.write(" = 0;\n");
    code.write("\nalways @(posedge clk) begin");
    write_shadow_resets(&mut code, &shadows);
    let ghost before = code.code@;
    match write_state_blocks(&mut code, nodes, &shadows) {
        Err(e) => {
            return Err(e);
        },
        Ok(_) => {},
    }
    code.write(" begin\n");
    code.write("currentState");
    code.write(" = 0;\nend\nend\nendmodule");
    proof {
        let c = views(commands@);
        let g = views(nodes@);
        let sh = shadow_list(c, HSH_SEED);
        let blocks = state_blocks(g, sh, g.len() as int)->Ok_0;
        assert(before =~= header_text(module_name@, c) + register_list(c) + state_register_text(
            state_count(g),
        ) + shadow_decls(c, HSH_SEED) + reset_text() + "\nalways @(posedge clk) begin"@
            + shadow_resets(sh, sh.len() as int));
        assert(code.code@ =~= before + blocks + tail_text());
    }
    Ok(code.code)
}

} // verus!
