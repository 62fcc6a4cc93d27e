//! Charts: the blocks of a description, the commands around them, and
//! the numbering of the states.

use crate::command::{Command, CommandView, UnableToParseError};
use crate::node::{
    no_empty, parse_clauses, parse_node, read_clauses, views, Node, NodeType, NodeView,
    lemma_parse_clauses_no_empty,
};
use crate::text::{
    has_word_at, lemma_run_end, run_end, scan_run, to_chars, word_at, CharClass,
};
use crate::unicode::is_word;
use vstd::prelude::*;
use vstd::string::*;

verus! {

/// A description as read: the commands outside the blocks and the nodes
/// of the blocks, both in the order of the text.
#[derive(Debug)]
pub struct Chart {
    pub commands: Vec<Command>,
    pub nodes: Vec<Node>,
}

/// The mathematical value of a [`Chart`].
pub struct ChartView {
    pub commands: Seq<CommandView>,
    pub nodes: Seq<NodeView>,
}

impl View for Chart {
    type V = ChartView;

    open spec fn view(&self) -> ChartView {
        ChartView { commands: views(self.commands@), nodes: views(self.nodes@) }
    }
}

/// Where a block stands in a text: the dot at `start`, the name up to
/// `name_end`, the type's word from `tag` to `tag_end`, the braces at
/// `open` and `close`.
pub struct Block {
    pub start: int,
    pub name_end: int,
    pub node_type: NodeType,
    pub tag: int,
    pub tag_end: int,
    pub open: int,
    pub close: int,
}

/// The type whose word stands in `s` at position `i`.
pub open spec fn tag_at(s: Seq<char>, i: int) -> Option<NodeType> {
    if word_at(s, i, NodeType::State.text()) {
        Some(NodeType::State)
    } else if word_at(s, i, NodeType::Decision.text()) {
        Some(NodeType::Decision)
    } else if word_at(s, i, NodeType::Conditional.text()) {
        Some(NodeType::Conditional)
    } else {
        None
    }
}

/// The block that starts at position `q` of `s`: a dot, an identifier of
/// at least one character, spaces, a colon, spaces, the word of a type,
/// spaces, an opening brace, and then everything up to the next closing
/// brace, which must exist.
pub open spec fn block_at(s: Seq<char>, q: int) -> Option<Block> {
    let name_end = run_end(s, q + 1, CharClass::Word);
    let colon = run_end(s, name_end, CharClass::Space);
    let tag = run_end(s, colon + 1, CharClass::Space);
    match tag_at(s, tag) {
        None => None,
        Some(node_type) => {
            let tag_end = tag + node_type.text().len();
            let open = run_end(s, tag_end, CharClass::Space);
            let close = run_end(s, open + 1, CharClass::Except('}'));
            if 0 <= q < s.len() && s[q] == '.' && q + 1 < name_end && colon < s.len() && s[colon]
                == ':' && open < s.len() && s[open] == '{' && close < s.len() {
                Some(Block { start: q, name_end, node_type, tag, tag_end, open, close })
            } else {
                None
            }
        },
    }
}

/// The first block of `s` that starts at or after position `p`.
pub open spec fn next_block(s: Seq<char>, p: int) -> Option<Block>
    decreases s.len() - p,
{
    if p < 0 || p >= s.len() {
        None
    } else {
        match block_at(s, p) {
            Some(b) => Some(b),
            None => next_block(s, p + 1),
        }
    }
}

/// A block lies where it was looked for, its parts in order.
pub proof fn lemma_block_at(s: Seq<char>, q: int)
    ensures
        block_at(s, q) matches Some(b) ==> b.start == q && 0 <= q < b.name_end <= b.tag < b.tag_end
            <= b.open < b.close < s.len() && s[b.close] == '}',
{
    if 0 <= q < s.len() {
        lemma_run_end(s, q + 1, CharClass::Word);
        let name_end = run_end(s, q + 1, CharClass::Word);
        lemma_run_end(s, name_end, CharClass::Space);
        let colon = run_end(s, name_end, CharClass::Space);
        if colon < s.len() {
            lemma_run_end(s, colon + 1, CharClass::Space);
            let tag = run_end(s, colon + 1, CharClass::Space);
            if let Some(node_type) = tag_at(s, tag) {
                let tag_end = tag + node_type.text().len();
                reveal_strlit("state");
                reveal_strlit("decision");
                reveal_strlit("conditional");
                lemma_run_end(s, tag_end, CharClass::Space);
                let open = run_end(s, tag_end, CharClass::Space);
                if open < s.len() {
                    lemma_run_end(s, open + 1, CharClass::Except('}'));
                }
            }
        }
    }
}

/// The block that `next_block` finds starts at or after the position
/// given.
pub proof fn lemma_next_block(s: Seq<char>, p: int)
    ensures
        next_block(s, p) matches Some(b) ==> p <= b.start && block_at(s, b.start) == Some(b),
    decreases s.len() - p,
{
    if 0 <= p < s.len() {
        lemma_block_at(s, p);
        if block_at(s, p) is None {
            lemma_next_block(s, p + 1);
        }
    }
}

/// The commands and the nodes of `s` from position `p` on, the nodes not
/// yet numbered.
///
/// The text up to the next block holds clauses; then comes the node of
/// the block; then what follows its closing brace, in the same way. The
/// first clause or node that cannot be read gives its error for the
/// whole.
pub open spec fn chart_from(s: Seq<char>, p: int) -> Result<ChartView, UnableToParseError>
    decreases s.len() - p,
{
    if p < 0 || p > s.len() {
        Ok(ChartView { commands: Seq::empty(), nodes: Seq::empty() })
    } else {
        match next_block(s, p) {
            None => match parse_clauses(s.subrange(p, s.len() as int), 0) {
                Err(e) => Err(e),
                Ok(commands) => Ok(ChartView { commands, nodes: Seq::empty() }),
            },
            Some(b) => {
                proof {
                    lemma_next_block(s, p);
                    lemma_block_at(s, b.start);
                }
                match parse_clauses(s.subrange(p, b.start), 0) {
                    Err(e) => Err(e),
                    Ok(commands) => match parse_node(
                        s.subrange(b.start, b.name_end),
                        s.subrange(b.tag, b.tag_end),
                        s.subrange(b.open + 1, b.close),
                    ) {
                        Err(e) => Err(e),
                        Ok(node) => match chart_from(s, b.close + 1) {
                            Err(e) => Err(e),
                            Ok(rest) => Ok(
                                ChartView {
                                    commands: commands + rest.commands,
                                    nodes: seq![node] + rest.nodes,
                                },
                            ),
                        },
                    },
                }
            },
        }
    }
}

/// The number of nodes of type `State` among `nodes`.
pub open spec fn state_count(nodes: Seq<NodeView>) -> nat
    decreases nodes.len(),
{
    if nodes.len() == 0 {
        0
    } else {
        state_count(nodes.drop_last()) + if nodes.last().node_type == NodeType::State {
            1nat
        } else {
            0nat
        }
    }
}

/// The nodes with the states numbered from zero in the order in which
/// they stand: a state's `id` is the number of states before it. The
/// other nodes are left as they are.
pub open spec fn numbered(nodes: Seq<NodeView>) -> Seq<NodeView> {
    Seq::new(
        nodes.len(),
        |i: int|
            if nodes[i].node_type == NodeType::State {
                NodeView { id: state_count(nodes.take(i)) as u32, ..nodes[i] }
            } else {
                nodes[i]
            },
    )
}

/// The chart that the text `s` describes.
pub open spec fn parse_chart(s: Seq<char>) -> Result<ChartView, UnableToParseError> {
    match chart_from(s, 0) {
        Err(e) => Err(e),
        Ok(c) => Ok(ChartView { commands: c.commands, nodes: numbered(c.nodes) }),
    }
}

/// There are no more states than nodes.
pub proof fn lemma_state_count_bound(nodes: Seq<NodeView>)
    ensures
        state_count(nodes) <= nodes.len(),
    decreases nodes.len(),
{
    if nodes.len() > 0 {
        lemma_state_count_bound(nodes.drop_last());
    }
}

/// The nodes of type `State` among `nodes`, in order.
pub open spec fn states_of(nodes: Seq<NodeView>) -> Seq<NodeView>
    decreases nodes.len(),
{
    if nodes.len() == 0 {
        Seq::empty()
    } else {
        states_of(nodes.drop_last()) + if nodes.last().node_type == NodeType::State {
            seq![nodes.last()]
        } else {
            Seq::empty()
        }
    }
}

/// `states_of` keeps states only, and as many as `state_count` counts.
pub proof fn lemma_states_of(nodes: Seq<NodeView>)
    ensures
        states_of(nodes).len() == state_count(nodes),
        forall|k: int|
            0 <= k < states_of(nodes).len() ==> (#[trigger] states_of(nodes)[k]).node_type
                == NodeType::State,
        state_count(states_of(nodes)) == state_count(nodes),
    decreases nodes.len(),
{
    if nodes.len() > 0 {
        lemma_states_of(nodes.drop_last());
        let before = states_of(nodes.drop_last());
        if nodes.last().node_type == NodeType::State {
            assert(states_of(nodes).drop_last() =~= before);
        } else {
            assert(states_of(nodes) =~= before);
        }
    }
}

/// Numbering a longer list numbers its first nodes as it numbers them
/// alone.
pub proof fn lemma_numbered_prefix(nodes: Seq<NodeView>)
    requires
        nodes.len() > 0,
    ensures
        numbered(nodes).drop_last() == numbered(nodes.drop_last()),
{
    let shorter = nodes.drop_last();
    assert forall|i: int| 0 <= i < shorter.len() implies numbered(nodes)[i] == numbered(
        shorter,
    )[i] by {
        assert(nodes.take(i) =~= shorter.take(i));
    }
    assert(numbered(nodes).drop_last() =~= numbered(shorter));
}

/// The numbers of the states depend on the order of the states alone:
/// taking the other nodes away before numbering, or after it, gives the
/// same states with the same numbers.
pub proof fn lemma_numbering_ignores_other_nodes(nodes: Seq<NodeView>)
    ensures
        states_of(numbered(nodes)) == numbered(states_of(nodes)),
    decreases nodes.len(),
{
    if nodes.len() == 0 {
        assert(states_of(numbered(nodes)) =~= numbered(states_of(nodes)));
    } else {
        let shorter = nodes.drop_last();
        lemma_numbering_ignores_other_nodes(shorter);
        lemma_numbered_prefix(nodes);
        lemma_states_of(shorter);
        let last = nodes.last();
        assert(nodes.take(nodes.len() - 1) =~= shorter);
        assert(numbered(nodes).last().node_type == last.node_type);
        if last.node_type == NodeType::State {
            let states = states_of(nodes);
            assert(states.drop_last() =~= states_of(shorter));
            lemma_numbered_prefix(states);
            assert(states.take(states.len() - 1) =~= states_of(shorter));
            assert(numbered(states).last() == numbered(nodes).last());
            assert(numbered(states) =~= numbered(states).drop_last().push(
                numbered(states).last(),
            ));
            assert(states_of(numbered(nodes)) =~= numbered(states));
        } else {
            assert(states_of(nodes) =~= states_of(shorter));
            assert(states_of(numbered(nodes)) =~= states_of(numbered(shorter)));
        }
    }
}

/// The states are numbered from zero, one by one, in the order in which
/// they stand.
pub proof fn lemma_states_numbered_in_order(nodes: Seq<NodeView>, k: int)
    requires
        0 <= k < state_count(nodes),
        nodes.len() <= u32::MAX,
    ensures
        states_of(numbered(nodes)).len() == state_count(nodes),
        states_of(numbered(nodes))[k].id == k,
{
    lemma_numbering_ignores_other_nodes(nodes);
    lemma_states_of(nodes);
    lemma_state_count_bound(nodes);
    let states = states_of(nodes);
    lemma_all_states_count(states.take(k));
}

/// Where every node is a state, there are as many states as nodes.
proof fn lemma_all_states_count(nodes: Seq<NodeView>)
    requires
        forall|k: int| 0 <= k < nodes.len() ==> (#[trigger] nodes[k]).node_type == NodeType::State,
    ensures
        state_count(nodes) == nodes.len(),
    decreases nodes.len(),
{
    if nodes.len() > 0 {
        lemma_all_states_count(nodes.drop_last());
    }
}

/// A block as positions in the text that was read.
pub struct BlockSpan {
    pub start: usize,
    pub name_end: usize,
    pub node_type: NodeType,
    pub tag: usize,
    pub tag_end: usize,
    pub open: usize,
    pub close: usize,
}

impl View for BlockSpan {
    type V = Block;

    open spec fn view(&self) -> Block {
        Block {
            start: self.start as int,
            name_end: self.name_end as int,
            node_type: self.node_type,
            tag: self.tag as int,
            tag_end: self.tag_end as int,
            open: self.open as int,
            close: self.close as int,
        }
    }
}

/// Reads the word of a node type at position `i`.
pub fn read_tag(s: &Vec<char>, i: usize) -> (r: Option<NodeType>)
    requires
        i <= s.len(),
    ensures
        r == tag_at(s@, i as int),
{
    if has_word_at(s, i, NodeType::State.as_str()) {
        Some(NodeType::State)
    } else if has_word_at(s, i, NodeType::Decision.as_str()) {
        Some(NodeType::Decision)
    } else if has_word_at(s, i, NodeType::Conditional.as_str()) {
        Some(NodeType::Conditional)
    } else {
        None
    }
}

/// Reads the block that starts at position `q`.
pub fn read_block(s: &Vec<char>, q: usize) -> (r: Option<BlockSpan>)
    requires
        q < s.len(),
    ensures
        match r {
            Some(b) => block_at(s@, q as int) == Some(b@),
            None => block_at(s@, q as int) is None,
        },
{
    let n = s.len();
    if s[q] != '.' {
        return None;
    }
    let name_end = scan_run(s, q + 1, CharClass::Word);
    if name_end == q + 1 {
        return None;
    }
    let colon = scan_run(s, name_end, CharClass::Space);
    if colon >= n || s[colon] != ':' {
        return None;
    }
    let tag = scan_run(s, colon + 1, CharClass::Space);
    let node_type = match read_tag(s, tag) {
        Some(t) => t,
        None => {
            return None;
        },
    };
    let tag_end = tag + node_type.as_str().unicode_len();
    let open = scan_run(s, tag_end, CharClass::Space);
    if open >= n || s[open] != '{' {
        return None;
    }
    let close = scan_run(s, open + 1, CharClass::Except('}'));
    if close >= n {
        return None;
    }
    Some(BlockSpan { start: q, name_end, node_type, tag, tag_end, open, close })
}

/// Finds the first block that starts at or after position `p`.
pub fn find_block(s: &Vec<char>, p: usize) -> (r: Option<BlockSpan>)
    requires
        p <= s.len(),
    ensures
        match r {
            Some(b) => next_block(s@, p as int) == Some(b@),
            None => next_block(s@, p as int) is None,
        },
{
    let mut q: usize = p;
    while q < s.len()
        invariant
            p <= q <= s.len(),
            next_block(s@, p as int) == next_block(s@, q as int),
        decreases s.len() - q,
    {
        match read_block(s, q) {
            Some(b) => {
                return Some(b);
            },
            None => {},
        }
        q = q + 1;
    }
    None
}

/// Numbers the states from zero in the order in which they stand.
pub fn number_states(nodes: &mut Vec<Node>)
    requires
        old(nodes).len() <= u32::MAX,
    ensures
        views(final(nodes)@) == numbered(views(old(nodes)@)),
{
    let n = nodes.len();
    let mut count: u32 = 0;
    let mut i: usize = 0;
    while i < n
        invariant
            n == nodes.len(),
            n == old(nodes).len(),
            n <= u32::MAX,
            i <= n,
            count == state_count(views(old(nodes)@).take(i as int)),
            count <= i,
            forall|j: int|
                0 <= j < i ==> (#[trigger] nodes@[j])@ == numbered(views(old(nodes)@))[j],
            forall|j: int| i <= j < n ==> #[trigger] nodes@[j] == old(nodes)@[j],
        decreases n - i,
    {
        let ghost before = views(old(nodes)@);
        proof {
            assert(before.take(i + 1).drop_last() =~= before.take(i as int));
            assert(before.take(i + 1).last() == before[i as int]);
        }
        if nodes[i].node_type == NodeType::State {
            nodes[i].id = count;
            count = count + 1;
        }
        i = i + 1;
    }
    assert(views(nodes@) =~= numbered(views(old(nodes)@)));
}

/// The chart of `r` after the commands and nodes already read, or the
/// error of `r`.
spec fn chart_after(
    commands: Seq<CommandView>,
    nodes: Seq<NodeView>,
    r: Result<ChartView, UnableToParseError>,
) -> Result<ChartView, UnableToParseError> {
    match r {
        Ok(rest) => Ok(ChartView { commands: commands + rest.commands, nodes: nodes + rest.nodes }),
        Err(e) => Err(e),
    }
}

/// Whether `name` is a dot followed by at least one letter, digit or
/// underscore, and by nothing else.
pub open spec fn is_node_name(name: Seq<char>) -> bool {
    &&& name.len() >= 2
    &&& name[0] == '.'
    &&& forall|i: int| 1 <= i < name.len() ==> is_word(#[trigger] name[i])
}

/// Whether every node of the chart has a name of that form.
pub open spec fn chart_named(c: ChartView) -> bool {
    forall|i: int| 0 <= i < c.nodes.len() ==> is_node_name(#[trigger] c.nodes[i].name)
}

/// The name of a block is a dot and an identifier.
pub proof fn lemma_block_name(s: Seq<char>, q: int)
    ensures
        block_at(s, q) matches Some(b) ==> is_node_name(s.subrange(b.start, b.name_end)),
{
    if let Some(b) = block_at(s, q) {
        lemma_block_at(s, q);
        lemma_run_end(s, q + 1, CharClass::Word);
        let name = s.subrange(b.start, b.name_end);
        assert forall|i: int| 1 <= i < name.len() implies is_word(#[trigger] name[i]) by {
            assert(CharClass::Word.contains(s[q + i]));
        }
    }
}

/// Every node read from a text keeps the name of its block, dot
/// included.
pub proof fn lemma_chart_from_named(s: Seq<char>, p: int)
    ensures
        chart_from(s, p) matches Ok(c) ==> chart_named(c),
    decreases s.len() - p,
{
    if 0 <= p <= s.len() {
        if let Some(b) = next_block(s, p) {
            lemma_next_block(s, p);
            lemma_block_at(s, b.start);
            lemma_block_name(s, b.start);
            lemma_chart_from_named(s, b.close + 1);
            if let Ok(c) = chart_from(s, p) {
                let rest = chart_from(s, b.close + 1)->Ok_0;
                assert forall|i: int| 0 <= i < c.nodes.len() implies is_node_name(
                    #[trigger] c.nodes[i].name,
                ) by {
                    if i > 0 {
                        assert(c.nodes[i] == rest.nodes[i - 1]);
                    }
                }
            }
        }
    }
}

/// Numbering changes no name.
pub proof fn lemma_parse_chart_named(s: Seq<char>)
    ensures
        parse_chart(s) matches Ok(c) ==> chart_named(c),
{
    lemma_chart_from_named(s, 0);
    if let Ok(c) = chart_from(s, 0) {
        assert forall|i: int| 0 <= i < c.nodes.len() implies is_node_name(
            #[trigger] numbered(c.nodes)[i].name,
        ) by {
            assert(numbered(c.nodes)[i].name == c.nodes[i].name);
        }
    }
}

/// Whether no list of commands of the chart holds `Empty`.
pub open spec fn chart_no_empty(c: ChartView) -> bool {
    &&& no_empty(c.commands)
    &&& forall|i: int| 0 <= i < c.nodes.len() ==> no_empty(#[trigger] c.nodes[i].commands)
}

/// Blank clauses leave no trace in a chart, neither outside the blocks
/// nor in a node.
pub proof fn lemma_chart_from_no_empty(s: Seq<char>, p: int)
    ensures
        chart_from(s, p) matches Ok(c) ==> chart_no_empty(c),
    decreases s.len() - p,
{
    if 0 <= p <= s.len() {
        match next_block(s, p) {
            None => {
                lemma_parse_clauses_no_empty(s.subrange(p, s.len() as int), 0);
            },
            Some(b) => {
                lemma_next_block(s, p);
                lemma_block_at(s, b.start);
                lemma_parse_clauses_no_empty(s.subrange(p, b.start), 0);
                lemma_parse_clauses_no_empty(s.subrange(b.open + 1, b.close), 0);
                lemma_chart_from_no_empty(s, b.close + 1);
                if chart_from(s, p) is Ok {
                    let commands = parse_clauses(s.subrange(p, b.start), 0)->Ok_0;
                    let node = parse_node(
                        s.subrange(b.start, b.name_end),
                        s.subrange(b.tag, b.tag_end),
                        s.subrange(b.open + 1, b.close),
                    )->Ok_0;
                    let rest = chart_from(s, b.close + 1)->Ok_0;
                    let c = chart_from(s, p)->Ok_0;
                    assert(c.nodes == seq![node] + rest.nodes);
                    assert forall|i: int| 0 <= i < c.nodes.len() implies no_empty(
                        #[trigger] c.nodes[i].commands,
                    ) by {
                        if i > 0 {
                            assert(c.nodes[i] == rest.nodes[i - 1]);
                        }
                    }
                }
            },
        }
    }
}

/// Numbering changes no command.
pub proof fn lemma_parse_chart_no_empty(s: Seq<char>)
    ensures
        parse_chart(s) matches Ok(c) ==> chart_no_empty(c),
{
    lemma_chart_from_no_empty(s, 0);
    if let Ok(c) = chart_from(s, 0) {
        assert forall|i: int| 0 <= i < c.nodes.len() implies no_empty(
            #[trigger] numbered(c.nodes)[i].commands,
        ) by {
            assert(numbered(c.nodes)[i].commands == c.nodes[i].commands);
        }
    }
}

/// Reading on after one block: the chart from `p` is the commands before
/// the block and its node, followed by the chart from behind the block.
proof fn lemma_chart_step(s: Seq<char>, p: int, b: Block)
    requires
        0 <= p <= s.len(),
        next_block(s, p) == Some(b),
    ensures
        chart_from(s, p) == match parse_clauses(s.subrange(p, b.start), 0) {
            Err(e) => Err(e),
            Ok(commands) => match parse_node(
                s.subrange(b.start, b.name_end),
                s.subrange(b.tag, b.tag_end),
                s.subrange(b.open + 1, b.close),
            ) {
                Err(e) => Err(e),
                Ok(node) => chart_after(commands, seq![node], chart_from(s, b.close + 1)),
            },
        },
{
}

/// Two prefixes before a chart are one.
proof fn lemma_chart_after_twice(
    c1: Seq<CommandView>,
    n1: Seq<NodeView>,
    c2: Seq<CommandView>,
    n2: Seq<NodeView>,
    r: Result<ChartView, UnableToParseError>,
)
    ensures
        chart_after(c1, n1, chart_after(c2, n2, r)) == chart_after(c1 + c2, n1 + n2, r),
{
    if let Ok(rest) = r {
        assert(c1 + (c2 + rest.commands) =~= (c1 + c2) + rest.commands);
        assert(n1 + (n2 + rest.nodes) =~= (n1 + n2) + rest.nodes);
    }
}

/// Reads the node of a block.
fn read_node(source: &str, b: &BlockSpan) -> (r: Result<Node, UnableToParseError>)
    requires
        0 <= b.start <= b.name_end <= b.tag <= b.tag_end <= b.open < b.close <= source@.len(),
    ensures
        match r {
            Ok(node) => parse_node(
                source@.subrange(b.start as int, b.name_end as int),
                source@.subrange(b.tag as int, b.tag_end as int),
                source@.subrange(b.open + 1, b.close as int),
            ) == Ok::<NodeView, UnableToParseError>(node@),
            Err(e) => parse_node(
                source@.subrange(b.start as int, b.name_end as int),
                source@.subrange(b.tag as int, b.tag_end as int),
                source@.subrange(b.open + 1, b.close as int),
            ) == Err::<NodeView, UnableToParseError>(e),
        },
{
    Node::try_parse(
        source.substring_char(b.start, b.name_end),
        source.substring_char(b.tag, b.tag_end),
        source.substring_char(b.open + 1, b.close),
    )
}

impl Chart {
    /// Reads a description.
    pub fn parse(source: &str) -> (r: Result<Chart, UnableToParseError>)
        requires
            source@.len() <= u32::MAX,
        ensures
            match r {
                Ok(chart) => parse_chart(source@) == Ok::<ChartView, UnableToParseError>(chart@)
                    && chart_no_empty(chart@) && chart_named(chart@),
                Err(e) => parse_chart(source@) == Err::<ChartView, UnableToParseError>(e),
            },
    {
        let chars = to_chars(source);
        let n = chars.len();
        let mut commands: Vec<Command> = Vec::new();
        let mut nodes: Vec<Node> = Vec::new();
        let mut p: usize = 0;
        proof {
            let r = chart_from(source@, 0);
            if let Ok(c) = r {
                assert(views(commands@) + c.commands =~= c.commands);
                assert(views(nodes@) + c.nodes =~= c.nodes);
            }
        }
        loop
            invariant
                chars@ == source@,
                n == chars.len(),
                n <= u32::MAX,
                p <= n,
                nodes.len() <= p,
                chart_from(source@, 0) == chart_after(
                    views(commands@),
                    views(nodes@),
                    chart_from(source@, p as int),
                ),
            decreases n - p,
        {
            let ghost done_commands = views(commands@);
            let ghost done_nodes = views(nodes@);
            match find_block(&chars, p) {
                None => {
                    match read_clauses(source.substring_char(p, n), &mut commands) {
                        Err(e) => {
                            return Err(e);
                        },
                        Ok(_) => {},
                    }
                    proof {
                        let last = chart_from(source@, p as int)->Ok_0;
                        assert(done_nodes + last.nodes =~= done_nodes);
                        lemma_parse_chart_no_empty(source@);
                        lemma_parse_chart_named(source@);
                    }
                    number_states(&mut nodes);
                    return Ok(Chart { commands, nodes });
                },
                Some(b) => {
                    proof {
                        lemma_next_block(source@, p as int);
                        lemma_block_at(source@, b.start as int);
                        lemma_chart_step(source@, p as int, b@);
                    }
                    match read_clauses(source.substring_char(p, b.start), &mut commands) {
                        Err(e) => {
                            return Err(e);
                        },
                        Ok(_) => {},
                    }
                    let node = match read_node(source, &b) {
                        Err(e) => {
                            return Err(e);
                        },
                        Ok(node) => node,
                    };
                    let ghost piece = parse_clauses(
                        source@.subrange(p as int, b.start as int),
                        0,
                    )->Ok_0;
                    nodes.push(node);
                    proof {
                        assert(views(nodes@) =~= done_nodes + seq![node@]);
                        lemma_chart_after_twice(
                            done_commands,
                            done_nodes,
                            piece,
                            seq![node@],
                            chart_from(source@, b.close + 1),
                        );
                    }
                    p = b.close + 1;
                },
            }
        }
    }
}

} // verus!
