//! Nodes: a name, a type and the commands of one block.

use crate::command::{parse_command, Command, CommandView, UnableToParseError};
use crate::text::{run_end, scan_run, str_eq, to_chars, trim, trim_str, CharClass};
use vstd::prelude::*;
use vstd::string::*;

verus! {

/// The three kinds of node.
#[derive(Debug, PartialEq, Eq, Clone, Copy, Structural)]
pub enum NodeType {
    State,
    Decision,
    Conditional,
}

impl NodeType {
    /// The word that names the type in a description.
    pub open spec fn text(self) -> Seq<char> {
        match self {
            NodeType::State => "state"@,
            NodeType::Decision => "decision"@,
            NodeType::Conditional => "conditional"@,
        }
    }

    /// The word that names the type in a description.
    pub fn as_str(self) -> (r: &'static str)
        ensures
            r@ == self.text(),
    {
        match self {
            NodeType::State => "state",
            NodeType::Decision => "decision",
            NodeType::Conditional => "conditional",
        }
    }
}

/// A named node with its commands in the order of the description.
/// `id` numbers the nodes of type `State`; it is zero until the nodes of
/// a chart are numbered, and stays zero for the other types.
#[derive(Debug)]
pub struct Node {
    pub node_name: String,
    pub node_type: NodeType,
    pub commands: Vec<Command>,
    pub id: u32,
}

/// The mathematical value of a [`Node`].
pub struct NodeView {
    pub name: Seq<char>,
    pub node_type: NodeType,
    pub commands: Seq<CommandView>,
    pub id: u32,
}

/// The values of the elements of `s`, in order.
pub open spec fn views<T: View>(s: Seq<T>) -> Seq<T::V> {
    Seq::new(s.len(), |i: int| s[i]@)
}

impl View for Node {
    type V = NodeView;

    open spec fn view(&self) -> NodeView {
        NodeView {
            name: self.node_name@,
            node_type: self.node_type,
            commands: views(self.commands@),
            id: self.id,
        }
    }
}

/// The type that the tag names, surrounding whitespace aside.
pub open spec fn parse_node_type(tag: Seq<char>) -> Option<NodeType> {
    let t = trim(tag);
    if t == NodeType::State.text() {
        Some(NodeType::State)
    } else if t == NodeType::Conditional.text() {
        Some(NodeType::Conditional)
    } else if t == NodeType::Decision.text() {
        Some(NodeType::Decision)
    } else {
        None
    }
}

/// A command as a list: empty for `Empty`, of one element otherwise.
pub open spec fn kept(c: CommandView) -> Seq<CommandView> {
    if c is Empty {
        Seq::empty()
    } else {
        seq![c]
    }
}

/// The commands of the clauses of `body` from position `from` on.
///
/// The clauses are the pieces between semicolons, the last one running
/// to the end of the text. Blank clauses give no command. The first
/// clause that cannot be read gives its error for the whole.
pub open spec fn parse_clauses(body: Seq<char>, from: int) -> Result<
    Seq<CommandView>,
    UnableToParseError,
>
    decreases body.len() - from,
{
    if from < 0 || from > body.len() {
        Ok(Seq::empty())
    } else {
        proof {
            crate::text::lemma_run_end(body, from, CharClass::Except(';'));
        }
        let end = run_end(body, from, CharClass::Except(';'));
        match parse_command(body.subrange(from, end)) {
            Err(e) => Err(e),
            Ok(c) => if end >= body.len() {
                Ok(kept(c))
            } else {
                match parse_clauses(body, end + 1) {
                    Err(e) => Err(e),
                    Ok(rest) => Ok(kept(c) + rest),
                }
            },
        }
    }
}

/// The node with the given name, type tag and body.
pub open spec fn parse_node(name: Seq<char>, tag: Seq<char>, body: Seq<char>) -> Result<
    NodeView,
    UnableToParseError,
> {
    match parse_node_type(tag) {
        None => Err(UnableToParseError::InvalidFormat),
        Some(node_type) => match parse_clauses(body, 0) {
            Err(e) => Err(e),
            Ok(commands) => Ok(NodeView { name, node_type, commands, id: 0 }),
        },
    }
}

/// Whether none of the commands is `Empty`.
pub open spec fn no_empty(commands: Seq<CommandView>) -> bool {
    forall|i: int| 0 <= i < commands.len() ==> !(#[trigger] commands[i] is Empty)
}

/// Blank clauses leave no trace: no list of commands read from a text
/// holds `Empty`.
pub proof fn lemma_parse_clauses_no_empty(body: Seq<char>, from: int)
    ensures
        parse_clauses(body, from) matches Ok(commands) ==> no_empty(commands),
    decreases body.len() - from,
{
    let end = run_end(body, from, CharClass::Except(';'));
    if 0 <= from <= body.len() {
        crate::text::lemma_run_end(body, from, CharClass::Except(';'));
        if parse_command(body.subrange(from, end)) is Ok && end < body.len() {
            lemma_parse_clauses_no_empty(body, end + 1);
        }
    }
}

/// The commands of `r` after those of `done`, or the error of `r`.
spec fn after(done: Seq<CommandView>, r: Result<Seq<CommandView>, UnableToParseError>)
    -> Result<Seq<CommandView>, UnableToParseError> {
    match r {
        Ok(rest) => Ok(done + rest),
        Err(e) => Err(e),
    }
}

/// Reads the clauses of `body` and appends their commands to `out`.
pub(crate) fn read_clauses(body: &str, out: &mut Vec<Command>) -> (r: Result<
    (),
    UnableToParseError,
>)
    ensures
        match r {
            Ok(_) => parse_clauses(body@, 0) matches Ok(commands) && views(final(out)@) == views(
                old(out)@,
            ) + commands,
            Err(e) => parse_clauses(body@, 0) == Err::<Seq<CommandView>, UnableToParseError>(e),
        },
{
    let chars = to_chars(body);
    let n = chars.len();
    let mut from: usize = 0;
    let ghost mut done: Seq<CommandView> = Seq::empty();
    assert(views(out@) =~= views(old(out)@) + done);
    loop
        invariant
            chars@ == body@,
            n == chars.len(),
            from <= n,
            parse_clauses(body@, 0) == after(done, parse_clauses(body@, from as int)),
            views(out@) == views(old(out)@) + done,
        decreases n - from,
    {
        let end = scan_run(&chars, from, CharClass::Except(';'));
        let command = match Command::from_str(body.substring_char(from, end)) {
            Ok(c) => c,
            Err(e) => {
                return Err(e);
            },
        };
        let ghost before = out@;
        let ghost one = kept(command@);
        if !command.is_empty() {
            out.push(command);
            assert(views(out@) =~= views(before).push(command@));
        }
        assert(views(out@) =~= views(old(out)@) + (done + one));
        if end >= n {
            assert(done + one =~= done + kept(command@));
            return Ok(());
        }
        proof {
            let rest = parse_clauses(body@, end + 1);
            if rest is Ok {
                assert(done + (one + rest->Ok_0) =~= (done + one) + rest->Ok_0);
            }
            done = done + one;
        }
        from = end + 1;
    }
}

impl Node {
    /// The node's name.
    pub fn get_name(&self) -> (r: String)
        ensures
            r@ == self.node_name@,
    {
        self.node_name.clone()
    }

    /// Reads a node from its name, its type tag and the text of its
    /// body.
    pub fn try_parse(name: &str, node_type: &str, contents: &str) -> (r: Result<
        Node,
        UnableToParseError,
    >)
        ensures
            match r {
                Ok(node) => parse_node(name@, node_type@, contents@) == Ok::<
                    NodeView,
                    UnableToParseError,
                >(node@) && no_empty(node@.commands),
                Err(e) => parse_node(name@, node_type@, contents@) == Err::<
                    NodeView,
                    UnableToParseError,
                >(e),
            },
    {
        let tag = trim_str(node_type);
        let node_type = if str_eq(tag, NodeType::State.as_str()) {
            NodeType::State
        } else if str_eq(tag, NodeType::Conditional.as_str()) {
            NodeType::Conditional
        } else if str_eq(tag, NodeType::Decision.as_str()) {
            NodeType::Decision
        } else {
            return Err(UnableToParseError::InvalidFormat);
        };
        let mut commands: Vec<Command> = Vec::new();
        match read_clauses(contents, &mut commands) {
            Err(e) => Err(e),
            Ok(_) => {
                proof {
                    lemma_parse_clauses_no_empty(contents@, 0);
                    assert(views(commands@) =~= parse_clauses(contents@, 0)->Ok_0);
                }
                Ok(Node { id: 0, node_name: String::from_str(name), node_type, commands })
            },
        }
    }
}

} // verus!
