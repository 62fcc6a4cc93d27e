use asmchart::command::{Command, UnableToParseError};
use asmchart::node::{Node, NodeType};

#[test]
fn parsing_test() {
    let node = Node::try_parse(
        ".123salam",
        "state",
        "
r0   =>  1;

then    =>    .state;
",
    );
    match node {
        Ok(Node {
            node_name,
            node_type,
            commands,
            id,
        }) => {
            assert_eq!(node_name, ".123salam".to_string());
            assert_eq!(node_type, NodeType::State);
            assert_eq!(commands.len(), 2);
            assert_eq!(
                commands[0],
                Command::RegisterTransfer {
                    reg_name: "r0".to_string(),
                    reg_value: "1".to_string()
                }
            );
            assert_eq!(
                commands[1],
                Command::Then {
                    next_node: ".state".to_string()
                }
            );
            assert!(commands.iter().all(|c| *c != Command::Empty));
            assert_eq!(id, 0);
        }
        _ => assert!(false),
    }
}

#[test]
fn node_type_tags() {
    assert_eq!(Node::try_parse(".a", " decision ", "").unwrap().node_type, NodeType::Decision);
    assert_eq!(
        Node::try_parse(".a", "conditional", "").unwrap().node_type,
        NodeType::Conditional
    );
    assert_eq!(Node::try_parse(".a", "\tstate\n", "").unwrap().node_type, NodeType::State);
}

#[test]
fn unknown_node_type_is_invalid_format() {
    assert_eq!(
        Node::try_parse(".a", "State", "").unwrap_err(),
        UnableToParseError::InvalidFormat
    );
    assert_eq!(
        Node::try_parse(".a", "", "r0 => 1;").unwrap_err(),
        UnableToParseError::InvalidFormat
    );
}

#[test]
fn node_type_is_checked_before_the_body() {
    assert_eq!(
        Node::try_parse(".a", "stat", "r0 => reg[300:0];").unwrap_err(),
        UnableToParseError::InvalidFormat
    );
}

#[test]
fn first_bad_clause_aborts_the_node() {
    assert_eq!(
        Node::try_parse(".a", "state", "r0 => 1; oops; r1 => reg[256:0]").unwrap_err(),
        UnableToParseError::InvalidFormat
    );
    assert_eq!(
        Node::try_parse(".a", "state", "r1 => reg[256:0]; oops").unwrap_err(),
        UnableToParseError::InvalidRange
    );
}

#[test]
fn blank_clauses_are_dropped() {
    let node = Node::try_parse(".a", "state", " ; ;\n;r0 => 1;;\t; then => .b ; ").unwrap();
    assert_eq!(node.commands.len(), 2);
    assert!(node.commands.iter().all(|c| *c != Command::Empty));
    let node = Node::try_parse(".a", "state", "").unwrap();
    assert!(node.commands.is_empty());
}

#[test]
fn get_name_gives_the_name() {
    let node = Node::try_parse(".self", "state", "").unwrap();
    assert_eq!(node.get_name(), ".self".to_string());
}
