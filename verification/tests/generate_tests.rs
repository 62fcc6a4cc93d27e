use asmchart::chart::Chart;
use asmchart::command::Command;
use asmchart::emit::InoutShadow;
use asmchart::generate::{count_states, generate, ilog2};
use asmchart::node::Node;
use asmchart::verilog_code_gen::Code;
use asmchart::walk::{compile_node, find_node, CodegenError};

fn module(source: &str) -> Result<String, CodegenError> {
    let chart = Chart::parse(source).unwrap();
    assert!(count_states(&chart.nodes) > 0);
    generate(&chart.commands, &chart.nodes, "Top")
}

fn count(text: &str, needle: &str) -> usize {
    text.matches(needle).count()
}

#[test]
fn minimal_self_loop() {
    let text = module("a => input;\nr => reg;\n.self : state { r => a; then => .self; }\n").unwrap();
    assert_eq!(
        text,
        "\nmodule Top(input clk , input reset , input [0:0]a);\
         \nreg [0:0]r;\
         \nreg [0:0]currentState;\
         \nalways @(posedge reset)\
         \ncurrentState = 0;\n\
         \nalways @(posedge clk) begin\
         \nif (currentState == 0) begin\
         \nr <= a;\
         \ncurrentState <= 0;\
         \nend else begin\
         \ncurrentState = 0;\
         \nend\
         \nend\
         \nendmodule"
    );
    assert_eq!(count(&text, "input [0:0]a"), 1);
    assert_eq!(count(&text, "\nreg [0:0]r;"), 1);
    assert_eq!(count(&text, "currentState;"), 1);
    assert_eq!(count(&text, "currentState <= "), 1);
    assert_eq!(count(&text, "currentState <= 0;"), 1);
}

#[test]
fn module_name_is_used() {
    let chart = Chart::parse(".s : state {}").unwrap();
    let text = generate(&chart.commands, &chart.nodes, "Blinker").unwrap();
    assert!(text.starts_with("\nmodule Blinker(input clk , input reset , );"));
    assert!(text.ends_with("\nendmodule"));
}

#[test]
fn ports_with_ranges_and_arrays() {
    let text = module(
        "a => input[7:0]; b => output; c => inout[3:0][1:0]; d => output[0:3][0:0]; \
         e => input[0:0][2:2]; .s : state {}",
    )
    .unwrap();
    let header = text.lines().nth(1).unwrap();
    assert_eq!(
        header,
        "module Top(input clk , input reset , input [7:0]a , output reg [0:0]b , \
         inout [1:0]c[3:0] , output reg [0:0]d[0:3] , input [2:2]e);"
    );
}

#[test]
fn registers_with_ranges_and_arrays() {
    let text = module("r => reg; s => reg[7:0]; t => reg[15:0][31:0]; u => reg[0:0][0:0]; .s : state {}")
        .unwrap();
    assert!(text.contains(
        "\nreg [0:0]r;\nreg [7:0]s;\nreg [31:0]t[15:0];\nreg [0:0]u;\nreg [0:0]currentState;"
    ));
}

#[test]
fn state_register_width_is_the_floor_of_the_logarithm() {
    let width = |n: usize| -> String {
        let mut source = String::new();
        for i in 0..n {
            source.push_str(&format!(".s{} : state {{}} ", i));
        }
        let text = module(&source).unwrap();
        let line = text
            .lines()
            .find(|l| l.ends_with("currentState;"))
            .unwrap()
            .to_string();
        line
    };
    assert_eq!(width(1), "reg [0:0]currentState;");
    assert_eq!(width(2), "reg [1:0]currentState;");
    assert_eq!(width(3), "reg [1:0]currentState;");
    assert_eq!(width(4), "reg [2:0]currentState;");
    assert_eq!(width(7), "reg [2:0]currentState;");
    assert_eq!(width(8), "reg [3:0]currentState;");
}

#[test]
fn ilog2_rounds_down() {
    assert_eq!(ilog2(1), 0);
    assert_eq!(ilog2(2), 1);
    assert_eq!(ilog2(3), 1);
    assert_eq!(ilog2(4), 2);
    assert_eq!(ilog2(1023), 9);
    assert_eq!(ilog2(1024), 10);
    assert_eq!(ilog2(usize::MAX), usize::BITS - 1);
}

#[test]
fn decision_walks_both_branches() {
    let text = module(
        "go => input; r => reg[3:0];\
         .idle : state { r => 0; then => .test; }\
         .test : decision { check => go == 1; yes => .run; no => .idle; }\
         .run : state { r => r + 1; then => .test; }",
    )
    .unwrap();
    let logic = text.split("\nalways @(posedge clk) begin").nth(1).unwrap();
    assert_eq!(
        logic,
        "\nif (currentState == 0) begin\
         \nr <= 0;\
         \nif (go == 1) begin\
         \ncurrentState <= 1;\
         \nend else begin\
         \ncurrentState <= 0;\
         \nend\
         \nend else\
         \nif (currentState == 1) begin\
         \nr <= r + 1;\
         \nif (go == 1) begin\
         \ncurrentState <= 1;\
         \nend else begin\
         \ncurrentState <= 0;\
         \nend\
         \nend else begin\
         \ncurrentState = 0;\
         \nend\
         \nend\
         \nendmodule"
    );
}

#[test]
fn conditional_is_walked_inline() {
    let text = module(
        ".a : state { x => 1; then => .c; }\
         .c : conditional { y => 2; z => 3; then => .b; }\
         .b : state { then => .a; }",
    )
    .unwrap();
    assert!(text.contains(
        "\nif (currentState == 0) begin\nx <= 1;\ny <= 2;\nz <= 3;\ncurrentState <= 1;\nend else"
    ));
    assert!(text.contains("\nif (currentState == 1) begin\ncurrentState <= 0;\nend else"));
}

#[test]
fn state_without_then_stays() {
    let text = module(".a : state { x => 1; }").unwrap();
    assert!(text.contains("\nif (currentState == 0) begin\nx <= 1;\nend else begin"));
    assert_eq!(count(&text, "currentState <= "), 0);
}

#[test]
fn nested_decisions() {
    let text = module(
        ".s : state { then => .d1; }\
         .d1 : decision { check => a; yes => .d2; no => .s; }\
         .d2 : decision { check => b; yes => .s; no => .t; }\
         .t : state { then => .s; }",
    )
    .unwrap();
    assert!(text.contains(
        "\nif (currentState == 0) begin\
         \nif (a) begin\
         \nif (b) begin\
         \ncurrentState <= 0;\
         \nend else begin\
         \ncurrentState <= 1;\
         \nend\
         \nend else begin\
         \ncurrentState <= 0;\
         \nend\
         \nend else"
    ));
}

#[test]
fn decision_defaults() {
    let chart = Chart::parse(".s : state { then => .d; } .d : decision { yes => .s; no => .s; }").unwrap();
    let text = generate(&chart.commands, &chart.nodes, "Top").unwrap();
    assert!(text.contains("\nif (0) begin\ncurrentState <= 0;\nend else begin\ncurrentState <= 0;\nend"));
    assert_eq!(
        module(".s : state { then => .d; } .d : decision { check => a; no => .s; }"),
        Err(CodegenError::UnknownNode {
            name: String::new()
        })
    );
    assert_eq!(
        module(".s : state { then => .d; } .d : decision { check => a; yes => .s; }"),
        Err(CodegenError::UnknownNode {
            name: String::new()
        })
    );
}

#[test]
fn last_edge_of_a_kind_wins() {
    let text = module(
        ".a : state { then => .nowhere; x => 1; then => .b; }\
         .b : state { then => .d; }\
         .d : decision { check => p; check => q; yes => .nowhere; yes => .a; no => .a; no => .b; }",
    )
    .unwrap();
    assert!(text.contains("\nif (currentState == 0) begin\nx <= 1;\ncurrentState <= 1;\nend else"));
    assert!(text.contains("\nif (q) begin\ncurrentState <= 0;\nend else begin\ncurrentState <= 1;\nend"));
}

#[test]
fn decision_that_loops_to_itself_is_circular() {
    assert_eq!(
        module(".s : state { then => .d; } .d : decision { check => a; yes => .d; no => .s; }"),
        Err(CodegenError::CircularDependency)
    );
    assert_eq!(
        module(".s : state { then => .d; } .d : decision { check => a; yes => .s; no => .d; }"),
        Err(CodegenError::CircularDependency)
    );
}

#[test]
fn loop_through_an_ancestor_is_circular() {
    assert_eq!(
        module(
            ".s : state { then => .d1; }\
             .d1 : decision { check => a; yes => .c; no => .s; }\
             .c : conditional { then => .d2; }\
             .d2 : decision { check => b; yes => .s; no => .d1; }"
        ),
        Err(CodegenError::CircularDependency)
    );
    assert_eq!(
        module(".s : state { then => .c; } .c : conditional { then => .c; }"),
        Err(CodegenError::CircularDependency)
    );
}

#[test]
fn loop_through_a_state_is_no_cycle() {
    assert!(module(
        ".s : state { then => .d; }\
         .d : decision { check => a; yes => .t; no => .s; }\
         .t : state { then => .d; }"
    )
    .is_ok());
}

#[test]
fn node_reached_twice_in_one_walk_is_circular() {
    assert_eq!(
        module(
            ".s : state { then => .d; }\
             .d : decision { check => a; yes => .c; no => .c; }\
             .c : conditional { then => .s; }"
        ),
        Err(CodegenError::CircularDependency)
    );
}

#[test]
fn each_state_starts_with_nothing_seen() {
    let text = module(
        ".s : state { then => .c; }\
         .t : state { then => .c; }\
         .c : conditional { x => 1; then => .s; }",
    )
    .unwrap();
    assert_eq!(count(&text, "\nx <= 1;\ncurrentState <= 0;"), 2);
}

#[test]
fn unknown_target_is_reported_by_name() {
    assert_eq!(
        module(".s : state { then => .missing; }"),
        Err(CodegenError::UnknownNode {
            name: ".missing".to_string()
        })
    );
    assert_eq!(
        module(".s : state { then => .d; } .d : decision { check => a; yes => .y; no => .n; }"),
        Err(CodegenError::UnknownNode {
            name: ".y".to_string()
        })
    );
    assert_eq!(
        module(".s : state { then => .d; } .d : decision { check => a; yes => .s; no => .n; }"),
        Err(CodegenError::UnknownNode {
            name: ".n".to_string()
        })
    );
    assert_eq!(
        module(".s : state { then => s; }"),
        Err(CodegenError::UnknownNode {
            name: "s".to_string()
        })
    );
    assert_eq!(
        module(".s : state { then => ; }"),
        Err(CodegenError::UnknownNode {
            name: String::new()
        })
    );
}

#[test]
fn first_failing_state_gives_the_error() {
    assert_eq!(
        module(
            ".a : state { then => .x; }\
             .b : state { then => .c; }\
             .c : conditional { then => .c; }"
        ),
        Err(CodegenError::UnknownNode {
            name: ".x".to_string()
        })
    );
    assert_eq!(
        module(
            ".b : state { then => .c; }\
             .a : state { then => .x; }\
             .c : conditional { then => .c; }"
        ),
        Err(CodegenError::CircularDependency)
    );
}

#[test]
fn last_node_of_a_name_is_the_target() {
    let text = module(
        ".a : state { then => .b; }\
         .b : conditional { x => 1; }\
         .b : conditional { x => 2; }",
    )
    .unwrap();
    assert!(text.contains("\nif (currentState == 0) begin\nx <= 2;\nend else"));
    let chart = Chart::parse(".a : state {} .b : decision {} .a : conditional {}").unwrap();
    assert_eq!(find_node(&chart.nodes, ".a"), Some(2));
    assert_eq!(find_node(&chart.nodes, ".b"), Some(1));
    assert_eq!(find_node(&chart.nodes, "a"), None);
}

#[test]
fn inout_pin_gets_its_registers() {
    let text = module(
        "bus => inout[7:0]; r => reg[7:0];\
         .s : state { bus => r; r => bus; then => .s; }",
    )
    .unwrap();
    assert_eq!(
        text,
        "\nmodule Top(input clk , input reset , inout [7:0]bus);\
         \nreg [7:0]r;\
         \nreg [0:0]currentState;\
         \nreg [7:0]bus__42ef3fd;\
         \nreg bus_write_reg__92b72;\
         \nassign bus = bus_write_reg__92b72 ? bus__42ef3fd : 'bZ;\
         \nalways @(posedge reset)\
         \ncurrentState = 0;\n\
         \nalways @(posedge clk) begin\
         \nbus_write_reg__92b72 <= 0;\
         \nbus__42ef3fd <= bus;\
         \nif (currentState == 0) begin\
         \nbus__42ef3fd <= r;\
         \nbus_write_reg__92b72 <= 1;\
         \nr <= bus;\
         \ncurrentState <= 0;\
         \nend else begin\
         \ncurrentState = 0;\
         \nend\
         \nend\
         \nendmodule"
    );
}

#[test]
fn two_inout_pins_and_an_array() {
    let text = module("p => inout; q => inout[1:0][3:0]; .s : state { q => 1; }").unwrap();
    assert!(text.contains(
        "\nreg [0:0]p__42ef3fd;\nreg p_write_reg__92b72;\nassign p = p_write_reg__92b72 ? p__42ef3fd : 'bZ;\
         \nreg [3:0]q__20aac9b[1:0];\nreg q_write_reg__38c5a4b5;\nassign q = q_write_reg__38c5a4b5 ? q__20aac9b : 'bZ;"
    ));
    assert!(text.contains(
        "\nalways @(posedge clk) begin\
         \np_write_reg__92b72 <= 0;\np__42ef3fd <= p;\
         \nq_write_reg__38c5a4b5 <= 0;\nq__20aac9b <= q;\
         \nif (currentState == 0) begin\
         \nq__20aac9b <= 1;\nq_write_reg__38c5a4b5 <= 1;\
         \nend else begin"
    ));
}

#[test]
fn pin_declared_twice_uses_its_last_registers() {
    let text = module("p => inout; p => inout; .s : state { p => 1; }").unwrap();
    assert_eq!(count(&text, "\nassign p = "), 2);
    assert_eq!(count(&text, " <= p;"), 1);
    assert!(text.contains("\np_write_reg__38c5a4b5 <= 0;\np__20aac9b <= p;"));
    assert!(text.contains("\np__20aac9b <= 1;\np_write_reg__38c5a4b5 <= 1;"));
}

#[test]
fn compile_node_at_a_state_writes_the_transition() {
    let nodes = vec![Node::try_parse(".s", "state", "x => 1; then => .s").unwrap()];
    let mut nodes = nodes;
    nodes[0].id = 41;
    let mut code = Code::new();
    let mut seen: Vec<String> = vec!["kept".to_string()];
    let shadows: Vec<InoutShadow> = Vec::new();
    let r = compile_node(&mut code, &nodes, 0, &mut seen, "st", false, &shadows);
    assert_eq!(r, Ok(()));
    assert_eq!(code.code, "\nst <= 41;");
    assert_eq!(seen, vec!["kept".to_string()]);
}

#[test]
fn compile_node_enters_and_remembers() {
    let mut nodes = vec![
        Node::try_parse(".s", "state", "x => 1; then => .c").unwrap(),
        Node::try_parse(".c", "conditional", "io => x; then => .t").unwrap(),
        Node::try_parse(".t", "state", "").unwrap(),
    ];
    nodes[2].id = 3;
    let mut code = Code::new();
    code.write("// ");
    let mut seen: Vec<String> = Vec::new();
    let shadows = vec![InoutShadow {
        pin_name: "io".to_string(),
        value_reg: "io_v".to_string(),
        enable_reg: "io_e".to_string(),
    }];
    let r = compile_node(&mut code, &nodes, 0, &mut seen, "st", true, &shadows);
    assert_eq!(r, Ok(()));
    assert_eq!(code.code, "// \nx <= 1;\nio_v <= x;\nio_e <= 1;\nst <= 3;");
    assert_eq!(seen, vec![".s".to_string(), ".c".to_string()]);
    let r = compile_node(&mut code, &nodes, 1, &mut seen, "st", false, &shadows);
    assert_eq!(r, Err(CodegenError::CircularDependency));
}

#[test]
fn top_level_edges_are_ignored() {
    let chart = Chart::parse("then => .s; check => a; x => 1; .s : state {}").unwrap();
    assert_eq!(chart.commands.len(), 3);
    assert!(matches!(chart.commands[0], Command::Then { .. }));
    let text = generate(&chart.commands, &chart.nodes, "Top").unwrap();
    assert!(text.starts_with("\nmodule Top(input clk , input reset , );\nreg [0:0]currentState;"));
}

#[test]
fn failed_walk_keeps_what_it_wrote() {
    let shadows: Vec<InoutShadow> = Vec::new();
    let nodes = vec![
        Node::try_parse(".s", "state", "x => 1; then => .d").unwrap(),
        Node::try_parse(".d", "decision", "check => a; yes => .x; no => .s").unwrap(),
    ];
    let mut code = Code::new();
    let mut seen: Vec<String> = Vec::new();
    let r = compile_node(&mut code, &nodes, 0, &mut seen, "st", true, &shadows);
    assert_eq!(
        r,
        Err(CodegenError::UnknownNode {
            name: ".x".to_string()
        })
    );
    assert_eq!(code.code, "\nx <= 1;\nif (a) begin");
    assert_eq!(seen, vec![".s".to_string(), ".d".to_string()]);

    let nodes = vec![
        Node::try_parse(".s", "state", "then => .d").unwrap(),
        Node::try_parse(".d", "decision", "check => a; yes => .s; no => .c").unwrap(),
        Node::try_parse(".c", "conditional", "y => 2; then => .d").unwrap(),
    ];
    let mut code = Code::new();
    let mut seen: Vec<String> = Vec::new();
    let r = compile_node(&mut code, &nodes, 0, &mut seen, "st", true, &shadows);
    assert_eq!(r, Err(CodegenError::CircularDependency));
    assert_eq!(
        code.code,
        "\nif (a) begin\nst <= 0;\nend else begin\ny <= 2;"
    );
    assert_eq!(
        seen,
        vec![".s".to_string(), ".d".to_string(), ".c".to_string()]
    );
}

#[test]
fn a_walk_enters_each_node_once() {
    let shadows: Vec<InoutShadow> = Vec::new();
    let nodes = vec![
        Node::try_parse(".s", "state", "then => .d1").unwrap(),
        Node::try_parse(".d1", "decision", "check => a; yes => .c1; no => .d2").unwrap(),
        Node::try_parse(".c1", "conditional", "then => .s").unwrap(),
        Node::try_parse(".d2", "decision", "check => b; yes => .c2; no => .s").unwrap(),
        Node::try_parse(".c2", "conditional", "then => .s").unwrap(),
    ];
    let mut code = Code::new();
    let mut seen: Vec<String> = Vec::new();
    let r = compile_node(&mut code, &nodes, 0, &mut seen, "st", true, &shadows);
    assert_eq!(r, Ok(()));
    assert_eq!(seen, vec![".s", ".d1", ".c1", ".d2", ".c2"]);
    let mut sorted = seen.clone();
    sorted.sort();
    sorted.dedup();
    assert_eq!(sorted.len(), seen.len());
}

#[test]
fn nodes_that_no_walk_reaches_are_not_judged() {
    assert!(module(".s : state { } .d : decision { check => a; yes => .d; no => .s; }").is_ok());
    assert!(module(".s : state { } .c : conditional { then => .missing; }").is_ok());
    assert!(module(".s : state { then => .s; } .c : conditional { then => .c; }").is_ok());
}
