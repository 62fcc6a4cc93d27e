use asmchart::verilog_code_gen::{impl_buf, impl_bufif1, Code, HSH_BASE, HSH_MOD, HSH_SEED};

#[test]
fn new_code_is_empty_at_the_seed() {
    let code = Code::new();
    assert_eq!(code.code, "");
    assert_eq!(code.hsh, 1231332);
    assert_eq!(HSH_SEED, 1231332);
    assert_eq!(HSH_BASE, 57);
    assert_eq!(HSH_MOD, 1_000_000_007);
}

#[test]
fn update_appends() {
    let mut code = Code {
        code: "a".to_string(),
        hsh: 5,
    };
    code.update("bc".to_string());
    code.update(String::new());
    code.write("d");
    assert_eq!(code.code, "abcd");
    assert_eq!(code.hsh, 5);
}

#[test]
fn generated_names_follow_the_sequence() {
    let mut code = Code::new();
    assert_eq!(code.get_varname("x"), "x__42ef3fd");
    assert_eq!(code.hsh, 70185981);
    assert_eq!(code.get_varname("x"), "x__92b72");
    assert_eq!(code.hsh, 600946);
    assert_eq!(code.get_varname(""), "__20aac9b");
    assert_eq!(code.get_varname("y_write_reg"), "y_write_reg__38c5a4b5");
    assert_eq!(code.code, "");
}

#[test]
fn sequence_wraps_at_the_modulus() {
    let mut code = Code {
        code: String::new(),
        hsh: 0,
    };
    assert_eq!(code.get_varname("a"), "a__39");
    assert_eq!(code.hsh, 57);
    let mut code = Code {
        code: String::new(),
        hsh: u32::MAX - 1,
    };
    code.get_varname("a");
    assert_eq!(code.hsh as u64, (u32::MAX as u64 * 57) % 1_000_000_007);
}

#[test]
fn create_wire_declares_and_names() {
    let mut code = Code::new();
    code.update("// top".to_string());
    let name = code.create_wire(&"[3 : 0]".to_string(), &"w".to_string(), &"[1 : 0]".to_string());
    assert_eq!(name, "w__42ef3fd");
    assert_eq!(code.code, "// top\nwire [3 : 0]w__42ef3fd[1 : 0];");
    assert_eq!(code.hsh, 70185981);
    let name = code.create_wire(&String::new(), &"w".to_string(), &String::new());
    assert_eq!(name, "w__92b72");
    assert_eq!(code.code, "// top\nwire [3 : 0]w__42ef3fd[1 : 0];\nwire w__92b72;");
}

#[test]
fn buf_gate() {
    let mut code = Code::new();
    impl_buf(&mut code, "in".to_string(), "out".to_string());
    assert_eq!(code.code, "\nbuf(out , in);");
    assert_eq!(code.hsh, HSH_SEED);
}

#[test]
fn bufif1_gate() {
    let mut code = Code::new();
    impl_bufif1(&mut code, "en".to_string(), "in".to_string(), "out".to_string());
    assert_eq!(code.code, "\nbufif1(out , in , en);");
    impl_bufif1(&mut code, "c".to_string(), "i".to_string(), "o".to_string());
    assert_eq!(code.code, "\nbufif1(out , in , en);\nbufif1(o , i , c);");
    assert_eq!(code.hsh, HSH_SEED);
}
