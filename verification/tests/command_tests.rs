use asmchart::command::Command;

#[test]
fn yes_test() {
    let cmd = "   yes  =>   .help ".parse::<Command>();
    match cmd {
        Ok(Command::Yes { next_node }) => assert_eq!(next_node, ".help".to_string()),
        _ => assert!(false),
    }

    let cmd = " yes      =>   .test2     ".parse::<Command>();
    match cmd {
        Ok(Command::Yes { next_node }) => assert_eq!(next_node, ".test2".to_string()),
        _ => assert!(false),
    }
}
#[test]
fn no_test() {
    let cmd = "   no  =>   .help ".parse::<Command>();
    match cmd {
        Ok(Command::No { next_node }) => assert_eq!(next_node, ".help".to_string()),
        _ => assert!(false),
    }

    let cmd = " no      =>   .test2     ".parse::<Command>();
    match cmd {
        Ok(Command::No { next_node }) => assert_eq!(next_node, ".test2".to_string()),
        _ => assert!(false),
    }
}
#[test]
fn then_test() {
    let cmd = "  then  =>   .help ".parse::<Command>();
    match cmd {
        Ok(Command::Then { next_node }) => assert_eq!(next_node, ".help".to_string()),
        _ => assert!(false),
    }

    let cmd = " then      =>   .test2     ".parse::<Command>();
    match cmd {
        Ok(Command::Then { next_node }) => assert_eq!(next_node, ".test2".to_string()),
        _ => assert!(false),
    }
}
#[test]
fn check_test() {
    let cmd = "  check  =>   r[0] | r[1]  ".parse::<Command>();
    match cmd {
        Ok(Command::Check { check }) => assert_eq!(check, "r[0] | r[1]".to_string()),
        _ => assert!(false),
    }

    let cmd = " check      =>   r[1] & r[2]    ".parse::<Command>();
    match cmd {
        Ok(Command::Check { check }) => assert_eq!(check, "r[1] & r[2]".to_string()),
        _ => assert!(false),
    }
}
#[test]
fn regtrans_test() {
    let cmd = "  r0  =>   r0 + r1  ".parse::<Command>();
    match cmd {
        Ok(Command::RegisterTransfer {
            reg_name,
            reg_value,
        }) => {
            assert_eq!(reg_name, "r0".to_string());
            assert_eq!(reg_value, "r0 + r1".to_string());
        }
        _ => assert!(false),
    }

    let cmd = "     r0   =>   r2 * r3  ".parse::<Command>();
    match cmd {
        Ok(Command::RegisterTransfer {
            reg_name,
            reg_value,
        }) => {
            assert_eq!(reg_name, "r0".to_string());
            assert_eq!(reg_value, "r2 * r3".to_string());
        }
        _ => assert!(false),
    }
}
#[test]
fn reg_test() {
    let cmd = "  r0  =>   reg  ".parse::<Command>();
    match cmd {
        Ok(Command::Register {
            reg_name,
            bits,
            array,
        }) => {
            assert_eq!(reg_name, "r0".to_string());
            assert_eq!(bits, 0..0);
            assert_eq!(array, 0..0);
        }
        _ => assert!(false),
    }

    let cmd = "  r0  =>   reg[   3 :0]  ".parse::<Command>();
    match cmd {
        Ok(Command::Register {
            reg_name,
            bits,
            array,
        }) => {
            assert_eq!(reg_name, "r0".to_string());
            assert_eq!(bits, 3..0);
            assert_eq!(array, 0..0);
        }
        _ => assert!(false),
    }

    let cmd = "  r0  =>   reg[ 4 :0 ][1 : 0]  ".parse::<Command>();
    match cmd {
        Ok(Command::Register {
            reg_name,
            bits,
            array,
        }) => {
            assert_eq!(reg_name, "r0".to_string());
            assert_eq!(bits, 1..0);
            assert_eq!(array, 4..0);
        }
        _ => assert!(false),
    }
}

#[test]
fn input_test() {
    let cmd = "  r0  =>   input  ".parse::<Command>();
    match cmd {
        Ok(Command::Input {
            pin_name,
            bits,
            array,
        }) => {
            assert_eq!(pin_name, "r0".to_string());
            assert_eq!(bits, 0..0);
            assert_eq!(array, 0..0);
        }
        _ => assert!(false),
    }

    let cmd = "  r0  =>   input[   3 :0]  ".parse::<Command>();
    match cmd {
        Ok(Command::Input {
            pin_name,
            bits,
            array,
        }) => {
            assert_eq!(pin_name, "r0".to_string());
            assert_eq!(bits, 3..0);
            assert_eq!(array, 0..0);
        }
        _ => assert!(false),
    }

    let cmd = "  r0  =>   input[ 4 :0 ][1 : 0]  ".parse::<Command>();
    match cmd {
        Ok(Command::Input {
            pin_name,
            bits,
            array,
        }) => {
            assert_eq!(pin_name, "r0".to_string());
            assert_eq!(bits, 1..0);
            assert_eq!(array, 4..0);
        }
        _ => assert!(false),
    }
}
#[test]
fn output_test() {
    let cmd = "  r0  =>   output  ".parse::<Command>();
    match cmd {
        Ok(Command::Output {
            pin_name,
            bits,
            array,
        }) => {
            assert_eq!(pin_name, "r0".to_string());
            assert_eq!(bits, 0..0);
            assert_eq!(array, 0..0);
        }
        _ => assert!(false),
    }

    let cmd = "  r0  =>   output[   3 :0]  ".parse::<Command>();
    match cmd {
        Ok(Command::Output {
            pin_name,
            bits,
            array,
        }) => {
            assert_eq!(pin_name, "r0".to_string());
            assert_eq!(bits, 3..0);
            assert_eq!(array, 0..0);
        }
        _ => assert!(false),
    }

    let cmd = "  r0  =>   output[ 4 :0 ][1 : 0]  ".parse::<Command>();
    match cmd {
        Ok(Command::Output {
            pin_name,
            bits,
            array,
        }) => {
            assert_eq!(pin_name, "r0".to_string());
            assert_eq!(bits, 1..0);
            assert_eq!(array, 4..0);
        }
        _ => assert!(false),
    }
}
#[test]
fn inout_test() {
    let cmd = "  r0  =>   inout  ".parse::<Command>();
    match cmd {
        Ok(Command::Inout {
            pin_name,
            bits,
            array,
        }) => {
            assert_eq!(pin_name, "r0".to_string());
            assert_eq!(bits, 0..0);
            assert_eq!(array, 0..0);
        }
        _ => assert!(false),
    }

    let cmd = "  r0  =>   inout[   3 :0]  ".parse::<Command>();
    match cmd {
        Ok(Command::Inout {
            pin_name,
            bits,
            array,
        }) => {
            assert_eq!(pin_name, "r0".to_string());
            assert_eq!(bits, 3..0);
            assert_eq!(array, 0..0);
        }
        _ => assert!(false),
    }

    let cmd = "  r0  =>   inout[ 4 :0 ][1 : 0]  ".parse::<Command>();
    match cmd {
        Ok(Command::Inout {
            pin_name,
            bits,
            array,
        }) => {
            assert_eq!(pin_name, "r0".to_string());
            assert_eq!(bits, 1..0);
            assert_eq!(array, 4..0);
        }
        _ => assert!(false),
    }
}
#[test]
fn empty_test() {
    let cmd = "       ".parse::<Command>();
    match cmd {
        Ok(Command::Empty) => {}
        _ => assert!(false),
    }
}

use asmchart::command::UnableToParseError;

fn parse(s: &str) -> Result<Command, UnableToParseError> {
    s.parse::<Command>()
}

fn register(name: &str, bits: std::ops::Range<u8>, array: std::ops::Range<u8>) -> Command {
    Command::Register {
        reg_name: name.to_string(),
        bits,
        array,
    }
}

fn transfer(name: &str, value: &str) -> Command {
    Command::RegisterTransfer {
        reg_name: name.to_string(),
        reg_value: value.to_string(),
    }
}

#[test]
fn inherent_and_trait_parsers_agree() {
    for s in ["r0 => reg[3:0]", "then => .a", "", "oops", "x => reg[999:0]"] {
        assert_eq!(Command::from_str(s), s.parse::<Command>());
    }
}

#[test]
fn bare_keywords_declare_one_bit() {
    assert_eq!(
        parse("clk_en => input"),
        Ok(Command::Input {
            pin_name: "clk_en".to_string(),
            bits: 0..0,
            array: 0..0
        })
    );
    assert_eq!(
        parse("q => output"),
        Ok(Command::Output {
            pin_name: "q".to_string(),
            bits: 0..0,
            array: 0..0
        })
    );
    assert_eq!(
        parse("bus => inout"),
        Ok(Command::Inout {
            pin_name: "bus".to_string(),
            bits: 0..0,
            array: 0..0
        })
    );
    assert_eq!(parse("acc => reg"), Ok(register("acc", 0..0, 0..0)));
}

#[test]
fn range_order_is_kept() {
    assert_eq!(parse("r => reg[0:7]"), Ok(register("r", 0..7, 0..0)));
    assert_eq!(parse("r => reg[7:0]"), Ok(register("r", 7..0, 0..0)));
    assert_eq!(parse("r => reg[5:5]"), Ok(register("r", 5..5, 0..0)));
    assert_eq!(parse("r => reg[255:0]"), Ok(register("r", 255..0, 0..0)));
}

#[test]
fn array_comes_first_bits_second() {
    assert_eq!(parse("m => reg[15:0][7:0]"), Ok(register("m", 7..0, 15..0)));
    assert_eq!(parse("m => reg[0:15][0:7]"), Ok(register("m", 0..7, 0..15)));
    assert_eq!(
        parse("m => reg  [ 1 : 2 ]   [ 3 : 4 ]"),
        Ok(register("m", 3..4, 1..2))
    );
    assert_eq!(
        parse("m => output[0:0][0:0]"),
        Ok(Command::Output {
            pin_name: "m".to_string(),
            bits: 0..0,
            array: 0..0
        })
    );
}

#[test]
fn leading_zeros_are_read() {
    assert_eq!(parse("r => reg[007:000]"), Ok(register("r", 7..0, 0..0)));
    assert_eq!(
        parse("r => reg[0000000000000000000000255:1]"),
        Ok(register("r", 255..1, 0..0))
    );
}

#[test]
fn bound_above_eight_bits_is_invalid_range() {
    assert_eq!(parse("r => reg[256:0]"), Err(UnableToParseError::InvalidRange));
    assert_eq!(parse("r => reg[0:256]"), Err(UnableToParseError::InvalidRange));
    assert_eq!(
        parse("r => input[1:0][99999999999999999999999:0]"),
        Err(UnableToParseError::InvalidRange)
    );
    assert_eq!(
        parse("r => inout[300:0][1:0]"),
        Err(UnableToParseError::InvalidRange)
    );
    assert_eq!(
        parse("r => output[4294967296:0]"),
        Err(UnableToParseError::InvalidRange)
    );
}

#[test]
fn missing_separator_is_invalid_format() {
    assert_eq!(parse("r0"), Err(UnableToParseError::InvalidFormat));
    assert_eq!(parse("r0 = > 1"), Err(UnableToParseError::InvalidFormat));
    assert_eq!(parse("r0 >= 1"), Err(UnableToParseError::InvalidFormat));
    assert_eq!(parse("="), Err(UnableToParseError::InvalidFormat));
}

#[test]
fn blank_clauses_are_empty() {
    assert_eq!(parse(""), Ok(Command::Empty));
    assert_eq!(parse(" \t\r\n"), Ok(Command::Empty));
    assert_eq!(parse("\u{a0}\u{2003}\u{3000}"), Ok(Command::Empty));
}

#[test]
fn unicode_whitespace_is_trimmed() {
    assert_eq!(
        parse("\u{2028}r0\u{a0}=>\u{1680}reg\u{205f}"),
        Ok(register("r0", 0..0, 0..0))
    );
    assert_eq!(parse("\u{200b}"), Err(UnableToParseError::InvalidFormat));
}

#[test]
fn split_is_at_the_first_separator() {
    assert_eq!(parse("a => b => c"), Ok(transfer("a", "b => c")));
    assert_eq!(parse("=>=>"), Ok(transfer("", "=>")));
    assert_eq!(parse("a ==> b"), Ok(transfer("a =", "b")));
}

#[test]
fn empty_sides_are_accepted() {
    assert_eq!(parse("=>"), Ok(transfer("", "")));
    assert_eq!(
        parse("then =>"),
        Ok(Command::Then {
            next_node: String::new()
        })
    );
    assert_eq!(parse(" => reg"), Ok(register("", 0..0, 0..0)));
}

#[test]
fn reserved_words_come_before_declarations() {
    assert_eq!(
        parse("then => input"),
        Ok(Command::Then {
            next_node: "input".to_string()
        })
    );
    assert_eq!(
        parse("check => reg[3:0]"),
        Ok(Command::Check {
            check: "reg[3:0]".to_string()
        })
    );
    assert_eq!(
        parse("yes => reg[999:0]"),
        Ok(Command::Yes {
            next_node: "reg[999:0]".to_string()
        })
    );
    assert_eq!(
        parse("no => output"),
        Ok(Command::No {
            next_node: "output".to_string()
        })
    );
}

#[test]
fn reserved_words_are_case_sensitive() {
    assert_eq!(parse("Then => .a"), Ok(transfer("Then", ".a")));
    assert_eq!(parse("YES => .a"), Ok(transfer("YES", ".a")));
    assert_eq!(parse("thens => .a"), Ok(transfer("thens", ".a")));
    assert_eq!(parse("Reg => Reg"), Ok(transfer("Reg", "Reg")));
}

#[test]
fn other_right_sides_are_transfers() {
    assert_eq!(parse("r => reg[3:0] + 1"), Ok(transfer("r", "reg[3:0] + 1")));
    assert_eq!(parse("r => reg[3:0][1:0][2:0]"), Ok(transfer("r", "reg[3:0][1:0][2:0]")));
    assert_eq!(parse("r => reg[3]"), Ok(transfer("r", "reg[3]")));
    assert_eq!(parse("r => reg[:0]"), Ok(transfer("r", "reg[:0]")));
    assert_eq!(parse("r => reg[3:]"), Ok(transfer("r", "reg[3:]")));
    assert_eq!(parse("r => reg[-1:0]"), Ok(transfer("r", "reg[-1:0]")));
    assert_eq!(parse("r => reg[3:0"), Ok(transfer("r", "reg[3:0")));
    assert_eq!(parse("r => reg["), Ok(transfer("r", "reg[")));
    assert_eq!(parse("r => regs"), Ok(transfer("r", "regs")));
    assert_eq!(parse("r => a reg"), Ok(transfer("r", "a reg")));
    assert_eq!(parse("r => input output"), Ok(transfer("r", "input output")));
    assert_eq!(parse("r => reg\t[3:0]"), Ok(transfer("r", "reg\t[3:0]")));
    assert_eq!(parse("r => reg[3:0]\n[1:0]"), Ok(transfer("r", "reg[3:0]\n[1:0]")));
    assert_eq!(parse("r => reg[3 0:1]"), Ok(transfer("r", "reg[3 0:1]")));
    assert_eq!(parse("r => reg[999:0] + 1"), Ok(transfer("r", "reg[999:0] + 1")));
}

#[test]
fn is_empty_tells_blank_clauses() {
    assert!(Command::Empty.is_empty());
    assert!(!transfer("a", "b").is_empty());
    assert!(!register("a", 0..0, 0..0).is_empty());
}

#[test]
fn then_clause_is_trimmed() {
    assert_eq!(
        parse("then => .help"),
        Ok(Command::Then {
            next_node: ".help".to_string()
        })
    );
    assert_eq!(
        parse("\t then\n=>\r\n .help \u{3000}"),
        Ok(Command::Then {
            next_node: ".help".to_string()
        })
    );
}

#[test]
fn transfer_keeps_the_expression() {
    assert_eq!(parse("r0 => r0 + r1"), Ok(transfer("r0", "r0 + r1")));
    assert_eq!(
        parse("r0 =>  (a  <=  b) ? r1[3:0] : 8'hFF  "),
        Ok(transfer("r0", "(a  <=  b) ? r1[3:0] : 8'hFF"))
    );
}

#[test]
fn every_pair_of_bounds_is_kept() {
    for h in 0..=255u8 {
        for l in 0..=255u8 {
            let clause = format!("r => reg[{}:{}]", h, l);
            assert_eq!(parse(&clause), Ok(register("r", h..l, 0..0)));
        }
    }
}

#[test]
fn arrays_with_many_bounds() {
    for a in [0u8, 1, 9, 10, 99, 100, 255] {
        for b in [0u8, 7, 255] {
            for c in [0u8, 31, 255] {
                for d in [0u8, 200] {
                    let clause = format!("  m=>inout [ {}:{} ] [{} :{}]", a, b, c, d);
                    assert_eq!(
                        parse(&clause),
                        Ok(Command::Inout {
                            pin_name: "m".to_string(),
                            bits: c..d,
                            array: a..b
                        })
                    );
                }
            }
        }
    }
}

#[test]
fn whitespace_inside_brackets_is_tolerated() {
    assert_eq!(parse("r => reg[\t3:0]"), Ok(register("r", 3..0, 0..0)));
    assert_eq!(parse("r => reg[ 3\n:\r\n0\u{a0}]"), Ok(register("r", 3..0, 0..0)));
    assert_eq!(
        parse("r => reg  [\t1 :\t2 ]  [\n3\n:\n4\n]"),
        Ok(register("r", 3..4, 1..2))
    );
    assert_eq!(
        parse("r => input[\t300 :0]"),
        Err(UnableToParseError::InvalidRange)
    );
}

#[test]
fn digits_of_other_scripts_are_no_bounds() {
    assert_eq!(
        parse("r => reg[\u{663}:0]"),
        Err(UnableToParseError::InvalidRange)
    );
    assert_eq!(
        parse("r => input[1:0][7:\u{ff10}]"),
        Err(UnableToParseError::InvalidRange)
    );
    assert_eq!(
        parse("r => reg[1\u{967}:0]"),
        Err(UnableToParseError::InvalidRange)
    );
    assert_eq!(parse("r => reg[\u{b2}:0]"), Ok(transfer("r", "reg[\u{b2}:0]")));
    assert_eq!(parse("r => reg[\u{2160}:0]"), Ok(transfer("r", "reg[\u{2160}:0]")));
}
