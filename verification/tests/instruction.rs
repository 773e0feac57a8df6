use temuera_headless::instruction::{parse_line, Instruction};

#[test]
fn parses_basic_instructions() {
    assert_eq!(
        parse_line("PRINTL hello"),
        Instruction::Print {
            text: "hello".to_owned(),
            newline: true,
        }
    );
    assert_eq!(parse_line("$LOOP"), Instruction::Label("LOOP".to_owned()));
    assert_eq!(
        parse_line("FLAG:真实模式 = 1"),
        Instruction::Assign {
            target: "FLAG:真实模式".to_owned(),
            expr: "1".to_owned(),
        }
    );
    assert_eq!(parse_line("GOTO LOOP"), Instruction::Goto("LOOP".to_owned()));
    assert_eq!(
        parse_line("SIF !FLAG:真实模式"),
        Instruction::SIf("!FLAG:真实模式".to_owned())
    );
}

#[test]
fn does_not_treat_comparison_as_assignment() {
    assert!(matches!(parse_line("RESULT == 0"), Instruction::Unsupported(_)));
}

#[test]
fn keywords_ignore_case_and_comments() {
    assert_eq!(parse_line("  printl hi ; note"), Instruction::Print { text: "hi".to_owned(), newline: true });
    assert_eq!(parse_line("PRINT \"a;b\""), Instruction::Print { text: "\"a;b\"".to_owned(), newline: false });
    assert_eq!(parse_line("; only"), Instruction::Empty);
    assert_eq!(parse_line("   "), Instruction::Empty);
    assert_eq!(parse_line("call foo(1)"), Instruction::Call("FOO".to_owned()));
}

#[test]
fn parses_loops_and_mutations() {
    assert_eq!(
        parse_line("FOR LOCAL, 0, 10"),
        Instruction::For { variable: "LOCAL".to_owned(), start: "0".to_owned(), end: "10".to_owned() }
    );
    assert!(matches!(parse_line("FOR LOCAL, 0"), Instruction::Unsupported(_)));
    assert_eq!(parse_line("NEXT"), Instruction::Next);
    assert_eq!(parse_line("COUNT ++"), Instruction::Inc("COUNT".to_owned()));
    assert_eq!(parse_line("COUNT--"), Instruction::Dec("COUNT".to_owned()));
    assert_eq!(parse_line("INPUTS"), Instruction::Input { string: true });
    assert_eq!(parse_line("TINPUT 10"), Instruction::Input { string: false });
    assert_eq!(parse_line("DRAWLINE"), Instruction::DrawLine);
    assert!(matches!(parse_line("@FUNC"), Instruction::Unsupported(_)));
}
