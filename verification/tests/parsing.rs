use miniasm::parser::{
    Command, CommandFromStrError, CommandFromStrErrorKind, Comp, CompFromStrError, Condition,
    ConditionFromStrError, JumpDest, JumpDestFromStrError, ParsePtxStr, VarOrNum,
    VarOrNumFromStrError, Variable, VariableFromStrError, parse_line, parse_lines,
};

fn lines(src: &[&str]) -> Vec<String> {
    src.iter().map(|s| s.to_string()).collect()
}

#[test]
fn variable_letters_parse() {
    assert_eq!(Variable::from_str("A"), Ok(Variable::A));
    assert_eq!(Variable::from_str("B"), Ok(Variable::B));
    assert_eq!(Variable::from_str("C"), Ok(Variable::C));
    assert_eq!(Variable::from_str("D"), Ok(Variable::D));
}

#[test]
fn variable_rejects_other_tokens() {
    assert_eq!(Variable::from_str("E"), Err(VariableFromStrError::InvalidVariable));
    assert_eq!(Variable::from_str("a"), Err(VariableFromStrError::InvalidVariable));
    assert_eq!(Variable::from_str("AB"), Err(VariableFromStrError::InvalidVariable));
    assert_eq!(Variable::from_str(""), Err(VariableFromStrError::InvalidVariable));
}

#[test]
fn var_or_num_prefers_variable() {
    assert_eq!(VarOrNum::from_str("A"), Ok(VarOrNum::Variable(Variable::A)));
    assert_eq!(VarOrNum::from_str("42"), Ok(VarOrNum::Num(42)));
    assert_eq!(VarOrNum::from_str("+42"), Ok(VarOrNum::Num(42)));
    assert_eq!(VarOrNum::from_str("4294967295"), Ok(VarOrNum::Num(u32::MAX)));
}

#[test]
fn var_or_num_rejects_bad_tokens() {
    assert_eq!(VarOrNum::from_str("4294967296"), Err(VarOrNumFromStrError::ParseFailed));
    assert_eq!(VarOrNum::from_str("-1"), Err(VarOrNumFromStrError::ParseFailed));
    assert_eq!(VarOrNum::from_str("x"), Err(VarOrNumFromStrError::ParseFailed));
    assert_eq!(VarOrNum::from_str(""), Err(VarOrNumFromStrError::ParseFailed));
}

#[test]
fn jump_dest_spellings() {
    assert_eq!(JumpDest::from_str("NXT"), Ok(JumpDest::Next));
    assert_eq!(JumpDest::from_str("NEXT"), Ok(JumpDest::Next));
    assert_eq!(JumpDest::from_str("END"), Ok(JumpDest::End));
    assert_eq!(JumpDest::from_str("7"), Ok(JumpDest::Nth(7)));
}

#[test]
fn jump_dest_zero_rejected() {
    assert_eq!(JumpDest::from_str("0"), Err(JumpDestFromStrError::IsZero));
}

#[test]
fn jump_dest_bad_tokens_rejected() {
    assert_eq!(JumpDest::from_str("x"), Err(JumpDestFromStrError::ParseFailed));
    assert_eq!(JumpDest::from_str(""), Err(JumpDestFromStrError::ParseFailed));
    assert_eq!(JumpDest::from_str("end"), Err(JumpDestFromStrError::ParseFailed));
}

#[test]
fn comp_both_spellings() {
    assert_eq!(Comp::from_str("<"), Ok(Comp::Lt));
    assert_eq!(Comp::from_str("LT"), Ok(Comp::Lt));
    assert_eq!(Comp::from_str("<="), Ok(Comp::Le));
    assert_eq!(Comp::from_str("LE"), Ok(Comp::Le));
    assert_eq!(Comp::from_str("="), Ok(Comp::Eq));
    assert_eq!(Comp::from_str("EQ"), Ok(Comp::Eq));
    assert_eq!(Comp::from_str("!="), Ok(Comp::Ne));
    assert_eq!(Comp::from_str("NE"), Ok(Comp::Ne));
    assert_eq!(Comp::from_str(">"), Ok(Comp::Gt));
    assert_eq!(Comp::from_str("GT"), Ok(Comp::Gt));
    assert_eq!(Comp::from_str(">="), Ok(Comp::Ge));
    assert_eq!(Comp::from_str("GE"), Ok(Comp::Ge));
}

#[test]
fn comp_rejects_bad_tokens() {
    assert_eq!(Comp::from_str("=="), Err(CompFromStrError::ParseFailed));
    assert_eq!(Comp::from_str("lt"), Err(CompFromStrError::ParseFailed));
    assert_eq!(Comp::from_str(""), Err(CompFromStrError::ParseFailed));
}

#[test]
fn condition_parses() {
    assert_eq!(
        Condition::from_str("A EQ 0"),
        Ok(Condition { a: Variable::A, comp: Comp::Eq, b: VarOrNum::Num(0) })
    );
    assert_eq!(
        Condition::from_str("B < C"),
        Ok(Condition { a: Variable::B, comp: Comp::Lt, b: VarOrNum::Variable(Variable::C) })
    );
}

#[test]
fn condition_error_cases() {
    assert_eq!(Condition::from_str("A"), Err(ConditionFromStrError::NotEnoughSegments));
    assert_eq!(Condition::from_str("A EQ"), Err(ConditionFromStrError::NotEnoughSegments));
    assert_eq!(
        Condition::from_str("X EQ 0"),
        Err(ConditionFromStrError::VariableParseError(VariableFromStrError::InvalidVariable))
    );
    assert_eq!(
        Condition::from_str("A ?? 0"),
        Err(ConditionFromStrError::CompParseError(CompFromStrError::ParseFailed))
    );
    assert_eq!(
        Condition::from_str("A EQ $"),
        Err(ConditionFromStrError::VarOrNumParseError(VarOrNumFromStrError::ParseFailed))
    );
}

#[test]
fn command_simple_forms() {
    assert_eq!(Command::from_str("NLN"), Ok(Command::Nln));
    assert_eq!(Command::from_str("PVR A"), Ok(Command::Pvr(Variable::A)));
    assert_eq!(Command::from_str("LTV B"), Ok(Command::Ltv(Variable::B)));
    assert_eq!(
        Command::from_str("SET A 5"),
        Ok(Command::Assign(Variable::A, VarOrNum::Num(5)))
    );
    assert_eq!(Command::from_str("ADD A B"), Ok(Command::Add(Variable::A, VarOrNum::Variable(Variable::B))));
    assert_eq!(Command::from_str("SUB D 1"), Ok(Command::Sub(Variable::D, VarOrNum::Num(1))));
    assert_eq!(Command::from_str("JMP 3"), Ok(Command::Jmp(JumpDest::Nth(3))));
    assert_eq!(Command::from_str("JMP END"), Ok(Command::Jmp(JumpDest::End)));
}

#[test]
fn command_conditional_forms() {
    let expected = Command::Ifj(
        Condition { a: Variable::A, comp: Comp::Eq, b: VarOrNum::Num(0) },
        JumpDest::Nth(3),
        JumpDest::Nth(5),
    );
    assert_eq!(Command::from_str("IFJ A EQ 0 3 5"), Ok(expected.clone()));
    assert_eq!(Command::from_str("IF A EQ 0 3 5"), Ok(expected));
    assert_eq!(
        Command::from_str("IFJ B < 9 NXT END"),
        Ok(Command::Ifj(
            Condition { a: Variable::B, comp: Comp::Lt, b: VarOrNum::Num(9) },
            JumpDest::Next,
            JumpDest::End,
        ))
    );
}

#[test]
fn command_name_errors() {
    assert_eq!(Command::from_str(""), Err(CommandFromStrErrorKind::CommandName));
    assert_eq!(Command::from_str("NOP"), Err(CommandFromStrErrorKind::CommandName));
    assert_eq!(Command::from_str("nln"), Err(CommandFromStrErrorKind::CommandName));
    assert_eq!(Command::from_str("FOO A"), Err(CommandFromStrErrorKind::CommandName));
}

#[test]
fn command_invocation_errors() {
    assert_eq!(Command::from_str("SET A"), Err(CommandFromStrErrorKind::SetInvocation));
    assert_eq!(Command::from_str("ADD B"), Err(CommandFromStrErrorKind::AddInvocation));
    assert_eq!(Command::from_str("SUB C"), Err(CommandFromStrErrorKind::SubInvocation));
    assert_eq!(Command::from_str("IFJ 5"), Err(CommandFromStrErrorKind::IfjInvocation));
    assert_eq!(Command::from_str("IFJ 3 5"), Err(CommandFromStrErrorKind::IfjInvocation));
    assert_eq!(
        Command::from_str("PVR X"),
        Err(CommandFromStrErrorKind::Variable(VariableFromStrError::InvalidVariable))
    );
    assert_eq!(
        Command::from_str("SET A Z"),
        Err(CommandFromStrErrorKind::VarOrNum(VarOrNumFromStrError::ParseFailed))
    );
    assert_eq!(
        Command::from_str("JMP x"),
        Err(CommandFromStrErrorKind::JumpDest(JumpDestFromStrError::ParseFailed))
    );
    assert_eq!(
        Command::from_str("IFJ A 3 5"),
        Err(CommandFromStrErrorKind::Condition(ConditionFromStrError::NotEnoughSegments))
    );
}

#[test]
fn jump_zero_rejected_for_every_jump_command() {
    assert_eq!(
        Command::from_str("JMP 0"),
        Err(CommandFromStrErrorKind::JumpDest(JumpDestFromStrError::IsZero))
    );
    assert_eq!(
        Command::from_str("IFJ A EQ 0 0 5"),
        Err(CommandFromStrErrorKind::JumpDest(JumpDestFromStrError::IsZero))
    );
    assert_eq!(
        Command::from_str("IFJ A EQ 0 3 0"),
        Err(CommandFromStrErrorKind::JumpDest(JumpDestFromStrError::IsZero))
    );
}

#[test]
fn ptx_literals() {
    assert_eq!(Command::from_str("PTX \"hello\""), Ok(Command::Ptx("hello".to_string())));
    assert_eq!(Command::from_str("PTX \"\""), Ok(Command::Ptx(String::new())));
    assert_eq!(
        Command::from_str("PTX   \"spaced\"  "),
        Ok(Command::Ptx("spaced".to_string()))
    );
}

#[test]
fn ptx_escapes_round_trip() {
    let parsed = Command::from_str("PTX \"a\\\"b\\\\c\"").unwrap();
    match parsed {
        Command::Ptx(text) => {
            assert_eq!(text, "a\"b\\c");
            assert_eq!(text.chars().count(), 5);
        }
        other => panic!("expected a text command, got {:?}", other),
    }
}

#[test]
fn ptx_errors() {
    assert_eq!(
        Command::from_str("PTX abc"),
        Err(CommandFromStrErrorKind::Text(ParsePtxStr::NoQuotation))
    );
    assert_eq!(
        Command::from_str("PTX \"abc"),
        Err(CommandFromStrErrorKind::Text(ParsePtxStr::NoQuotation))
    );
    assert_eq!(
        Command::from_str("PTX \"a\\x\""),
        Err(CommandFromStrErrorKind::Text(ParsePtxStr::InvalidEscape('x')))
    );
}

#[test]
fn trailing_comment_is_stripped() {
    assert_eq!(parse_line("SET A 5 # anything"), parse_line("SET A 5"));
    assert_eq!(parse_line("NLN# no space needed"), parse_line("NLN"));
    assert_eq!(parse_line("  PVR A  # trailing"), parse_line("PVR A"));
}

#[test]
fn surrounding_whitespace_is_trimmed() {
    assert_eq!(parse_line("   NLN   "), Ok(Command::Nln));
    assert_eq!(parse_line("\tSET A 5\t"), Ok(Command::Assign(Variable::A, VarOrNum::Num(5))));
}

#[test]
fn blank_line_is_an_error() {
    assert_eq!(parse_line(""), Err(CommandFromStrErrorKind::CommandName));
    assert_eq!(parse_line("   "), Err(CommandFromStrErrorKind::CommandName));
    assert_eq!(parse_line("# only a comment"), Err(CommandFromStrErrorKind::CommandName));
}

#[test]
fn parse_lines_collects_commands() {
    let cmds = parse_lines(&lines(&["SET A 5", "PVR A", "NLN"])).unwrap();
    assert_eq!(
        cmds,
        vec![
            Command::Assign(Variable::A, VarOrNum::Num(5)),
            Command::Pvr(Variable::A),
            Command::Nln,
        ]
    );
}

#[test]
fn parse_lines_reports_first_bad_line() {
    let err = parse_lines(&lines(&["NLN", "JMP 0", "BAD"])).unwrap_err();
    assert_eq!(err.line, 2);
    assert_eq!(err.source, CommandFromStrErrorKind::JumpDest(JumpDestFromStrError::IsZero));
}

#[test]
fn command_from_str_error_carries_line() {
    let err = CommandFromStrError::from((3, CommandFromStrErrorKind::CommandName));
    assert_eq!(err.line, 3);
    assert_eq!(err.source, CommandFromStrErrorKind::CommandName);
}
