use interprete_tanques::{InterpreteTanques, Rule};

#[test]
pub fn test_decl() {
    let decl_parse_result = InterpreteTanques::parse(Rule::Decl, "var x=1");
    assert!(decl_parse_result.is_ok());
    let decl_parse_result = InterpreteTanques::parse(Rule::Decl, "var x = 1 ");
    assert!(decl_parse_result.is_ok());
    let decl_parse_result = InterpreteTanques::parse(Rule::Expr, "var x = 1;");
    assert!(decl_parse_result.is_ok());
}

#[test]
pub fn test_prog() {
    let prog = InterpreteTanques::parse(Rule::Prog, "var x = 1;\nvar wey = 4;");
    assert!(prog.is_ok());

    let prog = InterpreteTanques::parse(Rule::Prog, "\nvar x = 1;\n\n");
    assert!(prog.is_ok());
}

#[test]
fn test_prog_empty() {
    assert!(InterpreteTanques::parse(Rule::Prog, "").is_ok());
    assert!(InterpreteTanques::parse(Rule::Prog, "// solo comentario").is_ok());
}

#[test]
fn test_prog_rejects_trailing_garbage() {
    assert!(InterpreteTanques::parse(Rule::Prog, "var x = 1; }").is_err());
    assert!(InterpreteTanques::parse(Rule::Prog, "var x = ;").is_err());
    assert!(InterpreteTanques::parse(Rule::Prog, "123").is_err());
}

#[test]
fn test_prog_rejects_empty_block() {
    // a braced body must hold at least one statement: an empty loop body
    // could never complete a primitive action in a step
    assert!(InterpreteTanques::parse(Rule::Prog, "mientras (1 == 1) { }").is_err());
    assert!(InterpreteTanques::parse(Rule::Prog, "si (1 == 1) { }").is_err());
    assert!(InterpreteTanques::parse(Rule::Prog, "si (1 == 1) { avanza; }").is_ok());
}

#[test]
fn test_literal_too_large_is_syntax_error() {
    assert!(InterpreteTanques::parse(Rule::Prog, "var x = 9223372036854775807;").is_ok());
    assert!(InterpreteTanques::parse(Rule::Prog, "var x = 9223372036854775808;").is_err());
    assert!(InterpreteTanques::parse(Rule::Prog, "var x = -9223372036854775808;").is_ok());
    assert!(InterpreteTanques::parse(Rule::Prog, "var x = 99999999999999999999999999;").is_err());
}

#[test]
fn test_syntax_error_position() {
    let err = InterpreteTanques::parse(Rule::Prog, "var x = 1;\n???").unwrap_err();
    assert_eq!(err.line, 2);
    assert_eq!(err.col, 1);
}

#[test]
fn test_lexical_errors() {
    // a lone '!', '&' or '|' is not a token
    let err = InterpreteTanques::parse(Rule::Prog, "var x = 1 ! 2;").unwrap_err();
    assert_eq!((err.line, err.col), (1, 11));
    assert!(InterpreteTanques::parse(Rule::Prog, "si (1 == 1 & 1 == 1) { avanza; }").is_err());
    assert!(InterpreteTanques::parse(Rule::Prog, "si (1 == 1 | 1 == 1) { avanza; }").is_err());
    // while the two-character forms lex fine
    assert!(InterpreteTanques::parse(Rule::Prog, "si (1 != 1 && 1 == 1 || 0 == 1) { avanza; }").is_ok());
}
