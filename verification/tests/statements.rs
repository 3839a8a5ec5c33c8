use drip::parse;

fn check(input: &str, expected_tree: &str) {
    let parse = parse(input);
    let expected = expected_tree.strip_prefix('\n').unwrap_or(expected_tree);
    assert_eq!(parse.debug_tree(), expected);
}

#[test]
fn stmt_define_constant() {
    check(
        "a :: 10 + 3 * (4 - 3 * 3)",
        r#"
Root@0..25
  ConstDef@0..25
    Ident@0..1 "a"
    Whitespace@1..2 " "
    ConstKw@2..4 "::"
    Whitespace@4..5 " "
    InfixExpr@5..25
      Literal@5..8
        Number@5..7 "10"
        Whitespace@7..8 " "
      Plus@8..9 "+"
      Whitespace@9..10 " "
      InfixExpr@10..25
        Literal@10..12
          Number@10..11 "3"
          Whitespace@11..12 " "
        Star@12..13 "*"
        Whitespace@13..14 " "
        RoundBracketExpr@14..25
          LRoundBracket@14..15 "("
          InfixExpr@15..24
            Literal@15..17
              Number@15..16 "4"
              Whitespace@16..17 " "
            Minus@17..18 "-"
            Whitespace@18..19 " "
            InfixExpr@19..24
              Literal@19..21
                Number@19..20 "3"
                Whitespace@20..21 " "
              Star@21..22 "*"
              Whitespace@22..23 " "
              Literal@23..24
                Number@23..24 "3"
          RRoundBracket@24..25 ")""#,
    );
}

#[test]
fn stmt_define_var() {
    check(
        "y := 5 * -(8 + 2)",
        r#"
Root@0..17
  VariableDef@0..17
    Ident@0..1 "y"
    Whitespace@1..2 " "
    VariableKw@2..4 ":="
    Whitespace@4..5 " "
    InfixExpr@5..17
      Literal@5..7
        Number@5..6 "5"
        Whitespace@6..7 " "
      Star@7..8 "*"
      Whitespace@8..9 " "
      PrefixExpr@9..17
        Minus@9..10 "-"
        RoundBracketExpr@10..17
          LRoundBracket@10..11 "("
          InfixExpr@11..16
            Literal@11..13
              Number@11..12 "8"
              Whitespace@12..13 " "
            Plus@13..14 "+"
            Whitespace@14..15 " "
            Literal@15..16
              Number@15..16 "2"
          RRoundBracket@16..17 ")""#,
    )
}
