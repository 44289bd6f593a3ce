use localhost_build::lexer::{LexError, Lexer};
use localhost_build::token::{GroupDefinition, Token, TokenKind};

fn tokens(script: &str, preprocessor: bool) -> Vec<TokenKind> {
    let mut lexer = Lexer::new(script.to_string(), preprocessor);
    let mut found = Vec::new();
    loop {
        let token = lexer.try_next_token().unwrap();
        if token.kind == TokenKind::EndOfText {
            return found;
        }
        found.push(token.kind);
    }
}

fn first_error(script: &str, preprocessor: bool) -> LexError {
    let mut lexer = Lexer::new(script.to_string(), preprocessor);
    loop {
        match lexer.try_next_token() {
            Err(e) => return e,
            Ok(token) => assert_ne!(token.kind, TokenKind::EndOfText),
        }
    }
}

fn command(text: &str) -> Token {
    Token::new(TokenKind::Command(text.to_string()))
}

#[test]
pub fn phases_and_commands_keep_their_markers() {
    assert_eq!(
        tokens("@build\n  :l hello world\r\n:q", false),
        vec![
            TokenKind::Phase("@build".to_string()),
            TokenKind::Command(":l hello world".to_string()),
            TokenKind::Command(":q".to_string()),
        ]
    );
}

#[test]
pub fn end_of_text_comes_again_and_again() {
    let mut lexer = Lexer::new(" \n\t".to_string(), false);
    assert_eq!(lexer.try_next_token(), Ok(Token::end()));
    assert_eq!(lexer.try_next_token(), Ok(Token::end()));
    assert!(!lexer.preprocessor());
    assert_eq!(Token::none().kind, TokenKind::Nothing);
}

#[test]
pub fn comments_are_passed_over() {
    assert_eq!(
        tokens("# a comment\n:l one # no comment\n#last", false),
        vec![TokenKind::Command(":l one # no comment".to_string())]
    );
}

#[test]
pub fn escapes_in_a_line() {
    assert_eq!(
        tokens(":l a\\nb \\$x \\q \\\\", false),
        vec![TokenKind::Command(":l a\nb \\$x \\q \\\\".to_string())]
    );
    assert_eq!(tokens(":l end\\", false), vec![TokenKind::Command(":l end\\".to_string())]);
    assert_eq!(
        tokens(":l goes\\\non\n:q", false),
        vec![TokenKind::Command(":l goes\\\non".to_string()), TokenKind::Command(":q".to_string())]
    );
}

#[test]
pub fn assignments() {
    assert_eq!(
        tokens("$a = rest of line\n$b-1 ?= \"quoted \\\" value\" \n$c whatever =\n$d   =   \n$e=", false),
        vec![
            TokenKind::Variable("a".to_string(), "rest of line".to_string()),
            TokenKind::VariableIfNotSet("b-1".to_string(), "quoted \" value".to_string()),
            TokenKind::Variable("c".to_string(), "$d   =   ".to_string()),
            TokenKind::Variable("e".to_string(), "".to_string()),
        ]
    );
    assert_eq!(
        tokens("$open = \"never closed\n:q", false),
        vec![TokenKind::Variable("open".to_string(), "never closed\n:q".to_string())]
    );
}

#[test]
pub fn assignment_without_equals_sign() {
    assert_eq!(first_error("$a", false), LexError::UnassignedVariable);
    assert_eq!(first_error("$a value", false), LexError::UnassignedVariable);
    assert_eq!(first_error("$a ? value", false), LexError::UnassignedVariable);
    assert_eq!(first_error("$a ?", false), LexError::UnassignedVariable);
}

#[test]
pub fn group_invocations() {
    assert_eq!(
        tokens("!test-1 carl \"two words\" $var-1 $ x\n:q", false),
        vec![
            TokenKind::ExecuteGroup(
                "test-1".to_string(),
                vec![
                    "carl".to_string(),
                    "two words".to_string(),
                    "$var-1".to_string(),
                    "$".to_string(),
                    "x".to_string(),
                ]
            ),
            TokenKind::Command(":q".to_string()),
        ]
    );
    assert_eq!(
        tokens("!test", false),
        vec![TokenKind::ExecuteGroup("test".to_string(), vec![])]
    );
    assert_eq!(
        tokens("!test carl \r\n!test \t\n!test \"\" ", false),
        vec![
            TokenKind::ExecuteGroup("test".to_string(), vec!["carl".to_string()]),
            TokenKind::ExecuteGroup("test".to_string(), vec![]),
            TokenKind::ExecuteGroup("test".to_string(), vec!["".to_string()]),
        ]
    );
}

#[test]
pub fn group_definitions_are_tokens_for_the_preprocessor_only() {
    let script = ":l before\n[test $var1 $var2\n  :l testing $var1\n  # comment\n  :q\n]\n:l after";
    assert_eq!(
        tokens(script, false),
        vec![TokenKind::Command(":l before".to_string()), TokenKind::Command(":l after".to_string())]
    );
    assert_eq!(
        tokens(script, true),
        vec![
            TokenKind::Command(":l before".to_string()),
            TokenKind::GroupDefinition(GroupDefinition {
                name: "test".to_string(),
                args: vec!["var1".to_string(), "var2".to_string()],
                commands: vec![command(":l testing $var1"), command(":q")],
            }),
            TokenKind::Command(":l after".to_string()),
        ]
    );
}

#[test]
pub fn what_follows_a_group_is_read_by_the_interpreter_too() {
    assert_eq!(tokens("[g\n:q\n]:l x", false), vec![TokenKind::Command(":l x".to_string())]);
    assert_eq!(
        tokens("[g\n:q\n]:l x", true),
        vec![
            TokenKind::GroupDefinition(GroupDefinition {
                name: "g".to_string(),
                args: vec![],
                commands: vec![command(":q")],
            }),
            TokenKind::Command(":l x".to_string()),
        ]
    );
    assert_eq!(first_error("[g\n]x", false), LexError::UnknownToken('x'));
}

#[test]
pub fn group_bodies_may_hold_phases_and_assignments() {
    assert_eq!(
        tokens("[g\n@p\n$a = 1\n:q\n]\n", true),
        vec![TokenKind::GroupDefinition(GroupDefinition {
            name: "g".to_string(),
            args: vec![],
            commands: vec![
                Token::new(TokenKind::Phase("@p".to_string())),
                Token::new(TokenKind::Variable("a".to_string(), "1".to_string())),
                command(":q"),
            ],
        })]
    );
}

#[test]
pub fn group_without_closing_bracket() {
    assert_eq!(first_error("[g\n:q\n", true), LexError::UnterminatedGroup);
    assert_eq!(first_error("[g\n:q", false), LexError::UnterminatedGroup);
    assert_eq!(first_error("[g", true), LexError::UnterminatedGroup);
}

#[test]
pub fn groups_may_not_call_or_define_groups() {
    assert_eq!(first_error("[g\n!other\n]\n", true), LexError::UnknownToken('!'));
    assert_eq!(first_error("[g\n[h\n]\n]\n", true), LexError::UnknownToken('['));
}

#[test]
pub fn unknown_tokens() {
    assert_eq!(first_error("x", false), LexError::UnknownToken('x'));
    assert_eq!(first_error(":q\n]", false), LexError::UnknownToken(']'));
    assert_eq!(first_error("&import(x)", false), LexError::UnknownToken('&'));
    assert_eq!(first_error("? x", false), LexError::Conditional);
    assert_eq!(first_error("[g\n?\n]\n", true), LexError::Conditional);
}

#[test]
pub fn an_error_leaves_the_lexer_where_it_was() {
    let mut lexer = Lexer::new(":q\nx".to_string(), false);
    assert_eq!(lexer.try_next_token().unwrap().kind, TokenKind::Command(":q".to_string()));
    assert_eq!(lexer.try_next_token(), Err(LexError::UnknownToken('x')));
    assert_eq!(lexer.try_next_token(), Err(LexError::UnknownToken('x')));
}

#[test]
pub fn every_byte_counts_as_a_character() {
    assert_eq!(
        tokens(":l \u{e9}", false),
        vec![TokenKind::Command(":l \u{c3}\u{a9}".to_string())]
    );
}

#[test]
pub fn tokens_can_be_copied() {
    let all = tokens("[g $a\n:q\n]\n", true);
    let token = Token::new(all.into_iter().next().unwrap());
    assert_eq!(token.clone(), token);
}

#[test]
pub fn tokens_of_a_script_that_holds_nothing_else() {
    let mut lexer = Lexer::new("@p\n:q".to_string(), false);
    assert_eq!(lexer.next_token().kind, TokenKind::Phase("@p".to_string()));
    assert_eq!(lexer.next_token().kind, TokenKind::Command(":q".to_string()));
    assert_eq!(lexer.next_token(), Token::end());
    assert_eq!(lexer.next_token(), Token::end());
}
