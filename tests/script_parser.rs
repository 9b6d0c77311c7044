use sentience::lexer::{Lexer, TokenType};
use sentience::parser::Parser;
use sentience::types::Statement;
use sentience::SentienceAgent;

#[test]
fn parse_simple_agent() {
    let input = r#"
            agent Echo {
              mem short
              goal: "Store and reflect"
              on input(msg) {
                embed msg -> mem.short
                reflect { mem.short["msg"] }
              }
              train {
                print "Training"
              }
            }
        "#;
    let lexer = Lexer::new(input);
    let mut parser = Parser::new(lexer);
    let program = parser.parse_program();

    assert_eq!(program.statements.len(), 1);
    match &program.statements[0] {
        Statement::AgentDeclaration { name, body } => {
            assert_eq!(name, "Echo");
            assert!(
                body.iter().any(|s| {
                    matches!(
                        s,
                        Statement::MemDeclaration { target } if target == "short"
                    )
                }),
                "expected MemDeclaration {{ target: \"short\" }}"
            );
            assert!(
                body.iter()
                    .any(|s| { matches!(s, Statement::Goal(g) if g == "Store and reflect") }),
                "expected Goal(\"Store and reflect\")"
            );
            assert!(
                body.iter().any(|s| {
                    matches!(
                        s,
                        Statement::OnInput { param, body: _ } if param == "msg"
                    )
                }),
                "expected OnInput {{ param: \"msg\" }}"
            );
            assert!(
                body.iter()
                    .any(|s| matches!(s, Statement::Train { body: _ })),
                "expected Train {{ body }}"
            );
        }
        _ => panic!("Expected AgentDeclaration"),
    }
}

#[test]
fn lexer_reads_arrows_and_keywords() {
    let mut lexer = Lexer::new("embed msg -> mem.short <-> x = \"hi\"");
    let mut kinds = Vec::new();
    loop {
        let t = lexer.next_token();
        if t.token_type == TokenType::Eof {
            break;
        }
        kinds.push((t.token_type, t.literal));
    }
    assert_eq!(kinds[0], (TokenType::Embed, "embed".to_string()));
    assert_eq!(kinds[1], (TokenType::Ident, "msg".to_string()));
    assert_eq!(kinds[2], (TokenType::Arrow, "->".to_string()));
    assert_eq!(kinds[3], (TokenType::Mem, "mem".to_string()));
    assert_eq!(kinds[4], (TokenType::Dot, ".".to_string()));
    assert_eq!(kinds[5], (TokenType::Ident, "short".to_string()));
    assert_eq!(kinds[6], (TokenType::LinkArrow, "<->".to_string()));
    assert_eq!(kinds[7], (TokenType::Ident, "x".to_string()));
    assert_eq!(kinds[8], (TokenType::Equal, "=".to_string()));
    assert_eq!(kinds[9], (TokenType::String, "hi".to_string()));
}

#[test]
fn lookup_ident_keywords() {
    assert_eq!(sentience::lexer::lookup_ident("agent"), TokenType::Agent);
    assert_eq!(sentience::lexer::lookup_ident("evolve"), TokenType::Evolve);
    assert_eq!(sentience::lexer::lookup_ident("agents"), TokenType::Ident);
}

#[test]
fn agent_registers_and_echoes_input() {
    let mut agent = SentienceAgent::new();
    let out = agent
        .run_sentience(
            "agent Echo { mem short goal: \"Echo back\" on input(msg) { reflect { mem.short[\"msg\"] } } }",
        )
        .unwrap();
    assert_eq!(
        out,
        "Agent: Echo\n  Init mem: short\n  Goal: \"Echo back\"\nAgent: Echo [registered]"
    );
    assert_eq!(agent.handle_input("hello there"), Some("  ".to_string()));
    agent.set_short("msg", "hello there");
    assert_eq!(agent.handle_input("ignored"), Some("  hello there".to_string()));
}

#[test]
fn handle_input_without_agent_is_none() {
    let mut agent = SentienceAgent::new();
    assert_eq!(agent.handle_input("x"), None);
}

#[test]
fn memory_set_and_get() {
    let mut agent = SentienceAgent::new();
    agent.set_short("a", "1");
    agent.set_short("a", "2");
    agent.set_long("b", "3");
    assert_eq!(agent.get_short("a"), "2");
    assert_eq!(agent.get_long("b"), "3");
    assert_eq!(agent.get_short("b"), "");
    assert_eq!(agent.all_short(), vec![("a".to_string(), "2".to_string())]);
    assert_eq!(agent.all_long(), vec![("b".to_string(), "3".to_string())]);
}

#[test]
fn assignment_and_output() {
    let mut agent = SentienceAgent::new();
    let out = agent.run_sentience("greeting = \"hi\" output = input print \"done\"").unwrap();
    assert_eq!(out, "\ndone");
    assert_eq!(agent.get_short("greeting"), "hi");
}

#[test]
fn if_context_includes_runs_body_on_match() {
    let mut agent = SentienceAgent::new();
    let out = agent
        .run_sentience(
            "agent A { on input(msg) { if context includes [\"hello\", \"hi\" ] { print \"greeted\" } } }",
        )
        .unwrap();
    assert!(out.ends_with("[registered]"));
    agent.set_short("msg", "oh hello");
    assert_eq!(agent.handle_input("x"), Some("greeted".to_string()));
    agent.set_short("msg", "bye");
    assert_eq!(agent.handle_input("x"), Some("".to_string()));
}

#[test]
fn lexer_token_sequence() {
    let mut l = Lexer::new(r#"agent Echo { goal: "hi" embed msg -> mem.short } <-> 42"#);
    let expected = [
        (TokenType::Agent, "agent"),
        (TokenType::Ident, "Echo"),
        (TokenType::LBrace, "{"),
        (TokenType::Goal, "goal"),
        (TokenType::Colon, ":"),
        (TokenType::String, "hi"),
        (TokenType::Embed, "embed"),
        (TokenType::Ident, "msg"),
        (TokenType::Arrow, "->"),
        (TokenType::Mem, "mem"),
        (TokenType::Dot, "."),
        (TokenType::Ident, "short"),
        (TokenType::RBrace, "}"),
        (TokenType::LinkArrow, "<->"),
        (TokenType::String, "42"),
        (TokenType::Eof, ""),
    ];
    for (tt, lit) in expected {
        let t = l.next_token();
        assert_eq!((t.token_type, t.literal.as_str()), (tt, lit));
    }
}

#[test]
fn parse_if_context_includes_values() {
    let mut p = Parser::new(Lexer::new(r#"if context includes ["a" "b" ] { print "x" }"#));
    let program = p.parse_program();
    assert_eq!(program.statements.len(), 1);
    match &program.statements[0] {
        Statement::IfContextIncludes { values, body } => {
            assert_eq!(values, &vec!["a".to_string(), "b".to_string()]);
            assert!(matches!(&body[..], [Statement::Print(t)] if t == "x"));
        }
        other => panic!("unexpected {:?}", other),
    }
}
