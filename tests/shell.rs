use sentience::context::AgentContext;
use sentience::eval::eval;
use sentience::lexer::Lexer;
use sentience::parser::Parser;
use sentience::repl::{brace_counts, handle_command, split_command};

fn load(ctx: &mut AgentContext, src: &str) -> Vec<String> {
    let mut parser = Parser::new(Lexer::new(src));
    let program = parser.parse_program();
    let mut out = Vec::new();
    for s in &program.statements {
        eval(s, "", "", ctx, &mut out);
    }
    out
}

#[test]
fn braces_are_counted() {
    assert_eq!(brace_counts("agent A { on input(x) {"), (2, 0));
    assert_eq!(brace_counts("} }"), (0, 2));
    assert_eq!(brace_counts(""), (0, 0));
}

#[test]
fn commands_split() {
    assert_eq!(split_command(".input  hello world "), ("input".to_string(), "hello world".to_string()));
    assert_eq!(split_command(".train"), ("train".to_string(), "".to_string()));
}

#[test]
fn commands_need_an_agent() {
    let mut ctx = AgentContext::new();
    assert_eq!(handle_command(".input hi", &mut ctx), vec!["No agent registered.".to_string()]);
}

#[test]
fn input_command_runs_handler() {
    let mut ctx = AgentContext::new();
    load(&mut ctx, "agent Echo { on input(msg) { reflect { mem.short[\"msg\"] } } train { print \"Training\" } }");
    assert_eq!(handle_command(".input hello", &mut ctx), vec!["    hello".to_string()]);
    assert_eq!(ctx.get_mem("short", "msg"), "hello");
    assert_eq!(handle_command(".train x", &mut ctx), vec!["  Training".to_string()]);
    assert_eq!(handle_command(".evolve x", &mut ctx), vec!["Agent has no evolve block.".to_string()]);
}

#[test]
fn context_memories() {
    let mut ctx = AgentContext::new();
    ctx.set_mem("short", "k", "v");
    ctx.set_mem("long", "k", "w");
    ctx.set_mem("other", "k", "z");
    assert_eq!(ctx.get_mem("short", "k"), "v");
    assert_eq!(ctx.get_mem("long", "k"), "w");
    assert_eq!(ctx.get_mem("other", "k"), "");
    assert_eq!(ctx.entries("short"), vec![("k".to_string(), "v".to_string())]);
}

#[test]
fn links_are_kept() {
    let mut ctx = AgentContext::new();
    ctx.set_link("a", "b");
    ctx.set_link("a", "c");
    assert_eq!(ctx.link_entries(), vec![("a".to_string(), "c".to_string())]);
}
