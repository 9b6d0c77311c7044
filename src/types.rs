//! The syntax tree of the agent scripting language.

use vstd::prelude::*;

verus! {

/// A parsed script.
#[derive(Debug)]
pub struct Program {
    pub statements: Vec<Statement>,
}

/// A statement of the agent scripting language.
#[derive(Debug)]
pub enum Statement {
    AgentDeclaration { name: String, body: Vec<Statement> },
    MemDeclaration { target: String },
    OnInput { param: String, body: Vec<Statement> },
    Reflect { body: Vec<Statement> },
    ReflectAccess { mem_target: String, key: String },
    Train { body: Vec<Statement> },
    Evolve { body: Vec<Statement> },
    Goal(String),
    Embed { source: String, target: String },
    IfContextIncludes { values: Vec<String>, body: Vec<Statement> },
    Print(String),
    Assignment(String, String),
    Unknown(String),
}

fn copy_strings(v: &Vec<String>) -> Vec<String> {
    let mut r: Vec<String> = Vec::new();
    let mut i: usize = 0;
    while i < v.len()
        decreases v@.len() - i,
    {
        r.push(v[i].clone());
        i = i + 1;
    }
    r
}

/// Whether `s` declares an agent with an input handler in its body.
pub open spec fn has_input_handler(s: Statement) -> bool {
    s matches Statement::AgentDeclaration { body, .. } && exists|i: int|
        0 <= i < body@.len() && #[trigger] body@[i] is OnInput
}

fn copy_body(b: &Vec<Statement>) -> (r: Vec<Statement>)
    ensures
        r@.len() == b@.len(),
        forall|i: int| 0 <= i < b@.len() ==> (#[trigger] r@[i] is OnInput <==> b@[i] is OnInput),
    decreases b,
{
    let mut r: Vec<Statement> = Vec::new();
    let mut i: usize = 0;
    while i < b.len()
        invariant
            i <= b@.len(),
            r@.len() == i,
            forall|j: int| 0 <= j < i ==> (#[trigger] r@[j] is OnInput <==> b@[j] is OnInput),
        decreases b@.len() - i,
    {
        proof {
            vstd::std_specs::vec::axiom_vec_index_decreases(*b, i as int);
        }
        r.push(copy_statement(&b[i]));
        i = i + 1;
    }
    r
}

fn copy_statement(s: &Statement) -> (r: Statement)
    ensures
        r is OnInput <==> s is OnInput,
        r is AgentDeclaration <==> s is AgentDeclaration,
        has_input_handler(r) == has_input_handler(*s),
    decreases s,
{
    match s {
        Statement::AgentDeclaration { name, body } => {
            let copied = copy_body(body);
            proof {
                if has_input_handler(*s) {
                    let i = choose|i: int| 0 <= i < body@.len() && #[trigger] body@[i] is OnInput;
                    assert(copied@[i] is OnInput);
                }
                if exists|i: int| 0 <= i < copied@.len() && #[trigger] copied@[i] is OnInput {
                    let i = choose|i: int| 0 <= i < copied@.len() && #[trigger] copied@[i] is OnInput;
                    assert(body@[i] is OnInput);
                }
            }
            Statement::AgentDeclaration { name: name.clone(), body: copied }
        },
        Statement::MemDeclaration { target } => Statement::MemDeclaration { target: target.clone() },
        Statement::OnInput { param, body } => Statement::OnInput {
            param: param.clone(),
            body: copy_body(body),
        },
        Statement::Reflect { body } => Statement::Reflect { body: copy_body(body) },
        Statement::ReflectAccess { mem_target, key } => Statement::ReflectAccess {
            mem_target: mem_target.clone(),
            key: key.clone(),
        },
        Statement::Train { body } => Statement::Train { body: copy_body(body) },
        Statement::Evolve { body } => Statement::Evolve { body: copy_body(body) },
        Statement::Goal(g) => Statement::Goal(g.clone()),
        Statement::Embed { source, target } => Statement::Embed {
            source: source.clone(),
            target: target.clone(),
        },
        Statement::IfContextIncludes { values, body } => Statement::IfContextIncludes {
            values: copy_strings(values),
            body: copy_body(body),
        },
        Statement::Print(t) => Statement::Print(t.clone()),
        Statement::Assignment(a, b) => Statement::Assignment(a.clone(), b.clone()),
        Statement::Unknown(t) => Statement::Unknown(t.clone()),
    }
}

impl Clone for Statement {
    fn clone(&self) -> (r: Self)
        ensures
            has_input_handler(r) == has_input_handler(*self),
    {
        copy_statement(self)
    }
}

impl Clone for Program {
    fn clone(&self) -> Self {
        Program { statements: copy_body(&self.statements) }
    }
}

} // verus!
