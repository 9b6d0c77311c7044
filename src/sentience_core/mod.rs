//! The core pipeline: canonical AST, content hashing, structural fingerprints,
//! the executor that judges and commits candidates, and the orchestrator that
//! chains them.

pub mod ast;
pub mod canonicalizer;
pub mod canonical_laws;
pub mod hasher;
pub mod symbolic_encoder;
pub mod runtime;
pub mod executor;
pub mod laws;
pub mod parser;

use vstd::prelude::*;

use crate::sentience_core::ast::SentienceTokenAst;
use crate::sentience_core::canonicalizer::canon_ast;
use crate::sentience_core::executor::{current_timestamp, execute_at, step_post};
use crate::sentience_core::hasher::{is_hex_id, record_id};
use crate::sentience_core::parser::{first_node, split_lines};
use crate::sentience_core::runtime::{
    Cortex, ExecutionError, ExecutionResult, RefNet, Runtime, Superego,
};
use crate::sentience_core::symbolic_encoder::fingerprint;

verus! {

/// What a whole step from `src` at time `now` owes, from a core whose
/// runtime was `before` and is `after` once the step is over.
pub open spec fn process_post<C: Cortex, N: RefNet, S: Superego>(
    before: Runtime<C, N, S>,
    after: Runtime<C, N, S>,
    src: Seq<char>,
    now: u64,
    r: Result<ExecutionResult, ExecutionError>,
) -> bool {
    match first_node(split_lines(src), 0) {
        None => r matches Err(ExecutionError::Parse(e)) && e@ == "No valid tokens found in input"@
            && after == before,
        Some(a) => {
            let c = canon_ast(a);
            &&& step_post(before.cortex, after.cortex, before.refnet, before.superego, c, now, r)
            &&& after.refnet == before.refnet
            &&& after.superego == before.superego
            &&& r matches Ok(res) ==> {
                &&& res.token_id matches Some(id) && id@ == record_id(c)
                &&& res.embedding matches Some(e) && e@ == fingerprint(c)
            }
        },
    }
}

/// The pipeline: parse, canonicalize, identify, fingerprint, execute.
pub struct SentienceCore<C, N, S> {
    pub runtime: Runtime<C, N, S>,
}

impl<C: Cortex, N: RefNet, S: Superego> SentienceCore<C, N, S> {
    pub fn new(runtime: Runtime<C, N, S>) -> (r: Self)
        ensures
            r.runtime == runtime,
    {
        SentienceCore { runtime }
    }

    /// The node of the first line of `src` that describes one.
    pub fn parse(&self, src: &str) -> (r: Result<SentienceTokenAst, String>)
        ensures
            match first_node(split_lines(src@), 0) {
                Some(a) => r matches Ok(n) && n@ == a,
                None => r matches Err(e) && e@ == "No valid tokens found in input"@,
            },
    {
        crate::sentience_core::parser::parse_program(src)
    }

    pub fn canonicalize(&self, ast: &SentienceTokenAst) -> (r: SentienceTokenAst)
        ensures
            r@ == canon_ast(ast@),
    {
        crate::sentience_core::canonicalizer::canonicalize(ast)
    }

    /// The content identifier of a canonical node.
    pub fn hash(&self, canon: &SentienceTokenAst) -> (r: String)
        ensures
            r@ == record_id(canon@),
            is_hex_id(r@, "mem_"@),
    {
        crate::sentience_core::hasher::token_hash(canon)
    }

    /// The fingerprint of a canonical node.
    pub fn embed(&self, canon: &SentienceTokenAst) -> (r: Vec<u16>)
        ensures
            r@ == fingerprint(canon@),
            r@.len() == 256,
    {
        crate::sentience_core::symbolic_encoder::encode(canon)
    }

    /// Executes a node against the runtime, stamped with the system clock.
    pub fn execute(&mut self, ast: &SentienceTokenAst) -> (r: Result<ExecutionResult, ExecutionError>)
        ensures
            exists|now: u64|
                step_post(
                    old(self).runtime.cortex,
                    final(self).runtime.cortex,
                    old(self).runtime.refnet,
                    old(self).runtime.superego,
                    ast@,
                    now,
                    r,
                ),
    {
        let now = current_timestamp();
        let r = execute_at(ast, &mut self.runtime, now);
        assert(step_post(
            old(self).runtime.cortex,
            self.runtime.cortex,
            old(self).runtime.refnet,
            old(self).runtime.superego,
            ast@,
            now,
            r,
        ));
        r
    }

    /// One step at time `now`: parse `src`, canonicalize the node, compute
    /// its identifier and fingerprint, execute it, and attach both to the result.
    pub fn process_step_at(&mut self, src: &str, now: u64) -> (r: Result<ExecutionResult, ExecutionError>)
        ensures
            process_post(old(self).runtime, final(self).runtime, src@, now, r),
    {
        let ast = match self.parse(src) {
            Ok(a) => a,
            Err(e) => {
                return Err(ExecutionError::Parse(e));
            },
        };
        let canon = self.canonicalize(&ast);
        let token_id = self.hash(&canon);
        let embedding = self.embed(&canon);
        let mut result = match execute_at(&canon, &mut self.runtime, now) {
            Ok(res) => res,
            Err(e) => {
                return Err(e);
            },
        };
        result.token_id = Some(token_id);
        result.embedding = Some(embedding);
        Ok(result)
    }

    /// One step, stamped with the system clock.
    pub fn process_step(&mut self, src: &str) -> (r: Result<ExecutionResult, ExecutionError>)
        ensures
            exists|now: u64| process_post(old(self).runtime, final(self).runtime, src@, now, r),
    {
        let now = current_timestamp();
        self.process_step_at(src, now)
    }
}

} // verus!
