//! The context capability: the caller-supplied resolver that maps a
//! variable path to a tree fragment. The engine may call it many times
//! for one path, including speculatively during constant folding, so a
//! resolver must answer the same path the same way throughout one parse
//! or evaluation; the specification function of the trait pins that
//! down.
use vstd::prelude::*;

use crate::parser::{Ast, AstV};

verus! {

/// The view of a resolver's answer.
pub open spec fn ctx_res_view(r: Result<Ast, String>) -> Result<AstV, Seq<char>> {
    match r {
        Ok(a) => Ok(a@),
        Err(e) => Err(e@),
    }
}

/// A resolver from variable paths to tree fragments; an implementation
/// answers with a numeric leaf or a flat list, or with the empty marker
/// to signal that it resolves nothing.
pub trait KilaCtx: Sized {
    /// What this resolver answers for a path.
    spec fn spec_get(&self, path: Seq<char>) -> Result<AstV, Seq<char>>;

    /// Resolve one path.
    fn get(&self, s: String) -> (r: Result<Ast, String>)
        ensures
            ctx_res_view(r) == self.spec_get(s@),
    ;
}

/// The resolver that resolves nothing: every path answers with the
/// empty marker, which evaluation then reports as an error. It serves
/// structural tests and inputs without variable references.
#[derive(Debug, Clone)]
pub struct EmptyCtx;

impl KilaCtx for EmptyCtx {
    open spec fn spec_get(&self, path: Seq<char>) -> Result<AstV, Seq<char>> {
        Ok(AstV::Empty)
    }

    fn get(&self, s: String) -> (r: Result<Ast, String>) {
        Ok(Ast::Empty)
    }
}

} // verus!
