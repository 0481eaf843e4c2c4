//! The context of a request.
//!
//! A request comes with a context of the `io_context` crate that carries
//! its deadline and its cancelation. The worker freezes the context of a
//! request and hands children of it to what it calls on behalf of the
//! request. The library never looks into a context.
use std::sync::Arc;
use vstd::prelude::*;

verus! {

/// `io_context::Context`, as a type whose content the verifier does not see.
#[verifier::external_type_specification]
#[verifier::external_body]
pub struct ExContext(io_context::Context);

/// `io_context::Context::freeze` wraps the context in an `Arc` so that
/// children can be made of it. Nothing is claimed about the result.
pub assume_specification[ io_context::Context::freeze ](ctx: io_context::Context) -> (frozen: Arc<
    io_context::Context,
>);

/// `io_context::Context::create_child` makes a new context with the given
/// one as its parent. Nothing is claimed about the result.
pub assume_specification[ io_context::Context::create_child ](
    parent_ctx: &Arc<io_context::Context>,
) -> (child: io_context::Context);

} // verus!
