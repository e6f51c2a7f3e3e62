//! Optional and named arguments for functions and structs.
//!
//! A declaration marks a trailing run of its parameters as optional, each with an
//! explicit default expression or an implicit zero value. From it this library
//! builds a dispatcher: an ordered table of invocation shapes, each paired with the
//! fully resolved call or construction, followed by a catch-all that reports an
//! unrecognised shape. The dispatcher is rendered as the text of a `macro_rules!`
//! macro, and it can also resolve invocations directly.

pub mod parser;
pub mod validate;
pub mod combinations;
pub mod branches;
pub mod text;
pub mod dispatcher;
pub mod expand;
pub mod render;

pub use parser::{GenericOptArg, OptArgsAttributes, OptArgsItemFn, OptArgsItemStruct, OptArgsItemType};
pub use validate::{split_args, OptionalArg, Signature, StructuralError, IMPLICIT_DEFAULT};
pub use combinations::compute_combinations;
pub use branches::{macro_branches, synthesize_branch, Arm, Branch, Slot};
pub use dispatcher::{Dispatcher, Invocation, UnmatchedInvocation};
pub use expand::{build_dispatcher, internal};
