//! The normalized form of an annotated declaration, as the parser hands it over.
use vstd::prelude::*;

verus! {

/// One parameter (of a function) or field (of a struct).
///
/// Expressions and names are kept as source text: the engine never looks inside
/// them, it only echoes them back into generated code.
#[derive(Clone, Debug)]
pub struct GenericOptArg {
    /// The parameter's name.
    pub ident: String,
    /// The explicit default expression (`name: T = expr`), if any.
    pub value: Option<String>,
    /// Marked optional without a default (`name: T?`): the zero value is used.
    pub default: bool,
}

impl GenericOptArg {
    /// A parameter is optional when it has an explicit default or is marked `?`.
    pub open spec fn spec_is_optional(&self) -> bool {
        self.value is Some || self.default
    }

    pub fn is_optional(&self) -> (r: bool)
        ensures
            r == self.spec_is_optional(),
    {
        self.value.is_some() || self.default
    }
}

/// A function declaration: its name and its parameters in declaration order.
#[derive(Clone, Debug)]
pub struct OptArgsItemFn {
    pub ident: String,
    pub inputs: Vec<GenericOptArg>,
}

/// A struct declaration: its name and its fields in declaration order.
#[derive(Clone, Debug)]
pub struct OptArgsItemStruct {
    pub ident: String,
    pub fields: Vec<GenericOptArg>,
}

/// The declaration that carries optional parameters.
#[derive(Clone, Debug)]
pub enum OptArgsItemType {
    ItemFn(OptArgsItemFn),
    ItemStruct(OptArgsItemStruct),
}

impl OptArgsItemType {
    pub open spec fn spec_ident(&self) -> Seq<char> {
        match self {
            OptArgsItemType::ItemFn(f) => f.ident@,
            OptArgsItemType::ItemStruct(s) => s.ident@,
        }
    }

    /// The parameters (or fields) in declaration order.
    pub open spec fn spec_args(&self) -> Seq<GenericOptArg> {
        match self {
            OptArgsItemType::ItemFn(f) => f.inputs@,
            OptArgsItemType::ItemStruct(s) => s.fields@,
        }
    }

    /// Whether the target is called (`f(..)`) rather than constructed (`S { .. }`).
    pub open spec fn spec_is_function(&self) -> bool {
        self is ItemFn
    }

    pub fn ident(&self) -> (r: &String)
        ensures
            r@ == self.spec_ident(),
    {
        match self {
            OptArgsItemType::ItemFn(item_fn) => &item_fn.ident,
            OptArgsItemType::ItemStruct(item_struct) => &item_struct.ident,
        }
    }

    pub fn args(&self) -> (r: &Vec<GenericOptArg>)
        ensures
            r@ == self.spec_args(),
    {
        match self {
            OptArgsItemType::ItemFn(item_fn) => &item_fn.inputs,
            OptArgsItemType::ItemStruct(item_struct) => &item_struct.fields,
        }
    }

    pub fn is_function(&self) -> (r: bool)
        ensures
            r == self.spec_is_function(),
    {
        match self {
            OptArgsItemType::ItemFn(_) => true,
            OptArgsItemType::ItemStruct(_) => false,
        }
    }
}

/// Declaration-level options.
#[derive(Clone, Debug)]
pub struct OptArgsAttributes {
    /// Accept named arguments in any order, not only in declaration order.
    pub shuffle: bool,
    /// Do not export the generated macro.
    pub non_export: bool,
    /// Bind the dispatcher to this name instead of the declaration's.
    pub rename: Option<String>,
}

} // verus!
