//! The shape of a tool that the model can call.

use vstd::prelude::*;

use crate::text::{owned, texts};

verus! {

/// The type of a tool's argument.
#[derive(Debug, PartialEq, Eq)]
pub enum ArgumentType {
    Text,
    Integer,
    /// One of these texts.
    TextEnum(Vec<String>),
    TextList,
}

/// One argument of a tool.
#[derive(Debug, PartialEq, Eq)]
pub struct ToolArgument {
    pub name: String,
    pub argument_type: ArgumentType,
    pub description: String,
}

/// A tool that the model can call: an object of arguments, and none besides.
#[derive(Debug, PartialEq, Eq)]
pub struct ToolDefinition {
    pub name: String,
    pub description: String,
    pub strict: bool,
    /// The arguments, in the order of their names.
    pub arguments: Vec<ToolArgument>,
    pub required: Vec<String>,
    pub additional_properties: bool,
}

/// The texts of an [`ArgumentType`].
pub enum TypeView {
    Text,
    Integer,
    TextEnum(Seq<Seq<char>>),
    TextList,
}

/// The texts of a [`ToolArgument`].
pub struct ArgumentView {
    pub name: Seq<char>,
    pub argument_type: TypeView,
    pub description: Seq<char>,
}

/// The texts of a [`ToolDefinition`].
pub struct ToolView {
    pub name: Seq<char>,
    pub description: Seq<char>,
    pub strict: bool,
    pub arguments: Seq<ArgumentView>,
    pub required: Seq<Seq<char>>,
    pub additional_properties: bool,
}

impl View for ArgumentType {
    type V = TypeView;

    open spec fn view(&self) -> TypeView {
        match *self {
            ArgumentType::Text => TypeView::Text,
            ArgumentType::Integer => TypeView::Integer,
            ArgumentType::TextEnum(values) => TypeView::TextEnum(texts(values@)),
            ArgumentType::TextList => TypeView::TextList,
        }
    }
}

impl View for ToolArgument {
    type V = ArgumentView;

    open spec fn view(&self) -> ArgumentView {
        ArgumentView {
            name: self.name@,
            argument_type: self.argument_type@,
            description: self.description@,
        }
    }
}

impl View for ToolDefinition {
    type V = ToolView;

    open spec fn view(&self) -> ToolView {
        ToolView {
            name: self.name@,
            description: self.description@,
            strict: self.strict,
            arguments: Seq::new(self.arguments@.len(), |i: int| self.arguments@[i]@),
            required: texts(self.required@),
            additional_properties: self.additional_properties,
        }
    }
}

/// An argument.
pub fn argument(name: &str, argument_type: ArgumentType, description: &str) -> (r: ToolArgument)
    ensures
        r@ == (ArgumentView {
            name: name@,
            argument_type: argument_type@,
            description: description@,
        }),
{
    ToolArgument { name: owned(name), argument_type, description: owned(description) }
}

/// A tool that is not strict and takes no other arguments.
pub fn tool(
    name: &str,
    description: &str,
    arguments: Vec<ToolArgument>,
    required: Vec<String>,
) -> (r: ToolDefinition)
    ensures
        r@ == (ToolView {
            name: name@,
            description: description@,
            strict: false,
            arguments: Seq::new(arguments@.len(), |i: int| arguments@[i]@),
            required: texts(required@),
            additional_properties: false,
        }),
{
    ToolDefinition {
        name: owned(name),
        description: owned(description),
        strict: false,
        arguments,
        required,
        additional_properties: false,
    }
}

} // verus!
