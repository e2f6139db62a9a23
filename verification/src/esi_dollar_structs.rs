use vstd::prelude::*;
use vstd::string::StringExecFns;

verus! {

/// A parsed dollar-expression document: a list of plain text runs and
/// function calls, in source order.
#[derive(Debug)]
pub struct EsiData {
    pub elements: Vec<TextOrFunction>,
}

/// One piece of a dollar-expression document.
#[derive(Debug)]
pub enum TextOrFunction {
    Text(String),
    Function(Function),
}

/// A function call: its name and its arguments.
#[derive(Debug)]
pub struct Function {
    pub name: String,
    pub args: Vec<Arg>,
}

/// One argument of a function call: a nested call or plain text.
#[derive(Debug)]
pub enum Arg {
    Function(Function),
    Text(String),
}

impl EsiData {
    /// A document with no pieces.
    pub fn new() -> (r: Self)
        ensures
            r.elements@.len() == 0,
    {
        EsiData { elements: Vec::new() }
    }

    /// A document holding one text run.
    pub fn from_text(text: &str) -> (r: Self)
        ensures
            r.elements@.len() == 1,
            r.elements@[0] matches TextOrFunction::Text(t) && t@ == text@,
    {
        let mut elements: Vec<TextOrFunction> = Vec::new();
        elements.push(TextOrFunction::Text(text.to_owned()));
        EsiData { elements }
    }
}

} // verus!
