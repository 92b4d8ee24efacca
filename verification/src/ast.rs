use vstd::prelude::*;

verus! {

/// A 1-based line/column position in the source text.
#[derive(Clone, Copy, Debug, PartialEq, Eq, Structural)]
pub struct Pos {
    pub line: usize,
    pub column: usize,
}

/// The span of a construct in the source text, from its first character to
/// the position just past its last character.
#[derive(Clone, Copy, Debug, PartialEq, Eq, Structural)]
pub struct SourceInfo {
    pub start: Pos,
    pub end: Pos,
}

impl SourceInfo {
    pub fn init(line_start: usize, column_start: usize, line_end: usize, column_end: usize) -> (r:
        SourceInfo)
        ensures
            r == (SourceInfo {
                start: Pos { line: line_start, column: column_start },
                end: Pos { line: line_end, column: column_end },
            }),
    {
        SourceInfo {
            start: Pos { line: line_start, column: column_start },
            end: Pos { line: line_end, column: column_end },
        }
    }
}

/// Whitespace captured verbatim, with its span.
#[derive(Debug)]
pub struct Whitespace {
    pub value: String,
    pub source_info: SourceInfo,
}

/// A file name (a path fragment), with its span.
#[derive(Debug)]
pub struct Filename {
    pub value: String,
    pub source_info: SourceInfo,
}

/// One segment of a templated string: either fixed text or a reference to a
/// variable that is resolved at run time.
#[derive(Debug)]
pub enum TemplateElement {
    Str { value: String },
    Variable { name: String },
}

impl TemplateElement {
    /// The resolved text of this segment under `env`, if it resolves.
    pub open spec fn resolved(self, env: Map<Seq<char>, Seq<char>>) -> Option<Seq<char>> {
        match self {
            TemplateElement::Str { value } => Some(value@),
            TemplateElement::Variable { name } => if env.contains_key(name@) {
                Some(env[name@])
            } else {
                None
            },
        }
    }
}

/// A string value made of literal segments and variable references.
#[derive(Debug)]
pub struct Template {
    pub quotes: bool,
    pub elements: Vec<TemplateElement>,
    pub source_info: SourceInfo,
}

/// The body content of a request: exactly one variant is active.
#[derive(Debug)]
pub enum Bytes {
    RawString { newline: Whitespace, value: Template },
    Json { value: crate::parser::json::Value },
    Xml { value: String },
    Base64 { space0: Whitespace, value: Vec<u8>, encoded: String, space1: Whitespace },
    File { space0: Whitespace, filename: Filename, space1: Whitespace },
}

} // verus!
