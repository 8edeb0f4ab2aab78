//! Generic completion items: the plain data a feature provider fills in for
//! each suggestion, independent of any protocol shape.

use vstd::prelude::*;

verus! {

/// The kind a completion item advertises to the editor.
#[derive(Clone, Copy, Debug, PartialEq, Eq, Structural)]
pub enum CmpKind {
    Text,
    Method,
    Function,
    Constructor,
    Field,
    Variable,
    Class,
    Interface,
    Module,
    Property,
    Unit,
    Value,
    Enum,
    Keyword,
    Snippet,
    Color,
    File,
    Reference,
    Folder,
    EnumMember,
    Constant,
    Struct,
    Event,
    Operator,
    TypeParameter,
}

/// One completion suggestion: its label, the short detail shown beside it,
/// its kind, its documentation in markdown, and the snippet inserted when
/// the suggestion is taken.
pub struct TypCmpItem {
    pub label: String,
    pub label_details: String,
    pub kind: CmpKind,
    pub documentation: String,
    pub insert_text: String,
}

impl TypCmpItem {
    /// Build one suggestion from its parts.
    pub fn new(
        label: String,
        label_details: String,
        kind: CmpKind,
        documentation: String,
        insert_text: String,
    ) -> (r: TypCmpItem)
        ensures
            r.label@ == label@,
            r.label_details@ == label_details@,
            r.kind == kind,
            r.documentation@ == documentation@,
            r.insert_text@ == insert_text@,
    {
        TypCmpItem { label, label_details, kind, documentation, insert_text }
    }
}

} // verus!
