//! Classification of lexed tokens and of the statements they form.

use vstd::prelude::*;

verus! {

/// Kind of a token or of a statement.
///
/// Token kinds come first: the trivia family, the end-of-buffer marker,
/// punctuation (named by ASCII code point), literals and keywords.
/// Statement kinds, all ending in `Stmt`, follow.
#[derive(Clone, Copy, PartialEq, Eq, Debug, Hash, Structural)]
pub enum SyntaxKind {
    // trivia
    Whitespace,
    Newline,
    Tab,
    SqlComment,
    CComment,
    // stands for the token under a cursor that is past the last one
    Eof,
    // punctuation
    /// `(`
    Ascii40,
    /// `)`
    Ascii41,
    /// `*`
    Ascii42,
    /// `,`
    Ascii44,
    /// `.`
    Ascii46,
    /// `;`
    Ascii59,
    /// `=`
    Ascii61,
    // identifiers and literals
    Ident,
    Iconst,
    Fconst,
    Sconst,
    // keywords
    All,
    Alter,
    As,
    BeginP,
    By,
    Create,
    DeleteP,
    Distinct,
    Drop,
    EndP,
    Except,
    From,
    Function,
    Index,
    Insert,
    Intersect,
    Into,
    Not,
    Null,
    On,
    Or,
    Order,
    Replace,
    Returns,
    Select,
    Table,
    Union,
    Update,
    Values,
    View,
    Where,
    // statements
    AlterTableStmt,
    CreateFunctionStmt,
    CreateStmt,
    DeleteStmt,
    DropStmt,
    IndexStmt,
    InsertStmt,
    SelectStmt,
    UpdateStmt,
    ViewStmt,
}

impl SyntaxKind {
    /// Whitespace and comments: kinds that carry no grammatical meaning.
    pub open spec fn trivia(self) -> bool {
        self == SyntaxKind::Whitespace || self == SyntaxKind::Newline || self == SyntaxKind::Tab
            || self == SyntaxKind::SqlComment || self == SyntaxKind::CComment
    }

    /// Keywords that join two queries into one (`UNION`, `INTERSECT`, `EXCEPT`)
    /// or introduce the query a statement is defined by (`AS`).
    pub open spec fn joins_query(self) -> bool {
        self == SyntaxKind::As || self == SyntaxKind::Union || self == SyntaxKind::Intersect
            || self == SyntaxKind::Except
    }

    /// Whether the kind is whitespace or a comment.
    pub fn is_trivia(self) -> (b: bool)
        ensures
            b == self.trivia(),
    {
        match self {
            SyntaxKind::Whitespace
            | SyntaxKind::Newline
            | SyntaxKind::Tab
            | SyntaxKind::SqlComment
            | SyntaxKind::CComment => true,
            _ => false,
        }
    }

    /// Whether the kind joins two queries or introduces a defining query.
    pub fn is_query_joiner(self) -> (b: bool)
        ensures
            b == self.joins_query(),
    {
        match self {
            SyntaxKind::As | SyntaxKind::Union | SyntaxKind::Intersect | SyntaxKind::Except => true,
            _ => false,
        }
    }
}

} // verus!
