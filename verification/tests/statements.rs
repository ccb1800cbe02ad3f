use parser::bridge::{judge, select_root, statement_text, EngineOutcome, TOP_LEVEL};
use parser::parser::{ParseError, Parser, RawStmt, Segment, SegmentKind};
use parser::statement::{statement, unknown_statement, StatementError};
use parser::syntax_kind::SyntaxKind as K;
use parser::text::TextRange;
use parser::token::Token;

fn word_kind(word: &str) -> K {
    match word.to_ascii_uppercase().as_str() {
        "ALL" => K::All,
        "ALTER" => K::Alter,
        "AS" => K::As,
        "BEGIN" => K::BeginP,
        "BY" => K::By,
        "CREATE" => K::Create,
        "DELETE" => K::DeleteP,
        "DROP" => K::Drop,
        "END" => K::EndP,
        "EXCEPT" => K::Except,
        "FROM" => K::From,
        "FUNCTION" => K::Function,
        "INDEX" => K::Index,
        "INSERT" => K::Insert,
        "INTERSECT" => K::Intersect,
        "INTO" => K::Into,
        "ON" => K::On,
        "OR" => K::Or,
        "REPLACE" => K::Replace,
        "SELECT" => K::Select,
        "TABLE" => K::Table,
        "UNION" => K::Union,
        "UPDATE" => K::Update,
        "VALUES" => K::Values,
        "VIEW" => K::View,
        "WHERE" => K::Where,
        _ => {
            if word.chars().all(|c| c.is_ascii_digit()) {
                K::Iconst
            } else {
                K::Ident
            }
        }
    }
}

/// A small lexer for the tests: words, digits, single characters, runs of
/// blanks, line ends and `--` comments.
fn lex(sql: &str) -> Vec<Token> {
    let bytes = sql.as_bytes();
    let mut tokens = Vec::new();
    let mut at = 0;
    while at < bytes.len() {
        let start = at;
        let c = bytes[at] as char;
        let kind = if c == ' ' {
            while at < bytes.len() && bytes[at] == b' ' {
                at += 1;
            }
            K::Whitespace
        } else if c == '\n' {
            at += 1;
            K::Newline
        } else if c == '\t' {
            at += 1;
            K::Tab
        } else if c == '-' && at + 1 < bytes.len() && bytes[at + 1] == b'-' {
            while at < bytes.len() && bytes[at] != b'\n' {
                at += 1;
            }
            K::SqlComment
        } else if c.is_ascii_alphanumeric() || c == '_' {
            while at < bytes.len() && (bytes[at].is_ascii_alphanumeric() || bytes[at] == b'_') {
                at += 1;
            }
            word_kind(&sql[start..at])
        } else {
            at += 1;
            match c {
                '(' => K::Ascii40,
                ')' => K::Ascii41,
                '*' => K::Ascii42,
                ',' => K::Ascii44,
                '.' => K::Ascii46,
                ';' => K::Ascii59,
                '=' => K::Ascii61,
                _ => K::Ident,
            }
        };
        tokens.push(Token {
            kind,
            text: sql[start..at].to_string(),
            span: TextRange::new(start as u32, at as u32),
        });
    }
    tokens
}

fn parser_for(sql: &str) -> Parser {
    Parser::new(lex(sql)).unwrap()
}

fn parsed() -> EngineOutcome {
    EngineOutcome::Parsed { tags: vec![1, 2, 3, 2] }
}

fn rejected(message: &str) -> EngineOutcome {
    EngineOutcome::Rejected { message: message.to_string() }
}

#[test]
fn errors_in_words() {
    assert_eq!(StatementError::ExpectedStatementStart.message(), "Expected statement start");
    assert_eq!(StatementError::UnexpectedStatementStart.message(), "Unexpected statement start");
    assert_eq!(StatementError::UnexpectedEof.message(), "Unexpected end of input");
}

#[test]
fn top_level_tag_is_one() {
    assert_eq!(TOP_LEVEL, 1);
}

#[test]
fn root_is_the_first_node_tagged_top_level() {
    assert_eq!(select_root(&vec![1, 2, 3]), Some(0));
    assert_eq!(select_root(&vec![2, 3, 1, 1]), Some(2));
    assert_eq!(select_root(&vec![0, 2, -1]), None);
    assert_eq!(select_root(&vec![]), None);
}

#[test]
fn verdict_of_an_accepted_text_is_its_root() {
    assert_eq!(judge(EngineOutcome::Parsed { tags: vec![3, 1] }), Ok(1));
}

#[test]
fn verdict_of_a_rejected_text_is_the_engine_message() {
    assert_eq!(judge(rejected("syntax error at end of input")), Err("syntax error at end of input".to_string()));
}

#[test]
fn verdict_of_a_tree_without_root_is_a_message() {
    assert_eq!(
        judge(EngineOutcome::Parsed { tags: vec![] }),
        Err("the grammar engine returned no top-level node".to_string())
    );
    assert_eq!(
        judge(EngineOutcome::Parsed { tags: vec![2, 2] }),
        Err("the grammar engine returned no top-level node".to_string())
    );
}

#[test]
fn text_of_a_range_keeps_trivia() {
    let parser = parser_for("SELECT  1 -- one\n; SELECT 2;");
    assert_eq!(statement_text(&parser, &(0..7)), "SELECT  1 -- one\n;");
    assert_eq!(statement_text(&parser, &(2..3)), "1");
    assert_eq!(statement_text(&parser, &(3..3)), "");
}

#[test]
fn text_of_a_range_past_the_buffer_stops_at_its_end() {
    let parser = parser_for("a b");
    assert_eq!(statement_text(&parser, &(1..9)), " b");
    assert_eq!(statement_text(&parser, &(7..9)), "");
    assert_eq!(statement_text(&parser, &(2..1)), "");
}

#[test]
fn accepted_statement_is_recorded_with_its_bytes() {
    let mut parser = parser_for("SELECT 1; SELECT 22;");
    assert_eq!(statement(&mut parser, K::SelectStmt, parsed()), Ok(0..4));
    assert_eq!(parser.pos(), 4);
    assert_eq!(parser.stmts(), &vec![RawStmt { root: 0, range: TextRange::new(0, 9) }]);
    assert!(parser.errors().is_empty());
    assert_eq!(
        parser.segments(),
        &vec![Segment { kind: SegmentKind::Statement, start: 0, end: 4 }]
    );
}

#[test]
fn statement_after_others_starts_where_the_token_before_it_ends() {
    let mut parser = parser_for("SELECT 1; SELECT 22;");
    statement(&mut parser, K::SelectStmt, parsed()).unwrap();
    // the blank between the statements belongs to the second range
    assert_eq!(
        statement(&mut parser, K::SelectStmt, EngineOutcome::Parsed { tags: vec![4, 1] }),
        Ok(4..9)
    );
    assert_eq!(parser.pos(), 9);
    assert!(parser.eof());
    assert_eq!(
        parser.stmts(),
        &vec![
            RawStmt { root: 0, range: TextRange::new(0, 9) },
            RawStmt { root: 1, range: TextRange::new(9, 20) },
        ]
    );
}

#[test]
fn rejected_statement_is_recorded_as_an_error_and_passed() {
    let mut parser = parser_for("SELECT FROM; SELECT 2;");
    assert_eq!(
        statement(&mut parser, K::SelectStmt, rejected("syntax error at or near \";\"")),
        Ok(0..4)
    );
    assert_eq!(parser.pos(), 4);
    assert!(parser.stmts().is_empty());
    assert_eq!(
        parser.errors(),
        &vec![ParseError {
            message: "syntax error at or near \";\"".to_string(),
            range: TextRange::new(0, 12),
        }]
    );
    assert_eq!(parser.segments(), &vec![Segment { kind: SegmentKind::Error, start: 0, end: 4 }]);
}

#[test]
fn tree_without_root_is_recorded_as_an_error() {
    let mut parser = parser_for("SELECT 1;");
    assert_eq!(
        statement(&mut parser, K::SelectStmt, EngineOutcome::Parsed { tags: vec![2] }),
        Ok(0..4)
    );
    assert_eq!(
        parser.errors(),
        &vec![ParseError {
            message: "the grammar engine returned no top-level node".to_string(),
            range: TextRange::new(0, 9),
        }]
    );
    assert!(parser.stmts().is_empty());
    assert_eq!(parser.pos(), 4);
}

#[test]
fn wrong_kind_changes_nothing() {
    let mut parser = parser_for("SELECT 1;");
    parser.advance();
    assert_eq!(
        statement(&mut parser, K::InsertStmt, parsed()),
        Err(StatementError::ExpectedStatementStart)
    );
    assert_eq!(parser.pos(), 1);
    assert!(parser.stmts().is_empty());
    assert!(parser.errors().is_empty());
    assert!(parser.segments().is_empty());
}

#[test]
fn tokens_passed_before_a_statement_are_emitted_as_tokens() {
    // x(0) ws(1) SELECT(2) ws 1(4) ;(5)
    let mut parser = parser_for("x SELECT 1;");
    parser.advance();
    parser.advance();
    assert_eq!(statement(&mut parser, K::SelectStmt, parsed()), Ok(2..6));
    assert_eq!(
        parser.segments(),
        &vec![
            Segment { kind: SegmentKind::Tokens, start: 0, end: 2 },
            Segment { kind: SegmentKind::Statement, start: 2, end: 6 },
        ]
    );
    assert_eq!(parser.stmts(), &vec![RawStmt { root: 0, range: TextRange::new(2, 11) }]);
}

#[test]
fn unknown_run_is_settled_like_a_statement() {
    let mut parser = parser_for("SELEC 2; SELECT 3;");
    assert_eq!(
        unknown_statement(&mut parser, rejected("syntax error at or near \"SELEC\"")),
        Ok(0..4)
    );
    assert_eq!(parser.pos(), 4);
    assert_eq!(
        parser.errors(),
        &vec![ParseError {
            message: "syntax error at or near \"SELEC\"".to_string(),
            range: TextRange::new(0, 8),
        }]
    );
}

#[test]
fn unknown_run_is_refused_where_it_is_none() {
    let mut parser = parser_for("SELECT 3;");
    assert_eq!(
        unknown_statement(&mut parser, parsed()),
        Err(StatementError::UnexpectedStatementStart)
    );
    assert_eq!(parser.pos(), 0);
    assert!(parser.segments().is_empty());
    let mut parser = parser_for("");
    assert_eq!(unknown_statement(&mut parser, parsed()), Err(StatementError::UnexpectedEof));
}

#[test]
fn cursor_is_at_the_end_of_the_range_whatever_the_engine_said() {
    for outcome in [parsed(), rejected("no"), EngineOutcome::Parsed { tags: vec![] }] {
        let mut parser = parser_for("SELECT (1; 2) UNION SELECT 3; SELECT 4;");
        let range = statement(&mut parser, K::SelectStmt, outcome).unwrap();
        assert_eq!(parser.pos(), range.end);
        assert_eq!(range, 0..15);
    }
}
