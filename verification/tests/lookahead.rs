use parser::parser::Parser;
use parser::start_maps::{
    lists_kind, narrow, statement_start_token_maps, StartPattern, StartTokenMaps, TokenStatement,
};
use parser::statement::{collect_statement_token_range, StatementError};
use parser::statement_start::is_at_stmt_start;
use parser::syntax_kind::SyntaxKind as K;
use parser::text::TextRange;
use parser::token::{check_spans, Token};

fn word_kind(word: &str) -> K {
    match word.to_ascii_uppercase().as_str() {
        "ALL" => K::All,
        "ALTER" => K::Alter,
        "AS" => K::As,
        "BEGIN" => K::BeginP,
        "BY" => K::By,
        "CREATE" => K::Create,
        "DELETE" => K::DeleteP,
        "DROP" => K::Drop,
        "END" => K::EndP,
        "EXCEPT" => K::Except,
        "FROM" => K::From,
        "FUNCTION" => K::Function,
        "INDEX" => K::Index,
        "INSERT" => K::Insert,
        "INTERSECT" => K::Intersect,
        "INTO" => K::Into,
        "ON" => K::On,
        "OR" => K::Or,
        "REPLACE" => K::Replace,
        "SELECT" => K::Select,
        "TABLE" => K::Table,
        "UNION" => K::Union,
        "UPDATE" => K::Update,
        "VALUES" => K::Values,
        "VIEW" => K::View,
        "WHERE" => K::Where,
        _ => {
            if word.chars().all(|c| c.is_ascii_digit()) {
                K::Iconst
            } else {
                K::Ident
            }
        }
    }
}

/// A small lexer for the tests: words, digits, single characters, runs of
/// blanks, line ends and `--` comments.
fn lex(sql: &str) -> Vec<Token> {
    let bytes = sql.as_bytes();
    let mut tokens = Vec::new();
    let mut at = 0;
    while at < bytes.len() {
        let start = at;
        let c = bytes[at] as char;
        let kind = if c == ' ' {
            while at < bytes.len() && bytes[at] == b' ' {
                at += 1;
            }
            K::Whitespace
        } else if c == '\n' {
            at += 1;
            K::Newline
        } else if c == '\t' {
            at += 1;
            K::Tab
        } else if c == '-' && at + 1 < bytes.len() && bytes[at + 1] == b'-' {
            while at < bytes.len() && bytes[at] != b'\n' {
                at += 1;
            }
            K::SqlComment
        } else if c.is_ascii_alphanumeric() || c == '_' {
            while at < bytes.len() && (bytes[at].is_ascii_alphanumeric() || bytes[at] == b'_') {
                at += 1;
            }
            word_kind(&sql[start..at])
        } else {
            at += 1;
            match c {
                '(' => K::Ascii40,
                ')' => K::Ascii41,
                '*' => K::Ascii42,
                ',' => K::Ascii44,
                '.' => K::Ascii46,
                ';' => K::Ascii59,
                '=' => K::Ascii61,
                _ => K::Ident,
            }
        };
        tokens.push(Token {
            kind,
            text: sql[start..at].to_string(),
            span: TextRange::new(start as u32, at as u32),
        });
    }
    tokens
}

fn parser_for(sql: &str) -> Parser {
    Parser::new(lex(sql)).unwrap()
}

fn at(sql: &str, pos: usize) -> Option<K> {
    let mut parser = parser_for(sql);
    while parser.pos() < pos {
        parser.advance();
    }
    is_at_stmt_start(&parser)
}

#[test]
fn trivia_kinds() {
    for kind in [K::Whitespace, K::Newline, K::Tab, K::SqlComment, K::CComment] {
        assert!(kind.is_trivia());
    }
    for kind in [K::Eof, K::Ascii59, K::Ident, K::Select, K::SelectStmt] {
        assert!(!kind.is_trivia());
    }
}

#[test]
fn kinds_that_join_queries() {
    for kind in [K::As, K::Union, K::Intersect, K::Except] {
        assert!(kind.is_query_joiner());
    }
    for kind in [K::All, K::Select, K::BeginP, K::Ascii40, K::Whitespace] {
        assert!(!kind.is_query_joiner());
    }
}

#[test]
fn listed_statement_and_its_tag() {
    assert_eq!(TokenStatement::EoS(K::SelectStmt).kind(), K::SelectStmt);
    assert_eq!(TokenStatement::Any(K::ViewStmt).kind(), K::ViewStmt);
    assert!(TokenStatement::EoS(K::SelectStmt).is_eos());
    assert!(!TokenStatement::Any(K::SelectStmt).is_eos());
}

#[test]
fn default_tables_have_four_maps() {
    assert_eq!(statement_start_token_maps().len(), 4);
    assert_eq!(StartTokenMaps::new().len(), 0);
}

#[test]
fn default_patterns_in_order() {
    let maps = statement_start_token_maps();
    assert_eq!(maps.patterns.len(), 12);
    assert_eq!(
        maps.patterns[0],
        StartPattern { statement: K::SelectStmt, tokens: vec![K::Select] }
    );
    assert_eq!(
        maps.patterns[6],
        StartPattern {
            statement: K::ViewStmt,
            tokens: vec![K::Create, K::Or, K::Replace, K::View],
        }
    );
    assert_eq!(maps.patterns[11], StartPattern { statement: K::DropStmt, tokens: vec![K::Drop] });
}

#[test]
fn first_map_lists_every_statement_that_starts_with_the_token() {
    let maps = statement_start_token_maps();
    assert_eq!(maps.get(0, K::Select), vec![TokenStatement::EoS(K::SelectStmt)]);
    assert_eq!(maps.get(0, K::Insert), vec![TokenStatement::Any(K::InsertStmt)]);
    assert_eq!(
        maps.get(0, K::Create),
        vec![
            TokenStatement::Any(K::CreateStmt),
            TokenStatement::Any(K::ViewStmt),
            TokenStatement::Any(K::ViewStmt),
            TokenStatement::Any(K::IndexStmt),
            TokenStatement::Any(K::CreateFunctionStmt),
            TokenStatement::Any(K::CreateFunctionStmt),
        ]
    );
    assert_eq!(maps.get(0, K::Into), vec![]);
    assert_eq!(maps.get(0, K::Ident), vec![]);
}

#[test]
fn deeper_maps_tag_the_last_start_token() {
    let maps = statement_start_token_maps();
    assert_eq!(
        maps.get(1, K::Table),
        vec![TokenStatement::EoS(K::CreateStmt), TokenStatement::EoS(K::AlterTableStmt)]
    );
    assert_eq!(
        maps.get(1, K::Or),
        vec![TokenStatement::Any(K::ViewStmt), TokenStatement::Any(K::CreateFunctionStmt)]
    );
    assert_eq!(maps.get(3, K::View), vec![TokenStatement::EoS(K::ViewStmt)]);
    assert_eq!(maps.get(1, K::Select), vec![]);
    assert_eq!(maps.get(4, K::View), vec![]);
}

#[test]
fn added_pattern_is_listed_after_the_others() {
    let mut maps = StartTokenMaps::new();
    maps.add(StartPattern::new(K::SelectStmt).token(K::Select));
    maps.add(StartPattern::new(K::InsertStmt).token(K::Select).token(K::Into));
    assert_eq!(maps.len(), 2);
    assert_eq!(
        maps.get(0, K::Select),
        vec![TokenStatement::EoS(K::SelectStmt), TokenStatement::Any(K::InsertStmt)]
    );
}

#[test]
fn candidates_are_told_by_kind() {
    let candidates = vec![TokenStatement::Any(K::ViewStmt), TokenStatement::EoS(K::IndexStmt)];
    assert!(lists_kind(&candidates, K::ViewStmt));
    assert!(lists_kind(&candidates, K::IndexStmt));
    assert!(!lists_kind(&candidates, K::CreateStmt));
    assert!(!lists_kind(&vec![], K::ViewStmt));
}

#[test]
fn narrowing_keeps_what_both_list_with_the_tag_found() {
    let found = vec![
        TokenStatement::EoS(K::CreateStmt),
        TokenStatement::EoS(K::AlterTableStmt),
        TokenStatement::Any(K::ViewStmt),
    ];
    let candidates = vec![TokenStatement::Any(K::ViewStmt), TokenStatement::Any(K::CreateStmt)];
    assert_eq!(
        narrow(&found, &candidates),
        vec![TokenStatement::EoS(K::CreateStmt), TokenStatement::Any(K::ViewStmt)]
    );
    assert_eq!(narrow(&found, &vec![]), vec![]);
    assert_eq!(narrow(&vec![], &candidates), vec![]);
}

#[test]
fn statement_starts_at_its_first_token() {
    assert_eq!(at("SELECT 1;", 0), Some(K::SelectStmt));
    assert_eq!(at("UPDATE t", 0), Some(K::UpdateStmt));
    assert_eq!(at("DROP TABLE t;", 0), Some(K::DropStmt));
    assert_eq!(at("x; SELECT 1;", 3), Some(K::SelectStmt));
}

#[test]
fn later_tokens_tell_the_kinds_apart() {
    assert_eq!(at("CREATE TABLE t (a int);", 0), Some(K::CreateStmt));
    assert_eq!(at("CREATE VIEW v AS SELECT 1;", 0), Some(K::ViewStmt));
    assert_eq!(at("CREATE   \n INDEX i ON t (a);", 0), Some(K::IndexStmt));
    assert_eq!(at("CREATE FUNCTION f() AS x;", 0), Some(K::CreateFunctionStmt));
    assert_eq!(at("CREATE OR REPLACE VIEW v AS SELECT 1;", 0), Some(K::ViewStmt));
    assert_eq!(at("CREATE OR REPLACE FUNCTION f() AS x;", 0), Some(K::CreateFunctionStmt));
    assert_eq!(at("ALTER TABLE t;", 0), Some(K::AlterTableStmt));
    assert_eq!(at("INSERT INTO t VALUES (1);", 0), Some(K::InsertStmt));
}

#[test]
fn first_candidate_stands_where_later_tokens_fit_none() {
    // no map lists `x` after CREATE: all candidates stay, the first is named
    assert_eq!(at("CREATE x;", 0), Some(K::CreateStmt));
    assert_eq!(at("CREATE", 0), Some(K::CreateStmt));
    // TABLE is listed at depth 1, but for no statement that starts with INSERT
    assert_eq!(at("INSERT TABLE", 0), Some(K::InsertStmt));
    // after OR REPLACE both a view and a function are left; the view comes first
    assert_eq!(at("CREATE OR REPLACE x", 0), Some(K::ViewStmt));
}

#[test]
fn complete_start_is_preferred_to_an_earlier_one_that_is_not() {
    let mut maps = StartTokenMaps::new();
    maps.add(StartPattern::new(K::InsertStmt).token(K::Select).token(K::Into));
    maps.add(StartPattern::new(K::SelectStmt).token(K::Select));
    let parser = Parser::with_maps(lex("SELECT 1;"), maps).unwrap();
    assert_eq!(is_at_stmt_start(&parser), Some(K::SelectStmt));

    let mut maps = StartTokenMaps::new();
    maps.add(StartPattern::new(K::InsertStmt).token(K::Select).token(K::Into));
    maps.add(StartPattern::new(K::SelectStmt).token(K::Select));
    let parser = Parser::with_maps(lex("SELECT INTO t;"), maps).unwrap();
    assert_eq!(is_at_stmt_start(&parser), Some(K::InsertStmt));
}

#[test]
fn complete_start_is_not_refined_further() {
    // SELECT is complete at depth 0: INTO at depth 1 is not asked about
    assert_eq!(at("SELECT INTO", 0), Some(K::SelectStmt));
}

#[test]
fn no_statement_starts_elsewhere() {
    assert_eq!(at("SELEC 2;", 0), None);
    assert_eq!(at(" SELECT 1;", 0), None);
    assert_eq!(at("-- c\nSELECT 1;", 0), None);
    assert_eq!(at("INTO t", 0), None);
    assert_eq!(at("BEGIN", 0), None);
    assert_eq!(at(";", 0), None);
    assert_eq!(at("", 0), None);
    assert_eq!(at("SELECT", 1), None);
}

#[test]
fn found_kind_can_always_be_collected() {
    for sql in [
        "SELECT 1;",
        "CREATE x;",
        "CREATE OR REPLACE x",
        "INSERT TABLE",
        "CREATE OR REPLACE FUNCTION f() AS x;",
        "DROP",
    ] {
        let mut parser = parser_for(sql);
        let kind = is_at_stmt_start(&parser).unwrap();
        let range = collect_statement_token_range(&mut parser, kind).unwrap();
        assert_eq!(range.start, 0);
        assert!(range.end > 0);
    }
}

#[test]
fn tables_given_to_the_parser_decide() {
    let mut maps = StartTokenMaps::new();
    maps.add(StartPattern::new(K::SelectStmt).token(K::Values));
    let mut parser = Parser::with_maps(lex("VALUES (1); SELECT 2; VALUES (3);"), maps).unwrap();
    assert_eq!(is_at_stmt_start(&parser), Some(K::SelectStmt));
    // SELECT starts nothing in these tables: the range runs on to VALUES
    // VALUES(0) ws ( 1 ) ;(5)
    assert_eq!(collect_statement_token_range(&mut parser, K::SelectStmt), Ok(0..6));
    while parser.pos() < 7 {
        parser.advance();
    }
    assert_eq!(is_at_stmt_start(&parser), None);
    assert_eq!(
        collect_statement_token_range(&mut parser, K::SelectStmt),
        Err(StatementError::ExpectedStatementStart)
    );
}

#[test]
fn empty_tables_start_nothing() {
    let mut parser = Parser::with_maps(lex("SELECT 1;"), StartTokenMaps::new()).unwrap();
    assert_eq!(is_at_stmt_start(&parser), None);
    assert_eq!(
        collect_statement_token_range(&mut parser, K::SelectStmt),
        Err(StatementError::ExpectedStatementStart)
    );
}

#[test]
fn counted_kind_in_the_tables_does_not_end_a_statement() {
    let mut maps = StartTokenMaps::new();
    maps.add(StartPattern::new(K::SelectStmt).token(K::Select));
    maps.add(StartPattern::new(K::DropStmt).token(K::BeginP));
    let mut parser = Parser::with_maps(lex("SELECT 1 BEGIN SELECT 2; END; SELECT 3;"), maps).unwrap();
    // SELECT ws 1 ws BEGIN ws SELECT ws 2 ; ws END ;(12)
    assert_eq!(collect_statement_token_range(&mut parser, K::SelectStmt), Ok(0..13));
}

#[test]
fn spans_that_tile() {
    assert!(check_spans(&lex("SELECT 1;")));
    assert!(check_spans(&vec![]));
    let empty_token = Token { kind: K::Ident, text: String::new(), span: TextRange::new(0, 0) };
    assert!(check_spans(&vec![empty_token]));
}

#[test]
fn spans_that_do_not_tile() {
    let token = |start: u32, end: u32| Token {
        kind: K::Ident,
        text: "x".to_string(),
        span: TextRange::new(start, end),
    };
    // does not start at the first byte
    assert!(!check_spans(&vec![token(1, 2)]));
    // a gap
    assert!(!check_spans(&vec![token(0, 1), token(2, 3)]));
    // an overlap
    assert!(!check_spans(&vec![token(0, 2), token(1, 3)]));
    // ends before it starts
    assert!(!check_spans(&vec![token(0, 3), token(3, 2)]));
    assert!(Parser::new(vec![token(0, 1), token(2, 3)]).is_none());
    assert!(Parser::new(vec![token(0, 1), token(1, 3)]).is_some());
}
