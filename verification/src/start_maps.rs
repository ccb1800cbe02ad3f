//! The lookahead tables: which tokens a statement of each kind starts with.

use vstd::prelude::*;
use crate::syntax_kind::SyntaxKind;

verus! {

/// A statement kind as a lookahead map lists it under a token.
#[derive(Clone, Copy, PartialEq, Eq, Debug, Hash, Structural)]
pub enum TokenStatement {
    /// The token is the last of the tokens the statement starts with.
    EoS(SyntaxKind),
    /// More start tokens of the statement follow the token.
    Any(SyntaxKind),
}

impl TokenStatement {
    /// The statement kind listed.
    pub open spec fn statement(self) -> SyntaxKind {
        match self {
            TokenStatement::EoS(kind) => kind,
            TokenStatement::Any(kind) => kind,
        }
    }

    /// The start of the statement is complete with the token.
    pub open spec fn ends_start(self) -> bool {
        self is EoS
    }

    /// The statement kind listed.
    pub fn kind(&self) -> (kind: SyntaxKind)
        ensures
            kind == self.statement(),
    {
        match self {
            TokenStatement::EoS(kind) => *kind,
            TokenStatement::Any(kind) => *kind,
        }
    }

    /// Whether the start of the statement is complete with the token.
    pub fn is_eos(&self) -> (b: bool)
        ensures
            b == self.ends_start(),
    {
        match self {
            TokenStatement::EoS(_) => true,
            TokenStatement::Any(_) => false,
        }
    }
}

/// The tokens that a statement of one kind starts with, in order and with
/// trivia left out. A kind may have several patterns.
#[derive(Debug, PartialEq, Eq)]
pub struct StartPattern {
    pub statement: SyntaxKind,
    pub tokens: Vec<SyntaxKind>,
}

/// A start pattern as contracts speak of it.
pub struct StartPatternView {
    pub statement: SyntaxKind,
    pub tokens: Seq<SyntaxKind>,
}

impl View for StartPattern {
    type V = StartPatternView;

    open spec fn view(&self) -> StartPatternView {
        StartPatternView { statement: self.statement, tokens: self.tokens@ }
    }
}

/// A pattern for statements of kind `statement`, without a token yet.
pub open spec fn pattern(statement: SyntaxKind) -> StartPatternView {
    StartPatternView { statement, tokens: Seq::empty() }
}

impl StartPattern {
    /// A pattern for statements of kind `statement`, without a token yet.
    pub fn new(statement: SyntaxKind) -> (made: StartPattern)
        ensures
            made@ == pattern(statement),
    {
        StartPattern { statement, tokens: Vec::new() }
    }

    /// The pattern with `token` as one more start token.
    pub fn token(self, token: SyntaxKind) -> (made: StartPattern)
        ensures
            made@ == self@.token(token),
    {
        let mut made = self;
        made.tokens.push(token);
        made
    }
}

impl StartPatternView {
    /// The pattern with `token` as one more start token.
    pub open spec fn token(self, token: SyntaxKind) -> StartPatternView {
        StartPatternView { statement: self.statement, tokens: self.tokens.push(token) }
    }

    /// The pattern has `token` as its start token number `depth`.
    pub open spec fn has_at(self, depth: int, token: SyntaxKind) -> bool {
        0 <= depth < self.tokens.len() && self.tokens[depth] == token
    }

    /// How the pattern's statement is listed in the map of `depth`.
    pub open spec fn listed_at(self, depth: int) -> TokenStatement {
        if depth == self.tokens.len() - 1 {
            TokenStatement::EoS(self.statement)
        } else {
            TokenStatement::Any(self.statement)
        }
    }
}

/// What the map of lookahead depth `depth` holds for `token`: the statements
/// of the patterns that have `token` at that depth, in the patterns' order.
/// It is empty where the map has no entry for `token`.
pub open spec fn entry(patterns: Seq<StartPatternView>, depth: int, token: SyntaxKind) -> Seq<
    TokenStatement,
>
    decreases patterns.len(),
{
    if patterns.len() == 0 {
        Seq::empty()
    } else {
        let before = entry(patterns.drop_last(), depth, token);
        if patterns.last().has_at(depth, token) {
            before.push(patterns.last().listed_at(depth))
        } else {
            before
        }
    }
}

/// The number of lookahead maps: the length of the longest pattern.
pub open spec fn levels(patterns: Seq<StartPatternView>) -> int
    decreases patterns.len(),
{
    if patterns.len() == 0 {
        0
    } else {
        let before = levels(patterns.drop_last());
        if patterns.last().tokens.len() > before {
            patterns.last().tokens.len() as int
        } else {
            before
        }
    }
}

/// `candidates` lists a statement of kind `kind`.
pub open spec fn names(candidates: Seq<TokenStatement>, kind: SyntaxKind) -> bool {
    exists|i: int| 0 <= i < candidates.len() && (#[trigger] candidates[i]).statement() == kind
}

/// The part of `found` whose statements `candidates` lists too, in the order
/// of `found`.
pub open spec fn narrowed(found: Seq<TokenStatement>, candidates: Seq<TokenStatement>) -> Seq<
    TokenStatement,
>
    decreases found.len(),
{
    if found.len() == 0 {
        Seq::empty()
    } else {
        let before = narrowed(found.drop_last(), candidates);
        if names(candidates, found.last().statement()) {
            before.push(found.last())
        } else {
            before
        }
    }
}

/// Whether `candidates` lists a statement of kind `kind`.
pub fn lists_kind(candidates: &Vec<TokenStatement>, kind: SyntaxKind) -> (b: bool)
    ensures
        b == names(candidates@, kind),
{
    let mut i: usize = 0;
    while i < candidates.len()
        invariant
            0 <= i <= candidates.len(),
            forall|k: int| 0 <= k < i ==> (#[trigger] candidates[k]).statement() != kind,
        decreases candidates.len() - i,
    {
        if candidates[i].kind() == kind {
            return true;
        }
        i = i + 1;
    }
    false
}

/// Keeps of `found` what `candidates` lists too.
pub fn narrow(found: &Vec<TokenStatement>, candidates: &Vec<TokenStatement>) -> (kept: Vec<
    TokenStatement,
>)
    ensures
        kept@ == narrowed(found@, candidates@),
{
    let mut kept: Vec<TokenStatement> = Vec::new();
    let mut i: usize = 0;
    while i < found.len()
        invariant
            0 <= i <= found.len(),
            kept@ == narrowed(found@.take(i as int), candidates@),
        decreases found.len() - i,
    {
        proof {
            assert(found@.take(i + 1).drop_last() == found@.take(i as int));
        }
        if lists_kind(candidates, found[i].kind()) {
            kept.push(found[i]);
        }
        i = i + 1;
    }
    proof {
        assert(found@.take(found.len() as int) == found@);
    }
    kept
}

/// The lookahead tables, held as the start patterns they are made from.
///
/// The map of depth `d` takes a token kind to the statements whose pattern
/// has that kind as token number `d`; see [`entry`].
#[derive(Debug, PartialEq, Eq)]
pub struct StartTokenMaps {
    pub patterns: Vec<StartPattern>,
}

impl View for StartTokenMaps {
    type V = Seq<StartPatternView>;

    open spec fn view(&self) -> Seq<StartPatternView> {
        self.patterns@.map_values(|p: StartPattern| p@)
    }
}

impl StartTokenMaps {
    /// Tables without a pattern: no token starts a statement.
    pub fn new() -> (maps: StartTokenMaps)
        ensures
            maps@ == Seq::<StartPatternView>::empty(),
    {
        StartTokenMaps { patterns: Vec::new() }
    }

    /// Adds a pattern after those the tables hold.
    pub fn add(&mut self, pattern: StartPattern)
        ensures
            final(self)@ == old(self)@.push(pattern@),
    {
        self.patterns.push(pattern);
    }

    /// The number of lookahead maps.
    pub fn len(&self) -> (n: usize)
        ensures
            n == levels(self@),
    {
        let mut n: usize = 0;
        let mut i: usize = 0;
        while i < self.patterns.len()
            invariant
                0 <= i <= self.patterns.len(),
                n == levels(self@.take(i as int)),
            decreases self.patterns.len() - i,
        {
            proof {
                assert(self@.take(i + 1).drop_last() == self@.take(i as int));
            }
            if self.patterns[i].tokens.len() > n {
                n = self.patterns[i].tokens.len();
            }
            i = i + 1;
        }
        proof {
            assert(self@.take(self.patterns.len() as int) == self@);
        }
        n
    }

    /// What the map of depth `depth` holds for `token`.
    pub fn get(&self, depth: usize, token: SyntaxKind) -> (found: Vec<TokenStatement>)
        ensures
            found@ == entry(self@, depth as int, token),
    {
        let mut found: Vec<TokenStatement> = Vec::new();
        let mut i: usize = 0;
        while i < self.patterns.len()
            invariant
                0 <= i <= self.patterns.len(),
                found@ == entry(self@.take(i as int), depth as int, token),
            decreases self.patterns.len() - i,
        {
            proof {
                assert(self@.take(i + 1).drop_last() == self@.take(i as int));
            }
            let pattern = &self.patterns[i];
            if depth < pattern.tokens.len() && pattern.tokens[depth] == token {
                if depth == pattern.tokens.len() - 1 {
                    found.push(TokenStatement::EoS(pattern.statement));
                } else {
                    found.push(TokenStatement::Any(pattern.statement));
                }
            }
            i = i + 1;
        }
        proof {
            assert(self@.take(self.patterns.len() as int) == self@);
        }
        found
    }
}

/// The patterns of the tables that a parser uses unless it is given others.
pub open spec fn default_patterns() -> Seq<StartPatternView> {
    Seq::<StartPatternView>::empty()
        .push(pattern(SyntaxKind::SelectStmt).token(SyntaxKind::Select))
        .push(pattern(SyntaxKind::InsertStmt).token(SyntaxKind::Insert).token(SyntaxKind::Into))
        .push(pattern(SyntaxKind::UpdateStmt).token(SyntaxKind::Update))
        .push(pattern(SyntaxKind::DeleteStmt).token(SyntaxKind::DeleteP).token(SyntaxKind::From))
        .push(pattern(SyntaxKind::CreateStmt).token(SyntaxKind::Create).token(SyntaxKind::Table))
        .push(pattern(SyntaxKind::ViewStmt).token(SyntaxKind::Create).token(SyntaxKind::View))
        .push(pattern(SyntaxKind::ViewStmt).token(SyntaxKind::Create).token(SyntaxKind::Or).token(SyntaxKind::Replace).token(SyntaxKind::View))
        .push(pattern(SyntaxKind::IndexStmt).token(SyntaxKind::Create).token(SyntaxKind::Index))
        .push(pattern(SyntaxKind::CreateFunctionStmt).token(SyntaxKind::Create).token(SyntaxKind::Function))
        .push(pattern(SyntaxKind::CreateFunctionStmt).token(SyntaxKind::Create).token(SyntaxKind::Or).token(SyntaxKind::Replace).token(SyntaxKind::Function))
        .push(pattern(SyntaxKind::AlterTableStmt).token(SyntaxKind::Alter).token(SyntaxKind::Table))
        .push(pattern(SyntaxKind::DropStmt).token(SyntaxKind::Drop))
}

/// The tables that a parser uses unless it is given others.
pub fn statement_start_token_maps() -> (maps: StartTokenMaps)
    ensures
        maps@ == default_patterns(),
{
    let mut maps = StartTokenMaps::new();
    maps.add(StartPattern::new(SyntaxKind::SelectStmt).token(SyntaxKind::Select));
    maps.add(StartPattern::new(SyntaxKind::InsertStmt).token(SyntaxKind::Insert).token(SyntaxKind::Into));
    maps.add(StartPattern::new(SyntaxKind::UpdateStmt).token(SyntaxKind::Update));
    maps.add(StartPattern::new(SyntaxKind::DeleteStmt).token(SyntaxKind::DeleteP).token(SyntaxKind::From));
    maps.add(StartPattern::new(SyntaxKind::CreateStmt).token(SyntaxKind::Create).token(SyntaxKind::Table));
    maps.add(StartPattern::new(SyntaxKind::ViewStmt).token(SyntaxKind::Create).token(SyntaxKind::View));
    maps.add(StartPattern::new(SyntaxKind::ViewStmt).token(SyntaxKind::Create).token(SyntaxKind::Or).token(SyntaxKind::Replace).token(SyntaxKind::View));
    maps.add(StartPattern::new(SyntaxKind::IndexStmt).token(SyntaxKind::Create).token(SyntaxKind::Index));
    maps.add(StartPattern::new(SyntaxKind::CreateFunctionStmt).token(SyntaxKind::Create).token(SyntaxKind::Function));
    maps.add(StartPattern::new(SyntaxKind::CreateFunctionStmt).token(SyntaxKind::Create).token(SyntaxKind::Or).token(SyntaxKind::Replace).token(SyntaxKind::Function));
    maps.add(StartPattern::new(SyntaxKind::AlterTableStmt).token(SyntaxKind::Alter).token(SyntaxKind::Table));
    maps.add(StartPattern::new(SyntaxKind::DropStmt).token(SyntaxKind::Drop));
    maps
}

} // verus!
