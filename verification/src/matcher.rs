use vstd::prelude::*;
use vstd::string::StrSliceExecFns;
use vstd::string::StringSliceAdditionalSpecFns;

verus! {

/// Whether a match opens a nesting level, closes one, or stands alone
/// (comments and string boundaries never pair on the nesting stack).
#[derive(Clone, Copy, Debug, PartialEq, Eq, Structural)]
pub enum Kind {
    Opening,
    Closing,
    NonPair,
}

/// A candidate position produced by the scanner: the byte found and its
/// column (byte offset) within its line.
#[derive(Clone, Copy, Debug, PartialEq, Eq, Structural)]
pub struct CharPos {
    pub col: usize,
    pub byte: u8,
}

/// A marker category together with its defining literals. Equality is by
/// category and literals, independent of where a token occurred.
#[derive(Debug)]
pub enum Token {
    Delimiter(Vec<u8>, Vec<u8>),
    LineComment(Vec<u8>),
    BlockComment(Vec<u8>, Vec<u8>),
    StringQuote(Vec<u8>),
    CharQuote(Vec<u8>),
    BlockString(Vec<u8>, Vec<u8>),
    InlineSpan(String, Vec<u8>, Vec<u8>),
    BlockSpan(String, Vec<u8>, Vec<u8>),
}

/// Mathematical model of a `Token`: the same categories over sequences.
pub enum TokenModel {
    Delimiter(Seq<u8>, Seq<u8>),
    LineComment(Seq<u8>),
    BlockComment(Seq<u8>, Seq<u8>),
    StringQuote(Seq<u8>),
    CharQuote(Seq<u8>),
    BlockString(Seq<u8>, Seq<u8>),
    InlineSpan(Seq<char>, Seq<u8>, Seq<u8>),
    BlockSpan(Seq<char>, Seq<u8>, Seq<u8>),
}

impl View for Token {
    type V = TokenModel;

    open spec fn view(&self) -> TokenModel {
        match self {
            Token::Delimiter(o, c) => TokenModel::Delimiter(o@, c@),
            Token::LineComment(m) => TokenModel::LineComment(m@),
            Token::BlockComment(o, c) => TokenModel::BlockComment(o@, c@),
            Token::StringQuote(q) => TokenModel::StringQuote(q@),
            Token::CharQuote(q) => TokenModel::CharQuote(q@),
            Token::BlockString(o, c) => TokenModel::BlockString(o@, c@),
            Token::InlineSpan(n, o, c) => TokenModel::InlineSpan(n@, o@, c@),
            Token::BlockSpan(n, o, c) => TokenModel::BlockSpan(n@, o@, c@),
        }
    }
}

impl Clone for Token {
    fn clone(&self) -> (r: Self)
        ensures
            r@ == self@,
    {
        match self {
            Token::Delimiter(o, c) => Token::Delimiter(o.clone(), c.clone()),
            Token::LineComment(m) => Token::LineComment(m.clone()),
            Token::BlockComment(o, c) => Token::BlockComment(o.clone(), c.clone()),
            Token::StringQuote(q) => Token::StringQuote(q.clone()),
            Token::CharQuote(q) => Token::CharQuote(q.clone()),
            Token::BlockString(o, c) => Token::BlockString(o.clone(), c.clone()),
            Token::InlineSpan(n, o, c) => Token::InlineSpan(n.clone(), o.clone(), c.clone()),
            Token::BlockSpan(n, o, c) => Token::BlockSpan(n.clone(), o.clone(), c.clone()),
        }
    }
}

/// Compares two byte vectors by contents.
pub fn vec_bytes_eq(a: &Vec<u8>, b: &Vec<u8>) -> (r: bool)
    ensures
        r == (a@ == b@),
{
    crate::bytes_eq(a.as_slice(), b.as_slice())
}

/// Compares two tokens: equal category and equal defining literals.
/// Compares two tokens: equal category and equal defining literals.
pub fn token_eq(a: &Token, b: &Token) -> (r: bool)
    ensures
        r == (a@ == b@),
{
    match (a, b) {
        (Token::Delimiter(o1, c1), Token::Delimiter(o2, c2)) => {
            let r = vec_bytes_eq(o1, o2) && vec_bytes_eq(c1, c2);
            assert(r == (a@ == b@));
            r
        },
        (Token::LineComment(m1), Token::LineComment(m2)) => {
            let r = vec_bytes_eq(m1, m2);
            assert(r == (a@ == b@));
            r
        },
        (Token::BlockComment(o1, c1), Token::BlockComment(o2, c2)) => {
            let r = vec_bytes_eq(o1, o2) && vec_bytes_eq(c1, c2);
            assert(r == (a@ == b@));
            r
        },
        (Token::StringQuote(q1), Token::StringQuote(q2)) => {
            let r = vec_bytes_eq(q1, q2);
            assert(r == (a@ == b@));
            r
        },
        (Token::CharQuote(q1), Token::CharQuote(q2)) => {
            let r = vec_bytes_eq(q1, q2);
            assert(r == (a@ == b@));
            r
        },
        (Token::BlockString(o1, c1), Token::BlockString(o2, c2)) => {
            let r = vec_bytes_eq(o1, o2) && vec_bytes_eq(c1, c2);
            assert(r == (a@ == b@));
            r
        },
        (Token::InlineSpan(n1, o1, c1), Token::InlineSpan(n2, o2, c2)) => {
            let r = n1.eq(n2) && vec_bytes_eq(o1, o2) && vec_bytes_eq(c1, c2);
            assert(r == (a@ == b@));
            r
        },
        (Token::BlockSpan(n1, o1, c1), Token::BlockSpan(n2, o2, c2)) => {
            let r = n1.eq(n2) && vec_bytes_eq(o1, o2) && vec_bytes_eq(c1, c2);
            assert(r == (a@ == b@));
            r
        },
        _ => {
            assert(a@ != b@);
            false
        },
    }
}

impl PartialEq for Token {
    fn eq(&self, other: &Token) -> (r: bool) {
        token_eq(self, other)
    }
}

impl vstd::std_specs::cmp::PartialEqSpecImpl for Token {
    open spec fn obeys_eq_spec() -> bool {
        true
    }

    open spec fn eq_spec(&self, other: &Token) -> bool {
        self@ == other@
    }
}

} // verus!

verus! {

/// The literal that begins a token of this category.
pub open spec fn spec_opening(t: TokenModel) -> Seq<u8> {
    match t {
        TokenModel::Delimiter(o, _) => o,
        TokenModel::LineComment(m) => m,
        TokenModel::BlockComment(o, _) => o,
        TokenModel::StringQuote(q) => q,
        TokenModel::CharQuote(q) => q,
        TokenModel::BlockString(o, _) => o,
        TokenModel::InlineSpan(_, o, _) => o,
        TokenModel::BlockSpan(_, o, _) => o,
    }
}

/// The literal that ends a token of this category, where one exists.
pub open spec fn spec_closing(t: TokenModel) -> Option<Seq<u8>> {
    match t {
        TokenModel::Delimiter(_, c) => Some(c),
        TokenModel::LineComment(_) => None,
        TokenModel::BlockComment(_, c) => Some(c),
        TokenModel::StringQuote(_) => None,
        TokenModel::CharQuote(_) => None,
        TokenModel::BlockString(_, c) => Some(c),
        TokenModel::InlineSpan(_, _, c) => Some(c),
        TokenModel::BlockSpan(_, _, c) => Some(c),
    }
}

impl Token {
    /// The opening literal of this token.
    pub fn opening(&self) -> (r: &Vec<u8>)
        ensures
            r@ == spec_opening(self@),
    {
        match self {
            Token::Delimiter(o, _) => o,
            Token::LineComment(m) => m,
            Token::BlockComment(o, _) => o,
            Token::StringQuote(q) => q,
            Token::CharQuote(q) => q,
            Token::BlockString(o, _) => o,
            Token::InlineSpan(_, o, _) => o,
            Token::BlockSpan(_, o, _) => o,
        }
    }

    /// The closing literal of this token, where the category has one.
    pub fn closing(&self) -> (r: Option<&Vec<u8>>)
        ensures
            match r {
                Some(c) => spec_closing(self@) == Some(c@),
                None => spec_closing(self@) is None,
            },
    {
        match self {
            Token::Delimiter(_, c) => Some(c),
            Token::LineComment(_) => None,
            Token::BlockComment(_, c) => Some(c),
            Token::StringQuote(_) => None,
            Token::CharQuote(_) => None,
            Token::BlockString(_, c) => Some(c),
            Token::InlineSpan(_, _, c) => Some(c),
            Token::BlockSpan(_, _, c) => Some(c),
        }
    }
}

/// A classified occurrence of a token within one line: its kind, the token,
/// the byte column where its marker begins, and the nesting depth assigned by
/// stack-height computation (`None` until assigned, and `None` for a dangling
/// opener once the whole parsed range has been walked).
#[derive(Debug)]
pub struct Match {
    pub kind: Kind,
    pub token: Token,
    pub col: usize,
    pub stack_height: Option<usize>,
}

/// Mathematical model of a `Match`.
pub struct MatchModel {
    pub kind: Kind,
    pub token: TokenModel,
    pub col: usize,
    pub stack_height: Option<usize>,
}

impl View for Match {
    type V = MatchModel;

    open spec fn view(&self) -> MatchModel {
        MatchModel { kind: self.kind, token: self.token@, col: self.col, stack_height: self.stack_height }
    }
}

impl Clone for Match {
    fn clone(&self) -> (r: Self)
        ensures
            r@ == self@,
    {
        Match { kind: self.kind, token: self.token.clone(), col: self.col, stack_height: self.stack_height }
    }
}

impl PartialEq for Match {
    fn eq(&self, other: &Match) -> (r: bool) {
        let hs_eq = match (self.stack_height, other.stack_height) {
            (Some(a), Some(b)) => a == b,
            (None, None) => true,
            _ => false,
        };
        self.kind == other.kind && token_eq(&self.token, &other.token) && self.col == other.col
            && hs_eq
    }
}

impl vstd::std_specs::cmp::PartialEqSpecImpl for Match {
    open spec fn obeys_eq_spec() -> bool {
        true
    }

    open spec fn eq_spec(&self, other: &Match) -> bool {
        self@ == other@
    }
}

/// The byte length of the marker a match stands on: the opening literal for
/// opening and non-pairing matches, the closing literal for closing matches.
pub open spec fn spec_match_len(m: MatchModel) -> nat {
    if m.kind is Closing {
        match spec_closing(m.token) {
            Some(c) => c.len(),
            None => spec_opening(m.token).len(),
        }
    } else {
        spec_opening(m.token).len()
    }
}

/// Builds a one-byte vector.
pub fn byte_vec1(b: u8) -> (r: Vec<u8>)
    ensures
        r@ =~= seq![b],
{
    let mut v: Vec<u8> = Vec::new();
    v.push(b);
    v
}

/// Builds a two-byte vector.
pub fn byte_vec2(a: u8, b: u8) -> (r: Vec<u8>)
    ensures
        r@ =~= seq![a, b],
{
    let mut v: Vec<u8> = Vec::new();
    v.push(a);
    v.push(b);
    v
}

impl Match {
    /// A match with no stack height assigned yet.
    pub fn new(kind: Kind, token: Token, col: usize) -> (r: Self)
        ensures
            r@ == (MatchModel { kind, token: token@, col, stack_height: None }),
    {
        Match { kind, token, col, stack_height: None }
    }

    /// A match carrying an already-known stack height.
    pub fn new_with_stack(kind: Kind, token: Token, col: usize, stack_height: usize) -> (r: Self)
        ensures
            r@ == (MatchModel { kind, token: token@, col, stack_height: Some(stack_height) }),
    {
        Match { kind, token, col, stack_height: Some(stack_height) }
    }

    /// The same match, annotated with the line it stands on.
    pub fn with_line(&self, line: usize) -> (r: MatchWithLine)
        ensures
            r@ == (MatchWithLineModel {
                kind: self@.kind,
                token: self@.token,
                line,
                col: self@.col,
                stack_height: self@.stack_height,
            }),
    {
        MatchWithLine {
            kind: self.kind,
            token: self.token.clone(),
            line,
            col: self.col,
            stack_height: self.stack_height,
        }
    }

    /// A non-pairing line-comment match for the given marker text.
    pub fn line_comment(text: &str, col: usize) -> (r: Self)
        ensures
            r@ == (MatchModel {
                kind: Kind::NonPair,
                token: TokenModel::LineComment(text.spec_bytes()),
                col,
                stack_height: None,
            }),
    {
        Match { kind: Kind::NonPair, token: Token::LineComment(text.as_bytes_vec()), col, stack_height: None }
    }

    /// The byte length of the marker this match stands on.
    pub fn len(&self) -> (r: usize)
        ensures
            r == spec_match_len(self@),
    {
        match self.kind {
            Kind::Opening | Kind::NonPair => self.token.opening().len(),
            Kind::Closing => match self.token.closing() {
                Some(c) => c.len(),
                None => self.token.opening().len(),
            },
        }
    }

    /// A round-, square- or curly-bracket delimiter match, opening or closing
    /// according to the character given.
    pub fn delimiter(c: char, col: usize, stack_height: Option<usize>) -> (r: Self)
        requires
            c == '(' || c == ')' || c == '[' || c == ']' || c == '{' || c == '}',
        ensures
            r@ == (MatchModel {
                kind: if c == '(' || c == '[' || c == '{' { Kind::Opening } else { Kind::Closing },
                token: if c == '(' || c == ')' {
                    TokenModel::Delimiter(seq![40u8], seq![41u8])
                } else if c == '[' || c == ']' {
                    TokenModel::Delimiter(seq![91u8], seq![93u8])
                } else {
                    TokenModel::Delimiter(seq![123u8], seq![125u8])
                },
                col,
                stack_height,
            }),
    {
        let kind = if c == '(' || c == '[' || c == '{' { Kind::Opening } else { Kind::Closing };
        let token = if c == '(' || c == ')' {
            Token::Delimiter(byte_vec1(40), byte_vec1(41))
        } else if c == '[' || c == ']' {
            Token::Delimiter(byte_vec1(91), byte_vec1(93))
        } else {
            Token::Delimiter(byte_vec1(123), byte_vec1(125))
        };
        Match { kind, token, col, stack_height }
    }

    /// A non-pairing block-comment boundary match for the C-style comment
    /// markers.
    pub fn block_comment(text: &str, col: usize) -> (r: Self)
        requires
            text.spec_bytes() == seq![47u8, 42u8] || text.spec_bytes() == seq![42u8, 47u8],
        ensures
            r@ == (MatchModel {
                kind: Kind::NonPair,
                token: TokenModel::BlockComment(seq![47u8, 42u8], seq![42u8, 47u8]),
                col,
                stack_height: None,
            }),
    {
        Match {
            kind: Kind::NonPair,
            token: Token::BlockComment(byte_vec2(47, 42), byte_vec2(42, 47)),
            col,
            stack_height: None,
        }
    }
}

/// A match together with the line it stands on, as handed back by pairing
/// queries.
#[derive(Debug)]
pub struct MatchWithLine {
    pub kind: Kind,
    pub token: Token,
    pub line: usize,
    pub col: usize,
    pub stack_height: Option<usize>,
}

/// Mathematical model of a `MatchWithLine`.
pub struct MatchWithLineModel {
    pub kind: Kind,
    pub token: TokenModel,
    pub line: usize,
    pub col: usize,
    pub stack_height: Option<usize>,
}

impl View for MatchWithLine {
    type V = MatchWithLineModel;

    open spec fn view(&self) -> MatchWithLineModel {
        MatchWithLineModel {
            kind: self.kind,
            token: self.token@,
            line: self.line,
            col: self.col,
            stack_height: self.stack_height,
        }
    }
}

/// The grammar mode active at a position, carried across line boundaries so
/// that parsing can resume mid-construct.
#[derive(Debug)]
pub enum State {
    Normal,
    InString(Vec<u8>),
    InBlockString(Vec<u8>),
    InLineComment,
    InBlockComment(Vec<u8>),
    InInlineSpan(String),
    InBlockSpan(String),
}

/// Mathematical model of a `State`.
pub enum StateModel {
    Normal,
    InString(Seq<u8>),
    InBlockString(Seq<u8>),
    InLineComment,
    InBlockComment(Seq<u8>),
    InInlineSpan(Seq<char>),
    InBlockSpan(Seq<char>),
}

impl View for State {
    type V = StateModel;

    open spec fn view(&self) -> StateModel {
        match self {
            State::Normal => StateModel::Normal,
            State::InString(q) => StateModel::InString(q@),
            State::InBlockString(m) => StateModel::InBlockString(m@),
            State::InLineComment => StateModel::InLineComment,
            State::InBlockComment(m) => StateModel::InBlockComment(m@),
            State::InInlineSpan(n) => StateModel::InInlineSpan(n@),
            State::InBlockSpan(n) => StateModel::InBlockSpan(n@),
        }
    }
}

impl Clone for State {
    fn clone(&self) -> (r: Self)
        ensures
            r@ == self@,
    {
        match self {
            State::Normal => State::Normal,
            State::InString(q) => State::InString(q.clone()),
            State::InBlockString(m) => State::InBlockString(m.clone()),
            State::InLineComment => State::InLineComment,
            State::InBlockComment(m) => State::InBlockComment(m.clone()),
            State::InInlineSpan(n) => State::InInlineSpan(n.clone()),
            State::InBlockSpan(n) => State::InBlockSpan(n.clone()),
        }
    }
}

impl PartialEq for State {
    fn eq(&self, other: &State) -> (r: bool) {
        match (self, other) {
            (State::Normal, State::Normal) => true,
            (State::InString(a), State::InString(b)) => {
                let r = vec_bytes_eq(a, b);
                assert(r == (self@ == other@));
                r
            },
            (State::InBlockString(a), State::InBlockString(b)) => {
                let r = vec_bytes_eq(a, b);
                assert(r == (self@ == other@));
                r
            },
            (State::InLineComment, State::InLineComment) => true,
            (State::InBlockComment(a), State::InBlockComment(b)) => {
                let r = vec_bytes_eq(a, b);
                assert(r == (self@ == other@));
                r
            },
            (State::InInlineSpan(a), State::InInlineSpan(b)) => {
                let r = a.eq(b);
                assert(r == (self@ == other@));
                r
            },
            (State::InBlockSpan(a), State::InBlockSpan(b)) => {
                let r = a.eq(b);
                assert(r == (self@ == other@));
                r
            },
            _ => {
                assert(self@ != other@);
                false
            },
        }
    }
}

impl vstd::std_specs::cmp::PartialEqSpecImpl for State {
    open spec fn obeys_eq_spec() -> bool {
        true
    }

    open spec fn eq_spec(&self, other: &State) -> bool {
        self@ == other@
    }
}

} // verus!
