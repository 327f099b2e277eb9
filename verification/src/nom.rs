use vstd::prelude::*;
use vstd::string::StringSliceAdditionalSpecFns;

verus! {

/// A lexical token of C-like source text, carrying its defining literals.
#[derive(Debug, PartialEq)]
pub enum CToken<'a> {
    DelimiterOpen((&'a str, &'a str)),
    DelimiterClose(&'a str),
    LineComment,
    BlockCommentOpen((&'a str, &'a str)),
    BlockCommentClose(&'a str),
    String,
    BlockStringOpen((&'a str, &'a str)),
    BlockStringClose(&'a str),
    BlockStringSymmetric(&'a str),
    Escape,
    NonToken,
}

/// Mathematical model of a `CToken`: the same categories over character
/// sequences.
pub enum CTokenModel {
    DelimiterOpen(Seq<char>, Seq<char>),
    DelimiterClose(Seq<char>),
    LineComment,
    BlockCommentOpen(Seq<char>, Seq<char>),
    BlockCommentClose(Seq<char>),
    StringLit,
    BlockStringOpen(Seq<char>, Seq<char>),
    BlockStringClose(Seq<char>),
    BlockStringSymmetric(Seq<char>),
    Escape,
    NonToken,
}

/// The model a token stands for.
pub open spec fn ctoken_view<'a>(t: CToken<'a>) -> CTokenModel {
    match t {
        CToken::DelimiterOpen((o, c)) => CTokenModel::DelimiterOpen(o@, c@),
        CToken::DelimiterClose(c) => CTokenModel::DelimiterClose(c@),
        CToken::LineComment => CTokenModel::LineComment,
        CToken::BlockCommentOpen((o, c)) => CTokenModel::BlockCommentOpen(o@, c@),
        CToken::BlockCommentClose(c) => CTokenModel::BlockCommentClose(c@),
        CToken::String => CTokenModel::StringLit,
        CToken::BlockStringOpen((o, c)) => CTokenModel::BlockStringOpen(o@, c@),
        CToken::BlockStringClose(c) => CTokenModel::BlockStringClose(c@),
        CToken::BlockStringSymmetric(c) => CTokenModel::BlockStringSymmetric(c@),
        CToken::Escape => CTokenModel::Escape,
        CToken::NonToken => CTokenModel::NonToken,
    }
}

/// The models of a token list.
pub open spec fn ctokens_view(s: Seq<CToken>) -> Seq<CTokenModel> {
    s.map_values(|t: CToken| ctoken_view(t))
}

/// The token standing at byte offset `i`, with its byte length: the bracket
/// delimiters, the C comment markers and the escape backslash; anything else
/// is no token.
pub open spec fn c_first(bytes: Seq<u8>, i: int) -> Option<(CTokenModel, int)> {
    if i < 0 || i >= bytes.len() {
        None
    } else {
        let b = bytes[i];
        if b == 40 {
            Some((CTokenModel::DelimiterOpen("("@, ")"@), 1))
        } else if b == 91 {
            Some((CTokenModel::DelimiterOpen("["@, "]"@), 1))
        } else if b == 123 {
            Some((CTokenModel::DelimiterOpen("{"@, "}"@), 1))
        } else if b == 41 {
            Some((CTokenModel::DelimiterClose(")"@), 1))
        } else if b == 93 {
            Some((CTokenModel::DelimiterClose("]"@), 1))
        } else if b == 125 {
            Some((CTokenModel::DelimiterClose("}"@), 1))
        } else if b == 47 && i + 1 < bytes.len() && bytes[i + 1] == 47 {
            Some((CTokenModel::LineComment, 2))
        } else if b == 47 && i + 1 < bytes.len() && bytes[i + 1] == 42 {
            Some((CTokenModel::BlockCommentOpen("/*"@, "*/"@), 2))
        } else if b == 42 && i + 1 < bytes.len() && bytes[i + 1] == 47 {
            Some((CTokenModel::BlockCommentClose("*/"@), 2))
        } else if b == 92 {
            Some((CTokenModel::Escape, 1))
        } else {
            None
        }
    }
}

/// Every token of the text from byte offset `i` on, in order, skipping one
/// byte wherever no token stands.
pub open spec fn c_scan(bytes: Seq<u8>, i: int) -> Seq<CTokenModel>
    decreases bytes.len() - i,
{
    if i < 0 || i >= bytes.len() {
        seq![]
    } else {
        match c_first(bytes, i) {
            Some(t) => seq![t.0] + c_scan(bytes, i + t.1),
            None => c_scan(bytes, i + 1),
        }
    }
}

fn token_at(b: &[u8], i: usize) -> (r: Option<(CToken<'static>, usize)>)
    ensures
        match r {
            Some(t) => c_first(b@, i as int) == Some((ctoken_view(t.0), t.1 as int)) && 1 <= t.1
                && i + t.1 <= b@.len(),
            None => c_first(b@, i as int) is None,
        },
{
    if i >= b.len() {
        return None;
    }
    let by = b[i];
    if by == 40 {
        Some((CToken::DelimiterOpen(("(", ")")), 1))
    } else if by == 91 {
        Some((CToken::DelimiterOpen(("[", "]")), 1))
    } else if by == 123 {
        Some((CToken::DelimiterOpen(("{", "}")), 1))
    } else if by == 41 {
        Some((CToken::DelimiterClose(")"), 1))
    } else if by == 93 {
        Some((CToken::DelimiterClose("]"), 1))
    } else if by == 125 {
        Some((CToken::DelimiterClose("}"), 1))
    } else if by == 47 && i + 1 < b.len() && b[i + 1] == 47 {
        Some((CToken::LineComment, 2))
    } else if by == 47 && i + 1 < b.len() && b[i + 1] == 42 {
        Some((CToken::BlockCommentOpen(("/*", "*/")), 2))
    } else if by == 42 && i + 1 < b.len() && b[i + 1] == 47 {
        Some((CToken::BlockCommentClose("*/"), 2))
    } else if by == 92 {
        Some((CToken::Escape, 1))
    } else {
        None
    }
}

/// The first token of the text, with the count of bytes it covers, or
/// nothing when the text does not begin with a token.
pub fn token(input: &str) -> (r: Option<(CToken<'static>, usize)>)
    ensures
        match r {
            Some(t) => c_first(input.spec_bytes(), 0) == Some((ctoken_view(t.0), t.1 as int)),
            None => c_first(input.spec_bytes(), 0) is None,
        },
{
    let b = input.as_bytes();
    token_at(b, 0)
}

/// Collects every token of the text in order, skipping what is no token;
/// never fails, and leaves no rest.
pub fn parse<'a>(input: &'a str) -> (r: Result<(&'a str, Vec<CToken<'a>>), ()>)
    ensures
        r is Ok,
        r matches Ok(p) ==> p.0@.len() == 0 && ctokens_view(p.1@) == c_scan(
            input.spec_bytes(),
            0,
        ),
{
    let b = input.as_bytes();
    let mut toks: Vec<CToken<'a>> = Vec::new();
    let mut i: usize = 0;
    while i < b.len()
        invariant
            i <= b@.len(),
            c_scan(b@, 0) == ctokens_view(toks@) + c_scan(b@, i as int),
        decreases b@.len() - i,
    {
        let ghost toks_old = toks@;
        match token_at(b, i) {
            Some(t) => {
                let (tok, l) = t;
                toks.push(tok);
                proof {
                    assert(ctokens_view(toks@) =~= ctokens_view(toks_old) + seq![ctoken_view(
                        toks@[toks@.len() - 1],
                    )]);
                    assert(c_scan(b@, i as int) =~= seq![ctoken_view(toks@[toks@.len() - 1])]
                        + c_scan(b@, i + l));
                }
                i += l;
            },
            None => {
                proof {
                    assert(c_scan(b@, i as int) =~= c_scan(b@, i + 1));
                }
                i += 1;
            },
        }
    }
    proof {
        assert(c_scan(b@, i as int) =~= Seq::<CTokenModel>::empty());
        assert(ctokens_view(toks@) =~= c_scan(b@, 0));
        reveal_strlit("");
    }
    Ok(("", toks))
}

} // verus!
