use vstd::prelude::*;
use vstd::string::StrSliceExecFns;
use vstd::string::StringSliceAdditionalSpecFns;
use crate::matcher::{CharPos, Kind, Match, MatchModel, State, StateModel, Token, TokenModel};
use crate::config::{GrammarModel, MatcherDef, interesting_spec, collect_tokens};
use crate::scan::{scan_spec, scan_line};

verus! {

/// Whether the marker's bytes stand in the line beginning at the column.
pub open spec fn marker_at(line: Seq<u8>, c: int, m: Seq<u8>) -> bool {
    m.len() > 0 && 0 <= c && c + m.len() <= line.len() && line.subrange(c, c + m.len()) == m
}

/// The first marker of the list that stands at the column, if any.
pub open spec fn find_single(line: Seq<u8>, c: int, l: Seq<Seq<u8>>, i: int) -> Option<int>
    decreases l.len() - i,
{
    if i < 0 || i >= l.len() {
        None
    } else if marker_at(line, c, l[i]) {
        Some(i)
    } else {
        find_single(line, c, l, i + 1)
    }
}

/// The first pair of the list whose open marker stands at the column.
pub open spec fn find_open(line: Seq<u8>, c: int, l: Seq<(Seq<u8>, Seq<u8>)>, i: int) -> Option<int>
    decreases l.len() - i,
{
    if i < 0 || i >= l.len() {
        None
    } else if marker_at(line, c, l[i].0) {
        Some(i)
    } else {
        find_open(line, c, l, i + 1)
    }
}

/// The first pair of the list whose close marker stands at the column.
pub open spec fn find_close(line: Seq<u8>, c: int, l: Seq<(Seq<u8>, Seq<u8>)>, i: int) -> Option<
    int,
>
    decreases l.len() - i,
{
    if i < 0 || i >= l.len() {
        None
    } else if marker_at(line, c, l[i].1) {
        Some(i)
    } else {
        find_close(line, c, l, i + 1)
    }
}

/// The first span of the list whose open marker stands at the column.
pub open spec fn find_span(
    line: Seq<u8>,
    c: int,
    l: Seq<(Seq<char>, (Seq<u8>, Seq<u8>))>,
    i: int,
) -> Option<int>
    decreases l.len() - i,
{
    if i < 0 || i >= l.len() {
        None
    } else if marker_at(line, c, l[i].1.0) {
        Some(i)
    } else {
        find_span(line, c, l, i + 1)
    }
}

/// The first pair of the list with the given open marker.
pub open spec fn lookup_pair(l: Seq<(Seq<u8>, Seq<u8>)>, o: Seq<u8>, i: int) -> Option<int>
    decreases l.len() - i,
{
    if i < 0 || i >= l.len() {
        None
    } else if l[i].0 == o {
        Some(i)
    } else {
        lookup_pair(l, o, i + 1)
    }
}

/// The first span of the list with the given name.
pub open spec fn lookup_span(l: Seq<(Seq<char>, (Seq<u8>, Seq<u8>))>, n: Seq<char>, i: int) -> Option<int>
    decreases l.len() - i,
{
    if i < 0 || i >= l.len() {
        None
    } else if l[i].0 == n {
        Some(i)
    } else {
        lookup_span(l, n, i + 1)
    }
}

/// The token a quote closing `InString` mode stands for: a string quote where
/// the grammar lists the quote as a string marker, a character quote
/// otherwise.
pub open spec fn quote_token(g: GrammarModel, q: Seq<u8>) -> TokenModel {
    if g.strings.contains(q) {
        TokenModel::StringQuote(q)
    } else {
        TokenModel::CharQuote(q)
    }
}

/// What a candidate in Normal state yields: the match, the state that
/// follows, and the matched marker's length. Categories are tried in a fixed
/// order, multi-byte marker categories before the single-byte ones, so that
/// the longest marker of a shared first byte wins.
pub open spec fn try_normal(g: GrammarModel, line: Seq<u8>, c: int) -> Option<
    (MatchModel, StateModel, int),
> {
    if let Some(i) = find_open(line, c, g.block_strings, 0) {
        let (o, cl) = g.block_strings[i];
        Some(
            (
                MatchModel {
                    kind: Kind::NonPair,
                    token: TokenModel::BlockString(o, cl),
                    col: c as usize,
                    stack_height: None,
                },
                StateModel::InBlockString(o),
                o.len() as int,
            ),
        )
    } else if let Some(i) = find_open(line, c, g.block_comments, 0) {
        let (o, cl) = g.block_comments[i];
        Some(
            (
                MatchModel {
                    kind: Kind::NonPair,
                    token: TokenModel::BlockComment(o, cl),
                    col: c as usize,
                    stack_height: None,
                },
                StateModel::InBlockComment(o),
                o.len() as int,
            ),
        )
    } else if let Some(i) = find_single(line, c, g.line_comments, 0) {
        let m = g.line_comments[i];
        Some(
            (
                MatchModel {
                    kind: Kind::NonPair,
                    token: TokenModel::LineComment(m),
                    col: c as usize,
                    stack_height: None,
                },
                StateModel::InLineComment,
                m.len() as int,
            ),
        )
    } else if let Some(i) = find_span(line, c, g.block_spans, 0) {
        let (n, (o, cl)) = g.block_spans[i];
        Some(
            (
                MatchModel {
                    kind: Kind::Opening,
                    token: TokenModel::BlockSpan(n, o, cl),
                    col: c as usize,
                    stack_height: None,
                },
                StateModel::InBlockSpan(n),
                o.len() as int,
            ),
        )
    } else if let Some(i) = find_span(line, c, g.inline_spans, 0) {
        let (n, (o, cl)) = g.inline_spans[i];
        Some(
            (
                MatchModel {
                    kind: Kind::Opening,
                    token: TokenModel::InlineSpan(n, o, cl),
                    col: c as usize,
                    stack_height: None,
                },
                StateModel::InInlineSpan(n),
                o.len() as int,
            ),
        )
    } else if let Some(i) = find_single(line, c, g.strings, 0) {
        let q = g.strings[i];
        Some(
            (
                MatchModel {
                    kind: Kind::NonPair,
                    token: TokenModel::StringQuote(q),
                    col: c as usize,
                    stack_height: None,
                },
                StateModel::InString(q),
                q.len() as int,
            ),
        )
    } else if let Some(i) = find_single(line, c, g.chars, 0) {
        let q = g.chars[i];
        Some(
            (
                MatchModel {
                    kind: Kind::NonPair,
                    token: TokenModel::CharQuote(q),
                    col: c as usize,
                    stack_height: None,
                },
                StateModel::InString(q),
                q.len() as int,
            ),
        )
    } else if let Some(i) = find_open(line, c, g.delimiters, 0) {
        let (o, cl) = g.delimiters[i];
        Some(
            (
                MatchModel {
                    kind: Kind::Opening,
                    token: TokenModel::Delimiter(o, cl),
                    col: c as usize,
                    stack_height: None,
                },
                StateModel::Normal,
                o.len() as int,
            ),
        )
    } else if let Some(i) = find_close(line, c, g.delimiters, 0) {
        let (o, cl) = g.delimiters[i];
        Some(
            (
                MatchModel {
                    kind: Kind::Closing,
                    token: TokenModel::Delimiter(o, cl),
                    col: c as usize,
                    stack_height: None,
                },
                StateModel::Normal,
                cl.len() as int,
            ),
        )
    } else {
        None
    }
}

/// One step of the token matcher: what a single candidate yields in the given
/// state. `None` means the candidate is passed over and the state kept. An
/// escaped candidate is never interpreted in Normal, string or block-string
/// state; a comment or span closer is found even behind a backslash.
pub open spec fn step_spec(g: GrammarModel, st: StateModel, line: Seq<u8>, c: int, escaped: bool) -> Option<(MatchModel, StateModel, int)> {
    match st {
        StateModel::Normal => if escaped {
            None
        } else {
            try_normal(g, line, c)
        },
        StateModel::InLineComment => None,
        StateModel::InString(q) => if escaped {
            None
        } else if marker_at(line, c, q) {
            Some(
                (
                    MatchModel {
                        kind: Kind::NonPair,
                        token: quote_token(g, q),
                        col: c as usize,
                        stack_height: None,
                    },
                    StateModel::Normal,
                    q.len() as int,
                ),
            )
        } else {
            None
        },
        StateModel::InBlockString(o) => if escaped {
            None
        } else {
            match lookup_pair(g.block_strings, o, 0) {
                Some(i) => {
                    let cl = g.block_strings[i].1;
                    if marker_at(line, c, cl) {
                        Some(
                            (
                                MatchModel {
                                    kind: Kind::NonPair,
                                    token: TokenModel::BlockString(o, cl),
                                    col: c as usize,
                                    stack_height: None,
                                },
                                StateModel::Normal,
                                cl.len() as int,
                            ),
                        )
                    } else {
                        None
                    }
                },
                None => None,
            }
        },
        StateModel::InBlockComment(o) => match lookup_pair(g.block_comments, o, 0) {
            Some(i) => {
                let cl = g.block_comments[i].1;
                if marker_at(line, c, cl) {
                    Some(
                        (
                            MatchModel {
                                kind: Kind::NonPair,
                                token: TokenModel::BlockComment(o, cl),
                                col: c as usize,
                                stack_height: None,
                            },
                            StateModel::Normal,
                            cl.len() as int,
                        ),
                    )
                } else {
                    None
                }
            },
            None => None,
        },
        StateModel::InInlineSpan(n) => match lookup_span(g.inline_spans, n, 0) {
            Some(i) => {
                let (o, cl) = g.inline_spans[i].1;
                if marker_at(line, c, cl) {
                    Some(
                        (
                            MatchModel {
                                kind: Kind::Closing,
                                token: TokenModel::InlineSpan(n, o, cl),
                                col: c as usize,
                                stack_height: None,
                            },
                            StateModel::Normal,
                            cl.len() as int,
                        ),
                    )
                } else {
                    None
                }
            },
            None => None,
        },
        StateModel::InBlockSpan(n) => match lookup_span(g.block_spans, n, 0) {
            Some(i) => {
                let (o, cl) = g.block_spans[i].1;
                if marker_at(line, c, cl) {
                    Some(
                        (
                            MatchModel {
                                kind: Kind::Closing,
                                token: TokenModel::BlockSpan(n, o, cl),
                                col: c as usize,
                                stack_height: None,
                            },
                            StateModel::Normal,
                            cl.len() as int,
                        ),
                    )
                } else {
                    None
                }
            },
            None => None,
        },
    }
}

} // verus!

verus! {

/// Copies a byte vector.
pub fn clone_bytes(v: &Vec<u8>) -> (r: Vec<u8>)
    ensures
        r@ == v@,
{
    let r = v.clone();
    assert(r@ =~= v@);
    r
}

/// Whether the marker's bytes stand in the line at the column.
fn marker_at_exec(line: &Vec<u8>, c: usize, m: &Vec<u8>) -> (r: bool)
    ensures
        r == marker_at(line@, c as int, m@),
{
    if m.len() == 0 || c > line.len() || m.len() > line.len() - c {
        return false;
    }
    let mut i: usize = 0;
    while i < m.len()
        invariant
            i <= m@.len(),
            m@.len() > 0,
            c + m@.len() <= line@.len(),
            line@.len() <= usize::MAX,
            forall|j: int| 0 <= j < i ==> line@[c + j] == m@[j],
        decreases m@.len() - i,
    {
        assert(c + i < line@.len());
        if line[c + i] != m[i] {
            assert(line@.subrange(c as int, c + m@.len()) != m@) by {
                assert(line@.subrange(c as int, c + m@.len())[i as int] != m@[i as int]);
            }
            return false;
        }
        i += 1;
    }
    assert(line@.subrange(c as int, c + m@.len()) =~= m@);
    true
}

fn find_single_exec(line: &Vec<u8>, c: usize, l: &Vec<Vec<u8>>) -> (r: Option<usize>)
    ensures
        match r {
            Some(i) => i < l@.len() && find_single(line@, c as int, crate::config::singles_view(l@), 0)
                == Some(i as int),
            None => find_single(line@, c as int, crate::config::singles_view(l@), 0) is None,
        },
{
    let ghost lv = crate::config::singles_view(l@);
    let mut i: usize = 0;
    while i < l.len()
        invariant
            i <= l@.len(),
            lv == crate::config::singles_view(l@),
            find_single(line@, c as int, lv, 0) == find_single(line@, c as int, lv, i as int),
        decreases l@.len() - i,
    {
        if marker_at_exec(line, c, &l[i]) {
            assert(find_single(line@, c as int, lv, i as int) == Some(i as int));
            return Some(i);
        }
        assert(find_single(line@, c as int, lv, i as int) == find_single(
            line@,
            c as int,
            lv,
            i + 1,
        ));
        i += 1;
    }
    assert(find_single(line@, c as int, lv, i as int) is None);
    None
}

fn find_open_exec(line: &Vec<u8>, c: usize, l: &Vec<(Vec<u8>, Vec<u8>)>) -> (r: Option<usize>)
    ensures
        match r {
            Some(i) => i < l@.len() && find_open(line@, c as int, crate::config::pairs_view(l@), 0)
                == Some(i as int),
            None => find_open(line@, c as int, crate::config::pairs_view(l@), 0) is None,
        },
{
    let ghost lv = crate::config::pairs_view(l@);
    let mut i: usize = 0;
    while i < l.len()
        invariant
            i <= l@.len(),
            lv == crate::config::pairs_view(l@),
            find_open(line@, c as int, lv, 0) == find_open(line@, c as int, lv, i as int),
        decreases l@.len() - i,
    {
        if marker_at_exec(line, c, &l[i].0) {
            assert(find_open(line@, c as int, lv, i as int) == Some(i as int));
            return Some(i);
        }
        assert(find_open(line@, c as int, lv, i as int) == find_open(line@, c as int, lv, i + 1));
        i += 1;
    }
    assert(find_open(line@, c as int, lv, i as int) is None);
    None
}

fn find_close_exec(line: &Vec<u8>, c: usize, l: &Vec<(Vec<u8>, Vec<u8>)>) -> (r: Option<usize>)
    ensures
        match r {
            Some(i) => i < l@.len() && find_close(line@, c as int, crate::config::pairs_view(l@), 0)
                == Some(i as int),
            None => find_close(line@, c as int, crate::config::pairs_view(l@), 0) is None,
        },
{
    let ghost lv = crate::config::pairs_view(l@);
    let mut i: usize = 0;
    while i < l.len()
        invariant
            i <= l@.len(),
            lv == crate::config::pairs_view(l@),
            find_close(line@, c as int, lv, 0) == find_close(line@, c as int, lv, i as int),
        decreases l@.len() - i,
    {
        if marker_at_exec(line, c, &l[i].1) {
            assert(find_close(line@, c as int, lv, i as int) == Some(i as int));
            return Some(i);
        }
        assert(find_close(line@, c as int, lv, i as int) == find_close(
            line@,
            c as int,
            lv,
            i + 1,
        ));
        i += 1;
    }
    assert(find_close(line@, c as int, lv, i as int) is None);
    None
}

fn find_span_exec(line: &Vec<u8>, c: usize, l: &Vec<(String, (Vec<u8>, Vec<u8>))>) -> (r: Option<
    usize,
>)
    ensures
        match r {
            Some(i) => i < l@.len() && find_span(line@, c as int, crate::config::spans_view(l@), 0)
                == Some(i as int),
            None => find_span(line@, c as int, crate::config::spans_view(l@), 0) is None,
        },
{
    let ghost lv = crate::config::spans_view(l@);
    let mut i: usize = 0;
    while i < l.len()
        invariant
            i <= l@.len(),
            lv == crate::config::spans_view(l@),
            find_span(line@, c as int, lv, 0) == find_span(line@, c as int, lv, i as int),
        decreases l@.len() - i,
    {
        if marker_at_exec(line, c, &l[i].1.0) {
            assert(find_span(line@, c as int, lv, i as int) == Some(i as int));
            return Some(i);
        }
        assert(find_span(line@, c as int, lv, i as int) == find_span(line@, c as int, lv, i + 1));
        i += 1;
    }
    assert(find_span(line@, c as int, lv, i as int) is None);
    None
}

fn lookup_pair_exec(l: &Vec<(Vec<u8>, Vec<u8>)>, o: &Vec<u8>) -> (r: Option<usize>)
    ensures
        match r {
            Some(i) => i < l@.len() && lookup_pair(crate::config::pairs_view(l@), o@, 0) == Some(
                i as int,
            ),
            None => lookup_pair(crate::config::pairs_view(l@), o@, 0) is None,
        },
{
    let ghost lv = crate::config::pairs_view(l@);
    let mut i: usize = 0;
    while i < l.len()
        invariant
            i <= l@.len(),
            lv == crate::config::pairs_view(l@),
            lookup_pair(lv, o@, 0) == lookup_pair(lv, o@, i as int),
        decreases l@.len() - i,
    {
        if crate::matcher::vec_bytes_eq(&l[i].0, o) {
            assert(lookup_pair(lv, o@, i as int) == Some(i as int));
            return Some(i);
        }
        assert(lookup_pair(lv, o@, i as int) == lookup_pair(lv, o@, i + 1));
        i += 1;
    }
    assert(lookup_pair(lv, o@, i as int) is None);
    None
}

fn lookup_span_exec(l: &Vec<(String, (Vec<u8>, Vec<u8>))>, n: &String) -> (r: Option<usize>)
    ensures
        match r {
            Some(i) => i < l@.len() && lookup_span(crate::config::spans_view(l@), n@, 0) == Some(
                i as int,
            ),
            None => lookup_span(crate::config::spans_view(l@), n@, 0) is None,
        },
{
    let ghost lv = crate::config::spans_view(l@);
    let mut i: usize = 0;
    while i < l.len()
        invariant
            i <= l@.len(),
            lv == crate::config::spans_view(l@),
            lookup_span(lv, n@, 0) == lookup_span(lv, n@, i as int),
        decreases l@.len() - i,
    {
        if l[i].0.eq(n) {
            assert(lookup_span(lv, n@, i as int) == Some(i as int));
            return Some(i);
        }
        assert(lookup_span(lv, n@, i as int) == lookup_span(lv, n@, i + 1));
        i += 1;
    }
    assert(lookup_span(lv, n@, i as int) is None);
    None
}

fn list_contains(l: &Vec<Vec<u8>>, m: &Vec<u8>) -> (r: bool)
    ensures
        r == crate::config::singles_view(l@).contains(m@),
{
    let ghost lv = crate::config::singles_view(l@);
    let mut i: usize = 0;
    while i < l.len()
        invariant
            i <= l@.len(),
            lv == crate::config::singles_view(l@),
            forall|j: int| 0 <= j < i ==> lv[j] != m@,
        decreases l@.len() - i,
    {
        if crate::matcher::vec_bytes_eq(&l[i], m) {
            assert(lv[i as int] == m@);
            return true;
        }
        i += 1;
    }
    assert(forall|j: int| 0 <= j < lv.len() ==> lv[j] != m@);
    false
}

} // verus!

verus! {

/// One step of the token matcher, executable form: classifies the candidate
/// at column `c` in the given state, handing back the match to emit, the
/// state that follows, and the matched marker's length.
fn step(g: &MatcherDef, st: &State, line: &Vec<u8>, c: usize, escaped: bool) -> (r: Option<
    (Match, State, usize),
>)
    ensures
        match r {
            Some(t) => step_spec(g@, st@, line@, c as int, escaped) == Some(
                (t.0@, t.1@, t.2 as int),
            ),
            None => step_spec(g@, st@, line@, c as int, escaped) is None,
        },
{
    match st {
        State::Normal => {
            if escaped {
                return None;
            }
            if let Some(i) = find_open_exec(line, c, &g.block_strings) {
                let o = clone_bytes(&g.block_strings[i].0);
                let cl = clone_bytes(&g.block_strings[i].1);
                let len = o.len();
                let st2 = State::InBlockString(clone_bytes(&o));
                return Some((Match::new(Kind::NonPair, Token::BlockString(o, cl), c), st2, len));
            }
            if let Some(i) = find_open_exec(line, c, &g.block_comments) {
                let o = clone_bytes(&g.block_comments[i].0);
                let cl = clone_bytes(&g.block_comments[i].1);
                let len = o.len();
                let st2 = State::InBlockComment(clone_bytes(&o));
                return Some((Match::new(Kind::NonPair, Token::BlockComment(o, cl), c), st2, len));
            }
            if let Some(i) = find_single_exec(line, c, &g.line_comments) {
                let m = clone_bytes(&g.line_comments[i]);
                let len = m.len();
                return Some(
                    (Match::new(Kind::NonPair, Token::LineComment(m), c), State::InLineComment, len),
                );
            }
            if let Some(i) = find_span_exec(line, c, &g.block_spans) {
                let n = g.block_spans[i].0.clone();
                let o = clone_bytes(&g.block_spans[i].1.0);
                let cl = clone_bytes(&g.block_spans[i].1.1);
                let len = o.len();
                let st2 = State::InBlockSpan(n.clone());
                return Some((Match::new(Kind::Opening, Token::BlockSpan(n, o, cl), c), st2, len));
            }
            if let Some(i) = find_span_exec(line, c, &g.inline_spans) {
                let n = g.inline_spans[i].0.clone();
                let o = clone_bytes(&g.inline_spans[i].1.0);
                let cl = clone_bytes(&g.inline_spans[i].1.1);
                let len = o.len();
                let st2 = State::InInlineSpan(n.clone());
                return Some((Match::new(Kind::Opening, Token::InlineSpan(n, o, cl), c), st2, len));
            }
            if let Some(i) = find_single_exec(line, c, &g.strings) {
                let q = clone_bytes(&g.strings[i]);
                let len = q.len();
                let st2 = State::InString(clone_bytes(&q));
                return Some((Match::new(Kind::NonPair, Token::StringQuote(q), c), st2, len));
            }
            if let Some(i) = find_single_exec(line, c, &g.chars) {
                let q = clone_bytes(&g.chars[i]);
                let len = q.len();
                let st2 = State::InString(clone_bytes(&q));
                return Some((Match::new(Kind::NonPair, Token::CharQuote(q), c), st2, len));
            }
            if let Some(i) = find_open_exec(line, c, &g.delimiters) {
                let o = clone_bytes(&g.delimiters[i].0);
                let cl = clone_bytes(&g.delimiters[i].1);
                let len = o.len();
                return Some(
                    (Match::new(Kind::Opening, Token::Delimiter(o, cl), c), State::Normal, len),
                );
            }
            if let Some(i) = find_close_exec(line, c, &g.delimiters) {
                let o = clone_bytes(&g.delimiters[i].0);
                let cl = clone_bytes(&g.delimiters[i].1);
                let len = cl.len();
                return Some(
                    (Match::new(Kind::Closing, Token::Delimiter(o, cl), c), State::Normal, len),
                );
            }
            None
        },
        State::InLineComment => None,
        State::InString(q) => {
            if escaped {
                return None;
            }
            if marker_at_exec(line, c, q) {
                let len = q.len();
                let token = if list_contains(&g.strings, q) {
                    Token::StringQuote(clone_bytes(q))
                } else {
                    Token::CharQuote(clone_bytes(q))
                };
                Some((Match::new(Kind::NonPair, token, c), State::Normal, len))
            } else {
                None
            }
        },
        State::InBlockString(o) => {
            if escaped {
                return None;
            }
            if let Some(i) = lookup_pair_exec(&g.block_strings, o) {
                let cl = &g.block_strings[i].1;
                if marker_at_exec(line, c, cl) {
                    let len = cl.len();
                    return Some(
                        (
                            Match::new(
                                Kind::NonPair,
                                Token::BlockString(clone_bytes(o), clone_bytes(cl)),
                                c,
                            ),
                            State::Normal,
                            len,
                        ),
                    );
                }
            }
            None
        },
        State::InBlockComment(o) => {
            if let Some(i) = lookup_pair_exec(&g.block_comments, o) {
                let cl = &g.block_comments[i].1;
                if marker_at_exec(line, c, cl) {
                    let len = cl.len();
                    return Some(
                        (
                            Match::new(
                                Kind::NonPair,
                                Token::BlockComment(clone_bytes(o), clone_bytes(cl)),
                                c,
                            ),
                            State::Normal,
                            len,
                        ),
                    );
                }
            }
            None
        },
        State::InInlineSpan(n) => {
            if let Some(i) = lookup_span_exec(&g.inline_spans, n) {
                let o = &g.inline_spans[i].1.0;
                let cl = &g.inline_spans[i].1.1;
                if marker_at_exec(line, c, cl) {
                    let len = cl.len();
                    return Some(
                        (
                            Match::new(
                                Kind::Closing,
                                Token::InlineSpan(n.clone(), clone_bytes(o), clone_bytes(cl)),
                                c,
                            ),
                            State::Normal,
                            len,
                        ),
                    );
                }
            }
            None
        },
        State::InBlockSpan(n) => {
            if let Some(i) = lookup_span_exec(&g.block_spans, n) {
                let o = &g.block_spans[i].1.0;
                let cl = &g.block_spans[i].1.1;
                if marker_at_exec(line, c, cl) {
                    let len = cl.len();
                    return Some(
                        (
                            Match::new(
                                Kind::Closing,
                                Token::BlockSpan(n.clone(), clone_bytes(o), clone_bytes(cl)),
                                c,
                            ),
                            State::Normal,
                            len,
                        ),
                    );
                }
            }
            None
        },
    }
}

} // verus!

verus! {

/// View of an escape column.
pub open spec fn opt_int(o: Option<usize>) -> Option<int> {
    match o {
        Some(e) => Some(e as int),
        None => None,
    }
}

/// The walk of one line's candidates from index `i` on: candidates below the
/// `skip` column were consumed by an earlier marker; a backslash candidate
/// only toggles the pending-escape column; any other candidate is handed to
/// the matcher, and a match consumes the candidates its marker covers.
pub open spec fn walk(
    g: GrammarModel,
    line: Seq<u8>,
    cands: Seq<CharPos>,
    i: int,
    st: StateModel,
    esc: Option<int>,
    skip: int,
) -> (Seq<MatchModel>, StateModel)
    decreases cands.len() - i,
{
    if i < 0 || i >= cands.len() {
        (seq![], st)
    } else {
        let c = cands[i].col as int;
        if c < skip {
            walk(g, line, cands, i + 1, st, esc, skip)
        } else if cands[i].byte == 92 {
            let esc2: Option<int> = if esc == Some(c - 1) {
                None
            } else {
                Some(c)
            };
            walk(g, line, cands, i + 1, st, esc2, skip)
        } else {
            let escaped = esc == Some(c - 1);
            match step_spec(g, st, line, c, escaped) {
                None => walk(g, line, cands, i + 1, st, esc, skip),
                Some(t) => {
                    let rest = walk(g, line, cands, i + 1, t.1, esc, c + t.2);
                    (seq![t.0] + rest.0, rest.1)
                },
            }
        }
    }
}

/// String, line-comment and inline-span modes never cross a line boundary:
/// they reset to Normal at end of line. The other modes carry over.
pub open spec fn line_scoped_reset(st: StateModel) -> StateModel {
    match st {
        StateModel::InString(_) => StateModel::Normal,
        StateModel::InLineComment => StateModel::Normal,
        StateModel::InInlineSpan(_) => StateModel::Normal,
        _ => st,
    }
}

/// One line's classification: the matches emitted (heights unassigned) and
/// the state recorded at the line's end.
pub open spec fn classify_line_spec(g: GrammarModel, st: StateModel, line: Seq<u8>) -> (
    Seq<MatchModel>,
    StateModel,
) {
    let r = walk(g, line, scan_spec(line, interesting_spec(g), 0), 0, st, None, 0);
    (r.0, line_scoped_reset(r.1))
}

/// Classification of the lines from index `l` on, threading the end state of
/// each line into the next.
pub open spec fn classify_from(
    g: GrammarModel,
    st: StateModel,
    lines: Seq<Seq<u8>>,
    l: int,
) -> (Seq<Seq<MatchModel>>, Seq<StateModel>)
    decreases lines.len() - l,
{
    if l < 0 || l >= lines.len() {
        (seq![], seq![])
    } else {
        let one = classify_line_spec(g, st, lines[l]);
        let rest = classify_from(g, one.1, lines, l + 1);
        (seq![one.0] + rest.0, seq![one.1] + rest.1)
    }
}

/// Per-line match lists and end states of a whole run, from a given initial
/// state.
pub open spec fn classify_lines_spec(g: GrammarModel, st: StateModel, lines: Seq<Seq<u8>>) -> (
    Seq<Seq<MatchModel>>,
    Seq<StateModel>,
) {
    classify_from(g, st, lines, 0)
}

/// View of a row of matches.
pub open spec fn matches_view(s: Seq<Match>) -> Seq<MatchModel> {
    s.map_values(|m: Match| m@)
}

/// View of per-line match rows.
pub open spec fn rows_view(s: Seq<Vec<Match>>) -> Seq<Seq<MatchModel>> {
    s.map_values(|v: Vec<Match>| matches_view(v@))
}

/// View of per-line end states.
pub open spec fn states_view(s: Seq<State>) -> Seq<StateModel> {
    s.map_values(|st: State| st@)
}

/// View of lines of bytes.
pub open spec fn lines_view(s: Seq<Vec<u8>>) -> Seq<Seq<u8>> {
    s.map_values(|v: Vec<u8>| v@)
}

proof fn lemma_find_single_some(line: Seq<u8>, c: int, l: Seq<Seq<u8>>, j: int)
    requires
        find_single(line, c, l, j) is Some,
    ensures
        ({
            let i = find_single(line, c, l, j)->0;
            j <= i < l.len() && marker_at(line, c, l[i])
        }),
    decreases l.len() - j,
{
    if !(j < 0 || j >= l.len()) && !marker_at(line, c, l[j]) {
        lemma_find_single_some(line, c, l, j + 1);
    }
}

proof fn lemma_find_open_some(line: Seq<u8>, c: int, l: Seq<(Seq<u8>, Seq<u8>)>, j: int)
    requires
        find_open(line, c, l, j) is Some,
    ensures
        ({
            let i = find_open(line, c, l, j)->0;
            j <= i < l.len() && marker_at(line, c, l[i].0)
        }),
    decreases l.len() - j,
{
    if !(j < 0 || j >= l.len()) && !marker_at(line, c, l[j].0) {
        lemma_find_open_some(line, c, l, j + 1);
    }
}

proof fn lemma_find_close_some(line: Seq<u8>, c: int, l: Seq<(Seq<u8>, Seq<u8>)>, j: int)
    requires
        find_close(line, c, l, j) is Some,
    ensures
        ({
            let i = find_close(line, c, l, j)->0;
            j <= i < l.len() && marker_at(line, c, l[i].1)
        }),
    decreases l.len() - j,
{
    if !(j < 0 || j >= l.len()) && !marker_at(line, c, l[j].1) {
        lemma_find_close_some(line, c, l, j + 1);
    }
}

proof fn lemma_find_span_some(line: Seq<u8>, c: int, l: Seq<(Seq<char>, (Seq<u8>, Seq<u8>))>, j: int)
    requires
        find_span(line, c, l, j) is Some,
    ensures
        ({
            let i = find_span(line, c, l, j)->0;
            j <= i < l.len() && marker_at(line, c, l[i].1.0)
        }),
    decreases l.len() - j,
{
    if !(j < 0 || j >= l.len()) && !marker_at(line, c, l[j].1.0) {
        lemma_find_span_some(line, c, l, j + 1);
    }
}

/// A step that yields a match stays within the line: the marker is nonempty
/// and ends at or before the line's end.
proof fn lemma_step_len(g: GrammarModel, st: StateModel, line: Seq<u8>, c: int, escaped: bool)
    requires
        step_spec(g, st, line, c, escaped) is Some,
    ensures
        ({
            let t = step_spec(g, st, line, c, escaped)->0;
            0 < t.2 && c + t.2 <= line.len() && 0 <= c
        }),
{
    match st {
        StateModel::Normal => {
            if find_open(line, c, g.block_strings, 0) is Some {
                lemma_find_open_some(line, c, g.block_strings, 0);
            } else if find_open(line, c, g.block_comments, 0) is Some {
                lemma_find_open_some(line, c, g.block_comments, 0);
            } else if find_single(line, c, g.line_comments, 0) is Some {
                lemma_find_single_some(line, c, g.line_comments, 0);
            } else if find_span(line, c, g.block_spans, 0) is Some {
                lemma_find_span_some(line, c, g.block_spans, 0);
            } else if find_span(line, c, g.inline_spans, 0) is Some {
                lemma_find_span_some(line, c, g.inline_spans, 0);
            } else if find_single(line, c, g.strings, 0) is Some {
                lemma_find_single_some(line, c, g.strings, 0);
            } else if find_single(line, c, g.chars, 0) is Some {
                lemma_find_single_some(line, c, g.chars, 0);
            } else if find_open(line, c, g.delimiters, 0) is Some {
                lemma_find_open_some(line, c, g.delimiters, 0);
            } else if find_close(line, c, g.delimiters, 0) is Some {
                lemma_find_close_some(line, c, g.delimiters, 0);
            }
        },
        _ => {},
    }
}

} // verus!

verus! {

/// Every candidate the scanner yields lies within the line, at or after the
/// column scanning started from, and carries the byte standing there.
proof fn lemma_scan_bounds(line: Seq<u8>, set: Seq<u8>, col: int)
    requires
        line.len() <= usize::MAX,
    ensures
        forall|k: int|
            0 <= k < scan_spec(line, set, col).len() ==> col <= (#[trigger] scan_spec(
                line,
                set,
                col,
            )[k]).col < line.len() && scan_spec(line, set, col)[k].byte == line[scan_spec(
                line,
                set,
                col,
            )[k].col as int],
    decreases line.len() - col,
{
    if col < 0 || col >= line.len() {
    } else {
        lemma_scan_bounds(line, set, col + 1);
        let rest = scan_spec(line, set, col + 1);
        let cur = scan_spec(line, set, col);
        if set.contains(line[col]) {
            assert(cur =~= seq![CharPos { col: col as usize, byte: line[col] }] + rest);
            assert forall|k: int| 0 <= k < cur.len() implies col <= (#[trigger] cur[k]).col
                < line.len() && cur[k].byte == line[cur[k].col as int] by {
                if k > 0 {
                    assert(cur[k] == rest[k - 1]);
                }
            }
        } else {
            assert(cur == rest);
        }
    }
}

/// Runs scanner and matcher over one line from the given state, handing back
/// the line's matches and its recorded end state.
pub fn classify_line(g: &MatcherDef, set: &Vec<u8>, line: &Vec<u8>, st0: State) -> (r: (
    Vec<Match>,
    State,
))
    requires
        set@ == interesting_spec(g@),
    ensures
        matches_view(r.0@) == classify_line_spec(g@, st0@, line@).0,
        r.1@ == classify_line_spec(g@, st0@, line@).1,
{
    let ll = line.len();
    let cands = scan_line(line, set);
    proof {
        lemma_scan_bounds(line@, set@, 0);
    }
    let ghost w0 = walk(g@, line@, cands@, 0, st0@, None, 0);
    let mut ms: Vec<Match> = Vec::new();
    let mut st = st0;
    let mut esc: Option<usize> = None;
    let mut skip: usize = 0;
    let mut i: usize = 0;
    while i < cands.len()
        invariant
            i <= cands@.len(),
            cands@ == scan_spec(line@, interesting_spec(g@), 0),
            ll == line@.len(),
            forall|k: int|
                0 <= k < cands@.len() ==> 0 <= (#[trigger] cands@[k]).col < line@.len()
                    && cands@[k].byte == line@[cands@[k].col as int],
            w0 == walk(g@, line@, cands@, 0, st0@, None, 0),
            w0.0 == matches_view(ms@) + walk(
                g@,
                line@,
                cands@,
                i as int,
                st@,
                opt_int(esc),
                skip as int,
            ).0,
            w0.1 == walk(g@, line@, cands@, i as int, st@, opt_int(esc), skip as int).1,
        decreases cands@.len() - i,
    {
        let ghost st_old = st@;
        let ghost esc_old = opt_int(esc);
        let ghost skip_old = skip as int;
        let cp = cands[i];
        let ghost c = cp.col as int;
        if cp.col < skip {
            proof {
                assert(walk(g@, line@, cands@, i as int, st_old, esc_old, skip_old) == walk(
                    g@,
                    line@,
                    cands@,
                    i + 1,
                    st_old,
                    esc_old,
                    skip_old,
                ));
            }
        } else if cp.byte == 92 {
            let was_escape_pair = match esc {
                Some(e) => cp.col > 0 && e == cp.col - 1,
                None => false,
            };
            if was_escape_pair {
                esc = None;
            } else {
                esc = Some(cp.col);
            }
            proof {
                assert(opt_int(esc) == if esc_old == Some(c - 1) {
                    None::<int>
                } else {
                    Some(c)
                });
                assert(walk(g@, line@, cands@, i as int, st_old, esc_old, skip_old) == walk(
                    g@,
                    line@,
                    cands@,
                    i + 1,
                    st_old,
                    opt_int(esc),
                    skip_old,
                ));
            }
        } else {
            let escaped = match esc {
                Some(e) => cp.col > 0 && e == cp.col - 1,
                None => false,
            };
            proof {
                assert(escaped == (esc_old == Some(c - 1)));
            }
            match step(g, &st, line, cp.col, escaped) {
                Some(t) => {
                    let (m, st2, len) = t;
                    proof {
                        lemma_step_len(g@, st_old, line@, c, escaped);
                    }
                    let ghost ms_old = ms@;
                    ms.push(m);
                    st = st2;
                    skip = cp.col + len;
                    proof {
                        assert(matches_view(ms@) =~= matches_view(ms_old) + seq![m@]);
                        assert(walk(g@, line@, cands@, i as int, st_old, esc_old, skip_old).0
                            =~= seq![m@] + walk(
                            g@,
                            line@,
                            cands@,
                            i + 1,
                            st@,
                            esc_old,
                            c + len,
                        ).0);
                        assert(walk(g@, line@, cands@, i as int, st_old, esc_old, skip_old).1
                            == walk(g@, line@, cands@, i + 1, st@, esc_old, c + len).1);
                    }
                },
                None => {
                    proof {
                        assert(walk(g@, line@, cands@, i as int, st_old, esc_old, skip_old) == walk(
                            g@,
                            line@,
                            cands@,
                            i + 1,
                            st_old,
                            esc_old,
                            skip_old,
                        ));
                    }
                },
            }
        }
        i += 1;
    }
    proof {
        assert(walk(g@, line@, cands@, i as int, st@, opt_int(esc), skip as int).0 =~= Seq::<
            MatchModel,
        >::empty());
        assert(w0.0 =~= matches_view(ms@));
    }
    let stf = match st {
        State::InString(_) => State::Normal,
        State::InLineComment => State::Normal,
        State::InInlineSpan(_) => State::Normal,
        other => other,
    };
    (ms, stf)
}

} // verus!

verus! {

/// Runs the classifier over a run of lines, threading each line's end state
/// into the next line.
pub fn classify_lines(g: &MatcherDef, set: &Vec<u8>, lines: &Vec<Vec<u8>>, st0: State) -> (r: (
    Vec<Vec<Match>>,
    Vec<State>,
))
    requires
        set@ == interesting_spec(g@),
    ensures
        rows_view(r.0@) == classify_lines_spec(g@, st0@, lines_view(lines@)).0,
        states_view(r.1@) == classify_lines_spec(g@, st0@, lines_view(lines@)).1,
        r.0@.len() == lines@.len(),
        r.1@.len() == lines@.len(),
{
    let ghost lv = lines_view(lines@);
    let ghost c0 = classify_lines_spec(g@, st0@, lv);
    let mut mbl: Vec<Vec<Match>> = Vec::new();
    let mut sbl: Vec<State> = Vec::new();
    let mut st = st0;
    let mut l: usize = 0;
    while l < lines.len()
        invariant
            l <= lines@.len(),
            lv == lines_view(lines@),
            c0 == classify_lines_spec(g@, st0@, lv),
            mbl@.len() == l,
            sbl@.len() == l,
            set@ == interesting_spec(g@),
            c0.0 == rows_view(mbl@) + classify_from(g@, st@, lv, l as int).0,
            c0.1 == states_view(sbl@) + classify_from(g@, st@, lv, l as int).1,
        decreases lines@.len() - l,
    {
        let ghost st_old = st@;
        let r = classify_line(g, set, &lines[l], st);
        let ms = r.0;
        let stl = r.1;
        let ghost mbl_old = mbl@;
        let ghost sbl_old = sbl@;
        mbl.push(ms);
        let stc = stl.clone();
        sbl.push(stc);
        st = stl;
        proof {
            let one = classify_line_spec(g@, st_old, lv[l as int]);
            assert(classify_from(g@, st_old, lv, l as int).0 =~= seq![one.0] + classify_from(
                g@,
                one.1,
                lv,
                l + 1,
            ).0);
            assert(classify_from(g@, st_old, lv, l as int).1 =~= seq![one.1] + classify_from(
                g@,
                one.1,
                lv,
                l + 1,
            ).1);
            assert(rows_view(mbl@) =~= rows_view(mbl_old) + seq![one.0]);
            assert(states_view(sbl@) =~= states_view(sbl_old) + seq![one.1]);
            assert(c0.0 =~= rows_view(mbl@) + classify_from(g@, st@, lv, l + 1).0);
            assert(c0.1 =~= states_view(sbl@) + classify_from(g@, st@, lv, l + 1).1);
        }
        l += 1;
    }
    proof {
        assert(c0.0 =~= rows_view(mbl@));
        assert(c0.1 =~= states_view(sbl@));
    }
    (mbl, sbl)
}

/// An entry of the stack-height walk: where the pending opener stands and
/// which token it carries.
pub struct StackEntry {
    pub line: int,
    pub idx: int,
    pub token: TokenModel,
}

/// One match of the stack-height walk. An opening match records the depth
/// then joins the stack; a closing match pops the stack only when the top
/// carries an equal token, and records the post-pop depth either way, so an
/// orphan closer still gets a depth; a non-pairing match carries no height.
pub open spec fn height_step(m: MatchModel, stack: Seq<StackEntry>, l: int, i: int) -> (
    MatchModel,
    Seq<StackEntry>,
) {
    if m.kind is Opening {
        (
            MatchModel { stack_height: Some(stack.len() as usize), ..m },
            stack.push(StackEntry { line: l, idx: i, token: m.token }),
        )
    } else if m.kind is Closing {
        let st2 = if stack.len() > 0 && stack.last().token == m.token {
            stack.drop_last()
        } else {
            stack
        };
        (MatchModel { stack_height: Some(st2.len() as usize), ..m }, st2)
    } else {
        (MatchModel { stack_height: None, ..m }, stack)
    }
}

/// The stack-height walk over one row from index `i` on.
pub open spec fn pass_line(ms: Seq<MatchModel>, stack: Seq<StackEntry>, l: int, i: int) -> (
    Seq<MatchModel>,
    Seq<StackEntry>,
)
    decreases ms.len() - i,
{
    if i < 0 || i >= ms.len() {
        (seq![], stack)
    } else {
        let one = height_step(ms[i], stack, l, i);
        let rest = pass_line(ms, one.1, l, i + 1);
        (seq![one.0] + rest.0, rest.1)
    }
}

/// The stack-height walk over the rows from index `l` on.
pub open spec fn pass_rows(rows: Seq<Seq<MatchModel>>, stack: Seq<StackEntry>, l: int) -> (
    Seq<Seq<MatchModel>>,
    Seq<StackEntry>,
)
    decreases rows.len() - l,
{
    if l < 0 || l >= rows.len() {
        (seq![], stack)
    } else {
        let one = pass_line(rows[l], stack, l, 0);
        let rest = pass_rows(rows, one.1, l + 1);
        (seq![one.0] + rest.0, rest.1)
    }
}

/// Whether the stack still holds the match at row `l`, index `i`.
pub open spec fn in_stack(stack: Seq<StackEntry>, l: int, i: int) -> bool {
    exists|k: int| 0 <= k < stack.len() && stack[k].line == l && stack[k].idx == i
}

/// Clears the height of every match the walk left on the stack: an opener
/// without a counterpart in the parsed range has no depth.
pub open spec fn clear_dangling(rows: Seq<Seq<MatchModel>>, stack: Seq<StackEntry>) -> Seq<
    Seq<MatchModel>,
> {
    Seq::new(
        rows.len(),
        |l: int|
            Seq::new(
                rows[l].len(),
                |i: int|
                    if in_stack(stack, l, i) {
                        MatchModel { stack_height: None, ..rows[l][i] }
                    } else {
                        rows[l][i]
                    },
            ),
    )
}

/// The full stack-height recomputation: walk every row in order with one
/// shared stack, then mark what never found a counterpart.
pub open spec fn assign_heights_spec(rows: Seq<Seq<MatchModel>>) -> Seq<Seq<MatchModel>> {
    let p = pass_rows(rows, seq![], 0);
    clear_dangling(p.0, p.1)
}

/// View of the executable walk stack.
pub open spec fn stack_view(s: Seq<(usize, usize, Token)>) -> Seq<StackEntry> {
    s.map_values(|e: (usize, usize, Token)| StackEntry { line: e.0 as int, idx: e.1 as int, token: e.2@ })
}

fn in_stack_exec(stack: &Vec<(usize, usize, Token)>, l: usize, i: usize) -> (r: bool)
    ensures
        r == in_stack(stack_view(stack@), l as int, i as int),
{
    let ghost sv = stack_view(stack@);
    let mut k: usize = 0;
    while k < stack.len()
        invariant
            k <= stack@.len(),
            sv == stack_view(stack@),
            forall|j: int| 0 <= j < k ==> !(sv[j].line == l && sv[j].idx == i),
        decreases stack@.len() - k,
    {
        if stack[k].0 == l && stack[k].1 == i {
            assert(sv[k as int].line == l && sv[k as int].idx == i);
            return true;
        }
        k += 1;
    }
    false
}

/// Recomputes every match's stack height over the whole set of rows: one
/// logical stack walked across all lines in order, then dangling openers
/// cleared to no depth.
pub fn assign_heights(rows: &Vec<Vec<Match>>) -> (r: Vec<Vec<Match>>)
    ensures
        rows_view(r@) == assign_heights_spec(rows_view(rows@)),
        r@.len() == rows@.len(),
{
    let ghost rv = rows_view(rows@);
    let ghost p = pass_rows(rv, seq![], 0);
    let mut rows1: Vec<Vec<Match>> = Vec::new();
    let mut stack: Vec<(usize, usize, Token)> = Vec::new();
    proof {
        assert(rows_view(rows1@) =~= Seq::<Seq<MatchModel>>::empty());
        assert(stack_view(stack@) =~= Seq::<StackEntry>::empty());
        assert(p.0 =~= rows_view(rows1@) + pass_rows(rv, stack_view(stack@), 0).0);
    }
    let mut l: usize = 0;
    while l < rows.len()
        invariant
            l <= rows@.len(),
            rv == rows_view(rows@),
            p == pass_rows(rv, seq![], 0),
            rows1@.len() == l,
            p.0 == rows_view(rows1@) + pass_rows(rv, stack_view(stack@), l as int).0,
            p.1 == pass_rows(rv, stack_view(stack@), l as int).1,
        decreases rows@.len() - l,
    {
        let ghost stack0 = stack_view(stack@);
        let row = &rows[l];
        let mut new_row: Vec<Match> = Vec::new();
        let mut i: usize = 0;
        while i < row.len()
            invariant
                i <= row@.len(),
                l < rows@.len(),
                rv == rows_view(rows@),
                row@ == rows@[l as int]@,
                new_row@.len() == i,
                pass_line(rv[l as int], stack0, l as int, 0).0 == matches_view(new_row@)
                    + pass_line(rv[l as int], stack_view(stack@), l as int, i as int).0,
                pass_line(rv[l as int], stack0, l as int, 0).1 == pass_line(
                    rv[l as int],
                    stack_view(stack@),
                    l as int,
                    i as int,
                ).1,
            decreases row@.len() - i,
        {
            let ghost sv_old = stack_view(stack@);
            let ghost mv = rv[l as int][i as int];
            let m = &row[i];
            assert(m@ == mv);
            let ghost new_row_old = new_row@;
            match m.kind {
                Kind::Opening => {
                    let h = stack.len();
                    new_row.push(
                        Match {
                            kind: m.kind,
                            token: m.token.clone(),
                            col: m.col,
                            stack_height: Some(h),
                        },
                    );
                    stack.push((l, i, m.token.clone()));
                    proof {
                        assert(stack_view(stack@) =~= sv_old.push(
                            StackEntry { line: l as int, idx: i as int, token: mv.token },
                        ));
                    }
                },
                Kind::Closing => {
                    let mut popped = false;
                    if stack.len() > 0 {
                        let top_matches = crate::matcher::token_eq(&stack[stack.len() - 1].2, &m.token);
                        if top_matches {
                            stack.pop();
                            popped = true;
                        }
                    }
                    proof {
                        if sv_old.len() > 0 && sv_old.last().token == mv.token {
                            assert(stack_view(stack@) =~= sv_old.drop_last());
                        } else {
                            assert(stack_view(stack@) =~= sv_old);
                        }
                    }
                    let h = stack.len();
                    new_row.push(
                        Match {
                            kind: m.kind,
                            token: m.token.clone(),
                            col: m.col,
                            stack_height: Some(h),
                        },
                    );
                },
                Kind::NonPair => {
                    new_row.push(
                        Match {
                            kind: m.kind,
                            token: m.token.clone(),
                            col: m.col,
                            stack_height: None,
                        },
                    );
                },
            }
            proof {
                let one = height_step(mv, sv_old, l as int, i as int);
                assert(one.0 == new_row@[i as int]@);
                assert(one.1 == stack_view(stack@));
                assert(matches_view(new_row@) =~= matches_view(new_row_old) + seq![one.0]);
                assert(pass_line(rv[l as int], sv_old, l as int, i as int).0 =~= seq![one.0]
                    + pass_line(rv[l as int], one.1, l as int, i + 1).0);
            }
            i += 1;
        }
        let ghost row_done = pass_line(rv[l as int], stack0, l as int, 0);
        proof {
            assert(pass_line(rv[l as int], stack_view(stack@), l as int, i as int).0 =~= Seq::<
                MatchModel,
            >::empty());
            assert(row_done.0 =~= matches_view(new_row@));
        }
        let ghost rows1_old = rows1@;
        rows1.push(new_row);
        proof {
            assert(rows_view(rows1@) =~= rows_view(rows1_old) + seq![row_done.0]);
            assert(pass_rows(rv, stack0, l as int).0 =~= seq![row_done.0] + pass_rows(
                rv,
                row_done.1,
                l + 1,
            ).0);
            assert(p.0 =~= rows_view(rows1@) + pass_rows(rv, stack_view(stack@), l + 1).0);
        }
        l += 1;
    }
    proof {
        assert(pass_rows(rv, stack_view(stack@), l as int).0 =~= Seq::<Seq<MatchModel>>::empty());
        assert(p.0 =~= rows_view(rows1@));
        assert(p.1 == stack_view(stack@));
    }
    // Second pass: clear the heights of dangling openers.
    let mut rows2: Vec<Vec<Match>> = Vec::new();
    let mut l2: usize = 0;
    while l2 < rows1.len()
        invariant
            l2 <= rows1@.len(),
            p == pass_rows(rv, seq![], 0),
            p.0 == rows_view(rows1@),
            p.1 == stack_view(stack@),
            rows2@.len() == l2,
            forall|j: int|
                0 <= j < l2 ==> #[trigger] rows_view(rows2@)[j] == clear_dangling(p.0, p.1)[j],
        decreases rows1@.len() - l2,
    {
        let row = &rows1[l2];
        let mut new_row: Vec<Match> = Vec::new();
        let mut i: usize = 0;
        while i < row.len()
            invariant
                i <= row@.len(),
                l2 < rows1@.len(),
                p.0 == rows_view(rows1@),
                p.1 == stack_view(stack@),
                row@ == rows1@[l2 as int]@,
                new_row@.len() == i,
                forall|j: int|
                    0 <= j < i ==> #[trigger] matches_view(new_row@)[j] == clear_dangling(
                        p.0,
                        p.1,
                    )[l2 as int][j],
            decreases row@.len() - i,
        {
            let m = &row[i];
            let dangling = in_stack_exec(&stack, l2, i);
            let nh = if dangling {
                None
            } else {
                m.stack_height
            };
            let ghost new_row_old = new_row@;
            new_row.push(Match { kind: m.kind, token: m.token.clone(), col: m.col, stack_height: nh });
            proof {
                assert(matches_view(new_row@)[i as int] == clear_dangling(p.0, p.1)[l2 as int][i as int]);
                assert forall|j: int|
                    0 <= j < i + 1 implies #[trigger] matches_view(new_row@)[j] == clear_dangling(
                    p.0,
                    p.1,
                )[l2 as int][j] by {
                    if j < i {
                        assert(new_row@[j] == new_row_old[j]);
                        assert(matches_view(new_row_old)[j] == clear_dangling(p.0, p.1)[l2 as int][j]);
                    }
                }
            }
            i += 1;
        }
        let ghost rows2_old = rows2@;
        let ghost nrv = new_row@;
        rows2.push(new_row);
        proof {
            assert(matches_view(nrv) =~= clear_dangling(p.0, p.1)[l2 as int]);
            assert forall|j: int|
                0 <= j < l2 + 1 implies #[trigger] rows_view(rows2@)[j] == clear_dangling(
                p.0,
                p.1,
            )[j] by {
                if j < l2 {
                    assert(rows2@[j] == rows2_old[j]);
                    assert(rows_view(rows2_old)[j] == clear_dangling(p.0, p.1)[j]);
                } else {
                    assert(rows2@[j] == rows2_old.push(rows2@[l2 as int])[l2 as int]);
                    assert(rows_view(rows2@)[j] == matches_view(nrv));
                }
            }
        }
        l2 += 1;
    }
    proof {
        assert(rows_view(rows2@) =~= clear_dangling(p.0, p.1));
    }
    rows2
}

} // verus!

verus! {

/// The byte lines a slice of text lines stands for.
pub open spec fn str_lines_view(lines: Seq<&str>) -> Seq<Seq<u8>> {
    lines.map_values(|s: &str| s.spec_bytes())
}

/// What a full run over the given lines yields: per-line match lists with
/// every stack height assigned, and per-line end states.
pub open spec fn parse_spec(g: GrammarModel, lines: Seq<Seq<u8>>, st0: StateModel) -> (
    Seq<Seq<MatchModel>>,
    Seq<StateModel>,
) {
    let c = classify_lines_spec(g, st0, lines);
    (assign_heights_spec(c.0), c.1)
}

/// Runs the scanner and matcher over the lines from the given initial state:
/// one match list and one end state per line, with stack heights assigned by
/// a single walk over the whole run and dangling openers left without one.
pub fn parse(def: &MatcherDef, lines: &[&str], initial_state: State) -> (r: (
    Vec<Vec<Match>>,
    Vec<State>,
))
    ensures
        rows_view(r.0@) == parse_spec(def@, str_lines_view(lines@), initial_state@).0,
        states_view(r.1@) == parse_spec(def@, str_lines_view(lines@), initial_state@).1,
        r.0@.len() == lines@.len(),
        r.1@.len() == lines@.len(),
{
    let mut lb: Vec<Vec<u8>> = Vec::new();
    let mut i: usize = 0;
    while i < lines.len()
        invariant
            i <= lines@.len(),
            lb@.len() == i,
            forall|j: int| 0 <= j < i ==> #[trigger] lb@[j]@ == lines@[j].spec_bytes(),
        decreases lines@.len() - i,
    {
        let s: &str = lines[i];
        lb.push(s.as_bytes_vec());
        i += 1;
    }
    proof {
        assert(lines_view(lb@) =~= str_lines_view(lines@));
    }
    let set = collect_tokens(def);
    let c = classify_lines(def, &set, &lb, initial_state);
    let heights = assign_heights(&c.0);
    (heights, c.1)
}

} // verus!
