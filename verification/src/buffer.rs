use vstd::prelude::*;
use vstd::math::min;
use vstd::string::StringSliceAdditionalSpecFns;
use crate::matcher::{Kind, Match, MatchModel, MatchWithLine, MatchWithLineModel, State, StateModel, TokenModel};
use crate::config::{GrammarModel, grammar_spec, grammar_for, collect_tokens};
use crate::parse::{
    assign_heights, assign_heights_spec, classify_lines, classify_lines_spec, clone_bytes,
    lines_view, matches_view, parse_spec, rows_view, states_view, str_lines_view,
};
use vstd::string::StrSliceExecFns;

verus! {

/// The incremental store: one match list and one recorded end state per
/// line, index-aligned.
#[derive(Debug)]
pub struct ParsedBuffer {
    matches_by_line: Vec<Vec<Match>>,
    state_by_line: Vec<State>,
}

/// Mathematical model of a parsed buffer.
#[verifier::ext_equal]
pub struct BufferModel {
    pub matches: Seq<Seq<MatchModel>>,
    pub states: Seq<StateModel>,
}

impl View for ParsedBuffer {
    type V = BufferModel;

    closed spec fn view(&self) -> BufferModel {
        BufferModel {
            matches: rows_view(self.matches_by_line@),
            states: states_view(self.state_by_line@),
        }
    }
}

/// Converts text lines into owned byte lines.
fn to_byte_lines(lines: &[&str]) -> (r: Vec<Vec<u8>>)
    ensures
        lines_view(r@) == str_lines_view(lines@),
        r@.len() == lines@.len(),
{
    let mut lb: Vec<Vec<u8>> = Vec::new();
    let mut i: usize = 0;
    while i < lines.len()
        invariant
            i <= lines@.len(),
            lb@.len() == i,
            forall|j: int| 0 <= j < i ==> #[trigger] lb@[j]@ == lines@[j].spec_bytes(),
        decreases lines@.len() - i,
    {
        let s: &str = lines[i];
        lb.push(s.as_bytes_vec());
        i += 1;
    }
    proof {
        assert(lines_view(lb@) =~= str_lines_view(lines@));
    }
    lb
}

/// Copies a row of matches.
fn clone_row(v: &Vec<Match>) -> (r: Vec<Match>)
    ensures
        matches_view(r@) == matches_view(v@),
        r@.len() == v@.len(),
{
    let mut r: Vec<Match> = Vec::new();
    let mut i: usize = 0;
    while i < v.len()
        invariant
            i <= v@.len(),
            r@.len() == i,
            forall|j: int| 0 <= j < i ==> #[trigger] r@[j]@ == v@[j]@,
        decreases v@.len() - i,
    {
        r.push(v[i].clone());
        i += 1;
    }
    proof {
        assert(matches_view(r@) =~= matches_view(v@));
    }
    r
}

/// The numeric value of an optional bound, or the default where none was
/// given.
pub open spec fn opt_or(o: Option<usize>, d: int) -> int {
    match o {
        Some(v) => v as int,
        None => d,
    }
}

/// Whether the bounds handed to `reparse_range` fit the buffer: after
/// clamping to the known line count, the replaced window must be a real
/// range, and the new window must not ask for more lines than were given.
pub open spec fn reparse_args_ok(
    b: BufferModel,
    start_line: Option<usize>,
    old_end_line: Option<usize>,
    new_end_line: Option<usize>,
    nlines: int,
) -> bool {
    let len = b.matches.len() as int;
    let s = min(opt_or(start_line, 0), len);
    let e = min(opt_or(old_end_line, len), len);
    let n = opt_or(new_end_line, s + nlines);
    s <= e && s <= n && n - s <= nlines && s + nlines <= usize::MAX
}

/// The buffer a successful range reparse leaves behind: the window's rows
/// replaced by a fresh classification seeded with the state recorded just
/// before the window, and every stack height then recomputed over the whole
/// buffer.
pub open spec fn reparse_result(
    b: BufferModel,
    g: GrammarModel,
    lines: Seq<Seq<u8>>,
    start_line: Option<usize>,
    old_end_line: Option<usize>,
    new_end_line: Option<usize>,
) -> BufferModel {
    let len = b.matches.len() as int;
    let s = min(opt_or(start_line, 0), len);
    let e = min(opt_or(old_end_line, len), len);
    let n = opt_or(new_end_line, s + lines.len() as int);
    let cnt = n - s;
    let seed = if s == 0 {
        StateModel::Normal
    } else {
        b.states[s - 1]
    };
    let c = classify_lines_spec(g, seed, lines);
    BufferModel {
        matches: assign_heights_spec(b.matches.take(s) + c.0.take(cnt) + b.matches.skip(e)),
        states: b.states.take(s) + c.1.take(cnt) + b.states.skip(e),
    }
}

impl ParsedBuffer {
    #[verifier::type_invariant]
    spec fn wf(self) -> bool {
        self.matches_by_line@.len() == self.state_by_line@.len()
    }

    /// Parses the lines of the named language in full, from Normal state. An
    /// unknown language yields no buffer.
    pub fn parse(filetype: &str, lines: &[&str]) -> (r: Option<ParsedBuffer>)
        ensures
            r is Some <==> grammar_spec(filetype.spec_bytes()) is Some,
            r matches Some(b) ==> {
                let g = grammar_spec(filetype.spec_bytes())->0;
                &&& b@.matches == parse_spec(g, str_lines_view(lines@), StateModel::Normal).0
                &&& b@.states == parse_spec(g, str_lines_view(lines@), StateModel::Normal).1
                &&& b@.matches.len() == lines@.len()
                &&& b@.states.len() == lines@.len()
            },
    {
        let def = grammar_for(filetype)?;
        let r = crate::parse::parse(&def, lines, State::Normal);
        Some(ParsedBuffer { matches_by_line: r.0, state_by_line: r.1 })
    }

    /// Reparses only the given window of lines, seeded with the end state
    /// recorded just before it, splices the fresh rows in place of the old
    /// window, and recomputes all stack heights. Hands back `false`, leaving
    /// the buffer untouched, when the language is unknown.
    #[verifier::rlimit(100)]
    pub fn reparse_range(
        &mut self,
        filetype: &str,
        lines: &[&str],
        start_line: Option<usize>,
        old_end_line: Option<usize>,
        new_end_line: Option<usize>,
    ) -> (r: bool)
        requires
            reparse_args_ok(old(self)@, start_line, old_end_line, new_end_line, lines@.len() as int),
        ensures
            r == (grammar_spec(filetype.spec_bytes()) is Some),
            !r ==> final(self)@ == old(self)@,
            r ==> final(self)@ == reparse_result(
                old(self)@,
                grammar_spec(filetype.spec_bytes())->0,
                str_lines_view(lines@),
                start_line,
                old_end_line,
                new_end_line,
            ),
    {
        proof {
            use_type_invariant(&*self);
        }
        let def_opt = grammar_for(filetype);
        let def = match def_opt {
            Some(d) => d,
            None => {
                return false;
            },
        };
        let max_line = self.matches_by_line.len();
        let s = match start_line {
            Some(v) => if v < max_line {
                v
            } else {
                max_line
            },
            None => 0,
        };
        let e = match old_end_line {
            Some(v) => if v < max_line {
                v
            } else {
                max_line
            },
            None => max_line,
        };
        let seed = if s > 0 {
            self.state_by_line[s - 1].clone()
        } else {
            State::Normal
        };
        let lb = to_byte_lines(lines);
        let set = collect_tokens(&def);
        let c = classify_lines(&def, &set, &lb, seed);
        let n = match new_end_line {
            Some(v) => v,
            None => s + lines.len(),
        };
        let cnt = n - s;
        let ghost bv = old(self)@;
        let ghost cv = classify_lines_spec(def@, if s == 0 { StateModel::Normal } else { bv.states[s - 1] }, str_lines_view(lines@));
        let mut nm: Vec<Vec<Match>> = Vec::new();
        let mut ns: Vec<State> = Vec::new();
        let mut l: usize = 0;
        while l < s
            invariant
                l <= s,
                s <= self.matches_by_line@.len(),
                s <= self.state_by_line@.len(),
                self == old(self),
                nm@.len() == l,
                ns@.len() == l,
                forall|j: int|
                    0 <= j < l ==> #[trigger] matches_view(nm@[j]@) == rows_view(
                        self.matches_by_line@,
                    )[j],
                forall|j: int| 0 <= j < l ==> #[trigger] ns@[j]@ == states_view(self.state_by_line@)[j],
            decreases s - l,
        {
            nm.push(clone_row(&self.matches_by_line[l]));
            ns.push(self.state_by_line[l].clone());
            l += 1;
        }
        let mut l2: usize = 0;
        while l2 < cnt
            invariant
                l2 <= cnt,
                cnt <= c.0@.len(),
                cnt <= c.1@.len(),
                s <= bv.matches.len(),
                s <= bv.states.len(),
                cnt <= cv.0.len(),
                cnt <= cv.1.len(),
                nm@.len() == s + l2,
                ns@.len() == s + l2,
                rows_view(c.0@) == cv.0,
                states_view(c.1@) == cv.1,
                forall|j: int|
                    0 <= j < s + l2 ==> #[trigger] matches_view(nm@[j]@) == (bv.matches.take(
                        s as int,
                    ) + cv.0.take(cnt as int))[j],
                forall|j: int|
                    0 <= j < s + l2 ==> #[trigger] ns@[j]@ == (bv.states.take(s as int)
                        + cv.1.take(cnt as int))[j],
            decreases cnt - l2,
        {
            let ghost k = s + l2;
            nm.push(clone_row(&c.0[l2]));
            ns.push(c.1[l2].clone());
            proof {
                assert(matches_view(nm@[k as int]@) == cv.0[l2 as int]);
                assert((bv.matches.take(s as int) + cv.0.take(cnt as int))[k as int] == cv.0[l2 as int]);
                assert(ns@[k as int]@ == cv.1[l2 as int]);
                assert((bv.states.take(s as int) + cv.1.take(cnt as int))[k as int] == cv.1[l2 as int]);
            }
            l2 += 1;
        }
        let mut l3: usize = e;
        while l3 < max_line
            invariant
                e <= l3 <= max_line,
                max_line == self.matches_by_line@.len(),
                max_line == self.state_by_line@.len(),
                s <= e <= max_line,
                max_line == bv.matches.len(),
                max_line == bv.states.len(),
                cnt <= cv.0.len(),
                cnt <= cv.1.len(),
                rows_view(self.matches_by_line@) == bv.matches,
                states_view(self.state_by_line@) == bv.states,
                self == old(self),
                nm@.len() == s + cnt + (l3 - e),
                ns@.len() == s + cnt + (l3 - e),
                forall|j: int|
                    0 <= j < nm@.len() ==> #[trigger] matches_view(nm@[j]@) == (bv.matches.take(
                        s as int,
                    ) + cv.0.take(cnt as int) + bv.matches.skip(e as int))[j],
                forall|j: int|
                    0 <= j < ns@.len() ==> #[trigger] ns@[j]@ == (bv.states.take(s as int)
                        + cv.1.take(cnt as int) + bv.states.skip(e as int))[j],
            decreases max_line - l3,
        {
            let ghost k = s + cnt + (l3 - e);
            nm.push(clone_row(&self.matches_by_line[l3]));
            ns.push(self.state_by_line[l3].clone());
            proof {
                assert(matches_view(nm@[k as int]@) == bv.matches[l3 as int]);
                assert((bv.matches.take(s as int) + cv.0.take(cnt as int) + bv.matches.skip(
                    e as int,
                ))[k as int] == bv.matches[l3 as int]);
                assert(ns@[k as int]@ == bv.states[l3 as int]);
                assert((bv.states.take(s as int) + cv.1.take(cnt as int) + bv.states.skip(
                    e as int,
                ))[k as int] == bv.states[l3 as int]);
            }
            l3 += 1;
        }
        proof {
            assert(rows_view(nm@) =~= bv.matches.take(s as int) + cv.0.take(cnt as int)
                + bv.matches.skip(e as int));
            assert(states_view(ns@) =~= bv.states.take(s as int) + cv.1.take(cnt as int)
                + bv.states.skip(e as int));
        }
        let heights = assign_heights(&nm);
        *self = ParsedBuffer { matches_by_line: heights, state_by_line: ns };
        proof {
            assert(self@ =~~= reparse_result(
                bv,
                grammar_spec(filetype.spec_bytes())->0,
                str_lines_view(lines@),
                start_line,
                old_end_line,
                new_end_line,
            ));
        }
        true
    }

    /// Recomputes every stack height from scratch: one walk over all lines
    /// with a single logical stack, dangling openers left without a depth.
    pub fn recalculate_stack_heights(&mut self)
        ensures
            final(self)@.matches == assign_heights_spec(old(self)@.matches),
            final(self)@.states == old(self)@.states,
    {
        proof {
            use_type_invariant(&*self);
        }
        let heights = assign_heights(&self.matches_by_line);
        self.matches_by_line = heights;
    }

    /// The match list recorded for a line, or nothing beyond the known range.
    pub fn line_matches(&self, line_number: usize) -> (r: Option<Vec<Match>>)
        ensures
            r is Some <==> line_number < self@.matches.len(),
            r matches Some(v) ==> matches_view(v@) == self@.matches[line_number as int],
    {
        if line_number < self.matches_by_line.len() {
            Some(clone_row(&self.matches_by_line[line_number]))
        } else {
            None
        }
    }

    /// The end state recorded for a line, or nothing beyond the known range.
    pub fn get_state_at_line(&self, line_number: usize) -> (r: Option<&State>)
        ensures
            r is Some <==> line_number < self@.states.len(),
            r matches Some(st) ==> st@ == self@.states[line_number as int],
    {
        if line_number < self.state_by_line.len() {
            Some(&self.state_by_line[line_number])
        } else {
            None
        }
    }
}

} // verus!

verus! {

/// The first match of the row whose marker covers the column.
pub open spec fn find_match_at(row: Seq<MatchModel>, col: int, i: int) -> Option<int>
    decreases row.len() - i,
{
    if i < 0 || i >= row.len() {
        None
    } else if row[i].col <= col < row[i].col + crate::matcher::spec_match_len(row[i]) {
        Some(i)
    } else {
        find_match_at(row, col, i + 1)
    }
}

/// The match standing on the given line and column, if any: the first match
/// of the line whose marker's byte range contains the column.
pub open spec fn match_at_spec(b: BufferModel, line: int, col: int) -> Option<MatchModel> {
    if 0 <= line < b.matches.len() {
        match find_match_at(b.matches[line], col, 0) {
            Some(i) => Some(b.matches[line][i]),
            None => None,
        }
    } else {
        None
    }
}

/// The first match of the row, from index `i` on, that closes the given
/// token at the given stack height; a minimum column bounds the search when
/// the row is the one the opener stands on.
pub open spec fn row_fwd(
    row: Seq<MatchModel>,
    tok: TokenModel,
    h: Option<usize>,
    mincol: Option<int>,
    i: int,
) -> Option<int>
    decreases row.len() - i,
{
    if i < 0 || i >= row.len() {
        None
    } else if row[i].kind is Closing && row[i].token == tok && row[i].stack_height == h && (match mincol {
        Some(c) => row[i].col > c,
        None => true,
    }) {
        Some(i)
    } else {
        row_fwd(row, tok, h, mincol, i + 1)
    }
}

/// The last match of the row, from index `i` down, that opens the given
/// token at the given stack height; a maximum column bounds the search when
/// the row is the one the closer stands on.
pub open spec fn row_bwd(
    row: Seq<MatchModel>,
    tok: TokenModel,
    h: Option<usize>,
    maxcol: Option<int>,
    i: int,
) -> Option<int>
    decreases i + 1,
{
    if i < 0 || i >= row.len() {
        None
    } else if row[i].kind is Opening && row[i].token == tok && row[i].stack_height == h && (match maxcol {
        Some(c) => row[i].col < c,
        None => true,
    }) {
        Some(i)
    } else {
        row_bwd(row, tok, h, maxcol, i - 1)
    }
}

/// The position of the closing counterpart: the first closing match with
/// equal token and equal stack height, scanning forward from the opener.
pub open spec fn fwd_from(
    ms: Seq<Seq<MatchModel>>,
    tok: TokenModel,
    h: Option<usize>,
    l: int,
    line0: int,
    col0: int,
) -> Option<(int, int)>
    decreases ms.len() - l,
{
    if l < 0 || l >= ms.len() {
        None
    } else {
        let c = if l == line0 {
            Some(col0)
        } else {
            None
        };
        match row_fwd(ms[l], tok, h, c, 0) {
            Some(i) => Some((l, i)),
            None => fwd_from(ms, tok, h, l + 1, line0, col0),
        }
    }
}

/// The position of the opening counterpart: the last opening match with
/// equal token and equal stack height, scanning backward from the closer.
pub open spec fn bwd_from(
    ms: Seq<Seq<MatchModel>>,
    tok: TokenModel,
    h: Option<usize>,
    l: int,
    line0: int,
    col0: int,
) -> Option<(int, int)>
    decreases l + 1,
{
    if l < 0 || l >= ms.len() {
        None
    } else {
        let c = if l == line0 {
            Some(col0)
        } else {
            None
        };
        match row_bwd(ms[l], tok, h, c, ms[l].len() - 1) {
            Some(i) => Some((l, i)),
            None => bwd_from(ms, tok, h, l - 1, line0, col0),
        }
    }
}

/// A match annotated with its line, as the pairing query hands it out.
pub open spec fn with_line_model(m: MatchModel, line: int) -> MatchWithLineModel {
    MatchWithLineModel {
        kind: m.kind,
        token: m.token,
        line: line as usize,
        col: m.col,
        stack_height: m.stack_height,
    }
}

/// The opener/closer pair through the match at the given position: for an
/// opening match its closing counterpart is sought forward, for a closing
/// match its opening counterpart backward; token and stack height together
/// name the nesting level, so the counterpart is the first such match. A
/// non-pairing match, a dangling opener and an orphan closer have no pair.
pub open spec fn match_pair_spec(b: BufferModel, line: int, col: int) -> Option<
    (MatchWithLineModel, MatchWithLineModel),
> {
    match match_at_spec(b, line, col) {
        None => None,
        Some(m) => {
            if m.kind is Opening {
                match fwd_from(b.matches, m.token, m.stack_height, line, line, col) {
                    Some(p) => Some(
                        (with_line_model(m, line), with_line_model(b.matches[p.0][p.1], p.0)),
                    ),
                    None => None,
                }
            } else if m.kind is Closing {
                match bwd_from(b.matches, m.token, m.stack_height, line, line, col) {
                    Some(p) => Some(
                        (with_line_model(b.matches[p.0][p.1], p.0), with_line_model(m, line)),
                    ),
                    None => None,
                }
            } else {
                None
            }
        },
    }
}

/// The name a span token carries, if the token is a span.
pub open spec fn span_name(t: TokenModel) -> Option<Seq<char>> {
    match t {
        TokenModel::InlineSpan(n, _, _) => Some(n),
        TokenModel::BlockSpan(n, _, _) => Some(n),
        _ => None,
    }
}

/// The innermost span opened on the line at or before the column and not
/// closed strictly before it, walking span openers from the right.
pub open spec fn span_at_row(row: Seq<MatchModel>, col: int, i: int) -> Option<Seq<char>>
    decreases i + 1,
{
    if i < 0 || i >= row.len() {
        None
    } else {
        let m = row[i];
        if m.kind is Opening && m.col <= col && span_name(m.token) is Some {
            match row_fwd(row, m.token, m.stack_height, Some(m.col as int), 0) {
                Some(j) => if row[j].col < col {
                    span_at_row(row, col, i - 1)
                } else {
                    span_name(m.token)
                },
                None => span_name(m.token),
            }
        } else {
            span_at_row(row, col, i - 1)
        }
    }
}

/// The span the position lies in: a span opened on its own line, or else the
/// span its line's carried-over state still stands in.
pub open spec fn span_at_spec(b: BufferModel, line: int, col: int) -> Option<Seq<char>> {
    if 0 <= line < b.matches.len() && line < b.states.len() {
        match span_at_row(b.matches[line], col, b.matches[line].len() - 1) {
            Some(n) => Some(n),
            None => match b.states[line] {
                StateModel::InInlineSpan(n) => Some(n),
                StateModel::InBlockSpan(n) => Some(n),
                _ => None,
            },
        }
    } else {
        None
    }
}

} // verus!

verus! {

/// Whether two optional stack heights are equal.
fn opt_usize_eq(a: Option<usize>, b: Option<usize>) -> (r: bool)
    ensures
        r == (a == b),
{
    match (a, b) {
        (Some(x), Some(y)) => x == y,
        (None, None) => true,
        _ => false,
    }
}

fn row_fwd_exec(row: &Vec<Match>, tok: &crate::matcher::Token, h: Option<usize>, mincol: Option<
    usize,
>) -> (r: Option<usize>)
    ensures
        match r {
            Some(i) => i < row@.len() && row_fwd(
                matches_view(row@),
                tok@,
                h,
                crate::parse::opt_int(mincol),
                0,
            ) == Some(i as int),
            None => row_fwd(matches_view(row@), tok@, h, crate::parse::opt_int(mincol), 0) is None,
        },
{
    let ghost rv = matches_view(row@);
    let ghost mc = crate::parse::opt_int(mincol);
    let mut i: usize = 0;
    while i < row.len()
        invariant
            i <= row@.len(),
            rv == matches_view(row@),
            mc == crate::parse::opt_int(mincol),
            row_fwd(rv, tok@, h, mc, 0) == row_fwd(rv, tok@, h, mc, i as int),
        decreases row@.len() - i,
    {
        let m = &row[i];
        let col_ok = match mincol {
            Some(c) => m.col > c,
            None => true,
        };
        let hit = match m.kind {
            Kind::Closing => crate::matcher::token_eq(&m.token, tok) && opt_usize_eq(
                m.stack_height,
                h,
            ) && col_ok,
            _ => false,
        };
        if hit {
            assert(row_fwd(rv, tok@, h, mc, i as int) == Some(i as int));
            return Some(i);
        }
        assert(row_fwd(rv, tok@, h, mc, i as int) == row_fwd(rv, tok@, h, mc, i + 1));
        i += 1;
    }
    None
}

fn row_bwd_exec(row: &Vec<Match>, tok: &crate::matcher::Token, h: Option<usize>, maxcol: Option<
    usize,
>) -> (r: Option<usize>)
    ensures
        match r {
            Some(i) => i < row@.len() && row_bwd(
                matches_view(row@),
                tok@,
                h,
                crate::parse::opt_int(maxcol),
                row@.len() - 1,
            ) == Some(i as int),
            None => row_bwd(
                matches_view(row@),
                tok@,
                h,
                crate::parse::opt_int(maxcol),
                row@.len() - 1,
            ) is None,
        },
{
    let ghost rv = matches_view(row@);
    let ghost mc = crate::parse::opt_int(maxcol);
    let mut ip: usize = row.len();
    while ip > 0
        invariant
            ip <= row@.len(),
            rv == matches_view(row@),
            mc == crate::parse::opt_int(maxcol),
            row_bwd(rv, tok@, h, mc, rv.len() - 1) == row_bwd(rv, tok@, h, mc, ip - 1),
        decreases ip,
    {
        let i = ip - 1;
        let m = &row[i];
        let col_ok = match maxcol {
            Some(c) => m.col < c,
            None => true,
        };
        let hit = match m.kind {
            Kind::Opening => crate::matcher::token_eq(&m.token, tok) && opt_usize_eq(
                m.stack_height,
                h,
            ) && col_ok,
            _ => false,
        };
        if hit {
            assert(row_bwd(rv, tok@, h, mc, i as int) == Some(i as int));
            return Some(i);
        }
        assert(row_bwd(rv, tok@, h, mc, i as int) == row_bwd(rv, tok@, h, mc, i - 1));
        ip = i;
    }
    assert(row_bwd(rv, tok@, h, mc, -1) is None);
    None
}

impl ParsedBuffer {
    /// The match whose marker covers the given line and column, if any.
    #[verifier::loop_isolation(false)]
    pub fn match_at(&self, line_number: usize, col: usize) -> (r: Option<Match>)
        ensures
            match r {
                Some(m) => match_at_spec(self@, line_number as int, col as int) == Some(m@),
                None => match_at_spec(self@, line_number as int, col as int) is None,
            },
    {
        if line_number >= self.matches_by_line.len() {
            return None;
        }
        let row = &self.matches_by_line[line_number];
        let ghost rv = self@.matches[line_number as int];
        let mut i: usize = 0;
        while i < row.len()
            invariant
                i <= row@.len(),
                rv == matches_view(row@),
                find_match_at(rv, col as int, 0) == find_match_at(rv, col as int, i as int),
            decreases row@.len() - i,
        {
            let m = &row[i];
            let ml = m.len();
            if m.col <= col && col - m.col < ml {
                proof {
                    assert(rv[i as int] == m@);
                    assert(find_match_at(rv, col as int, i as int) == Some(i as int));
                    assert(0 <= (line_number as int) && (line_number as int) < self@.matches.len());
                    assert(self@.matches[line_number as int] == rv);
                    assert(find_match_at(self@.matches[line_number as int], col as int, 0) == Some(i as int));
                    assert(match_at_spec(self@, line_number as int, col as int) == Some(m@));
                }
                return Some(m.clone());
            }
            assert(find_match_at(rv, col as int, i as int) == find_match_at(
                rv,
                col as int,
                i + 1,
            ));
            i += 1;
        }
        assert(find_match_at(rv, col as int, i as int) is None);
        None
    }

    /// The opener/closer pair through the match at the given position: for an
    /// opening match the first closing match forward with equal token and
    /// stack height, for a closing match the nearest such opening match
    /// backward. Non-pairing matches and unterminated constructs have none.
    #[verifier::loop_isolation(false)]
    pub fn match_pair(&self, line_number: usize, col: usize) -> (r: Option<
        (MatchWithLine, MatchWithLine),
    >)
        ensures
            match r {
                Some(p) => match_pair_spec(self@, line_number as int, col as int) == Some(
                    (p.0@, p.1@),
                ),
                None => match_pair_spec(self@, line_number as int, col as int) is None,
            },
    {
        let m = match self.match_at(line_number, col) {
            Some(m) => m,
            None => {
                return None;
            },
        };
        let ghost msv = self@.matches;
        match m.kind {
            Kind::Opening => {
                let mut l: usize = line_number;
                while l < self.matches_by_line.len()
                    invariant
                        msv == self@.matches,
                        line_number <= l,
                        fwd_from(msv, m@.token, m@.stack_height, line_number as int, line_number as int, col as int)
                            == fwd_from(msv, m@.token, m@.stack_height, l as int, line_number as int, col as int),
                    decreases self.matches_by_line@.len() - l,
                {
                    let row = &self.matches_by_line[l];
                    let mincol = if l == line_number {
                        Some(col)
                    } else {
                        None
                    };
                    if let Some(i) = row_fwd_exec(row, &m.token, m.stack_height, mincol) {
                        proof {
                            assert(msv[l as int] == matches_view(row@));
                            assert(fwd_from(msv, m@.token, m@.stack_height, l as int, line_number as int, col as int)
                                == Some((l as int, i as int)));
                            assert(msv[l as int][i as int] == row@[i as int]@);
                        }
                        let other = row[i].with_line(l);
                        let me = m.with_line(line_number);
                        return Some((me, other));
                    }
                    assert(fwd_from(msv, m@.token, m@.stack_height, l as int, line_number as int, col as int)
                        == fwd_from(msv, m@.token, m@.stack_height, l + 1, line_number as int, col as int));
                    l += 1;
                }
                None
            },
            Kind::Closing => {
                proof {
                    assert(line_number < self@.matches.len());
                    assert(self@.matches.len() == self.matches_by_line@.len());
                }
                let nlines = self.matches_by_line.len();
                assert(line_number < nlines);
                let mut lp: usize = line_number + 1;
                while lp > 0
                    invariant
                        msv == self@.matches,
                        lp <= line_number + 1,
                        line_number < msv.len(),
                        bwd_from(msv, m@.token, m@.stack_height, line_number as int, line_number as int, col as int)
                            == bwd_from(msv, m@.token, m@.stack_height, lp - 1, line_number as int, col as int),
                    decreases lp,
                {
                    let l = lp - 1;
                    let row = &self.matches_by_line[l];
                    let maxcol = if l == line_number {
                        Some(col)
                    } else {
                        None
                    };
                    if let Some(i) = row_bwd_exec(row, &m.token, m.stack_height, maxcol) {
                        proof {
                            assert(msv[l as int] == matches_view(row@));
                            assert(bwd_from(msv, m@.token, m@.stack_height, l as int, line_number as int, col as int)
                                == Some((l as int, i as int)));
                            assert(msv[l as int][i as int] == row@[i as int]@);
                        }
                        let other = row[i].with_line(l);
                        let me = m.with_line(line_number);
                        return Some((other, me));
                    }
                    assert(bwd_from(msv, m@.token, m@.stack_height, l as int, line_number as int, col as int)
                        == bwd_from(msv, m@.token, m@.stack_height, l - 1, line_number as int, col as int));
                    lp = l;
                }
                assert(bwd_from(msv, m@.token, m@.stack_height, -1, line_number as int, col as int) is None);
                None
            },
            Kind::NonPair => None,
        }
    }

    /// The name of the span the position lies in, if any: a span opened on
    /// the same line at or before the column and not closed strictly before
    /// it, or else the span the line's carried-over state stands in.
    #[verifier::loop_isolation(false)]
    pub fn span_at(&self, line_number: usize, col: usize) -> (r: Option<String>)
        ensures
            match r {
                Some(n) => span_at_spec(self@, line_number as int, col as int) == Some(n@),
                None => span_at_spec(self@, line_number as int, col as int) is None,
            },
    {
        proof {
            use_type_invariant(self);
        }
        if line_number >= self.matches_by_line.len() {
            return None;
        }
        let row = &self.matches_by_line[line_number];
        let ghost rv = self@.matches[line_number as int];
        let mut ip: usize = row.len();
        while ip > 0
            invariant
                ip <= row@.len(),
                rv == matches_view(row@),
                span_at_row(rv, col as int, rv.len() - 1) == span_at_row(rv, col as int, ip - 1),
            decreases ip,
        {
            let i = ip - 1;
            let m = &row[i];
            let is_span_opening = match (&m.kind, &m.token) {
                (Kind::Opening, crate::matcher::Token::InlineSpan(_, _, _)) => m.col <= col,
                (Kind::Opening, crate::matcher::Token::BlockSpan(_, _, _)) => m.col <= col,
                _ => false,
            };
            if is_span_opening {
                let closed_before = match row_fwd_exec(row, &m.token, m.stack_height, Some(m.col)) {
                    Some(j) => row[j].col < col,
                    None => false,
                };
                if !closed_before {
                    let name = match &m.token {
                        crate::matcher::Token::InlineSpan(n, _, _) => n.clone(),
                        crate::matcher::Token::BlockSpan(n, _, _) => n.clone(),
                        _ => String::new(),
                    };
                    proof {
                        assert(rv[i as int] == m@);
                        assert(span_at_row(rv, col as int, i as int) == Some(name@));
                        assert(span_at_spec(self@, line_number as int, col as int) == Some(name@));
                    }
                    return Some(name);
                }
            }
            assert(span_at_row(rv, col as int, i as int) == span_at_row(rv, col as int, i - 1));
            ip = i;
        }
        assert(span_at_row(rv, col as int, -1) is None);
        proof {
            assert(self@.states[line_number as int] == self.state_by_line@[line_number as int]@);
        }
        match &self.state_by_line[line_number] {
            State::InInlineSpan(n) => Some(n.clone()),
            State::InBlockSpan(n) => Some(n.clone()),
            _ => None,
        }
    }
}

} // verus!
