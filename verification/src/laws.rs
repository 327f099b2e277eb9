use vstd::prelude::*;
use crate::matcher::{Kind, MatchModel, StateModel};
use crate::config::GrammarModel;
use crate::buffer::{BufferModel, match_at_spec, match_pair_spec, reparse_result};
use crate::parse::{
    assign_heights_spec, classify_from, classify_line_spec, classify_lines_spec, clear_dangling,
    height_step, parse_spec, pass_line, pass_rows, StackEntry,
};

verus! {

/// Parsing the same lines twice from Normal state yields identical per-line
/// match lists and identical per-line states: the parse is a pure function
/// of grammar and text.
pub proof fn lemma_parse_idempotent(
    g: GrammarModel,
    lines: Seq<Seq<u8>>,
    b1: BufferModel,
    b2: BufferModel,
)
    requires
        b1.matches == parse_spec(g, lines, StateModel::Normal).0,
        b1.states == parse_spec(g, lines, StateModel::Normal).1,
        b2.matches == parse_spec(g, lines, StateModel::Normal).0,
        b2.states == parse_spec(g, lines, StateModel::Normal).1,
    ensures
        b1.matches == b2.matches,
        b1.states == b2.states,
{
}

/// The state left after classifying the lines from index `l` on.
pub open spec fn end_state_from(g: GrammarModel, st: StateModel, lines: Seq<Seq<u8>>, l: int) -> StateModel
    decreases lines.len() - l,
{
    if l < 0 || l >= lines.len() {
        st
    } else {
        end_state_from(g, classify_line_spec(g, st, lines[l]).1, lines, l + 1)
    }
}

/// Classification yields one row and one state per line.
pub proof fn lemma_classify_len(g: GrammarModel, st: StateModel, lines: Seq<Seq<u8>>, l: int)
    requires
        0 <= l <= lines.len(),
    ensures
        classify_from(g, st, lines, l).0.len() == lines.len() - l,
        classify_from(g, st, lines, l).1.len() == lines.len() - l,
    decreases lines.len() - l,
{
    if l < lines.len() {
        let one = classify_line_spec(g, st, lines[l]);
        lemma_classify_len(g, one.1, lines, l + 1);
    }
}

/// The recorded states agree with the threaded end state: the last recorded
/// state of a nonempty run is the state the run ends in.
pub proof fn lemma_classify_states(g: GrammarModel, st: StateModel, lines: Seq<Seq<u8>>, l: int)
    requires
        0 <= l <= lines.len(),
    ensures
        forall|k: int|
            l <= k < lines.len() ==> #[trigger] classify_from(g, st, lines, l).1[k - l]
                == end_state_from(g, st, lines.take(k + 1), l),
    decreases lines.len() - l,
{
    if l < lines.len() {
        let one = classify_line_spec(g, st, lines[l]);
        lemma_classify_len(g, st, lines, l);
        lemma_classify_len(g, one.1, lines, l + 1);
        lemma_classify_states(g, one.1, lines, l + 1);
        assert forall|k: int|
            l <= k < lines.len() implies #[trigger] classify_from(g, st, lines, l).1[k - l]
            == end_state_from(g, st, lines.take(k + 1), l) by {
            if k == l {
                assert(lines.take(l + 1)[l] == lines[l]);
                assert(end_state_from(g, st, lines.take(l + 1), l) == end_state_from(
                    g,
                    one.1,
                    lines.take(l + 1),
                    l + 1,
                ));
                assert(end_state_from(g, one.1, lines.take(l + 1), l + 1) == one.1);
                assert(classify_from(g, st, lines, l).1[0] == one.1);
            } else {
                assert(classify_from(g, st, lines, l).1[k - l] == classify_from(
                    g,
                    one.1,
                    lines,
                    l + 1,
                ).1[k - (l + 1)]);
                assert(classify_from(g, one.1, lines, l + 1).1[k - (l + 1)] == end_state_from(
                    g,
                    one.1,
                    lines.take(k + 1),
                    l + 1,
                ));
                assert(lines.take(k + 1)[l] == lines[l]);
                assert(end_state_from(g, st, lines.take(k + 1), l) == end_state_from(
                    g,
                    one.1,
                    lines.take(k + 1),
                    l + 1,
                ));
            }
        }
    }
}

/// Classifying a concatenation from any index within the first part equals
/// classifying the first part and then the second from the state the first
/// part ends in.
pub proof fn lemma_classify_concat(
    g: GrammarModel,
    st: StateModel,
    a: Seq<Seq<u8>>,
    b: Seq<Seq<u8>>,
    l: int,
)
    requires
        0 <= l <= a.len(),
    ensures
        classify_from(g, st, a + b, l).0 == classify_from(g, st, a, l).0 + classify_from(
            g,
            end_state_from(g, st, a, l),
            b,
            0,
        ).0,
        classify_from(g, st, a + b, l).1 == classify_from(g, st, a, l).1 + classify_from(
            g,
            end_state_from(g, st, a, l),
            b,
            0,
        ).1,
    decreases a.len() - l,
{
    if l == a.len() {
        lemma_classify_shift(g, st, a, b, l);
        assert(classify_from(g, st, a, l).0 =~= Seq::<Seq<MatchModel>>::empty());
        assert(classify_from(g, st, a, l).1 =~= Seq::<StateModel>::empty());
        assert(classify_from(g, st, a + b, l).0 =~= classify_from(g, st, a, l).0 + classify_from(
            g,
            end_state_from(g, st, a, l),
            b,
            0,
        ).0);
        assert(classify_from(g, st, a + b, l).1 =~= classify_from(g, st, a, l).1 + classify_from(
            g,
            end_state_from(g, st, a, l),
            b,
            0,
        ).1);
    } else {
        assert((a + b)[l] == a[l]);
        let one = classify_line_spec(g, st, a[l]);
        lemma_classify_concat(g, one.1, a, b, l + 1);
        assert(classify_from(g, st, a + b, l).0 =~= classify_from(g, st, a, l).0 + classify_from(
            g,
            end_state_from(g, st, a, l),
            b,
            0,
        ).0);
        assert(classify_from(g, st, a + b, l).1 =~= classify_from(g, st, a, l).1 + classify_from(
            g,
            end_state_from(g, st, a, l),
            b,
            0,
        ).1);
    }
}

/// Classifying a concatenation from an index past the first part only sees
/// the second part.
pub proof fn lemma_classify_shift(
    g: GrammarModel,
    st: StateModel,
    a: Seq<Seq<u8>>,
    b: Seq<Seq<u8>>,
    l: int,
)
    requires
        a.len() <= l <= a.len() + b.len(),
    ensures
        classify_from(g, st, a + b, l).0 == classify_from(g, st, b, l - a.len()).0,
        classify_from(g, st, a + b, l).1 == classify_from(g, st, b, l - a.len()).1,
    decreases a.len() + b.len() - l,
{
    if l < a.len() + b.len() {
        assert((a + b)[l] == b[l - a.len()]);
        let one = classify_line_spec(g, st, (a + b)[l]);
        lemma_classify_shift(g, one.1, a, b, l + 1);
    }
}

} // verus!

verus! {

/// A match with its stack height forgotten.
pub open spec fn strip(m: MatchModel) -> MatchModel {
    MatchModel { stack_height: None, ..m }
}

/// A row with all stack heights forgotten.
pub open spec fn strip_row(r: Seq<MatchModel>) -> Seq<MatchModel> {
    r.map_values(|m: MatchModel| strip(m))
}

/// Rows with all stack heights forgotten.
pub open spec fn strip_rows(rs: Seq<Seq<MatchModel>>) -> Seq<Seq<MatchModel>> {
    rs.map_values(|r: Seq<MatchModel>| strip_row(r))
}

proof fn lemma_pass_line_shape(
    x: Seq<MatchModel>,
    y: Seq<MatchModel>,
    stack: Seq<StackEntry>,
    l: int,
    i: int,
)
    requires
        strip_row(x) == strip_row(y),
    ensures
        pass_line(x, stack, l, i) == pass_line(y, stack, l, i),
    decreases x.len() - i,
{
    assert(strip_row(x).len() == x.len());
    assert(strip_row(y).len() == y.len());
    assert(x.len() == y.len());
    if 0 <= i < x.len() {
        assert(strip_row(x)[i] == strip(x[i]));
        assert(strip_row(y)[i] == strip(y[i]));
        let ox = height_step(x[i], stack, l, i);
        let oy = height_step(y[i], stack, l, i);
        assert(ox == oy);
        lemma_pass_line_shape(x, y, ox.1, l, i + 1);
    }
}

proof fn lemma_pass_rows_shape(
    x: Seq<Seq<MatchModel>>,
    y: Seq<Seq<MatchModel>>,
    stack: Seq<StackEntry>,
    l: int,
)
    requires
        strip_rows(x) == strip_rows(y),
    ensures
        pass_rows(x, stack, l) == pass_rows(y, stack, l),
    decreases x.len() - l,
{
    assert(strip_rows(x).len() == x.len());
    assert(strip_rows(y).len() == y.len());
    assert(x.len() == y.len());
    if 0 <= l < x.len() {
        assert(strip_rows(x)[l] == strip_row(x[l]));
        assert(strip_rows(y)[l] == strip_row(y[l]));
        lemma_pass_line_shape(x[l], y[l], stack, l, 0);
        lemma_pass_rows_shape(x, y, pass_line(x[l], stack, l, 0).1, l + 1);
        assert(pass_rows(x, stack, l).0 =~= pass_rows(y, stack, l).0);
    }
}

/// Stack-height assignment looks only at kind, token and column: rows that
/// agree once heights are forgotten are assigned the same heights.
pub proof fn lemma_heights_shape(x: Seq<Seq<MatchModel>>, y: Seq<Seq<MatchModel>>)
    requires
        strip_rows(x) == strip_rows(y),
    ensures
        assign_heights_spec(x) == assign_heights_spec(y),
{
    lemma_pass_rows_shape(x, y, seq![], 0);
}

proof fn lemma_pass_line_strip(ms: Seq<MatchModel>, stack: Seq<StackEntry>, l: int, i: int)
    requires
        0 <= i <= ms.len(),
    ensures
        pass_line(ms, stack, l, i).0.len() == ms.len() - i,
        strip_row(pass_line(ms, stack, l, i).0) == strip_row(ms.skip(i)),
    decreases ms.len() - i,
{
    if i < ms.len() {
        let one = height_step(ms[i], stack, l, i);
        lemma_pass_line_strip(ms, one.1, l, i + 1);
        assert(strip(one.0) == strip(ms[i]));
        assert(ms.skip(i) =~= seq![ms[i]] + ms.skip(i + 1));
        let a = pass_line(ms, stack, l, i).0;
        let rest0 = pass_line(ms, one.1, l, i + 1).0;
        assert(strip_row(a).len() == a.len());
        assert(strip_row(ms.skip(i)).len() == ms.skip(i).len());
        assert forall|k: int| 0 <= k < a.len() implies #[trigger] strip_row(a)[k] == strip_row(
            ms.skip(i),
        )[k] by {
            if k == 0 {
                assert(a[0] == one.0);
                assert(ms.skip(i)[0] == ms[i]);
            } else {
                assert(a[k] == rest0[k - 1]);
                assert(strip_row(rest0)[k - 1] == strip(rest0[k - 1]));
                assert(strip_row(ms.skip(i + 1))[k - 1] == strip(ms.skip(i + 1)[k - 1]));
                assert(ms.skip(i + 1)[k - 1] == ms[i + k]);
                assert(ms.skip(i)[k] == ms[i + k]);
            }
        }
        assert(strip_row(pass_line(ms, stack, l, i).0) =~= strip_row(ms.skip(i)));
    } else {
        assert(strip_row(pass_line(ms, stack, l, i).0).len() == pass_line(ms, stack, l, i).0.len());
        assert(strip_row(ms.skip(i)).len() == ms.skip(i).len());
        assert(strip_row(pass_line(ms, stack, l, i).0) =~= strip_row(ms.skip(i)));
    }
}

proof fn lemma_pass_rows_strip(rows: Seq<Seq<MatchModel>>, stack: Seq<StackEntry>, l: int)
    requires
        0 <= l <= rows.len(),
    ensures
        pass_rows(rows, stack, l).0.len() == rows.len() - l,
        strip_rows(pass_rows(rows, stack, l).0) == strip_rows(rows.skip(l)),
        forall|k: int|
            0 <= k < rows.len() - l ==> #[trigger] pass_rows(rows, stack, l).0[k].len()
                == rows[l + k].len(),
    decreases rows.len() - l,
{
    if l < rows.len() {
        let one = pass_line(rows[l], stack, l, 0);
        lemma_pass_line_strip(rows[l], stack, l, 0);
        lemma_pass_rows_strip(rows, one.1, l + 1);
        assert(rows.skip(l) =~= seq![rows[l]] + rows.skip(l + 1));
        let a = pass_rows(rows, stack, l).0;
        let rest0 = pass_rows(rows, one.1, l + 1).0;
        assert(strip_rows(a).len() == a.len());
        assert(strip_rows(rows.skip(l)).len() == rows.skip(l).len());
        assert forall|k: int| 0 <= k < a.len() implies #[trigger] strip_rows(a)[k] == strip_rows(
            rows.skip(l),
        )[k] by {
            if k == 0 {
                assert(a[0] == one.0);
                assert(rows.skip(l)[0] == rows[l]);
            } else {
                assert(a[k] == rest0[k - 1]);
                assert(strip_rows(rest0)[k - 1] == strip_row(rest0[k - 1]));
                assert(strip_rows(rows.skip(l + 1))[k - 1] == strip_row(rows.skip(l + 1)[k - 1]));
                assert(rows.skip(l + 1)[k - 1] == rows[l + k]);
                assert(rows.skip(l)[k] == rows[l + k]);
            }
        }
        assert(strip_rows(pass_rows(rows, stack, l).0) =~= strip_rows(rows.skip(l)));
        assert(strip_row(one.0) == strip_row(rows[l]));
        assert(strip_row(one.0).len() == one.0.len());
        assert forall|k: int| 0 <= k < rows.len() - l implies #[trigger] pass_rows(
            rows,
            stack,
            l,
        ).0[k].len() == rows[l + k].len() by {
            if k == 0 {
                assert(pass_rows(rows, stack, l).0[0] == one.0);
            } else {
                assert(pass_rows(rows, stack, l).0[k] == pass_rows(rows, one.1, l + 1).0[k - 1]);
            }
        }
    } else {
        assert(strip_rows(pass_rows(rows, stack, l).0).len() == pass_rows(rows, stack, l).0.len());
        assert(strip_rows(rows.skip(l)).len() == rows.skip(l).len());
        assert(strip_rows(pass_rows(rows, stack, l).0) =~= strip_rows(rows.skip(l)));
    }
}

proof fn lemma_clear_strip(rows: Seq<Seq<MatchModel>>, stack: Seq<StackEntry>)
    ensures
        strip_rows(clear_dangling(rows, stack)) == strip_rows(rows),
{
    let c = clear_dangling(rows, stack);
    assert forall|l: int| 0 <= l < rows.len() implies #[trigger] strip_rows(c)[l] == strip_rows(
        rows,
    )[l] by {
        assert(strip_row(c[l]).len() == c[l].len());
        assert(strip_row(rows[l]).len() == rows[l].len());
        assert(strip_row(c[l]) =~= strip_row(rows[l]));
    }
    assert(strip_rows(c).len() == c.len());
    assert(strip_rows(rows).len() == rows.len());
    assert(strip_rows(c) =~= strip_rows(rows));
}

/// Stack-height assignment changes nothing but the heights.
pub proof fn lemma_assign_strip(rows: Seq<Seq<MatchModel>>)
    ensures
        assign_heights_spec(rows).len() == rows.len(),
        strip_rows(assign_heights_spec(rows)) == strip_rows(rows),
{
    let p = pass_rows(rows, seq![], 0);
    lemma_pass_rows_strip(rows, seq![], 0);
    lemma_clear_strip(p.0, p.1);
    assert(rows.skip(0) =~= rows);
}

} // verus!

verus! {

/// Incremental equivalence: for a text whose lines `[s, e)` are replaced by
/// new lines, reparsing only that window of a fully parsed buffer — seeded
/// with the state recorded just before the window — yields exactly the buffer
/// a fresh full parse of the edited text yields, provided the state entering
/// the kept suffix is what it was before the edit.
#[verifier::rlimit(100)]
pub proof fn lemma_incremental_equivalence(
    g: GrammarModel,
    t: Seq<Seq<u8>>,
    l: Seq<Seq<u8>>,
    s: int,
    e: int,
)
    requires
        0 <= s <= e <= t.len(),
        t.len() + l.len() <= usize::MAX,
        ({
            let full = classify_lines_spec(g, StateModel::Normal, t);
            let seed = if s == 0 {
                StateModel::Normal
            } else {
                full.1[s - 1]
            };
            let c = classify_lines_spec(g, seed, l);
            let after_l = if l.len() == 0 {
                seed
            } else {
                c.1.last()
            };
            let before_suffix = if e == 0 {
                StateModel::Normal
            } else {
                full.1[e - 1]
            };
            e < t.len() ==> after_l == before_suffix
        }),
    ensures
        ({
            let full = parse_spec(g, t, StateModel::Normal);
            let old_buf = BufferModel { matches: full.0, states: full.1 };
            let tprime = t.take(s) + l + t.skip(e);
            let fresh = parse_spec(g, tprime, StateModel::Normal);
            reparse_result(
                old_buf,
                g,
                l,
                Some(s as usize),
                Some(e as usize),
                Some((s + l.len()) as usize),
            ) == BufferModel { matches: fresh.0, states: fresh.1 }
        }),
{
    let norm = StateModel::Normal;
    let cf = classify_lines_spec(g, norm, t);
    let seed = if s == 0 {
        norm
    } else {
        cf.1[s - 1]
    };
    let c = classify_lines_spec(g, seed, l);
    let cnt = l.len() as int;
    lemma_classify_len(g, norm, t, 0);
    lemma_classify_len(g, seed, l, 0);
    lemma_assign_strip(cf.0);
    let a = assign_heights_spec(cf.0);
    let old_buf = BufferModel { matches: a, states: cf.1 };
    // The window bounds normalize to themselves.
    assert(a.len() == t.len());
    assert(c.0.take(cnt) =~= c.0);
    assert(c.1.take(cnt) =~= c.1);
    // Decompose the full classification at the window's start.
    let pre = t.take(s);
    let sufs = t.skip(s);
    assert(t =~= pre + sufs);
    lemma_classify_concat(g, norm, pre, sufs, 0);
    lemma_classify_len(g, norm, pre, 0);
    let st_pre = end_state_from(g, norm, pre, 0);
    lemma_classify_states(g, norm, t, 0);
    if s > 0 {
        let k = s - 1;
        assert(classify_from(g, norm, t, 0).1[k - 0] == end_state_from(g, norm, t.take(k + 1), 0));
        assert(t.take(k + 1) == t.take(s));
    }
    assert(seed == st_pre);
    assert(cf.0.take(s) =~= classify_from(g, norm, pre, 0).0);
    assert(cf.1.take(s) =~= classify_from(g, norm, pre, 0).1);
    // Decompose the full classification at the window's end.
    let pre_e = t.take(e);
    let suf = t.skip(e);
    assert(t =~= pre_e + suf);
    lemma_classify_concat(g, norm, pre_e, suf, 0);
    lemma_classify_len(g, norm, pre_e, 0);
    let st_e = end_state_from(g, norm, pre_e, 0);
    if e > 0 {
        let k = e - 1;
        assert(classify_from(g, norm, t, 0).1[k - 0] == end_state_from(g, norm, t.take(k + 1), 0));
        assert(t.take(k + 1) == t.take(e));
    }
    assert(cf.0.skip(e) =~= classify_from(g, st_e, suf, 0).0);
    assert(cf.1.skip(e) =~= classify_from(g, st_e, suf, 0).1);
    // Decompose the fresh classification of the edited text.
    let tprime = pre + l + suf;
    assert(tprime =~= pre + (l + suf));
    let cfp = classify_lines_spec(g, norm, tprime);
    lemma_classify_concat(g, norm, pre, l + suf, 0);
    lemma_classify_concat(g, seed, l, suf, 0);
    let after_l = end_state_from(g, seed, l, 0);
    lemma_classify_states(g, seed, l, 0);
    if l.len() > 0 {
        let k = cnt - 1;
        assert(classify_from(g, seed, l, 0).1[k - 0] == end_state_from(g, seed, l.take(k + 1), 0));
        assert(l.take(k + 1) =~= l);
        assert(c.1.last() == after_l);
    }
    if e < t.len() {
        assert(after_l == st_e);
    } else {
        assert(suf =~= Seq::<Seq<u8>>::empty());
        assert(classify_from(g, after_l, suf, 0).0 =~= Seq::<Seq<MatchModel>>::empty());
        assert(classify_from(g, st_e, suf, 0).0 =~= Seq::<Seq<MatchModel>>::empty());
        assert(classify_from(g, after_l, suf, 0).1 =~= Seq::<StateModel>::empty());
        assert(classify_from(g, st_e, suf, 0).1 =~= Seq::<StateModel>::empty());
    }
    assert(cfp.0 =~= cf.0.take(s) + c.0 + cf.0.skip(e));
    assert(cfp.1 =~= cf.1.take(s) + c.1 + cf.1.skip(e));
    // The spliced rows carry the same kinds, tokens and columns as the fresh
    // classification, so the height walk treats them alike.
    let spliced = a.take(s) + c.0.take(cnt) + a.skip(e);
    assert(spliced.len() == cfp.0.len());
    assert(strip_rows(spliced).len() == spliced.len());
    assert(strip_rows(cfp.0).len() == cfp.0.len());
    assert forall|k: int| 0 <= k < spliced.len() implies #[trigger] strip_rows(spliced)[k]
        == strip_rows(cfp.0)[k] by {
        assert(strip_rows(spliced)[k] == strip_row(spliced[k]));
        assert(strip_rows(cfp.0)[k] == strip_row(cfp.0[k]));
        if k < s {
            assert(spliced[k] == a[k]);
            assert(strip_rows(a)[k] == strip_row(a[k]));
            assert(strip_rows(cf.0)[k] == strip_row(cf.0[k]));
            assert(cfp.0[k] == cf.0[k]);
        } else if k < s + cnt {
            assert(spliced[k] == c.0[k - s]);
            assert(cfp.0[k] == c.0[k - s]);
        } else {
            assert(spliced[k] == a[e + (k - s - cnt)]);
            assert(cfp.0[k] == cf.0[e + (k - s - cnt)]);
            assert(strip_rows(a)[e + (k - s - cnt)] == strip_row(a[e + (k - s - cnt)]));
            assert(strip_rows(cf.0)[e + (k - s - cnt)] == strip_row(cf.0[e + (k - s - cnt)]));
        }
    }
    assert(strip_rows(spliced) =~= strip_rows(cfp.0));
    lemma_heights_shape(spliced, cfp.0);
    let rr = reparse_result(
        old_buf,
        g,
        l,
        Some(s as usize),
        Some(e as usize),
        Some((s + l.len()) as usize),
    );
    assert(rr.matches == assign_heights_spec(spliced));
    assert(rr.states =~= cfp.1);
    assert(rr =~~= BufferModel {
        matches: parse_spec(g, tprime, norm).0,
        states: parse_spec(g, tprime, norm).1,
    });
    assert(t.take(s) + l + t.skip(e) == tprime);
}

} // verus!

verus! {

/// The balance walk over one row of bracket-only matches: openers push their
/// token, closers must find their own token on top and pop it; any non-pair
/// match, orphan closer or mismatched closer makes the row unbalanced.
pub open spec fn balanced_line(ms: Seq<MatchModel>, stack: Seq<crate::matcher::TokenModel>, i: int) -> Option<Seq<crate::matcher::TokenModel>>
    decreases ms.len() - i,
{
    if i < 0 || i >= ms.len() {
        Some(stack)
    } else {
        let m = ms[i];
        if m.kind is Opening {
            balanced_line(ms, stack.push(m.token), i + 1)
        } else if m.kind is Closing {
            if stack.len() > 0 && stack.last() == m.token {
                balanced_line(ms, stack.drop_last(), i + 1)
            } else {
                None
            }
        } else {
            None
        }
    }
}

/// The balance walk over all rows.
pub open spec fn balanced_rows(
    rows: Seq<Seq<MatchModel>>,
    stack: Seq<crate::matcher::TokenModel>,
    l: int,
) -> Option<Seq<crate::matcher::TokenModel>>
    decreases rows.len() - l,
{
    if l < 0 || l >= rows.len() {
        Some(stack)
    } else {
        match balanced_line(rows[l], stack, 0) {
            Some(st) => balanced_rows(rows, st, l + 1),
            None => None,
        }
    }
}

/// Fully balanced bracket-only rows: every match pairs, and the walk ends
/// with an empty stack.
pub open spec fn balanced(rows: Seq<Seq<MatchModel>>) -> bool {
    balanced_rows(rows, seq![], 0) == Some(Seq::<crate::matcher::TokenModel>::empty())
}

/// The manual linear recount of one row: a single depth counter, openers at
/// the current depth then one deeper, closers one shallower then at that
/// depth.
pub open spec fn recount_line(ms: Seq<MatchModel>, d: int, i: int) -> (Seq<MatchModel>, int)
    decreases ms.len() - i,
{
    if i < 0 || i >= ms.len() {
        (seq![], d)
    } else {
        let m = ms[i];
        if m.kind is Opening {
            let rest = recount_line(ms, d + 1, i + 1);
            (seq![MatchModel { stack_height: Some(d as usize), ..m }] + rest.0, rest.1)
        } else {
            let rest = recount_line(ms, d - 1, i + 1);
            (seq![MatchModel { stack_height: Some((d - 1) as usize), ..m }] + rest.0, rest.1)
        }
    }
}

/// The manual linear recount over all rows.
pub open spec fn recount_rows(rows: Seq<Seq<MatchModel>>, d: int, l: int) -> (
    Seq<Seq<MatchModel>>,
    int,
)
    decreases rows.len() - l,
{
    if l < 0 || l >= rows.len() {
        (seq![], d)
    } else {
        let one = recount_line(rows[l], d, 0);
        let rest = recount_rows(rows, one.1, l + 1);
        (seq![one.0] + rest.0, rest.1)
    }
}

/// The tokens a walk stack carries.
pub open spec fn stack_tokens(stack: Seq<StackEntry>) -> Seq<crate::matcher::TokenModel> {
    stack.map_values(|en: StackEntry| en.token)
}

proof fn lemma_line_balanced(
    ms: Seq<MatchModel>,
    stack: Seq<StackEntry>,
    bs: Seq<crate::matcher::TokenModel>,
    l: int,
    i: int,
)
    requires
        stack_tokens(stack) == bs,
        balanced_line(ms, bs, i) is Some,
        0 <= i,
    ensures
        pass_line(ms, stack, l, i).0 == recount_line(ms, stack.len() as int, i).0,
        stack_tokens(pass_line(ms, stack, l, i).1) == balanced_line(ms, bs, i)->0,
    decreases ms.len() - i,
{
    assert(stack_tokens(stack).len() == stack.len());
    if i < ms.len() {
        let m = ms[i];
        let one = height_step(m, stack, l, i);
        if m.kind is Opening {
            assert(stack_tokens(one.1) =~= bs.push(m.token));
            lemma_line_balanced(ms, one.1, bs.push(m.token), l, i + 1);
            assert(pass_line(ms, stack, l, i).0 =~= recount_line(ms, stack.len() as int, i).0);
        } else {
            assert(m.kind is Closing);
            assert(bs.len() > 0 && bs.last() == m.token);
            assert(stack_tokens(stack)[stack.len() - 1] == stack.last().token);
            assert(stack.last().token == m.token);
            assert(one.1 == stack.drop_last());
            assert(stack_tokens(one.1) =~= bs.drop_last());
            lemma_line_balanced(ms, one.1, bs.drop_last(), l, i + 1);
            assert(one.0.stack_height == Some((stack.len() - 1) as usize));
            assert(pass_line(ms, stack, l, i).0 =~= recount_line(ms, stack.len() as int, i).0);
        }
    } else {
        assert(pass_line(ms, stack, l, i).0 =~= recount_line(ms, stack.len() as int, i).0);
    }
}

proof fn lemma_rows_balanced(
    rows: Seq<Seq<MatchModel>>,
    stack: Seq<StackEntry>,
    bs: Seq<crate::matcher::TokenModel>,
    l: int,
)
    requires
        stack_tokens(stack) == bs,
        balanced_rows(rows, bs, l) is Some,
        0 <= l,
    ensures
        pass_rows(rows, stack, l).0 == recount_rows(rows, stack.len() as int, l).0,
        stack_tokens(pass_rows(rows, stack, l).1) == balanced_rows(rows, bs, l)->0,
    decreases rows.len() - l,
{
    assert(stack_tokens(stack).len() == stack.len());
    if l < rows.len() {
        let one = pass_line(rows[l], stack, l, 0);
        lemma_line_balanced(rows[l], stack, bs, l, 0);
        assert(stack_tokens(one.1).len() == one.1.len());
        lemma_rows_balanced(rows, one.1, balanced_line(rows[l], bs, 0)->0, l + 1);
        assert(recount_line(rows[l], stack.len() as int, 0).1 == one.1.len() as int) by {
            lemma_recount_end(rows[l], stack, bs, l, 0);
        }
        assert(pass_rows(rows, stack, l).0 =~= recount_rows(rows, stack.len() as int, l).0);
    } else {
        assert(pass_rows(rows, stack, l).0 =~= recount_rows(rows, stack.len() as int, l).0);
    }
}

proof fn lemma_recount_end(
    ms: Seq<MatchModel>,
    stack: Seq<StackEntry>,
    bs: Seq<crate::matcher::TokenModel>,
    l: int,
    i: int,
)
    requires
        stack_tokens(stack) == bs,
        balanced_line(ms, bs, i) is Some,
        0 <= i,
    ensures
        recount_line(ms, stack.len() as int, i).1 == pass_line(ms, stack, l, i).1.len() as int,
    decreases ms.len() - i,
{
    assert(stack_tokens(stack).len() == stack.len());
    if i < ms.len() {
        let m = ms[i];
        let one = height_step(m, stack, l, i);
        if m.kind is Opening {
            assert(stack_tokens(one.1) =~= bs.push(m.token));
            lemma_recount_end(ms, one.1, bs.push(m.token), l, i + 1);
        } else {
            assert(m.kind is Closing);
            assert(bs.len() > 0 && bs.last() == m.token);
            assert(stack_tokens(stack)[stack.len() - 1] == stack.last().token);
            assert(one.1 == stack.drop_last());
            assert(stack_tokens(one.1) =~= bs.drop_last());
            lemma_recount_end(ms, one.1, bs.drop_last(), l, i + 1);
        }
    }
}

/// Stack-height correctness: on fully balanced bracket-only rows, the full
/// recomputation assigns every match exactly the depth a manual linear
/// recount with a single counter yields, and leaves no match dangling.
pub proof fn lemma_balanced_stack_heights(rows: Seq<Seq<MatchModel>>)
    requires
        balanced(rows),
    ensures
        assign_heights_spec(rows) == recount_rows(rows, 0, 0).0,
{
    let empty_stack = Seq::<StackEntry>::empty();
    assert(stack_tokens(empty_stack) =~= Seq::<crate::matcher::TokenModel>::empty());
    lemma_rows_balanced(rows, empty_stack, Seq::<crate::matcher::TokenModel>::empty(), 0);
    let p = pass_rows(rows, empty_stack, 0);
    assert(stack_tokens(p.1).len() == p.1.len());
    assert(p.1.len() == 0);
    assert(clear_dangling(p.0, p.1) =~= p.0) by {
        lemma_pass_rows_strip(rows, empty_stack, 0);
        assert forall|l: int| 0 <= l < p.0.len() implies #[trigger] clear_dangling(p.0, p.1)[l]
            == p.0[l] by {
            assert forall|i: int| 0 <= i < p.0[l].len() implies #[trigger] clear_dangling(
                p.0,
                p.1,
            )[l][i] == p.0[l][i] by {
                assert(!crate::parse::in_stack(p.1, l, i));
            }
            assert(clear_dangling(p.0, p.1)[l] =~= p.0[l]);
        }
    }
}

} // verus!

verus! {

proof fn lemma_row_fwd_props(
    row: Seq<MatchModel>,
    tok: crate::matcher::TokenModel,
    h: Option<usize>,
    mincol: Option<int>,
    j: int,
)
    requires
        crate::buffer::row_fwd(row, tok, h, mincol, j) is Some,
        0 <= j,
    ensures
        ({
            let i = crate::buffer::row_fwd(row, tok, h, mincol, j)->0;
            &&& j <= i < row.len()
            &&& row[i].kind is Closing
            &&& row[i].token == tok
            &&& row[i].stack_height == h
            &&& (mincol matches Some(c) ==> row[i].col > c)
        }),
    decreases row.len() - j,
{
    let hit = row[j].kind is Closing && row[j].token == tok && row[j].stack_height == h && (
    match mincol {
        Some(c) => row[j].col > c,
        None => true,
    });
    if !(j < 0 || j >= row.len()) && !hit {
        lemma_row_fwd_props(row, tok, h, mincol, j + 1);
    }
}

proof fn lemma_fwd_from_props(
    ms: Seq<Seq<MatchModel>>,
    tok: crate::matcher::TokenModel,
    h: Option<usize>,
    l: int,
    line0: int,
    col0: int,
)
    requires
        crate::buffer::fwd_from(ms, tok, h, l, line0, col0) is Some,
        0 <= l,
    ensures
        ({
            let p = crate::buffer::fwd_from(ms, tok, h, l, line0, col0)->0;
            &&& l <= p.0 < ms.len()
            &&& 0 <= p.1 < ms[p.0].len()
            &&& ms[p.0][p.1].kind is Closing
            &&& ms[p.0][p.1].token == tok
            &&& ms[p.0][p.1].stack_height == h
            &&& (p.0 == line0 ==> ms[p.0][p.1].col > col0)
        }),
    decreases ms.len() - l,
{
    let c = if l == line0 {
        Some(col0)
    } else {
        None
    };
    match crate::buffer::row_fwd(ms[l], tok, h, c, 0) {
        Some(i) => {
            lemma_row_fwd_props(ms[l], tok, h, c, 0);
        },
        None => {
            lemma_fwd_from_props(ms, tok, h, l + 1, line0, col0);
        },
    }
}

/// Pairing, forward direction: when the match at a position is an opener and
/// a pair is found, the pair's first element is that very match on its own
/// line, and its second is a closing match with equal token and equal stack
/// height — the two values that name one nesting level — standing strictly
/// after the opener.
pub proof fn lemma_pair_of_opening(b: BufferModel, line: int, col: int)
    requires
        0 <= line,
        b.matches.len() <= usize::MAX,
        match_at_spec(b, line, col) matches Some(m) && m.kind is Opening,
        match_pair_spec(b, line, col) is Some,
    ensures
        ({
            let m = match_at_spec(b, line, col)->0;
            let p = match_pair_spec(b, line, col)->0;
            &&& p.0 == crate::buffer::with_line_model(m, line)
            &&& p.1.kind is Closing
            &&& p.1.token == m.token
            &&& p.1.stack_height == m.stack_height
            &&& (p.1.line > line || (p.1.line == line && p.1.col > col))
        }),
{
    let m = match_at_spec(b, line, col)->0;
    lemma_fwd_from_props(b.matches, m.token, m.stack_height, line, line, col);
    let q = crate::buffer::fwd_from(b.matches, m.token, m.stack_height, line, line, col)->0;
    assert(q.0 < b.matches.len() <= usize::MAX ==> q.0 as usize == q.0);
}

} // verus!

verus! {

proof fn lemma_row_bwd_props(
    row: Seq<MatchModel>,
    tok: crate::matcher::TokenModel,
    h: Option<usize>,
    maxcol: Option<int>,
    j: int,
)
    requires
        crate::buffer::row_bwd(row, tok, h, maxcol, j) is Some,
        j < row.len(),
    ensures
        ({
            let i = crate::buffer::row_bwd(row, tok, h, maxcol, j)->0;
            &&& 0 <= i <= j
            &&& row[i].kind is Opening
            &&& row[i].token == tok
            &&& row[i].stack_height == h
            &&& (maxcol matches Some(c) ==> row[i].col < c)
        }),
    decreases j + 1,
{
    let hit = row[j].kind is Opening && row[j].token == tok && row[j].stack_height == h && (
    match maxcol {
        Some(c) => row[j].col < c,
        None => true,
    });
    if !(j < 0 || j >= row.len()) && !hit {
        lemma_row_bwd_props(row, tok, h, maxcol, j - 1);
    }
}

proof fn lemma_bwd_from_props(
    ms: Seq<Seq<MatchModel>>,
    tok: crate::matcher::TokenModel,
    h: Option<usize>,
    l: int,
    line0: int,
    col0: int,
)
    requires
        crate::buffer::bwd_from(ms, tok, h, l, line0, col0) is Some,
        l < ms.len(),
    ensures
        ({
            let p = crate::buffer::bwd_from(ms, tok, h, l, line0, col0)->0;
            &&& 0 <= p.0 <= l
            &&& 0 <= p.1 < ms[p.0].len()
            &&& ms[p.0][p.1].kind is Opening
            &&& ms[p.0][p.1].token == tok
            &&& ms[p.0][p.1].stack_height == h
            &&& (p.0 == line0 ==> ms[p.0][p.1].col < col0)
        }),
    decreases l + 1,
{
    let c = if l == line0 {
        Some(col0)
    } else {
        None
    };
    match crate::buffer::row_bwd(ms[l], tok, h, c, ms[l].len() - 1) {
        Some(i) => {
            lemma_row_bwd_props(ms[l], tok, h, c, ms[l].len() - 1);
        },
        None => {
            lemma_bwd_from_props(ms, tok, h, l - 1, line0, col0);
        },
    }
}

/// Pairing, backward direction: when the match at a position is a closer and
/// a pair is found, the pair's second element is that very match on its own
/// line, and its first is an opening match with equal token and equal stack
/// height standing strictly before the closer.
pub proof fn lemma_pair_of_closing(b: BufferModel, line: int, col: int)
    requires
        0 <= line,
        b.matches.len() <= usize::MAX,
        match_at_spec(b, line, col) matches Some(m) && m.kind is Closing,
        match_pair_spec(b, line, col) is Some,
    ensures
        ({
            let m = match_at_spec(b, line, col)->0;
            let p = match_pair_spec(b, line, col)->0;
            &&& p.1 == crate::buffer::with_line_model(m, line)
            &&& p.0.kind is Opening
            &&& p.0.token == m.token
            &&& p.0.stack_height == m.stack_height
            &&& (p.0.line < line || (p.0.line == line && p.0.col < col))
        }),
{
    let m = match_at_spec(b, line, col)->0;
    assert(line < b.matches.len());
    lemma_bwd_from_props(b.matches, m.token, m.stack_height, line, line, col);
}

} // verus!
