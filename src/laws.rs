use crate::index::{last_named, last_numbered, WaypointView};
use crate::lexical::{i32_literal, is_name, lines_of, newline_pieces, split_ws};
use crate::parser::{
    default_gates, gate_target, is_delimiter, line_outcome, parse_lines, parse_text,
    resolve_gates,
};
use vstd::prelude::*;

verus! {

/// The number of lines that are not empty.
pub open spec fn nonempty_count(lines: Seq<Seq<char>>) -> nat
    decreases lines.len(),
{
    if lines.len() == 0 {
        0
    } else {
        nonempty_count(lines.drop_last()) + if lines.last().len() == 0 {
            0nat
        } else {
            1nat
        }
    }
}

/// The tokens of a line after its gate delimiter; empty where it has none.
pub open spec fn gate_tokens(t: Seq<Seq<char>>) -> Seq<Seq<char>> {
    if t.len() <= 3 {
        Seq::empty()
    } else if is_delimiter(t[3]) {
        t.skip(4)
    } else if t.len() == 4 {
        Seq::empty()
    } else {
        t.skip(5)
    }
}

proof fn lemma_pieces_count(s: Seq<char>)
    ensures
        newline_pieces(s).len() <= s.len() + 1,
        newline_pieces(s).len() >= 1,
    decreases s.len(),
{
    if s.len() > 0 {
        lemma_pieces_count(s.drop_last());
    }
}

/// A text has no more lines than characters.
proof fn lemma_line_count(s: Seq<char>)
    ensures
        lines_of(s).len() <= s.len(),
{
    lemma_pieces_count(s);
    let p = newline_pieces(s);
    if p.last().len() > 0 {
        lemma_piece_total(s);
    }
}

proof fn lemma_piece_total(s: Seq<char>)
    ensures
        newline_pieces(s).len() + newline_pieces(s).last().len() <= s.len() + 1,
    decreases s.len(),
{
    if s.len() > 0 {
        lemma_piece_total(s.drop_last());
    }
}

proof fn lemma_last_named(ws: Seq<WaypointView>, name: Seq<char>)
    requires
        ws.len() <= usize::MAX,
    ensures
        match last_named(ws, name) {
            Some(p) => p < ws.len() && ws[p as int].name == name && forall|j: int|
                p < j < ws.len() ==> #[trigger] ws[j].name != name,
            None => forall|j: int| 0 <= j < ws.len() ==> #[trigger] ws[j].name != name,
        },
    decreases ws.len(),
{
    if ws.len() > 0 {
        let d = ws.drop_last();
        lemma_last_named(d, name);
        if ws.last().name != name {
            if let Some(p) = last_named(d, name) {
                assert forall|j: int| p < j < ws.len() implies #[trigger] ws[j].name != name by {
                    if j < d.len() {
                        assert(d[j] == ws[j]);
                    }
                }
            } else {
                assert forall|j: int| 0 <= j < ws.len() implies #[trigger] ws[j].name != name by {
                    if j < d.len() {
                        assert(d[j] == ws[j]);
                    }
                }
            }
        }
    }
}

proof fn lemma_last_numbered(ws: Seq<WaypointView>, number: usize)
    requires
        ws.len() <= usize::MAX,
    ensures
        match last_numbered(ws, number) {
            Some(p) => p < ws.len() && ws[p as int].number == number && forall|j: int|
                p < j < ws.len() ==> #[trigger] ws[j].number != number,
            None => forall|j: int| 0 <= j < ws.len() ==> #[trigger] ws[j].number != number,
        },
    decreases ws.len(),
{
    if ws.len() > 0 {
        let d = ws.drop_last();
        lemma_last_numbered(d, number);
        if ws.last().number != number {
            if let Some(p) = last_numbered(d, number) {
                assert forall|j: int| p < j < ws.len() implies #[trigger] ws[j].number
                    != number by {
                    if j < d.len() {
                        assert(d[j] == ws[j]);
                    }
                }
            } else {
                assert forall|j: int| 0 <= j < ws.len() implies #[trigger] ws[j].number
                    != number by {
                    if j < d.len() {
                        assert(d[j] == ws[j]);
                    }
                }
            }
        }
    }
}

proof fn lemma_resolved(prev: Seq<WaypointView>, toks: Seq<Seq<char>>)
    requires
        prev.len() <= usize::MAX,
        resolve_gates(prev, toks) is Ok,
    ensures
        ({
            let g = resolve_gates(prev, toks)->Ok_0;
            &&& g.len() == toks.len()
            &&& forall|k: int|
                0 <= k < g.len() ==> gate_target(prev, toks[k]) == Some(#[trigger] g[k])
                    && g[k] < prev.len()
        }),
    decreases toks.len(),
{
    if toks.len() > 0 {
        lemma_resolved(prev, toks.drop_last());
        let t = toks.last();
        if let Some(v) = i32_literal(t) {
            if v >= 0 {
                lemma_last_numbered(prev, v as usize);
            }
        } else {
            lemma_last_named(prev, t);
        }
        let g = resolve_gates(prev, toks)->Ok_0;
        assert forall|k: int| 0 <= k < g.len() implies gate_target(prev, toks[k]) == Some(
            #[trigger] g[k],
        ) && g[k] < prev.len() by {
            if k < g.len() - 1 {
                assert(toks.drop_last()[k] == toks[k]);
            }
        }
    }
}

proof fn lemma_unresolved(prev: Seq<WaypointView>, toks: Seq<Seq<char>>)
    requires
        resolve_gates(prev, toks) is Err,
    ensures
        ({
            let k = resolve_gates(prev, toks)->Err_0;
            0 <= k < toks.len() && gate_target(prev, toks[k]) is None
        }),
    decreases toks.len(),
{
    if resolve_gates(prev, toks.drop_last()) is Err {
        lemma_unresolved(prev, toks.drop_last());
        let k = resolve_gates(prev, toks)->Err_0;
        assert(toks.drop_last()[k] == toks[k]);
    }
}

proof fn lemma_line_shape(prev: Seq<WaypointView>, n: usize, line: Seq<char>)
    requires
        prev.len() <= usize::MAX,
        line_outcome(prev, n, line) is Ok,
    ensures
        ({
            let w = line_outcome(prev, n, line)->Ok_0;
            &&& w.number == n
            &&& forall|k: int| 0 <= k < w.gates.len() ==> #[trigger] w.gates[k] < prev.len()
        }),
{
    let t = split_ws(line);
    let toks = gate_tokens(t);
    if toks.len() > 0 {
        lemma_resolved(prev, toks);
    }
}

/// Facts of every successful parse: one waypoint per non-empty line, line
/// numbers rising, and gates that point backwards.
proof fn lemma_parsed(lines: Seq<Seq<char>>)
    requires
        lines.len() <= usize::MAX,
        parse_lines(lines) is Ok,
    ensures
        ({
            let ws = parse_lines(lines)->Ok_0;
            &&& ws.len() == nonempty_count(lines)
            &&& ws.len() <= lines.len()
            &&& forall|i: int| 0 <= i < ws.len() ==> 1 <= #[trigger] ws[i].number <= lines.len()
            &&& forall|i: int, j: int|
                0 <= i < j < ws.len() ==> #[trigger] ws[i].number < #[trigger] ws[j].number
            &&& forall|i: int, k: int|
                0 <= i < ws.len() && 0 <= k < ws[i].gates.len() ==> #[trigger] ws[i].gates[k] < i
        }),
    decreases lines.len(),
{
    if lines.len() > 0 {
        lemma_parsed(lines.drop_last());
        let prev = parse_lines(lines.drop_last())->Ok_0;
        if lines.last().len() > 0 {
            let n = lines.len() as usize;
            lemma_line_shape(prev, n, lines.last());
            let ws = parse_lines(lines)->Ok_0;
            let w = line_outcome(prev, n, lines.last())->Ok_0;
            assert(ws == prev.push(w));
            assert forall|i: int| 0 <= i < ws.len() implies 1 <= #[trigger] ws[i].number
                <= lines.len() by {
                if i < prev.len() {
                    assert(ws[i] == prev[i]);
                }
            }
            assert forall|i: int, j: int| 0 <= i < j < ws.len() implies #[trigger] ws[i].number
                < #[trigger] ws[j].number by {
                assert(ws[i] == prev[i]);
                if j < prev.len() {
                    assert(ws[j] == prev[j]);
                }
            }
            assert forall|i: int, k: int|
                0 <= i < ws.len() && 0 <= k < ws[i].gates.len() implies #[trigger] ws[i].gates[k]
                < i by {
                if i < prev.len() {
                    assert(ws[i] == prev[i]);
                }
            }
        }
    }
}

proof fn lemma_prefix(lines: Seq<Seq<char>>, m: int)
    requires
        parse_lines(lines) is Ok,
        0 <= m <= lines.len(),
    ensures
        parse_lines(lines.take(m)) is Ok,
        ({
            let ws = parse_lines(lines)->Ok_0;
            let p = parse_lines(lines.take(m))->Ok_0;
            p.len() <= ws.len() && p == ws.take(p.len() as int)
        }),
    decreases lines.len(),
{
    let ws = parse_lines(lines)->Ok_0;
    if m == lines.len() {
        assert(lines.take(m) =~= lines);
        assert(ws.take(ws.len() as int) =~= ws);
    } else {
        lemma_prefix(lines.drop_last(), m);
        assert(lines.drop_last().take(m) =~= lines.take(m));
        let prev = parse_lines(lines.drop_last())->Ok_0;
        let p = parse_lines(lines.take(m))->Ok_0;
        assert(ws.take(prev.len() as int) =~= prev);
        assert(p =~= ws.take(p.len() as int));
    }
}

/// Every successful parse holds exactly one waypoint per non-empty line.
pub proof fn law_one_waypoint_per_line(text: Seq<char>)
    requires
        text.len() <= usize::MAX,
        parse_text(text) is Ok,
    ensures
        parse_text(text)->Ok_0.len() == nonempty_count(lines_of(text)),
{
    lemma_line_count(text);
    lemma_parsed(lines_of(text));
}

/// After a successful parse, looking up the line number of any waypoint finds
/// that waypoint, and looking up its name finds it unless a later waypoint took
/// the same name, in which case it finds the last of those.
pub proof fn law_lookup_finds_declared(text: Seq<char>, i: int)
    requires
        text.len() <= usize::MAX,
        parse_text(text) is Ok,
        0 <= i < parse_text(text)->Ok_0.len(),
    ensures
        ({
            let ws = parse_text(text)->Ok_0;
            &&& last_numbered(ws, ws[i].number) == Some(i as usize)
            &&& last_named(ws, ws[i].name) matches Some(j) && i <= j < ws.len()
                && ws[j as int].name == ws[i].name
            &&& (forall|j: int| i < j < ws.len() ==> #[trigger] ws[j].name != ws[i].name)
                ==> last_named(ws, ws[i].name) == Some(i as usize)
        }),
{
    let ws = parse_text(text)->Ok_0;
    lemma_line_count(text);
    lemma_parsed(lines_of(text));
    lemma_last_numbered(ws, ws[i].number);
    lemma_last_named(ws, ws[i].name);
}

/// Without a gate list, a waypoint's gates are the chain default: the
/// waypoint before it, or none for the first.
pub proof fn law_default_chain(prev: Seq<WaypointView>, n: usize, line: Seq<char>)
    requires
        line_outcome(prev, n, line) is Ok,
        gate_tokens(split_ws(line)).len() == 0,
    ensures
        line_outcome(prev, n, line)->Ok_0.gates == default_gates(prev),
{
}

/// A non-empty gate list replaces the chain default: the gates are the
/// targets of its tokens, one each, in order, and nothing else.
pub proof fn law_explicit_gates_replace(prev: Seq<WaypointView>, n: usize, line: Seq<char>)
    requires
        prev.len() <= usize::MAX,
        line_outcome(prev, n, line) is Ok,
        gate_tokens(split_ws(line)).len() > 0,
    ensures
        ({
            let toks = gate_tokens(split_ws(line));
            let g = line_outcome(prev, n, line)->Ok_0.gates;
            &&& g.len() == toks.len()
            &&& forall|k: int|
                0 <= k < g.len() ==> gate_target(prev, toks[k]) == Some(#[trigger] g[k])
        }),
{
    lemma_resolved(prev, gate_tokens(split_ws(line)));
}

/// A gate token that reads as an integer refers to a line number, any other
/// to a name; the first that refers to nothing ends the parse, with a cause
/// that says which kind of reference failed.
pub proof fn law_gate_reference_kinds(
    prev: Seq<WaypointView>,
    n: usize,
    line: Seq<char>,
    k: int,
)
    requires
        ({
            let t = split_ws(line);
            &&& t.len() >= 3
            &&& i32_literal(t[0]) is Some
            &&& i32_literal(t[1]) is Some
            &&& i32_literal(t[2]) is Some
            &&& t.len() > 3 && !is_delimiter(t[3]) ==> is_name(t[3])
            &&& t.len() > 4 && !is_delimiter(t[3]) ==> is_delimiter(t[4])
        }),
        0 <= k < gate_tokens(split_ws(line)).len(),
    ensures
        ({
            let toks = gate_tokens(split_ws(line));
            let target = match i32_literal(toks[k]) {
                Some(v) => if v >= 0 {
                    last_numbered(prev, v as usize)
                } else {
                    None
                },
                None => last_named(prev, toks[k]),
            };
            &&& gate_target(prev, toks[k]) == target
            &&& resolve_gates(prev, toks) == Err::<Seq<usize>, int>(k) ==> {
                &&& target is None
                &&& (line_outcome(prev, n, line) matches Err(e) && e.token == toks[k] && e.error
                    == if i32_literal(toks[k]) is Some {
                    "unrecognized waypoint number"@
                } else {
                    "unrecognized waypoint name"@
                })
            }
        }),
{
    let t = split_ws(line);
    let toks = gate_tokens(t);
    let from: int = if is_delimiter(t[3]) { 4 } else { 5 };
    assert(toks == t.skip(from));
    if resolve_gates(prev, toks) == Err::<Seq<usize>, int>(k) {
        lemma_unresolved(prev, toks);
    }
}

/// Positions never change once given: the waypoints of the first `m` lines
/// are the start of the final sequence, and a line number or a name that
/// found a position then finds the same one in the final index (a name only
/// where no later waypoint took it).
pub proof fn law_positions_stable(text: Seq<char>, m: int, number: usize, name: Seq<char>)
    requires
        text.len() <= usize::MAX,
        parse_text(text) is Ok,
        0 <= m <= lines_of(text).len(),
    ensures
        parse_lines(lines_of(text).take(m)) is Ok,
        ({
            let ws = parse_text(text)->Ok_0;
            let p = parse_lines(lines_of(text).take(m))->Ok_0;
            &&& p == ws.take(p.len() as int)
            &&& last_numbered(p, number) is Some ==> last_numbered(ws, number) == last_numbered(
                p,
                number,
            )
            &&& last_named(p, name) is Some && (forall|j: int|
                p.len() <= j < ws.len() ==> #[trigger] ws[j].name != name) ==> last_named(ws, name)
                == last_named(p, name)
        }),
{
    let ls = lines_of(text);
    lemma_line_count(text);
    lemma_prefix(ls, m);
    lemma_parsed(ls);
    let ws = parse_text(text)->Ok_0;
    let p = parse_lines(ls.take(m))->Ok_0;
    lemma_last_numbered(p, number);
    lemma_last_numbered(ws, number);
    lemma_last_named(p, name);
    lemma_last_named(ws, name);
    if let Some(g) = last_numbered(p, number) {
        assert(p[g as int] == ws[g as int]);
        if let Some(h) = last_numbered(ws, number) {
            assert(ws[h as int].number == ws[g as int].number);
        }
    }
    if let Some(g) = last_named(p, name) {
        if (forall|j: int| p.len() <= j < ws.len() ==> #[trigger] ws[j].name != name) {
            assert(p[g as int] == ws[g as int]);
            if let Some(h) = last_named(ws, name) {
                if h < p.len() {
                    assert(p[h as int] == ws[h as int]);
                } else {
                    assert(ws[h as int].name == name);
                }
            }
        }
    }
}

} // verus!
