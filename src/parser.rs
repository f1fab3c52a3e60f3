use crate::index::{last_named, last_numbered, Waypoint, WaypointIndexMap, WaypointView};
use crate::lexical::{
    decimal_digits, decimal_text, i32_literal, int_error_text, is_name, lines_of, parse_i32,
    regex_is_match, split_ws, text_lines, whitespace_tokens,
};
use vstd::prelude::*;
use vstd::string::*;

verus! {

/// Why a line was refused, and where.
pub struct ParseError {
    /// 1-based line number.
    pub line_number: usize,
    /// The line as written.
    pub line: String,
    /// 0-based index of the offending token within the line.
    pub token_number: usize,
    /// The offending token; empty where the line has too few tokens.
    pub token: String,
    pub error: String,
}

pub struct ParseErrorView {
    pub line_number: usize,
    pub line: Seq<char>,
    pub token_number: usize,
    pub token: Seq<char>,
    pub error: Seq<char>,
}

impl View for ParseError {
    type V = ParseErrorView;

    open spec fn view(&self) -> ParseErrorView {
        ParseErrorView {
            line_number: self.line_number,
            line: self.line@,
            token_number: self.token_number,
            token: self.token@,
            error: self.error@,
        }
    }
}

pub type LineOutcome = Result<WaypointView, ParseErrorView>;

pub type TextOutcome = Result<Seq<WaypointView>, ParseErrorView>;

pub open spec fn error_at(
    n: usize,
    line: Seq<char>,
    k: usize,
    token: Seq<char>,
    error: Seq<char>,
) -> ParseErrorView {
    ParseErrorView { line_number: n, line, token_number: k, token, error }
}

pub open spec fn waypoint_at(
    x: i32,
    y: i32,
    z: i32,
    gates: Seq<usize>,
    name: Seq<char>,
    n: usize,
) -> WaypointView {
    WaypointView { x, y, z, gates, name, number: n }
}

/// The chain default: the waypoint inserted last, if there is one.
pub open spec fn default_gates(prev: Seq<WaypointView>) -> Seq<usize> {
    if prev.len() == 0 {
        Seq::empty()
    } else {
        seq![(prev.len() - 1) as usize]
    }
}

pub open spec fn default_name(n: usize) -> Seq<char> {
    "Waypoint"@ + decimal_digits(n as nat)
}

pub open spec fn is_delimiter(t: Seq<char>) -> bool {
    t == seq!['<']
}

pub open spec fn name_error_text(token: Seq<char>) -> Seq<char> {
    "Name token '"@ + token + "' does not match regex."@
}

/// What a gate token refers to: a line number where it reads as an integer,
/// a name otherwise.
pub open spec fn gate_target(prev: Seq<WaypointView>, token: Seq<char>) -> Option<usize> {
    match i32_literal(token) {
        Some(v) => if v >= 0 {
            last_numbered(prev, v as usize)
        } else {
            None
        },
        None => last_named(prev, token),
    }
}

pub open spec fn gate_error_text(token: Seq<char>) -> Seq<char> {
    if i32_literal(token) is Some {
        "unrecognized waypoint number"@
    } else {
        "unrecognized waypoint name"@
    }
}

/// Each gate reference resolved against `prev`, or the index of the first
/// reference that finds nothing.
pub open spec fn resolve_gates(prev: Seq<WaypointView>, toks: Seq<Seq<char>>) -> Result<
    Seq<usize>,
    int,
>
    decreases toks.len(),
{
    if toks.len() == 0 {
        Ok(Seq::empty())
    } else {
        match resolve_gates(prev, toks.drop_last()) {
            Err(k) => Err(k),
            Ok(g) => match gate_target(prev, toks.last()) {
                Some(i) => Ok(g.push(i)),
                None => Err(toks.len() - 1),
            },
        }
    }
}

/// The waypoint of a line whose gate list starts at index `from`.
pub open spec fn with_gates(
    prev: Seq<WaypointView>,
    n: usize,
    line: Seq<char>,
    t: Seq<Seq<char>>,
    x: i32,
    y: i32,
    z: i32,
    name: Seq<char>,
    from: int,
) -> LineOutcome {
    let toks = t.skip(from);
    if toks.len() == 0 {
        Ok(waypoint_at(x, y, z, default_gates(prev), name, n))
    } else {
        match resolve_gates(prev, toks) {
            Ok(g) => Ok(waypoint_at(x, y, z, g, name, n)),
            Err(k) => Err(
                error_at(n, line, (from + k) as usize, toks[k], gate_error_text(toks[k])),
            ),
        }
    }
}

/// What a non-empty line `n` declares, given the waypoints before it.
pub open spec fn line_outcome(prev: Seq<WaypointView>, n: usize, line: Seq<char>) -> LineOutcome {
    let t = split_ws(line);
    if t.len() < 3 {
        Err(error_at(n, line, 0, Seq::empty(), "fewer than 3 tokens"@))
    } else if i32_literal(t[0]) is None {
        Err(error_at(n, line, 0, t[0], int_error_text(t[0])))
    } else if i32_literal(t[1]) is None {
        Err(error_at(n, line, 1, t[1], int_error_text(t[1])))
    } else if i32_literal(t[2]) is None {
        Err(error_at(n, line, 2, t[2], int_error_text(t[2])))
    } else {
        let x = i32_literal(t[0])->0;
        let y = i32_literal(t[1])->0;
        let z = i32_literal(t[2])->0;
        if t.len() == 3 {
            with_gates(prev, n, line, t, x, y, z, default_name(n), 3)
        } else if is_delimiter(t[3]) {
            with_gates(prev, n, line, t, x, y, z, default_name(n), 4)
        } else if !is_name(t[3]) {
            Err(error_at(n, line, 3, t[3], name_error_text(t[3])))
        } else if t.len() == 4 {
            with_gates(prev, n, line, t, x, y, z, t[3], 4)
        } else if !is_delimiter(t[4]) {
            Err(error_at(n, line, 4, t[4], "token after name must be gate delimiter '<'"@))
        } else {
            with_gates(prev, n, line, t, x, y, z, t[3], 5)
        }
    }
}

/// The waypoints of the lines in order: the `i`-th line is line `i + 1`, and
/// empty lines declare nothing.
pub open spec fn parse_lines(lines: Seq<Seq<char>>) -> TextOutcome
    decreases lines.len(),
{
    if lines.len() == 0 {
        Ok(Seq::empty())
    } else {
        match parse_lines(lines.drop_last()) {
            Err(e) => Err(e),
            Ok(prev) => if lines.last().len() == 0 {
                Ok(prev)
            } else {
                match line_outcome(prev, lines.len() as usize, lines.last()) {
                    Ok(w) => Ok(prev.push(w)),
                    Err(e) => Err(e),
                }
            },
        }
    }
}

pub open spec fn parse_text(text: Seq<char>) -> TextOutcome {
    parse_lines(lines_of(text))
}

/// Accepts a letter or underscore followed by letters, digits, underscores
/// or hyphens.
pub fn validate_name_token(token: &str) -> (r: Result<(), String>)
    ensures
        match r {
            Ok(()) => is_name(token@),
            Err(m) => !is_name(token@) && m@ == name_error_text(token@),
        },
{
    match regex_is_match("^[_A-Za-z][-_A-Za-z0-9]*$", token) {
        Some(true) => Ok(()),
        _ => Err(String::from_str("Name token '").concat(token).concat("' does not match regex.")),
    }
}

fn delimiter(t: &str) -> (r: bool)
    ensures
        r == is_delimiter(t@),
{
    if t.unicode_len() == 1 {
        let c = t.get_char(0);
        if c == '<' {
            assert(t@ =~= seq!['<']);
            true
        } else {
            false
        }
    } else {
        false
    }
}

fn fail(n: usize, line: &str, k: usize, token: String, error: String) -> (r: ParseError)
    ensures
        r@ == error_at(n, line@, k, token@, error@),
{
    ParseError { line_number: n, line: String::from_str(line), token_number: k, token, error }
}

fn gate_target_of(map: &WaypointIndexMap, token: &str) -> (r: Option<usize>)
    requires
        map.wf(),
    ensures
        r == gate_target(map@, token@),
{
    match parse_i32(token) {
        Ok(v) => if v >= 0 {
            map.get_by_number(&(v as usize))
        } else {
            None
        },
        Err(_) => map.get_by_name(token),
    }
}

fn resolve_gate_tokens(map: &WaypointIndexMap, tokens: &Vec<&str>, from: usize) -> (r: Result<
    Vec<usize>,
    usize,
>)
    requires
        map.wf(),
        from <= tokens.len(),
    ensures
        ({
            let toks = tokens@.map_values(|t: &str| t@).skip(from as int);
            match r {
                Ok(g) => resolve_gates(map@, toks) == Ok::<Seq<usize>, int>(g@),
                Err(k) => from <= k < tokens.len() && resolve_gates(map@, toks) == Err::<
                    Seq<usize>,
                    int,
                >(k - from),
            }
        }),
{
    let ghost tv = tokens@.map_values(|t: &str| t@);
    let mut gates: Vec<usize> = Vec::new();
    let mut j: usize = from;
    while j < tokens.len()
        invariant
            map.wf(),
            from <= j <= tokens.len(),
            tv == tokens@.map_values(|t: &str| t@),
            resolve_gates(map@, tv.subrange(from as int, j as int)) == Ok::<Seq<usize>, int>(
                gates@,
            ),
        decreases tokens.len() - j,
    {
        let tok = tokens[j];
        proof {
            let s = tv.subrange(from as int, j + 1);
            assert(s.drop_last() =~= tv.subrange(from as int, j as int));
            assert(s.last() == tok@);
        }
        match gate_target_of(map, tok) {
            Some(i) => gates.push(i),
            None => {
                proof {
                    let s = tv.subrange(from as int, j + 1);
                    let full = tv.skip(from as int);
                    assert(resolve_gates(map@, s) == Err::<Seq<usize>, int>(j - from));
                    assert(full.take(j - from + 1) =~= s);
                    lemma_resolve_error_kept(map@, full, j - from);
                }
                return Err(j);
            },
        }
        j = j + 1;
    }
    assert(tv.subrange(from as int, tokens.len() as int) =~= tv.skip(from as int));
    Ok(gates)
}

fn finish_line(
    map: &WaypointIndexMap,
    line: &str,
    n: usize,
    tokens: &Vec<&str>,
    from: usize,
    x: i32,
    y: i32,
    z: i32,
    name: String,
    gates: Vec<usize>,
) -> (r: Result<Waypoint, ParseError>)
    requires
        map.wf(),
        from <= tokens.len(),
        gates@ == default_gates(map@),
    ensures
        ({
            let out = with_gates(
                map@,
                n,
                line@,
                tokens@.map_values(|t: &str| t@),
                x,
                y,
                z,
                name@,
                from as int,
            );
            match r {
                Ok(w) => out == Ok::<WaypointView, ParseErrorView>(w@),
                Err(e) => out == Err::<WaypointView, ParseErrorView>(e@),
            }
        }),
{
    let ghost tv = tokens@.map_values(|t: &str| t@);
    if from == tokens.len() {
        assert(tv.skip(from as int).len() == 0);
        return Ok(Waypoint { x, y, z, gates, name, number: n });
    }
    match resolve_gate_tokens(map, tokens, from) {
        Ok(g) => Ok(Waypoint { x, y, z, gates: g, name, number: n }),
        Err(k) => {
            let tok = tokens[k];
            assert(tv.skip(from as int)[k - from] == tok@);
            let error = match parse_i32(tok) {
                Ok(_) => String::from_str("unrecognized waypoint number"),
                Err(_) => String::from_str("unrecognized waypoint name"),
            };
            Err(fail(n, line, k, String::from_str(tok), error))
        },
    }
}

fn parse_line(map: &WaypointIndexMap, line: &str, n: usize) -> (r: Result<Waypoint, ParseError>)
    requires
        map.wf(),
    ensures
        match r {
            Ok(w) => line_outcome(map@, n, line@) == Ok::<WaypointView, ParseErrorView>(w@),
            Err(e) => line_outcome(map@, n, line@) == Err::<WaypointView, ParseErrorView>(e@),
        },
{
    let tokens = whitespace_tokens(line);
    let ghost t = split_ws(line@);
    assert(tokens@.map_values(|t: &str| t@).len() == tokens.len());
    if tokens.len() < 3 {
        return Err(fail(n, line, 0, String::new(), String::from_str("fewer than 3 tokens")));
    }
    assert(t[0] == tokens[0]@ && t[1] == tokens[1]@ && t[2] == tokens[2]@);
    let x = match parse_i32(tokens[0]) {
        Ok(v) => v,
        Err(m) => return Err(fail(n, line, 0, String::from_str(tokens[0]), m)),
    };
    let y = match parse_i32(tokens[1]) {
        Ok(v) => v,
        Err(m) => return Err(fail(n, line, 1, String::from_str(tokens[1]), m)),
    };
    let z = match parse_i32(tokens[2]) {
        Ok(v) => v,
        Err(m) => return Err(fail(n, line, 2, String::from_str(tokens[2]), m)),
    };
    let count = map.len();
    let mut gates: Vec<usize> = Vec::new();
    if count > 0 {
        gates.push(count - 1);
    }
    assert(gates@ =~= default_gates(map@));
    let numbered = String::from_str("Waypoint").concat(decimal_text(n).as_str());
    if tokens.len() == 3 {
        return finish_line(map, line, n, &tokens, 3, x, y, z, numbered, gates);
    }
    assert(t[3] == tokens[3]@);
    if delimiter(tokens[3]) {
        return finish_line(map, line, n, &tokens, 4, x, y, z, numbered, gates);
    }
    if let Err(m) = validate_name_token(tokens[3]) {
        return Err(fail(n, line, 3, String::from_str(tokens[3]), m));
    }
    let name = String::from_str(tokens[3]);
    if tokens.len() == 4 {
        return finish_line(map, line, n, &tokens, 4, x, y, z, name, gates);
    }
    assert(t[4] == tokens[4]@);
    if !delimiter(tokens[4]) {
        return Err(
            fail(
                n,
                line,
                4,
                String::from_str(tokens[4]),
                String::from_str("token after name must be gate delimiter '<'"),
            ),
        );
    }
    finish_line(map, line, n, &tokens, 5, x, y, z, name, gates)
}

/// Reads every line of `data` into a new index, stopping at the first line
/// that is refused.
pub fn parse_time_trial_data(data: &str) -> (r: Result<WaypointIndexMap, ParseError>)
    ensures
        match r {
            Ok(m) => m.wf() && parse_text(data@) == Ok::<Seq<WaypointView>, ParseErrorView>(m@),
            Err(e) => parse_text(data@) == Err::<Seq<WaypointView>, ParseErrorView>(e@),
        },
{
    let lines = text_lines(data);
    let ghost ls = lines_of(data@);
    assert(lines@.map_values(|l: &str| l@).len() == lines.len());
    let mut map = WaypointIndexMap::new();
    let mut i: usize = 0;
    assert(ls.take(0) =~= Seq::<Seq<char>>::empty());
    while i < lines.len()
        invariant
            i <= lines.len(),
            ls == lines_of(data@),
            lines@.map_values(|l: &str| l@) == ls,
            map.wf(),
            parse_lines(ls.take(i as int)) == Ok::<Seq<WaypointView>, ParseErrorView>(map@),
        decreases lines.len() - i,
    {
        let line = lines[i];
        let n = i + 1;
        proof {
            assert(ls.take(i + 1).drop_last() =~= ls.take(i as int));
            assert(ls.take(i + 1).last() == line@);
        }
        if !line.is_empty() {
            match parse_line(&map, line, n) {
                Ok(w) => map.add(w),
                Err(e) => {
                    proof {
                        assert(parse_lines(ls.take(i + 1)) == Err::<Seq<WaypointView>, ParseErrorView>(
                            e@,
                        ));
                        lemma_error_kept(ls, i + 1, ls.len() as int);
                        assert(ls.take(ls.len() as int) =~= ls);
                    }
                    return Err(e);
                },
            }
        }
        i = n;
    }
    assert(ls.take(ls.len() as int) =~= ls);
    Ok(map)
}

/// An error on a line ends the whole parse with that error.
proof fn lemma_error_kept(ls: Seq<Seq<char>>, k: int, m: int)
    requires
        0 < k <= m <= ls.len(),
        parse_lines(ls.take(k)) is Err,
    ensures
        parse_lines(ls.take(m)) == parse_lines(ls.take(k)),
    decreases m - k,
{
    if m > k {
        lemma_error_kept(ls, k, m - 1);
        assert(ls.take(m).drop_last() =~= ls.take(m - 1));
    }
}

proof fn lemma_resolve_error_kept(prev: Seq<WaypointView>, toks: Seq<Seq<char>>, k: int)
    requires
        0 <= k < toks.len(),
        resolve_gates(prev, toks.take(k + 1)) == Err::<Seq<usize>, int>(k),
    ensures
        resolve_gates(prev, toks) == Err::<Seq<usize>, int>(k),
    decreases toks.len(),
{
    if toks.len() == k + 1 {
        assert(toks.take(k + 1) =~= toks);
    } else {
        assert(toks.drop_last().take(k + 1) =~= toks.take(k + 1));
        lemma_resolve_error_kept(prev, toks.drop_last(), k);
    }
}

} // verus!
