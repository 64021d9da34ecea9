//! The APX text format for value-based frameworks.
//!
//! A document is a list of Prolog-style facts, one per line:
//! `arg(a).` declares an argument, `att(a, b).` an attack, `val(a, v).`
//! a value that an argument promotes and `valpref(v, w).` a strict
//! preference of one value over another. A `%` starts a comment that runs
//! to the end of the line; white space around a fact and its arguments is
//! ignored.

use vstd::prelude::*;
use crate::dung::{ArgumentationFramework, DungError};
use crate::order::{sort_strings, sorted_of, strictly_sorted};
use crate::strings::{find_name, owned, strings_view};
use crate::text::{concat, decimal, is_white, number_text, trim, trimmed};
use crate::values::error::ValuesError;
use crate::values::framework::ValueBasedFramework;
use crate::values::types::{Audience, Value, ValueAssignment, concat_all, dedup, prefers_in, rank_in, values_view};
use vstd::string::StrSliceExecFns;

verus! {

// ---------------------------------------------------------------------
// Reading text
// ---------------------------------------------------------------------

/// The pieces of `s` between the occurrences of `c`, as `str::split`
/// gives them: one more piece than there are occurrences.
pub open spec fn split_on(s: Seq<char>, c: char) -> Seq<Seq<char>>
    decreases s.len(),
{
    if s.len() == 0 {
        seq![Seq::<char>::empty()]
    } else {
        let p = split_on(s.drop_last(), c);
        if s.last() == c {
            p.push(Seq::empty())
        } else {
            p.update(p.len() - 1, p.last().push(s.last()))
        }
    }
}

/// `l` without one carriage return at its end.
pub open spec fn strip_cr(l: Seq<char>) -> Seq<char> {
    if l.len() > 0 && l.last() == '\r' {
        l.drop_last()
    } else {
        l
    }
}

/// The lines of `s`, as `str::lines` gives them: the text between line
/// feeds, a carriage return before a line feed dropped, and no empty
/// line after a final line feed.
pub open spec fn lines_of(s: Seq<char>) -> Seq<Seq<char>> {
    let p = split_on(s, '\n');
    let ended = p.drop_last().map_values(|l: Seq<char>| strip_cr(l));
    if p.last().len() == 0 {
        ended
    } else {
        ended.push(p.last())
    }
}

/// There is always at least one piece.
pub proof fn lemma_split_nonempty(s: Seq<char>, c: char)
    ensures
        split_on(s, c).len() >= 1,
    decreases s.len(),
{
    if s.len() > 0 {
        lemma_split_nonempty(s.drop_last(), c);
    }
}

/// The pieces of `s` between the occurrences of `c`.
pub fn split_at_char(s: &str, c: char) -> (r: Vec<String>)
    ensures
        strings_view(r@) == split_on(s@, c),
{
    let n = s.unicode_len();
    let mut out: Vec<String> = Vec::new();
    let mut start: usize = 0;
    let mut i: usize = 0;
    assert(s@.take(0) =~= Seq::<char>::empty());
    assert(s@.subrange(0, 0) =~= Seq::<char>::empty());
    while i < n
        invariant
            n == s@.len(),
            start <= i <= n,
            split_on(s@.take(i as int), c) == strings_view(out@).push(s@.subrange(start as int, i as int)),
        decreases n - i,
    {
        let ch = s.get_char(i);
        let ghost prev = s@.take(i as int);
        assert(s@.take(i + 1).drop_last() =~= prev);
        if ch == c {
            let piece = s.substring_char(start, i);
            out.push(owned(piece));
            start = i + 1;
            assert(s@.subrange(start as int, i + 1) =~= Seq::<char>::empty());
        } else {
            assert(s@.subrange(start as int, i + 1) =~= s@.subrange(start as int, i as int).push(ch));
        }
        assert(strings_view(out@) =~= if ch == c { split_on(prev, c) } else { split_on(prev, c).drop_last() });
        i = i + 1;
        proof {
            let p = split_on(prev, c);
            if ch != c {
                assert(split_on(s@.take(i as int), c) =~= p.update(p.len() - 1, p.last().push(ch)));
            }
        }
    }
    out.push(owned(s.substring_char(start, n)));
    assert(s@.take(n as int) =~= s@);
    out
}

/// The lines of `s`.
pub fn split_lines(s: &str) -> (r: Vec<String>)
    ensures
        strings_view(r@) == lines_of(s@),
{
    let pieces = split_at_char(s, '\n');
    let ghost p = split_on(s@, '\n');
    proof {
        lemma_split_nonempty(s@, '\n');
    }
    let k = pieces.len() - 1;
    let mut out: Vec<String> = Vec::new();
    let mut i: usize = 0;
    while i < k
        invariant
            k == pieces@.len() - 1,
            strings_view(pieces@) == p,
            i <= k,
            strings_view(out@) == p.take(i as int).map_values(|l: Seq<char>| strip_cr(l)),
        decreases k - i,
    {
        let l = pieces[i].as_str();
        let m = l.unicode_len();
        if m > 0 && l.get_char(m - 1) == '\r' {
            out.push(owned(l.substring_char(0, m - 1)));
            assert(l@.subrange(0, m - 1) =~= l@.drop_last());
        } else {
            out.push(owned(l));
        }
        assert(p.take(i + 1).map_values(|l: Seq<char>| strip_cr(l))
            =~= p.take(i as int).map_values(|l: Seq<char>| strip_cr(l)).push(strip_cr(p[i as int])));
        i = i + 1;
    }
    assert(p.take(k as int) =~= p.drop_last());
    let last = pieces[k].as_str();
    if last.unicode_len() > 0 {
        out.push(owned(last));
    }
    out
}

/// Position of the first `c` in `s`.
fn first_char(s: &str, c: char) -> (r: Option<usize>)
    ensures
        match r {
            Some(i) => s@.index_of_first(c) == Some(i as int),
            None => s@.index_of_first(c) is None,
        },
{
    let n = s.unicode_len();
    let mut i: usize = 0;
    while i < n
        invariant
            n == s@.len(),
            i <= n,
            forall|k: int| 0 <= k < i ==> s@[k] != c,
        decreases n - i,
    {
        if s.get_char(i) == c {
            proof {
                s@.index_of_first_ensures(c);
            }
            return Some(i);
        }
        i = i + 1;
    }
    proof {
        s@.index_of_first_ensures(c);
    }
    None
}

/// Position of the last `c` in `s`.
fn last_char(s: &str, c: char) -> (r: Option<usize>)
    ensures
        match r {
            Some(i) => s@.index_of_last(c) == Some(i as int),
            None => s@.index_of_last(c) is None,
        },
{
    let n = s.unicode_len();
    let mut j: usize = n;
    while j > 0
        invariant
            n == s@.len(),
            j <= n,
            forall|k: int| j <= k < n ==> s@[k] != c,
        decreases j,
    {
        if s.get_char(j - 1) == c {
            proof {
                s@.index_of_last_ensures(c);
            }
            return Some(j - 1);
        }
        j = j - 1;
    }
    proof {
        s@.index_of_last_ensures(c);
    }
    None
}


// ---------------------------------------------------------------------
// Facts
// ---------------------------------------------------------------------

/// The predicate and the trimmed arguments of a fact written
/// `pred(a, b, ...)`: the predicate runs up to the first `(`, the
/// arguments lie between it and the last `)`, separated by commas; or
/// why the fact is malformed.
pub open spec fn fact_parts(fact: Seq<char>) -> Result<(Seq<char>, Seq<Seq<char>>), Seq<char>> {
    match fact.index_of_first('(') {
        None => Err("expected '(' in fact: "@ + fact),
        Some(open) => match fact.index_of_last(')') {
            None => Err("expected ')' in fact: "@ + fact),
            Some(close) => if close <= open {
                Err("malformed fact: "@ + fact)
            } else {
                Ok((fact.take(open), split_on(fact.subrange(open + 1, close), ',').map_values(|a: Seq<char>| trimmed(a))))
            },
        },
    }
}

/// The number of arguments a predicate takes, or 0 for an unknown one.
pub open spec fn arity(pred: Seq<char>) -> nat {
    if pred == "arg"@ {
        1
    } else if pred == "att"@ || pred == "val"@ || pred == "valpref"@ {
        2
    } else {
        0
    }
}

/// What a line holds: nothing (blank or a comment), a fact with its
/// predicate and arguments, or the reason it cannot be read.
pub open spec fn read_line(raw: Seq<char>) -> Result<Option<(Seq<char>, Seq<Seq<char>>)>, Seq<char>> {
    let l = trimmed(split_on(raw, '%')[0]);
    if l.len() == 0 {
        Ok(None)
    } else if l.last() != '.' {
        Err("expected fact ending with '.', got: "@ + l)
    } else {
        match fact_parts(l.drop_last()) {
            Err(e) => Err(e),
            Ok((p, args)) => if arity(p) == 0 {
                Err("unknown predicate: "@ + p)
            } else if args.len() != arity(p) {
                Err(p + " expects "@ + decimal(arity(p)) + " arg(s), got "@ + decimal(args.len()))
            } else {
                Ok(Some((p, args)))
            },
        }
    }
}

/// `r` is the interchange error at `line` with message `msg`.
pub open spec fn syntax_error<T>(r: Result<T, ValuesError>, line: nat, msg: Seq<char>) -> bool {
    r matches Err(ValuesError::ApxParse { line: l, reason }) && l == line && reason@ == msg
}

/// The trimmed pieces of `s` between commas.
fn split_args(s: &str) -> (r: Vec<String>)
    ensures
        strings_view(r@) == split_on(s@, ',').map_values(|a: Seq<char>| trimmed(a)),
{
    let pieces = split_at_char(s, ',');
    let ghost p = split_on(s@, ',');
    let mut out: Vec<String> = Vec::new();
    let mut i: usize = 0;
    while i < pieces.len()
        invariant
            strings_view(pieces@) == p,
            i <= pieces@.len(),
            strings_view(out@) == p.take(i as int).map_values(|a: Seq<char>| trimmed(a)),
        decreases pieces@.len() - i,
    {
        out.push(owned(trim(pieces[i].as_str())));
        assert(p.take(i + 1).map_values(|a: Seq<char>| trimmed(a))
            =~= p.take(i as int).map_values(|a: Seq<char>| trimmed(a)).push(trimmed(p[i as int])));
        i = i + 1;
    }
    assert(p.take(p.len() as int) =~= p);
    out
}

/// The predicate and arguments of `fact`, found on line `line`.
fn parse_pred(fact: &str, line: usize) -> (r: Result<(String, Vec<String>), ValuesError>)
    ensures
        match fact_parts(fact@) {
            Ok((p, args)) => r matches Ok((q, a)) && q@ == p && strings_view(a@) == args,
            Err(msg) => syntax_error(r, line as nat, msg),
        },
{
    let open = match first_char(fact, '(') {
        Some(i) => i,
        None => {
            return Err(ValuesError::ApxParse { line, reason: concat("expected '(' in fact: ", fact) });
        },
    };
    let close = match last_char(fact, ')') {
        Some(j) => j,
        None => {
            return Err(ValuesError::ApxParse { line, reason: concat("expected ')' in fact: ", fact) });
        },
    };
    proof {
        fact@.index_of_first_ensures('(');
        fact@.index_of_last_ensures(')');
    }
    if close <= open {
        return Err(ValuesError::ApxParse { line, reason: concat("malformed fact: ", fact) });
    }
    let pred = fact.substring_char(0, open);
    let inner = fact.substring_char(open + 1, close);
    assert(pred@ =~= fact@.take(open as int));
    Ok((owned(pred), split_args(inner)))
}

/// A copy of `args`, which must be `n` for the predicate `pred`.
fn expect_n_args(args: &Vec<String>, n: usize, line: usize, pred: &str) -> (r: Result<Vec<String>, ValuesError>)
    ensures
        args@.len() == n ==> (r matches Ok(a) && strings_view(a@) == strings_view(args@)),
        args@.len() != n ==> syntax_error(r, line as nat,
            pred@ + " expects "@ + decimal(n as nat) + " arg(s), got "@ + decimal(args@.len())),
{
    if args.len() != n {
        let mut reason = concat(pred, " expects ");
        reason.append(number_text(n).as_str());
        reason.append(" arg(s), got ");
        reason.append(number_text(args.len()).as_str());
        return Err(ValuesError::ApxParse { line, reason });
    }
    Ok(args.clone())
}

/// The number of arguments `p` takes, or 0 for an unknown predicate.
fn arity_of(p: &String) -> (r: usize)
    ensures
        r == arity(p@),
{
    if *p == owned("arg") {
        1
    } else if *p == owned("att") || *p == owned("val") || *p == owned("valpref") {
        2
    } else {
        0
    }
}

/// What line number `line` of a document, `raw`, holds.
fn read_fact_line(raw: &str, line: usize) -> (r: Result<Option<(String, Vec<String>)>, ValuesError>)
    ensures
        match read_line(raw@) {
            Ok(None) => r matches Ok(None),
            Ok(Some((p, args))) => r matches Ok(Some((q, a))) && q@ == p && strings_view(a@) == args,
            Err(msg) => syntax_error(r, line as nat, msg),
        },
{
    let pieces = split_at_char(raw, '%');
    proof {
        lemma_split_nonempty(raw@, '%');
    }
    let l = trim(pieces[0].as_str());
    let n = l.unicode_len();
    if n == 0 {
        return Ok(None);
    }
    if l.get_char(n - 1) != '.' {
        return Err(ValuesError::ApxParse { line, reason: concat("expected fact ending with '.', got: ", l) });
    }
    let fact = l.substring_char(0, n - 1);
    assert(fact@ =~= l@.drop_last());
    let (p, args) = match parse_pred(fact, line) {
        Ok(pa) => pa,
        Err(e) => {
            return Err(e);
        },
    };
    let k = arity_of(&p);
    if k == 0 {
        return Err(ValuesError::ApxParse { line, reason: concat("unknown predicate: ", p.as_str()) });
    }
    match expect_n_args(&args, k, line, p.as_str()) {
        Ok(a) => Ok(Some((p, a))),
        Err(e) => Err(e),
    }
}

// ---------------------------------------------------------------------
// Documents
// ---------------------------------------------------------------------

/// What the facts read so far describe: the arguments in order of
/// declaration, the attacks between named arguments, the values each
/// argument promotes and the value preferences in order.
pub struct ApxModel {
    pub names: Seq<Seq<char>>,
    pub attacks: Set<(Seq<char>, Seq<char>)>,
    pub values: spec_fn(Seq<char>) -> Seq<Seq<char>>,
    pub prefs: Seq<(Seq<char>, Seq<char>)>,
}

/// What reading a document comes to: a model, an unreadable line (its
/// number, from one, and why), or an attack naming an undeclared argument.
pub enum ApxOutcome {
    Read(ApxModel),
    Syntax(nat, Seq<char>),
    Missing(Seq<char>),
}

/// The model of an empty document.
pub open spec fn empty_model() -> ApxModel {
    ApxModel {
        names: Seq::empty(),
        attacks: Set::empty(),
        values: |a: Seq<char>| Seq::<Seq<char>>::empty(),
        prefs: Seq::empty(),
    }
}

/// `f` with `v` added to the values of `arg`, unless already there.
pub open spec fn with_value(
    f: spec_fn(Seq<char>) -> Seq<Seq<char>>,
    arg: Seq<char>,
    v: Seq<char>,
) -> spec_fn(Seq<char>) -> Seq<Seq<char>> {
    |a: Seq<char>| if a == arg && !f(a).contains(v) { f(a).push(v) } else { f(a) }
}

/// The effect of one fact. An attack must name declared arguments; a
/// value may be given to any name.
pub open spec fn apply_fact(m: ApxModel, p: Seq<char>, args: Seq<Seq<char>>) -> ApxOutcome {
    if p == "arg"@ {
        ApxOutcome::Read(ApxModel {
            names: if m.names.contains(args[0]) { m.names } else { m.names.push(args[0]) },
            attacks: m.attacks,
            values: m.values,
            prefs: m.prefs,
        })
    } else if p == "att"@ {
        if !m.names.contains(args[0]) {
            ApxOutcome::Missing(args[0])
        } else if !m.names.contains(args[1]) {
            ApxOutcome::Missing(args[1])
        } else {
            ApxOutcome::Read(ApxModel {
                names: m.names,
                attacks: m.attacks.insert((args[0], args[1])),
                values: m.values,
                prefs: m.prefs,
            })
        }
    } else if p == "val"@ {
        ApxOutcome::Read(ApxModel {
            names: m.names,
            attacks: m.attacks,
            values: with_value(m.values, args[0], args[1]),
            prefs: m.prefs,
        })
    } else {
        ApxOutcome::Read(ApxModel {
            names: m.names,
            attacks: m.attacks,
            values: m.values,
            prefs: m.prefs.push((args[0], args[1])),
        })
    }
}

/// What the lines `lines` describe, read in order; the first unreadable
/// line or bad attack ends the reading.
pub open spec fn apx_run(lines: Seq<Seq<char>>) -> ApxOutcome
    decreases lines.len(),
{
    if lines.len() == 0 {
        ApxOutcome::Read(empty_model())
    } else {
        match apx_run(lines.drop_last()) {
            ApxOutcome::Read(m) => match read_line(lines.last()) {
                Err(reason) => ApxOutcome::Syntax(lines.len(), reason),
                Ok(None) => ApxOutcome::Read(m),
                Ok(Some((p, args))) => apply_fact(m, p, args),
            },
            other => other,
        }
    }
}

/// The framework `base` with the values `values` is what `m` describes.
pub open spec fn state_is(base: ArgumentationFramework, values: ValueAssignment, m: ApxModel) -> bool {
    &&& base.wf()
    &&& values.wf()
    &&& base.arg_names() == m.names
    &&& forall|x: Seq<char>, y: Seq<char>| #[trigger] m.attacks.contains((x, y)) ==> m.names.contains(x) && m.names.contains(y)
    &&& forall|i: int, j: int| #[trigger] (base.attacks())(i, j) <==> (0 <= i < m.names.len()
        && 0 <= j < m.names.len() && m.attacks.contains((m.names[i], m.names[j])))
    &&& forall|a: Seq<char>| #[trigger] values.values_of(a) == (m.values)(a)
}

/// The character sequences of pairs of strings.
pub open spec fn pairs_view(v: Seq<(String, String)>) -> Seq<(Seq<char>, Seq<char>)> {
    v.map_values(|q: (String, String)| (q.0@, q.1@))
}

// ---------------------------------------------------------------------
// Audiences from preferences
// ---------------------------------------------------------------------

/// Every value that a preference names.
pub open spec fn pref_values(prefs: Seq<(Seq<char>, Seq<char>)>) -> Set<Seq<char>> {
    prefs.map_values(|q: (Seq<char>, Seq<char>)| q.0).to_set().union(
        prefs.map_values(|q: (Seq<char>, Seq<char>)| q.1).to_set())
}

/// Some value of `rest` is preferred to `v`.
pub open spec fn beaten(prefs: Seq<(Seq<char>, Seq<char>)>, rest: Set<Seq<char>>, v: Seq<char>) -> bool {
    exists|k: int| 0 <= k < prefs.len() && rest.contains(#[trigger] prefs[k].0) && prefs[k].1 == v
}

/// The values of `rest` to which no value of `rest` is preferred.
pub open spec fn unbeaten(prefs: Seq<(Seq<char>, Seq<char>)>, rest: Set<Seq<char>>) -> Set<Seq<char>> {
    rest.filter(|v: Seq<char>| !beaten(prefs, rest, v))
}

/// The tiers of `rest`, best first: each time the unbeaten values of what
/// is left, in ascending order, or, where a cycle leaves none unbeaten,
/// all that is left.
#[verifier::opaque]
pub open spec fn pref_tiers(prefs: Seq<(Seq<char>, Seq<char>)>, rest: Set<Seq<char>>, fuel: nat) -> Seq<Seq<Seq<char>>>
    decreases fuel,
{
    if fuel == 0 || rest.len() == 0 {
        Seq::empty()
    } else {
        let free = unbeaten(prefs, rest);
        let tier = if free.len() > 0 { free } else { rest };
        seq![sorted_of(tier)] + pref_tiers(prefs, rest.difference(tier), (fuel - 1) as nat)
    }
}

/// The ranking that the strict preferences `prefs` describe.
pub open spec fn pref_ranking(prefs: Seq<(Seq<char>, Seq<char>)>) -> Seq<Seq<Seq<char>>> {
    pref_tiers(prefs, pref_values(prefs), pref_values(prefs).len())
}

/// A finite set with an element is not empty.
proof fn lemma_len_positive<A>(s: Set<A>, x: A)
    requires
        s.finite(),
        s.contains(x),
    ensures
        s.len() > 0,
{
    assert(s.remove(x).len() == s.len() - 1);
}

/// Filtering a set with one more element.
proof fn lemma_filter_insert(s: Set<Seq<char>>, x: Seq<char>, f: spec_fn(Seq<char>) -> bool)
    ensures
        s.insert(x).filter(f) == if f(x) { s.filter(f).insert(x) } else { s.filter(f) },
{
    assert(s.insert(x).filter(f) =~= if f(x) { s.filter(f).insert(x) } else { s.filter(f) });
}

/// Removing a set from one with one more element.
proof fn lemma_difference_insert(s: Set<Seq<char>>, x: Seq<char>, t: Set<Seq<char>>)
    ensures
        s.insert(x).difference(t) == if t.contains(x) { s.difference(t) } else { s.difference(t).insert(x) },
{
    assert(s.insert(x).difference(t) =~= if t.contains(x) { s.difference(t) } else { s.difference(t).insert(x) });
}

/// Whether some value of `rest` is preferred to `x`.
fn is_beaten(prefs: &Vec<(String, String)>, rest: &Vec<String>, x: &String) -> (r: bool)
    ensures
        r == beaten(pairs_view(prefs@), strings_view(rest@).to_set(), x@),
{
    let ghost ps = pairs_view(prefs@);
    let ghost rs = strings_view(rest@).to_set();
    let mut k: usize = 0;
    while k < prefs.len()
        invariant
            ps == pairs_view(prefs@),
            rs == strings_view(rest@).to_set(),
            k <= prefs@.len(),
            forall|q: int| 0 <= q < k ==> !(rs.contains(#[trigger] ps[q].0) && ps[q].1 == x@),
        decreases prefs@.len() - k,
    {
        if prefs[k].1 == *x {
            match find_name(rest, &prefs[k].0) {
                Some(idx) => {
                    assert(strings_view(rest@)[idx as int] == ps[k as int].0);
                    assert(strings_view(rest@).contains(ps[k as int].0));
                    assert(rs.contains(ps[k as int].0) && ps[k as int].1 == x@);
                    return true;
                },
                None => {},
            }
        }
        proof {
            if rs.contains(ps[k as int].0) {
                let j = choose|j: int| 0 <= j < strings_view(rest@).len() && strings_view(rest@)[j] == ps[k as int].0;
                assert(strings_view(rest@).contains(prefs@[k as int].0@));
            }
        }
        k = k + 1;
    }
    false
}

/// Values as sequences of `Value`s.
fn to_values(v: &Vec<String>) -> (r: Vec<Value>)
    ensures
        values_view(r@) == strings_view(v@),
{
    let mut out: Vec<Value> = Vec::new();
    let mut i: usize = 0;
    while i < v.len()
        invariant
            i <= v@.len(),
            values_view(out@) == strings_view(v@.take(i as int)),
        decreases v@.len() - i,
    {
        let ghost before = values_view(out@);
        out.push(Value::new(v[i].as_str()));
        assert(values_view(out@) =~= before.push(v@[i as int]@));
        assert(values_view(out@) =~= strings_view(v@.take(i + 1)));
        i = i + 1;
    }
    assert(v@.take(v@.len() as int) =~= v@);
    out
}

/// The audience that the strict preferences `prefs` describe, one tier
/// per round of taking the values that nothing left is preferred to.
fn audience_from_prefs(prefs: &Vec<(String, String)>) -> (r: Audience)
    ensures
        r.ranking() == pref_ranking(pairs_view(prefs@)),
{
    let ghost ps = pairs_view(prefs@);
    let mut all: Vec<String> = Vec::new();
    let mut i: usize = 0;
    while i < prefs.len()
        invariant
            ps == pairs_view(prefs@),
            i <= prefs@.len(),
            strings_view(all@).to_set() == pref_values(ps.take(i as int)),
        decreases prefs@.len() - i,
    {
        let ghost before = strings_view(all@);
        all.push(prefs[i].0.clone());
        all.push(prefs[i].1.clone());
        proof {
            before.lemma_push_to_set_commute(ps[i as int].0);
            before.push(ps[i as int].0).lemma_push_to_set_commute(ps[i as int].1);
            let t = ps.take(i as int);
            let u = ps.take(i + 1);
            assert(u =~= t.push(ps[i as int]));
            assert(u.map_values(|q: (Seq<char>, Seq<char>)| q.0) =~= t.map_values(|q: (Seq<char>, Seq<char>)| q.0).push(ps[i as int].0));
            assert(u.map_values(|q: (Seq<char>, Seq<char>)| q.1) =~= t.map_values(|q: (Seq<char>, Seq<char>)| q.1).push(ps[i as int].1));
            t.map_values(|q: (Seq<char>, Seq<char>)| q.0).lemma_push_to_set_commute(ps[i as int].0);
            t.map_values(|q: (Seq<char>, Seq<char>)| q.1).lemma_push_to_set_commute(ps[i as int].1);
            assert(strings_view(all@) =~= before.push(ps[i as int].0).push(ps[i as int].1));
            assert(strings_view(all@).to_set() =~= pref_values(u));
        }
        i = i + 1;
    }
    assert(ps.take(ps.len() as int) =~= ps);
    let ghost universe = pref_values(ps);
    let mut rest = all;
    let mut tiers: Vec<Vec<Value>> = Vec::new();
    let ghost mut fuel: nat = universe.len();
    while rest.len() > 0
        invariant
            ps == pairs_view(prefs@),
            strings_view(rest@).to_set().finite(),
            strings_view(rest@).to_set().len() <= fuel,
            tiers@.map_values(|t: Vec<Value>| values_view(t@)) + pref_tiers(ps, strings_view(rest@).to_set(), fuel)
                == pref_tiers(ps, universe, universe.len()),
        decreases fuel,
    {
        let ghost rs = strings_view(rest@).to_set();
        assert(strings_view(rest@)[0] == rest@[0]@);
        assert(strings_view(rest@).contains(rest@[0]@));
        assert(rs.contains(rest@[0]@));
        proof {
            lemma_len_positive(rs, rest@[0]@);
        }
        let mut free: Vec<String> = Vec::new();
        let mut j: usize = 0;
        while j < rest.len()
            invariant
                ps == pairs_view(prefs@),
                rs == strings_view(rest@).to_set(),
                j <= rest@.len(),
                strings_view(free@).to_set() == strings_view(rest@.take(j as int)).to_set().filter(
                    |v: Seq<char>| !beaten(ps, rs, v)),
            decreases rest@.len() - j,
        {
            let ghost before = strings_view(free@);
            assert(strings_view(rest@.take(j + 1)) =~= strings_view(rest@.take(j as int)).push(rest@[j as int]@));
            proof {
                strings_view(rest@.take(j as int)).lemma_push_to_set_commute(rest@[j as int]@);
            }
            proof {
                lemma_filter_insert(strings_view(rest@.take(j as int)).to_set(), rest@[j as int]@,
                    |v: Seq<char>| !beaten(ps, rs, v));
            }
            if !is_beaten(prefs, &rest, &rest[j]) {
                free.push(rest[j].clone());
                proof {
                    before.lemma_push_to_set_commute(rest@[j as int]@);
                }
                assert(strings_view(free@) =~= before.push(rest@[j as int]@));
            }
            j = j + 1;
        }
        assert(rest@.take(rest@.len() as int) =~= rest@);
        assert(strings_view(free@).to_set() == unbeaten(ps, rs));
        let ghost free_set = unbeaten(ps, rs);
        let tier = if free.len() > 0 {
            proof {
                assert(strings_view(free@)[0] == free@[0]@);
                assert(strings_view(free@).contains(free@[0]@));
                assert(free_set.contains(free@[0]@));
                lemma_len_positive(free_set, free@[0]@);
            }
            free
        } else {
            assert(free_set =~= Set::<Seq<char>>::empty());
            rest.clone()
        };
        let ghost tier_set = if free_set.len() > 0 { free_set } else { rs };
        assert(strings_view(tier@).to_set() == tier_set);
        let sorted = sort_strings(&tier);
        proof {
            crate::order::lemma_sorted_of(strings_view(sorted@));
        }
        let ghost done = tiers@.map_values(|t: Vec<Value>| values_view(t@));
        tiers.push(to_values(&sorted));
        assert(tiers@.map_values(|t: Vec<Value>| values_view(t@)) =~= done.push(sorted_of(tier_set)));
        let mut left: Vec<String> = Vec::new();
        let mut k: usize = 0;
        while k < rest.len()
            invariant
                tier_set == strings_view(tier@).to_set(),
                k <= rest@.len(),
                strings_view(left@).len() <= k,
                strings_view(left@).to_set() == strings_view(rest@.take(k as int)).to_set().difference(tier_set),
            decreases rest@.len() - k,
        {
            let ghost before = strings_view(left@);
            assert(strings_view(rest@.take(k + 1)) =~= strings_view(rest@.take(k as int)).push(rest@[k as int]@));
            proof {
                strings_view(rest@.take(k as int)).lemma_push_to_set_commute(rest@[k as int]@);
            }
            proof {
                lemma_difference_insert(strings_view(rest@.take(k as int)).to_set(), rest@[k as int]@, tier_set);
            }
            match find_name(&tier, &rest[k]) {
                Some(idx) => {
                    assert(strings_view(tier@)[idx as int] == rest@[k as int]@);
                    assert(strings_view(tier@).contains(rest@[k as int]@));
                },
                None => {
                    left.push(rest[k].clone());
                    proof {
                        before.lemma_push_to_set_commute(rest@[k as int]@);
                    }
                    assert(strings_view(left@) =~= before.push(rest@[k as int]@));
                },
            }
            k = k + 1;
        }
        proof {
            let x = if free_set.len() > 0 { free@[0]@ } else { rest@[0]@ };
            assert(tier_set.contains(x));
            let d = rs.difference(tier_set);
            assert(d.subset_of(rs.remove(x)));
            vstd::set_lib::lemma_len_subset(d, rs.remove(x));
            reveal(pref_tiers);
            assert(pref_tiers(ps, rs, fuel) == seq![sorted_of(tier_set)] + pref_tiers(ps, d, (fuel - 1) as nat));
            assert(done + pref_tiers(ps, rs, fuel) =~= done.push(sorted_of(tier_set)) + pref_tiers(ps, d, (fuel - 1) as nat));
            fuel = (fuel - 1) as nat;
        }
        rest = left;
        proof {
            if rest@.len() == 0 {
                assert(strings_view(rest@).to_set() =~= Set::<Seq<char>>::empty());
            }
        }
    }
    proof {
        assert(strings_view(rest@).to_set() =~= Set::<Seq<char>>::empty());
        reveal(pref_tiers);
    }
    assert(tiers@.map_values(|t: Vec<Value>| values_view(t@)) =~= pref_tiers(ps, universe, universe.len()));
    Audience::from_tiers(tiers)
}

/// Once reading has stopped, further lines change nothing.
proof fn lemma_run_stops(ls: Seq<Seq<char>>, k: int)
    requires
        0 <= k <= ls.len(),
        !(apx_run(ls.take(k)) is Read),
    ensures
        apx_run(ls) == apx_run(ls.take(k)),
    decreases ls.len() - k,
{
    if k < ls.len() {
        assert(ls.take(k + 1).drop_last() =~= ls.take(k));
        lemma_run_stops(ls, k + 1);
    } else {
        assert(ls.take(k) =~= ls);
    }
}

/// Apply the fact `p(args)` to the framework being built.
fn apply_line(
    base: &mut ArgumentationFramework,
    values: &mut ValueAssignment,
    prefs: &mut Vec<(String, String)>,
    p: &String,
    args: &Vec<String>,
    Ghost(m): Ghost<ApxModel>,
) -> (r: Result<(), ValuesError>)
    requires
        state_is(*old(base), *old(values), m),
        pairs_view(old(prefs)@) == m.prefs,
        arity(p@) > 0,
        args@.len() == arity(p@),
    ensures
        match apply_fact(m, p@, strings_view(args@)) {
            ApxOutcome::Read(m2) => r is Ok && state_is(*final(base), *final(values), m2) && pairs_view(final(prefs)@) == m2.prefs,
            ApxOutcome::Missing(name) => r matches Err(ValuesError::Dung(DungError::ArgumentNotFound(n))) && n@ == name,
            ApxOutcome::Syntax(_, _) => false,
        },
{
    let ghost a = strings_view(args@);
    proof {
        base.lemma_names_distinct();
        base.lemma_attacks_range();
    }
    if *p == owned("arg") {
        base.add_argument(args[0].as_str());
        let ghost m2 = ApxModel {
            names: if m.names.contains(a[0]) { m.names } else { m.names.push(a[0]) },
            attacks: m.attacks,
            values: m.values,
            prefs: m.prefs,
        };
        assert(base.arg_names() == m2.names);
        assert forall|i: int, j: int| #[trigger] (base.attacks())(i, j) <==> (0 <= i < m2.names.len()
            && 0 <= j < m2.names.len() && m2.attacks.contains((m2.names[i], m2.names[j]))) by {
            assert((base.attacks())(i, j) == (old(base).attacks())(i, j));
            if 0 <= i < m2.names.len() && 0 <= j < m2.names.len() && m2.attacks.contains((m2.names[i], m2.names[j])) {
                assert(m.names.contains(m2.names[i]) && m.names.contains(m2.names[j]));
                if i >= m.names.len() {
                    assert(m2.names[i] == a[0]);
                }
                if j >= m.names.len() {
                    assert(m2.names[j] == a[0]);
                }
                assert(m2.names[i] == m.names[i]);
                assert(m2.names[j] == m.names[j]);
            }
            if (old(base).attacks())(i, j) {
                assert(m2.names[i] == m.names[i]);
                assert(m2.names[j] == m.names[j]);
            }
        }
        assert forall|x: Seq<char>, y: Seq<char>| #[trigger] m2.attacks.contains((x, y))
            implies m2.names.contains(x) && m2.names.contains(y) by {
            assert(m.names.contains(x) && m.names.contains(y));
            let ix = choose|ix: int| 0 <= ix < m.names.len() && m.names[ix] == x;
            let iy = choose|iy: int| 0 <= iy < m.names.len() && m.names[iy] == y;
            assert(m2.names[ix] == x);
            assert(m2.names[iy] == y);
        }
        assert(state_is(*base, *values, m2));
        assert(apply_fact(m, p@, a) == ApxOutcome::Read(m2));
        Ok(())
    } else if *p == owned("att") {
        match base.add_attack(args[0].as_str(), args[1].as_str()) {
            Ok(()) => {
                let ghost m2 = ApxModel {
                    names: m.names,
                    attacks: m.attacks.insert((a[0], a[1])),
                    values: m.values,
                    prefs: m.prefs,
                };
                assert forall|x: Seq<char>, y: Seq<char>| #[trigger] m2.attacks.contains((x, y))
                    implies m2.names.contains(x) && m2.names.contains(y) by {
                    if (x, y) != (a[0], a[1]) {
                        assert(m.attacks.contains((x, y)));
                    }
                }
                assert forall|i: int, j: int| #[trigger] (base.attacks())(i, j) <==> (0 <= i < m2.names.len()
                    && 0 <= j < m2.names.len() && m2.attacks.contains((m2.names[i], m2.names[j]))) by {
                    assert((old(base).attacks())(i, j) <==> (0 <= i < m.names.len()
                        && 0 <= j < m.names.len() && m.attacks.contains((m.names[i], m.names[j]))));
                }
                assert(state_is(*base, *values, m2));
                assert(apply_fact(m, p@, a) == ApxOutcome::Read(m2));
                Ok(())
            },
            Err(e) => Err(ValuesError::Dung(e)),
        }
    } else if *p == owned("val") {
        values.promote(args[0].as_str(), Value::new(args[1].as_str()));
        let ghost m2 = ApxModel { names: m.names, attacks: m.attacks, values: with_value(m.values, a[0], a[1]), prefs: m.prefs };
        assert forall|x: Seq<char>| #[trigger] values.values_of(x) == (m2.values)(x) by {}
        assert(state_is(*base, *values, m2));
        assert(apply_fact(m, p@, a) == ApxOutcome::Read(m2));
        Ok(())
    } else {
        prefs.push((args[0].clone(), args[1].clone()));
        assert(pairs_view(prefs@) =~= m.prefs.push((a[0], a[1])));
        Ok(())
    }
}

/// Read an APX document into a value-based framework and the audience
/// its preferences describe (no preferences: the empty audience). Each
/// argument is declared by `arg`; an attack must name declared arguments;
/// values may be given to any name.
pub fn from_apx(input: &str) -> (r: Result<(ValueBasedFramework, Audience), ValuesError>)
    ensures
        match apx_run(lines_of(input@)) {
            ApxOutcome::Read(m) => r matches Ok((vaf, aud)) && vaf.wf() && state_is(vaf.base_af(), vaf.assignment(), m)
                && aud.ranking() == pref_ranking(m.prefs),
            ApxOutcome::Syntax(line, msg) => syntax_error(r, line, msg),
            ApxOutcome::Missing(name) => r matches Err(ValuesError::Dung(DungError::ArgumentNotFound(n))) && n@ == name,
        },
{
    let lines = split_lines(input);
    let ghost ls = lines_of(input@);
    let mut base = ArgumentationFramework::new();
    let mut values = ValueAssignment::new();
    let mut prefs: Vec<(String, String)> = Vec::new();
    let ghost mut m = empty_model();
    assert(ls.take(0) =~= Seq::<Seq<char>>::empty());
    assert(base.arg_names() =~= m.names);
    assert(pairs_view(prefs@) =~= m.prefs);
    assert forall|i: int, j: int| #[trigger] (base.attacks())(i, j) <==> (0 <= i < m.names.len()
        && 0 <= j < m.names.len() && m.attacks.contains((m.names[i], m.names[j]))) by {
        base.lemma_attacks_range();
    }
    let mut k: usize = 0;
    while k < lines.len()
        invariant
            ls == lines_of(input@),
            strings_view(lines@) == ls,
            k <= lines@.len(),
            apx_run(ls.take(k as int)) == ApxOutcome::Read(m),
            state_is(base, values, m),
            pairs_view(prefs@) == m.prefs,
        decreases lines@.len() - k,
    {
        let ghost t = ls.take(k + 1);
        assert(t.drop_last() =~= ls.take(k as int));
        assert(t.last() == lines@[k as int]@);
        match read_fact_line(lines[k].as_str(), k + 1) {
            Err(e) => {
                assert(read_line(t.last()) is Err);
                assert(apx_run(t) == ApxOutcome::Syntax(t.len(), read_line(t.last())->Err_0));
                proof {
                    lemma_run_stops(ls, k + 1);
                }
                return Err(e);
            },
            Ok(None) => {},
            Ok(Some((p, args))) => {
                match apply_line(&mut base, &mut values, &mut prefs, &p, &args, Ghost(m)) {
                    Ok(()) => {
                        proof {
                            m = match apply_fact(m, p@, strings_view(args@)) {
                                ApxOutcome::Read(m2) => m2,
                                _ => m,
                            };
                        }
                    },
                    Err(e) => {
                        assert(apx_run(t) == apply_fact(m, p@, strings_view(args@)));
                        proof {
                            lemma_run_stops(ls, k + 1);
                        }
                        return Err(e);
                    },
                }
            },
        }
        k = k + 1;
    }
    assert(ls.take(lines@.len() as int) =~= ls);
    let audience = audience_from_prefs(&prefs);
    Ok((ValueBasedFramework::new(base, values), audience))
}

// ---------------------------------------------------------------------
// Writing
// ---------------------------------------------------------------------

/// The fact `pred(a).` on a line of its own.
pub open spec fn fact1_text(pred: Seq<char>, a: Seq<char>) -> Seq<char> {
    pred + "("@ + a + ").\n"@
}

/// The fact `pred(a, b).` on a line of its own.
pub open spec fn fact2_text(pred: Seq<char>, a: Seq<char>, b: Seq<char>) -> Seq<char> {
    pred + "("@ + a + ", "@ + b + ").\n"@
}

/// An `arg` fact for each name of `s`, in order.
pub open spec fn arg_lines(s: Seq<Seq<char>>) -> Seq<char>
    decreases s.len(),
{
    if s.len() == 0 {
        Seq::empty()
    } else {
        arg_lines(s.drop_last()) + fact1_text("arg"@, s.last())
    }
}

/// The names of the arguments of `base` that attack one named `t`.
pub open spec fn attackers_of(base: ArgumentationFramework, t: Seq<char>) -> Set<Seq<char>> {
    Set::new(|u: Seq<char>| exists|i: int, j: int| 0 <= i < base.size() && 0 <= j < base.size()
        && #[trigger] (base.attacks())(i, j) && base.arg_names()[i] == u && base.arg_names()[j] == t)
}

/// An `att` fact from each name of `us` to `t`, in order.
pub open spec fn att_lines_for(us: Seq<Seq<char>>, t: Seq<char>) -> Seq<char>
    decreases us.len(),
{
    if us.len() == 0 {
        Seq::empty()
    } else {
        att_lines_for(us.drop_last(), t) + fact2_text("att"@, us.last(), t)
    }
}

/// For each target of `s` in order, its attacks, attackers in ascending
/// order.
pub open spec fn att_lines(base: ArgumentationFramework, s: Seq<Seq<char>>) -> Seq<char>
    decreases s.len(),
{
    if s.len() == 0 {
        Seq::empty()
    } else {
        att_lines(base, s.drop_last()) + att_lines_for(sorted_of(attackers_of(base, s.last())), s.last())
    }
}

/// A `val` fact of `a` for each value of `vs`, in order.
pub open spec fn val_lines_for(a: Seq<char>, vs: Seq<Seq<char>>) -> Seq<char>
    decreases vs.len(),
{
    if vs.len() == 0 {
        Seq::empty()
    } else {
        val_lines_for(a, vs.drop_last()) + fact2_text("val"@, a, vs.last())
    }
}

/// For each argument of `s` in order, its values in order of promotion.
pub open spec fn val_lines(values: ValueAssignment, s: Seq<Seq<char>>) -> Seq<char>
    decreases s.len(),
{
    if s.len() == 0 {
        Seq::empty()
    } else {
        val_lines(values, s.drop_last()) + val_lines_for(s.last(), values.values_of(s.last()))
    }
}

/// The arguments that promote some value.
pub open spec fn promoting(values: ValueAssignment) -> Set<Seq<char>> {
    Set::new(|a: Seq<char>| values.values_of(a).len() > 0)
}

/// A `valpref` fact from `a` to each value of `bs` that `ts` ranks below it.
pub open spec fn pref_lines_for(ts: Seq<Seq<Seq<char>>>, a: Seq<char>, bs: Seq<Seq<char>>) -> Seq<char>
    decreases bs.len(),
{
    if bs.len() == 0 {
        Seq::empty()
    } else {
        pref_lines_for(ts, a, bs.drop_last()) + if prefers_in(ts, a, bs.last()) {
            fact2_text("valpref"@, a, bs.last())
        } else {
            Seq::empty()
        }
    }
}

/// The `valpref` facts for each value of `s` in order, against each
/// value of `bs`.
pub open spec fn pref_lines(ts: Seq<Seq<Seq<char>>>, s: Seq<Seq<char>>, bs: Seq<Seq<char>>) -> Seq<char>
    decreases s.len(),
{
    if s.len() == 0 {
        Seq::empty()
    } else {
        pref_lines(ts, s.drop_last(), bs) + pref_lines_for(ts, s.last(), bs)
    }
}

/// The APX text of a framework and an audience: the arguments in
/// ascending order; for each of them as target, its attacks, attackers in
/// ascending order; for each argument promoting values, in ascending
/// order, its values in order of promotion; and a preference fact for
/// each pair of the audience's values, in tier order, that it ranks apart.
pub open spec fn apx_text(vaf: ValueBasedFramework, audience: Audience) -> Seq<char> {
    let base = vaf.base_af();
    let names = sorted_of(base.arg_names().to_set());
    let vals = dedup(concat_all(audience.ranking()));
    arg_lines(names) + att_lines(base, names) + val_lines(vaf.assignment(), sorted_of(promoting(vaf.assignment())))
        + pref_lines(audience.ranking(), vals, vals)
}

/// The text of `pred(a).` on a line.
fn fact1(pred: &str, a: &str) -> (r: String)
    ensures
        r@ == fact1_text(pred@, a@),
{
    let mut out = concat(pred, "(");
    out.append(a);
    out.append(").\n");
    out
}

/// The text of `pred(a, b).` on a line.
fn fact2(pred: &str, a: &str, b: &str) -> (r: String)
    ensures
        r@ == fact2_text(pred@, a@, b@),
{
    let mut out = concat(pred, "(");
    out.append(a);
    out.append(", ");
    out.append(b);
    out.append(").\n");
    out
}

/// The `att` facts of target `t`, whose attackers are `us`.
fn write_att_for(out: &mut String, us: &Vec<String>, t: &str)
    ensures
        final(out)@ == old(out)@ + att_lines_for(strings_view(us@), t@),
{
    let ghost start = out@;
    let ghost s = strings_view(us@);
    let mut i: usize = 0;
    assert(s.take(0) =~= Seq::<Seq<char>>::empty());
    while i < us.len()
        invariant
            s == strings_view(us@),
            i <= us@.len(),
            out@ == start + att_lines_for(s.take(i as int), t@),
        decreases us@.len() - i,
    {
        assert(s.take(i + 1).drop_last() =~= s.take(i as int));
        out.append(fact2("att", us[i].as_str(), t).as_str());
        assert(out@ =~= start + att_lines_for(s.take(i + 1), t@));
        i = i + 1;
    }
    assert(s.take(us@.len() as int) =~= s);
}

/// The `val` facts of `a`, whose values are `vs`.
fn write_val_for(out: &mut String, a: &str, vs: &[Value])
    ensures
        final(out)@ == old(out)@ + val_lines_for(a@, values_view(vs@)),
{
    let ghost start = out@;
    let ghost s = values_view(vs@);
    let mut i: usize = 0;
    assert(s.take(0) =~= Seq::<Seq<char>>::empty());
    while i < vs.len()
        invariant
            s == values_view(vs@),
            i <= vs@.len(),
            out@ == start + val_lines_for(a@, s.take(i as int)),
        decreases vs@.len() - i,
    {
        assert(s.take(i + 1).drop_last() =~= s.take(i as int));
        out.append(fact2("val", a, vs[i].as_str()).as_str());
        assert(out@ =~= start + val_lines_for(a@, s.take(i + 1)));
        i = i + 1;
    }
    assert(s.take(vs@.len() as int) =~= s);
}

/// The `valpref` facts from `a` against each value of `bs`.
fn write_pref_for(out: &mut String, audience: &Audience, a: &Value, bs: &Vec<Value>)
    ensures
        final(out)@ == old(out)@ + pref_lines_for(audience.ranking(), a@, values_view(bs@)),
{
    let ghost start = out@;
    let ghost s = values_view(bs@);
    let mut i: usize = 0;
    assert(s.take(0) =~= Seq::<Seq<char>>::empty());
    while i < bs.len()
        invariant
            s == values_view(bs@),
            i <= bs@.len(),
            out@ == start + pref_lines_for(audience.ranking(), a@, s.take(i as int)),
        decreases bs@.len() - i,
    {
        assert(s.take(i + 1).drop_last() =~= s.take(i as int));
        if audience.prefers(a, &bs[i]) {
            out.append(fact2("valpref", a.as_str(), bs[i].as_str()).as_str());
        }
        assert(out@ =~= start + pref_lines_for(audience.ranking(), a@, s.take(i + 1)));
        i = i + 1;
    }
    assert(s.take(bs@.len() as int) =~= s);
}

/// The names of the attackers of the argument at position `t`.
fn attackers_at(base: &ArgumentationFramework, names: &Vec<String>, t: usize) -> (r: Vec<String>)
    requires
        base.wf(),
        strings_view(names@) == base.arg_names(),
        t < base.size(),
    ensures
        strings_view(r@).to_set() == attackers_of(*base, base.arg_names()[t as int]),
{
    let ghost ns = base.arg_names();
    let ghost target = ns[t as int];
    let mut out: Vec<String> = Vec::new();
    let mut i: usize = 0;
    while i < names.len()
        invariant
            base.wf(),
            ns == base.arg_names(),
            strings_view(names@) == ns,
            target == ns[t as int],
            t < ns.len(),
            i <= names@.len(),
            forall|u: Seq<char>| strings_view(out@).contains(u) <==> exists|q: int|
                0 <= q < i && #[trigger] (base.attacks())(q, t as int) && ns[q] == u,
        decreases names@.len() - i,
    {
        let ghost before = strings_view(out@);
        if base.attacks_at(i, t) {
            out.push(names[i].clone());
            assert(strings_view(out@) =~= before.push(ns[i as int]));
        }
        assert forall|u: Seq<char>| strings_view(out@).contains(u) <==> exists|q: int|
            0 <= q < i + 1 && #[trigger] (base.attacks())(q, t as int) && ns[q] == u by {
            let now = strings_view(out@);
            if before.contains(u) {
                let w = choose|w: int| 0 <= w < before.len() && before[w] == u;
                assert(now[w] == u);
                let q = choose|q: int| 0 <= q < i && #[trigger] (base.attacks())(q, t as int) && ns[q] == u;
                assert(0 <= q < i + 1 && (base.attacks())(q, t as int) && ns[q] == u);
            }
            if now.contains(u) && !before.contains(u) {
                let w = choose|w: int| 0 <= w < now.len() && now[w] == u;
                if w < before.len() {
                    assert(before[w] == u);
                }
                assert((base.attacks())(i as int, t as int) && ns[i as int] == u);
            }
            if exists|q: int| 0 <= q < i + 1 && #[trigger] (base.attacks())(q, t as int) && ns[q] == u {
                let q = choose|q: int| 0 <= q < i + 1 && #[trigger] (base.attacks())(q, t as int) && ns[q] == u;
                if q == i {
                    assert(now[now.len() - 1] == u);
                } else {
                    assert(before.contains(u));
                    let w = choose|w: int| 0 <= w < before.len() && before[w] == u;
                    assert(now[w] == u);
                }
            }
        }
        i = i + 1;
    }
    proof {
        base.lemma_names_distinct();
        base.lemma_attacks_range();
        assert forall|u: Seq<char>| strings_view(out@).to_set().contains(u) <==> #[trigger] attackers_of(*base, target).contains(u) by {
            if attackers_of(*base, target).contains(u) {
                let (q, j) = choose|q: int, j: int| 0 <= q < base.size() && 0 <= j < base.size()
                    && #[trigger] (base.attacks())(q, j) && ns[q] == u && ns[j] == target;
                assert(j == t);
            }
        }
        assert(strings_view(out@).to_set() =~= attackers_of(*base, target));
    }
    out
}

/// Write a framework and an audience as an APX document: the arguments,
/// then the attacks by target, then the values, then one preference fact
/// for each ordered pair of the audience's values that it ranks apart.
pub fn to_apx(vaf: &ValueBasedFramework, audience: &Audience) -> (r: String)
    requires
        vaf.wf(),
    ensures
        r@ == apx_text(*vaf, *audience),
{
    proof {
        vaf.lemma_wf();
    }
    let base = vaf.base();
    let names = base.arguments();
    let sorted = sort_strings(&names);
    let ghost ss = strings_view(sorted@);
    proof {
        crate::order::lemma_sorted_of(ss);
    }
    let mut out = String::new();
    let mut i: usize = 0;
    assert(ss.take(0) =~= Seq::<Seq<char>>::empty());
    while i < sorted.len()
        invariant
            ss == strings_view(sorted@),
            i <= sorted@.len(),
            out@ == arg_lines(ss.take(i as int)),
        decreases sorted@.len() - i,
    {
        assert(ss.take(i + 1).drop_last() =~= ss.take(i as int));
        out.append(fact1("arg", sorted[i].as_str()).as_str());
        i = i + 1;
    }
    assert(ss.take(sorted@.len() as int) =~= ss);
    let ghost args_text = out@;
    let mut i: usize = 0;
    while i < sorted.len()
        invariant
            vaf.wf(),
            base.wf(),
            *base == vaf.base_af(),
            strings_view(names@) == base.arg_names(),
            ss == strings_view(sorted@),
            ss.to_set() == base.arg_names().to_set(),
            i <= sorted@.len(),
            out@ == args_text + att_lines(*base, ss.take(i as int)),
        decreases sorted@.len() - i,
    {
        assert(ss.take(i + 1).drop_last() =~= ss.take(i as int));
        assert(ss.to_set().contains(ss[i as int]));
        let t = match base.position(sorted[i].as_str()) {
            Some(t) => t,
            None => {
                assert(false);
                0
            },
        };
        let us = sort_strings(&attackers_at(base, &names, t));
        proof {
            crate::order::lemma_sorted_of(strings_view(us@));
        }
        write_att_for(&mut out, &us, sorted[i].as_str());
        assert(out@ =~= args_text + att_lines(*base, ss.take(i + 1)));
        i = i + 1;
    }
    let ghost att_text = out@;
    let values = vaf.value_assignment();
    let entries = values.entries();
    let mut named: Vec<String> = Vec::new();
    let mut k: usize = 0;
    while k < entries.len()
        invariant
            values.wf(),
            forall|i: int| 0 <= i < entries@.len() ==> values.values_of(#[trigger] entries@[i].0@) == values_view(entries@[i].1@),
            k <= entries@.len(),
            forall|a: Seq<char>| strings_view(named@).contains(a) <==> exists|q: int|
                0 <= q < k && #[trigger] entries@[q].0@ == a && values.values_of(a).len() > 0,
        decreases entries@.len() - k,
    {
        let ghost before = strings_view(named@);
        if entries[k].1.len() > 0 {
            named.push(entries[k].0.clone());
            assert(strings_view(named@) =~= before.push(entries@[k as int].0@));
        }
        assert(values.values_of(entries@[k as int].0@) == values_view(entries@[k as int].1@));
        assert forall|a: Seq<char>| strings_view(named@).contains(a) <==> exists|q: int|
            0 <= q < k + 1 && #[trigger] entries@[q].0@ == a && values.values_of(a).len() > 0 by {
            let now = strings_view(named@);
            if before.contains(a) {
                let w = choose|w: int| 0 <= w < before.len() && before[w] == a;
                assert(now[w] == a);
                let q = choose|q: int| 0 <= q < k && #[trigger] entries@[q].0@ == a && values.values_of(a).len() > 0;
                assert(0 <= q < k + 1 && entries@[q].0@ == a);
            }
            if now.contains(a) && !before.contains(a) {
                let w = choose|w: int| 0 <= w < now.len() && now[w] == a;
                if w < before.len() {
                    assert(before[w] == a);
                }
                assert(entries@[k as int].0@ == a);
            }
            if exists|q: int| 0 <= q < k + 1 && #[trigger] entries@[q].0@ == a && values.values_of(a).len() > 0 {
                let q = choose|q: int| 0 <= q < k + 1 && #[trigger] entries@[q].0@ == a && values.values_of(a).len() > 0;
                if q == k {
                    assert(now[now.len() - 1] == a);
                } else {
                    assert(before.contains(a));
                    let w = choose|w: int| 0 <= w < before.len() && before[w] == a;
                    assert(now[w] == a);
                }
            }
        }
        k = k + 1;
    }
    assert(strings_view(named@).to_set() =~= promoting(*values)) by {
        assert forall|a: Seq<char>| #[trigger] promoting(*values).contains(a) implies strings_view(named@).contains(a) by {
            let q = choose|q: int| 0 <= q < entries@.len() && entries@[q].0@ == a;
            assert(entries@[q].0@ == a);
        }
    }
    let promoters = sort_strings(&named);
    let ghost ps = strings_view(promoters@);
    proof {
        crate::order::lemma_sorted_of(ps);
    }
    let mut i: usize = 0;
    assert(ps.take(0) =~= Seq::<Seq<char>>::empty());
    while i < promoters.len()
        invariant
            values.wf(),
            ps == strings_view(promoters@),
            i <= promoters@.len(),
            out@ == att_text + val_lines(*values, ps.take(i as int)),
        decreases promoters@.len() - i,
    {
        assert(ps.take(i + 1).drop_last() =~= ps.take(i as int));
        write_val_for(&mut out, promoters[i].as_str(), values.values(promoters[i].as_str()));
        assert(out@ =~= att_text + val_lines(*values, ps.take(i + 1)));
        i = i + 1;
    }
    assert(ps.take(promoters@.len() as int) =~= ps);
    let ghost val_text = out@;
    let vals = audience.values();
    let ghost vs = values_view(vals@);
    let mut i: usize = 0;
    assert(vs.take(0) =~= Seq::<Seq<char>>::empty());
    while i < vals.len()
        invariant
            vs == values_view(vals@),
            i <= vals@.len(),
            out@ == val_text + pref_lines(audience.ranking(), vs.take(i as int), vs),
        decreases vals@.len() - i,
    {
        assert(vs.take(i + 1).drop_last() =~= vs.take(i as int));
        write_pref_for(&mut out, audience, &vals[i], &vals);
        assert(out@ =~= val_text + pref_lines(audience.ranking(), vs.take(i + 1), vs));
        i = i + 1;
    }
    assert(vs.take(vals@.len() as int) =~= vs);
    out
}


// ---------------------------------------------------------------------
// Round trip
// ---------------------------------------------------------------------

/// Splitting text without the separator gives the text alone.
proof fn lemma_split_none(s: Seq<char>, c: char)
    requires
        !s.contains(c),
    ensures
        split_on(s, c) == seq![s],
    decreases s.len(),
{
    if s.len() > 0 {
        assert(!s.drop_last().contains(c)) by {
            if s.drop_last().contains(c) {
                let i = choose|i: int| 0 <= i < s.drop_last().len() && s.drop_last()[i] == c;
                assert(s[i] == c);
            }
        }
        lemma_split_none(s.drop_last(), c);
        assert(s.last() != c) by {
            assert(s[s.len() - 1] == s.last());
        }
        assert(s.drop_last().push(s.last()) =~= s);
        assert(seq![s.drop_last()].update(0, s) =~= seq![s]);
    } else {
        assert(s =~= Seq::<char>::empty());
    }
}

/// Appending text without the separator extends the last piece.
proof fn lemma_split_extend(x: Seq<char>, l: Seq<char>, c: char)
    requires
        !l.contains(c),
    ensures
        split_on(x + l, c) == split_on(x, c).update(split_on(x, c).len() - 1, split_on(x, c).last() + l),
    decreases l.len(),
{
    lemma_split_nonempty(x, c);
    if l.len() == 0 {
        assert(x + l =~= x);
        assert(split_on(x, c).last() + l =~= split_on(x, c).last());
        assert(split_on(x, c).update(split_on(x, c).len() - 1, split_on(x, c).last()) =~= split_on(x, c));
    } else {
        let l2 = l.drop_last();
        assert(!l2.contains(c)) by {
            if l2.contains(c) {
                let i = choose|i: int| 0 <= i < l2.len() && l2[i] == c;
                assert(l[i] == c);
            }
        }
        lemma_split_extend(x, l2, c);
        assert((x + l).drop_last() =~= x + l2);
        assert((x + l).last() == l.last());
        assert(l.last() != c) by {
            assert(l[l.len() - 1] == l.last());
        }
        let p = split_on(x, c);
        assert((p.last() + l2).push(l.last()) =~= p.last() + l);
        assert(p.update(p.len() - 1, p.last() + l2).update(p.len() - 1, (p.last() + l2).push(l.last()))
            =~= p.update(p.len() - 1, p.last() + l));
    }
}

/// Splitting at a separator between two texts joins their pieces.
proof fn lemma_split_join(x: Seq<char>, y: Seq<char>, c: char)
    ensures
        split_on(x + seq![c] + y, c) == split_on(x, c) + split_on(y, c),
    decreases y.len(),
{
    lemma_split_nonempty(y, c);
    if y.len() == 0 {
        assert(x + seq![c] + y =~= x + seq![c]);
        assert((x + seq![c]).drop_last() =~= x);
        assert(split_on(x, c).push(Seq::empty()) =~= split_on(x, c) + split_on(y, c));
    } else {
        let y2 = y.drop_last();
        lemma_split_join(x, y2, c);
        lemma_split_nonempty(y2, c);
        assert((x + seq![c] + y).drop_last() =~= x + seq![c] + y2);
        assert((x + seq![c] + y).last() == y.last());
        let a = split_on(x, c);
        let b = split_on(y2, c);
        if y.last() == c {
            assert((a + b).push(Seq::empty()) =~= a + b.push(Seq::empty()));
        } else {
            assert((a + b).update((a + b).len() - 1, (a + b).last().push(y.last()))
                =~= a + b.update(b.len() - 1, b.last().push(y.last())));
        }
    }
}

/// The lines of `ls`, each ended by a line feed.
pub open spec fn joined(ls: Seq<Seq<char>>) -> Seq<char>
    decreases ls.len(),
{
    if ls.len() == 0 {
        Seq::empty()
    } else {
        joined(ls.drop_last()) + ls.last() + seq!['\n']
    }
}

/// A line of text: no line feed in it, and no carriage return at its end.
pub open spec fn one_line(l: Seq<char>) -> bool {
    !l.contains('\n') && !(l.len() > 0 && l.last() == '\r')
}

/// Joined lines are read back line by line.
proof fn lemma_lines_joined(ls: Seq<Seq<char>>)
    requires
        forall|k: int| 0 <= k < ls.len() ==> one_line(#[trigger] ls[k]),
    ensures
        split_on(joined(ls), '\n') == ls.push(Seq::empty()),
        lines_of(joined(ls)) == ls,
    decreases ls.len(),
{
    if ls.len() == 0 {
        assert(split_on(Seq::<char>::empty(), '\n') =~= ls.push(Seq::empty()));
        assert(lines_of(joined(ls)) =~= ls);
    } else {
        let ls2 = ls.drop_last();
        let l = ls.last();
        assert(one_line(ls[ls.len() - 1]));
        lemma_lines_joined(ls2);
        lemma_split_extend(joined(ls2), l, '\n');
        assert(split_on(joined(ls2) + l, '\n') =~= ls2.push(l)) by {
            assert(Seq::<char>::empty() + l =~= l);
        }
        assert((joined(ls2) + l + seq!['\n']).drop_last() =~= joined(ls2) + l);
        assert(ls2.push(l) =~= ls);
        let p = split_on(joined(ls), '\n');
        assert(p.drop_last() =~= ls);
        assert(ls.map_values(|l: Seq<char>| strip_cr(l)) =~= ls);
    }
}

/// Joining two lists of lines joins their texts.
proof fn lemma_joined_concat(a: Seq<Seq<char>>, b: Seq<Seq<char>>)
    ensures
        joined(a + b) == joined(a) + joined(b),
    decreases b.len(),
{
    if b.len() == 0 {
        assert(a + b =~= a);
        assert(joined(a) + joined(b) =~= joined(a));
    } else {
        lemma_joined_concat(a, b.drop_last());
        assert((a + b).drop_last() =~= a + b.drop_last());
        assert((a + b).last() == b.last());
        assert(joined(a) + joined(b.drop_last()) + b.last() + seq!['\n'] =~= joined(a) + (joined(b.drop_last()) + b.last() + seq!['\n']));
    }
}

/// None of the characters that structure a fact.
pub open spec fn no_markup(s: Seq<char>) -> bool {
    forall|i: int| 0 <= i < s.len() ==> !(s[i] == '\n' || s[i] == '%' || s[i] == '(' || s[i] == ')' || s[i] == ',')
}

/// A name that APX text carries unchanged: no character that structures
/// a fact, and no white space around it.
pub open spec fn plain(s: Seq<char>) -> bool {
    no_markup(s) && trimmed(s) == s
}

/// The line of the fact `pred(a).`
pub open spec fn line1(pred: Seq<char>, a: Seq<char>) -> Seq<char> {
    pred + seq!['('] + a + seq![')', '.']
}

/// The line of the fact `pred(a, b).`
pub open spec fn line2(pred: Seq<char>, a: Seq<char>, b: Seq<char>) -> Seq<char> {
    pred + seq!['('] + (a + seq![',', ' '] + b) + seq![')', '.']
}

/// The predicates are plain words.
proof fn lemma_predicates()
    ensures
        "arg"@ == seq!['a', 'r', 'g'],
        "att"@ == seq!['a', 't', 't'],
        "val"@ == seq!['v', 'a', 'l'],
        "valpref"@ == seq!['v', 'a', 'l', 'p', 'r', 'e', 'f'],
        arity("arg"@) == 1,
        arity("att"@) == 2,
        arity("val"@) == 2,
        arity("valpref"@) == 2,
{
    reveal_strlit("arg");
    reveal_strlit("att");
    reveal_strlit("val");
    reveal_strlit("valpref");
    assert("arg"@ =~= seq!['a', 'r', 'g']);
    assert("att"@ =~= seq!['a', 't', 't']);
    assert("val"@ =~= seq!['v', 'a', 'l']);
    assert("valpref"@ =~= seq!['v', 'a', 'l', 'p', 'r', 'e', 'f']);
    assert("att"@ != "arg"@) by {
        assert("att"@[1] != "arg"@[1]);
    }
    assert("val"@ != "arg"@) by {
        assert("val"@[0] != "arg"@[0]);
    }
    assert("valpref"@ != "arg"@) by {
        assert("valpref"@.len() != "arg"@.len());
    }
}

/// The texts of facts are their lines with a line feed.
proof fn lemma_fact_texts(pred: Seq<char>, a: Seq<char>, b: Seq<char>)
    ensures
        fact1_text(pred, a) == line1(pred, a) + seq!['\n'],
        fact2_text(pred, a, b) == line2(pred, a, b) + seq!['\n'],
{
    reveal_strlit("(");
    reveal_strlit(").\n");
    reveal_strlit(", ");
    assert(fact1_text(pred, a) =~= line1(pred, a) + seq!['\n']);
    assert(fact2_text(pred, a, b) =~= line2(pred, a, b) + seq!['\n']);
}

/// Text made of parts free of a character is free of it.
proof fn lemma_free_concat(x: Seq<char>, y: Seq<char>, c: char)
    requires
        !x.contains(c),
        !y.contains(c),
    ensures
        !(x + y).contains(c),
{
    if (x + y).contains(c) {
        let i = choose|i: int| 0 <= i < (x + y).len() && (x + y)[i] == c;
        if i < x.len() {
            assert(x[i] == c);
        } else {
            assert(y[i - x.len()] == c);
        }
    }
}

/// Text without markup holds none of the markup characters.
proof fn lemma_no_markup_free(s: Seq<char>)
    requires
        no_markup(s),
    ensures
        !s.contains('\n'),
        !s.contains('%'),
        !s.contains('('),
        !s.contains(')'),
        !s.contains(','),
{
}

/// A space before a name is trimmed away.
proof fn lemma_trim_space(b: Seq<char>)
    ensures
        trimmed(seq![' '] + b) == trimmed(b),
{
    assert((seq![' '] + b).drop_first() =~= b);
    assert((seq![' '] + b)[0] == ' ');
}

/// Text with no white space at either end is its own trimming.
proof fn lemma_trim_none(l: Seq<char>)
    requires
        l.len() > 0,
        !is_white(l[0]),
        !is_white(l.last()),
    ensures
        trimmed(l) == l,
{
}

/// The fact of a line `pred(inner).` whose predicate is a plain word.
proof fn lemma_read_fact(pred: Seq<char>, inner: Seq<char>, args: Seq<Seq<char>>)
    requires
        pred.len() > 0,
        no_markup(pred),
        !is_white(pred[0]),
        !inner.contains('\n'),
        !inner.contains('%'),
        !inner.contains('('),
        !inner.contains(')'),
        split_on(inner, ',').map_values(|a: Seq<char>| trimmed(a)) == args,
        arity(pred) == args.len(),
        arity(pred) > 0,
    ensures
        read_line(pred + seq!['('] + inner + seq![')', '.']) == Ok::<Option<(Seq<char>, Seq<Seq<char>>)>, Seq<char>>(Some((pred, args))),
        one_line(pred + seq!['('] + inner + seq![')', '.']),
{
    let l = pred + seq!['('] + inner + seq![')', '.'];
    lemma_no_markup_free(pred);
    assert(!seq!['('].contains('%'));
    assert(!seq![')', '.'].contains('%'));
    assert(!seq!['('].contains('\n'));
    assert(!seq![')', '.'].contains('\n'));
    lemma_free_concat(pred, seq!['('], '%');
    lemma_free_concat(pred + seq!['('], inner, '%');
    lemma_free_concat(pred + seq!['('] + inner, seq![')', '.'], '%');
    lemma_free_concat(pred, seq!['('], '\n');
    lemma_free_concat(pred + seq!['('], inner, '\n');
    lemma_free_concat(pred + seq!['('] + inner, seq![')', '.'], '\n');
    lemma_split_none(l, '%');
    assert(l[0] == pred[0]);
    assert(l.last() == '.');
    lemma_trim_none(l);
    let fact = l.drop_last();
    assert(fact =~= pred + seq!['('] + inner + seq![')']);
    let open = pred.len() as int;
    let close = fact.len() - 1;
    assert(fact[open] == '(');
    assert(fact[close] == ')');
    fact.index_of_first_ensures('(');
    fact.index_of_last_ensures(')');
    assert(fact.contains('('));
    assert(fact.contains(')'));
    let i = fact.index_of_first('(')->Some_0;
    if i < open {
        assert(pred[i] == '(');
    }
    assert(i == open);
    assert(fact.index_of_last(')') == Some(close));
    assert(fact.take(open) =~= pred);
    assert(fact.subrange(open + 1, close) =~= inner);
}

/// Reading the line of `arg(a).` gives the fact back.
proof fn lemma_read_line1(a: Seq<char>)
    requires
        plain(a),
    ensures
        read_line(line1("arg"@, a)) == Ok::<Option<(Seq<char>, Seq<Seq<char>>)>, Seq<char>>(Some(("arg"@, seq![a]))),
        one_line(line1("arg"@, a)),
{
    lemma_predicates();
    lemma_no_markup_free(a);
    lemma_split_none(a, ',');
    assert(seq![a].map_values(|x: Seq<char>| trimmed(x)) =~= seq![a]);
    assert(!is_white('a'));
    lemma_read_fact("arg"@, a, seq![a]);
}

/// Reading the line of `pred(a, b).` gives the fact back.
proof fn lemma_read_line2(pred: Seq<char>, a: Seq<char>, b: Seq<char>)
    requires
        pred == "att"@ || pred == "val"@ || pred == "valpref"@,
        plain(a),
        plain(b),
    ensures
        read_line(line2(pred, a, b)) == Ok::<Option<(Seq<char>, Seq<Seq<char>>)>, Seq<char>>(Some((pred, seq![a, b]))),
        one_line(line2(pred, a, b)),
{
    lemma_predicates();
    lemma_no_markup_free(a);
    lemma_no_markup_free(b);
    let inner = a + seq![',', ' '] + b;
    assert(inner =~= a + seq![','] + (seq![' '] + b));
    lemma_split_join(a, seq![' '] + b, ',');
    lemma_split_none(a, ',');
    assert(!(seq![' '] + b).contains(',')) by {
        lemma_free_concat(seq![' '], b, ',');
    }
    lemma_split_none(seq![' '] + b, ',');
    lemma_trim_space(b);
    assert(split_on(inner, ',').map_values(|x: Seq<char>| trimmed(x)) =~= seq![a, b]);
    assert(!is_white('a'));
    assert(!is_white('v'));
    assert(!seq![',', ' '].contains('\n') && !seq![',', ' '].contains('%') && !seq![',', ' '].contains('(')
        && !seq![',', ' '].contains(')'));
    lemma_free_concat(a, seq![',', ' '], '\n');
    lemma_free_concat(a + seq![',', ' '], b, '\n');
    lemma_free_concat(a, seq![',', ' '], '%');
    lemma_free_concat(a + seq![',', ' '], b, '%');
    lemma_free_concat(a, seq![',', ' '], '(');
    lemma_free_concat(a + seq![',', ' '], b, '(');
    lemma_free_concat(a, seq![',', ' '], ')');
    lemma_free_concat(a + seq![',', ' '], b, ')');
    lemma_read_fact(pred, inner, seq![a, b]);
}

/// The lines of `arg` facts for the names of `s`.
pub open spec fn arg_facts(s: Seq<Seq<char>>) -> Seq<Seq<char>> {
    s.map_values(|a: Seq<char>| line1("arg"@, a))
}

/// The lines of `pred` facts for the pairs of `ps`.
pub open spec fn pair_facts(pred: Seq<char>, ps: Seq<(Seq<char>, Seq<char>)>) -> Seq<Seq<char>> {
    ps.map_values(|q: (Seq<char>, Seq<char>)| line2(pred, q.0, q.1))
}

/// Each name of `us` paired with `t`.
pub open spec fn pairs_to(us: Seq<Seq<char>>, t: Seq<char>) -> Seq<(Seq<char>, Seq<char>)> {
    us.map_values(|u: Seq<char>| (u, t))
}

/// `a` paired with each name of `vs`.
pub open spec fn pairs_from(a: Seq<char>, vs: Seq<Seq<char>>) -> Seq<(Seq<char>, Seq<char>)> {
    vs.map_values(|v: Seq<char>| (a, v))
}

/// The attacks that `att_lines` writes, as (attacker, target) pairs.
pub open spec fn att_pairs(base: ArgumentationFramework, s: Seq<Seq<char>>) -> Seq<(Seq<char>, Seq<char>)>
    decreases s.len(),
{
    if s.len() == 0 {
        Seq::empty()
    } else {
        att_pairs(base, s.drop_last()) + pairs_to(sorted_of(attackers_of(base, s.last())), s.last())
    }
}

/// The promotions that `val_lines` writes, as (argument, value) pairs.
pub open spec fn val_pairs(values: ValueAssignment, s: Seq<Seq<char>>) -> Seq<(Seq<char>, Seq<char>)>
    decreases s.len(),
{
    if s.len() == 0 {
        Seq::empty()
    } else {
        val_pairs(values, s.drop_last()) + pairs_from(s.last(), values.values_of(s.last()))
    }
}

/// The preferences that `pref_lines_for` writes.
pub open spec fn pref_pairs_for(ts: Seq<Seq<Seq<char>>>, a: Seq<char>, bs: Seq<Seq<char>>) -> Seq<(Seq<char>, Seq<char>)>
    decreases bs.len(),
{
    if bs.len() == 0 {
        Seq::empty()
    } else {
        pref_pairs_for(ts, a, bs.drop_last()) + if prefers_in(ts, a, bs.last()) {
            seq![(a, bs.last())]
        } else {
            Seq::empty()
        }
    }
}

/// The preferences that `pref_lines` writes.
pub open spec fn pref_pairs(ts: Seq<Seq<Seq<char>>>, s: Seq<Seq<char>>, bs: Seq<Seq<char>>) -> Seq<(Seq<char>, Seq<char>)>
    decreases s.len(),
{
    if s.len() == 0 {
        Seq::empty()
    } else {
        pref_pairs(ts, s.drop_last(), bs) + pref_pairs_for(ts, s.last(), bs)
    }
}

/// Fact lines of joined pair lists join.
proof fn lemma_pair_facts_concat(pred: Seq<char>, a: Seq<(Seq<char>, Seq<char>)>, b: Seq<(Seq<char>, Seq<char>)>)
    ensures
        pair_facts(pred, a + b) == pair_facts(pred, a) + pair_facts(pred, b),
{
    assert(pair_facts(pred, a + b) =~= pair_facts(pred, a) + pair_facts(pred, b));
}

/// The text of the `arg` facts is their joined lines.
proof fn lemma_arg_text(s: Seq<Seq<char>>)
    ensures
        arg_lines(s) == joined(arg_facts(s)),
    decreases s.len(),
{
    if s.len() > 0 {
        lemma_arg_text(s.drop_last());
        lemma_fact_texts("arg"@, s.last(), s.last());
        assert(arg_facts(s).drop_last() =~= arg_facts(s.drop_last()));
        assert(arg_facts(s).last() == line1("arg"@, s.last()));
    }
}

/// The text of the `att` facts of one target is their joined lines.
proof fn lemma_att_for_text(us: Seq<Seq<char>>, t: Seq<char>)
    ensures
        att_lines_for(us, t) == joined(pair_facts("att"@, pairs_to(us, t))),
    decreases us.len(),
{
    if us.len() > 0 {
        lemma_att_for_text(us.drop_last(), t);
        lemma_fact_texts("att"@, us.last(), t);
        assert(pair_facts("att"@, pairs_to(us, t)).drop_last() =~= pair_facts("att"@, pairs_to(us.drop_last(), t)));
        assert(pair_facts("att"@, pairs_to(us, t)).last() == line2("att"@, us.last(), t));
    }
}

/// The text of the `att` facts is their joined lines.
proof fn lemma_att_text(base: ArgumentationFramework, s: Seq<Seq<char>>)
    ensures
        att_lines(base, s) == joined(pair_facts("att"@, att_pairs(base, s))),
    decreases s.len(),
{
    if s.len() > 0 {
        lemma_att_text(base, s.drop_last());
        let us = sorted_of(attackers_of(base, s.last()));
        lemma_att_for_text(us, s.last());
        lemma_pair_facts_concat("att"@, att_pairs(base, s.drop_last()), pairs_to(us, s.last()));
        lemma_joined_concat(pair_facts("att"@, att_pairs(base, s.drop_last())), pair_facts("att"@, pairs_to(us, s.last())));
    }
}

/// The text of the `val` facts of one argument is their joined lines.
proof fn lemma_val_for_text(a: Seq<char>, vs: Seq<Seq<char>>)
    ensures
        val_lines_for(a, vs) == joined(pair_facts("val"@, pairs_from(a, vs))),
    decreases vs.len(),
{
    if vs.len() > 0 {
        lemma_val_for_text(a, vs.drop_last());
        lemma_fact_texts("val"@, a, vs.last());
        assert(pair_facts("val"@, pairs_from(a, vs)).drop_last() =~= pair_facts("val"@, pairs_from(a, vs.drop_last())));
        assert(pair_facts("val"@, pairs_from(a, vs)).last() == line2("val"@, a, vs.last()));
    }
}

/// The text of the `val` facts is their joined lines.
proof fn lemma_val_text(values: ValueAssignment, s: Seq<Seq<char>>)
    ensures
        val_lines(values, s) == joined(pair_facts("val"@, val_pairs(values, s))),
    decreases s.len(),
{
    if s.len() > 0 {
        lemma_val_text(values, s.drop_last());
        let vs = values.values_of(s.last());
        lemma_val_for_text(s.last(), vs);
        lemma_pair_facts_concat("val"@, val_pairs(values, s.drop_last()), pairs_from(s.last(), vs));
        lemma_joined_concat(pair_facts("val"@, val_pairs(values, s.drop_last())), pair_facts("val"@, pairs_from(s.last(), vs)));
    }
}

/// The text of the `valpref` facts of one value is their joined lines.
proof fn lemma_pref_for_text(ts: Seq<Seq<Seq<char>>>, a: Seq<char>, bs: Seq<Seq<char>>)
    ensures
        pref_lines_for(ts, a, bs) == joined(pair_facts("valpref"@, pref_pairs_for(ts, a, bs))),
    decreases bs.len(),
{
    if bs.len() > 0 {
        lemma_pref_for_text(ts, a, bs.drop_last());
        lemma_fact_texts("valpref"@, a, bs.last());
        let prev = pref_pairs_for(ts, a, bs.drop_last());
        if prefers_in(ts, a, bs.last()) {
            assert(pair_facts("valpref"@, pref_pairs_for(ts, a, bs)) =~= pair_facts("valpref"@, prev).push(line2("valpref"@, a, bs.last())));
            assert(pair_facts("valpref"@, pref_pairs_for(ts, a, bs)).drop_last() =~= pair_facts("valpref"@, prev));
        } else {
            assert(pref_pairs_for(ts, a, bs) =~= prev);
            assert(pref_lines_for(ts, a, bs) =~= pref_lines_for(ts, a, bs.drop_last()));
        }
    }
}

/// The text of the `valpref` facts is their joined lines.
proof fn lemma_pref_text(ts: Seq<Seq<Seq<char>>>, s: Seq<Seq<char>>, bs: Seq<Seq<char>>)
    ensures
        pref_lines(ts, s, bs) == joined(pair_facts("valpref"@, pref_pairs(ts, s, bs))),
    decreases s.len(),
{
    if s.len() > 0 {
        lemma_pref_text(ts, s.drop_last(), bs);
        lemma_pref_for_text(ts, s.last(), bs);
        lemma_pair_facts_concat("valpref"@, pref_pairs(ts, s.drop_last(), bs), pref_pairs_for(ts, s.last(), bs));
        lemma_joined_concat(pair_facts("valpref"@, pref_pairs(ts, s.drop_last(), bs)),
            pair_facts("valpref"@, pref_pairs_for(ts, s.last(), bs)));
    }
}

/// One more line of facts: the model it leads to.
proof fn lemma_run_next(ls: Seq<Seq<char>>, n: int, m: ApxModel, p: Seq<char>, args: Seq<Seq<char>>)
    requires
        0 <= n < ls.len(),
        apx_run(ls.take(n)) == ApxOutcome::Read(m),
        read_line(ls[n]) == Ok::<Option<(Seq<char>, Seq<Seq<char>>)>, Seq<char>>(Some((p, args))),
    ensures
        apx_run(ls.take(n + 1)) == apply_fact(m, p, args),
{
    assert(ls.take(n + 1).drop_last() =~= ls.take(n));
    assert(ls.take(n + 1).last() == ls[n]);
}

/// Reading `arg` facts for distinct new names appends them.
proof fn lemma_run_args(ls: Seq<Seq<char>>, o: int, names: Seq<Seq<char>>, m0: ApxModel, k: int)
    requires
        0 <= o,
        0 <= k <= names.len(),
        o + names.len() <= ls.len(),
        forall|i: int| 0 <= i < names.len() ==> ls[o + i] == #[trigger] line1("arg"@, names[i]),
        forall|i: int| 0 <= i < names.len() ==> plain(#[trigger] names[i]),
        (m0.names + names).no_duplicates(),
        apx_run(ls.take(o)) == ApxOutcome::Read(m0),
    ensures
        apx_run(ls.take(o + k)) == ApxOutcome::Read(ApxModel {
            names: m0.names + names.take(k), attacks: m0.attacks, values: m0.values, prefs: m0.prefs }),
    decreases k,
{
    if k == 0 {
        assert(m0.names + names.take(0) =~= m0.names);
    } else {
        lemma_run_args(ls, o, names, m0, k - 1);
        let prev = ApxModel { names: m0.names + names.take(k - 1), attacks: m0.attacks, values: m0.values, prefs: m0.prefs };
        let x = names[k - 1];
        assert(ls[o + (k - 1)] == line1("arg"@, names[k - 1]));
        lemma_read_line1(x);
        lemma_run_next(ls, o + k - 1, prev, "arg"@, seq![x]);
        assert(!prev.names.contains(x)) by {
            if prev.names.contains(x) {
                let j = choose|j: int| 0 <= j < prev.names.len() && prev.names[j] == x;
                let all = m0.names + names;
                assert(all[j] == x);
                assert(all[m0.names.len() + k - 1] == x);
            }
        }
        assert(prev.names.push(x) =~= m0.names + names.take(k));
    }
}

/// Reading `att` facts between known names adds the attacks.
proof fn lemma_run_atts(ls: Seq<Seq<char>>, o: int, ps: Seq<(Seq<char>, Seq<char>)>, m0: ApxModel, k: int)
    requires
        0 <= o,
        0 <= k <= ps.len(),
        o + ps.len() <= ls.len(),
        forall|i: int| 0 <= i < ps.len() ==> ls[o + i] == #[trigger] line2("att"@, ps[i].0, ps[i].1),
        forall|i: int| 0 <= i < ps.len() ==> plain((#[trigger] ps[i]).0) && plain(ps[i].1)
            && m0.names.contains(ps[i].0) && m0.names.contains(ps[i].1),
        apx_run(ls.take(o)) == ApxOutcome::Read(m0),
    ensures
        apx_run(ls.take(o + k)) == ApxOutcome::Read(ApxModel {
            names: m0.names, attacks: m0.attacks + ps.take(k).to_set(), values: m0.values, prefs: m0.prefs }),
    decreases k,
{
    lemma_predicates();
    if k == 0 {
        assert(m0.attacks + ps.take(0).to_set() =~= m0.attacks);
    } else {
        lemma_run_atts(ls, o, ps, m0, k - 1);
        let prev = ApxModel { names: m0.names, attacks: m0.attacks + ps.take(k - 1).to_set(), values: m0.values, prefs: m0.prefs };
        let q = ps[k - 1];
        assert(ls[o + (k - 1)] == line2("att"@, ps[k - 1].0, ps[k - 1].1));
        lemma_read_line2("att"@, q.0, q.1);
        lemma_run_next(ls, o + k - 1, prev, "att"@, seq![q.0, q.1]);
        assert(ps.take(k) =~= ps.take(k - 1).push(q));
        ps.take(k - 1).lemma_push_to_set_commute(q);
        assert(prev.attacks.insert((q.0, q.1)) =~= m0.attacks + ps.take(k).to_set());
    }
}

/// `f` with each pair's value added to its argument's values, in order.
pub open spec fn fold_values(f: spec_fn(Seq<char>) -> Seq<Seq<char>>, ps: Seq<(Seq<char>, Seq<char>)>) -> spec_fn(Seq<char>) -> Seq<Seq<char>>
    decreases ps.len(),
{
    if ps.len() == 0 {
        f
    } else {
        with_value(fold_values(f, ps.drop_last()), ps.last().0, ps.last().1)
    }
}

/// Reading `val` facts adds the values.
proof fn lemma_run_vals(ls: Seq<Seq<char>>, o: int, ps: Seq<(Seq<char>, Seq<char>)>, m0: ApxModel, k: int)
    requires
        0 <= o,
        0 <= k <= ps.len(),
        o + ps.len() <= ls.len(),
        forall|i: int| 0 <= i < ps.len() ==> ls[o + i] == #[trigger] line2("val"@, ps[i].0, ps[i].1),
        forall|i: int| 0 <= i < ps.len() ==> plain((#[trigger] ps[i]).0) && plain(ps[i].1),
        apx_run(ls.take(o)) == ApxOutcome::Read(m0),
    ensures
        apx_run(ls.take(o + k)) == ApxOutcome::Read(ApxModel {
            names: m0.names, attacks: m0.attacks, values: fold_values(m0.values, ps.take(k)), prefs: m0.prefs }),
    decreases k,
{
    lemma_predicates();
    if k == 0 {
        assert(ps.take(0) =~= Seq::<(Seq<char>, Seq<char>)>::empty());
    } else {
        lemma_run_vals(ls, o, ps, m0, k - 1);
        let prev = ApxModel { names: m0.names, attacks: m0.attacks, values: fold_values(m0.values, ps.take(k - 1)), prefs: m0.prefs };
        let q = ps[k - 1];
        assert(ls[o + (k - 1)] == line2("val"@, ps[k - 1].0, ps[k - 1].1));
        lemma_read_line2("val"@, q.0, q.1);
        lemma_run_next(ls, o + k - 1, prev, "val"@, seq![q.0, q.1]);
        assert(ps.take(k).drop_last() =~= ps.take(k - 1));
        assert(ps.take(k).last() == q);
    }
}

/// Reading `valpref` facts appends the preferences.
proof fn lemma_run_prefs(ls: Seq<Seq<char>>, o: int, ps: Seq<(Seq<char>, Seq<char>)>, m0: ApxModel, k: int)
    requires
        0 <= o,
        0 <= k <= ps.len(),
        o + ps.len() <= ls.len(),
        forall|i: int| 0 <= i < ps.len() ==> ls[o + i] == #[trigger] line2("valpref"@, ps[i].0, ps[i].1),
        forall|i: int| 0 <= i < ps.len() ==> plain((#[trigger] ps[i]).0) && plain(ps[i].1),
        apx_run(ls.take(o)) == ApxOutcome::Read(m0),
    ensures
        apx_run(ls.take(o + k)) == ApxOutcome::Read(ApxModel {
            names: m0.names, attacks: m0.attacks, values: m0.values, prefs: m0.prefs + ps.take(k) }),
    decreases k,
{
    lemma_predicates();
    if k == 0 {
        assert(m0.prefs + ps.take(0) =~= m0.prefs);
    } else {
        lemma_run_prefs(ls, o, ps, m0, k - 1);
        let prev = ApxModel { names: m0.names, attacks: m0.attacks, values: m0.values, prefs: m0.prefs + ps.take(k - 1) };
        let q = ps[k - 1];
        assert(ls[o + (k - 1)] == line2("valpref"@, ps[k - 1].0, ps[k - 1].1));
        lemma_read_line2("valpref"@, q.0, q.1);
        lemma_run_next(ls, o + k - 1, prev, "valpref"@, seq![q.0, q.1]);
        assert((m0.prefs + ps.take(k - 1)).push((q.0, q.1)) =~= m0.prefs + ps.take(k));
    }
}

/// The pairs written for the attacks: each target of `s` with each of
/// its attackers.
proof fn lemma_att_pairs_contains(base: ArgumentationFramework, s: Seq<Seq<char>>, u: Seq<char>, t: Seq<char>)
    ensures
        att_pairs(base, s).contains((u, t)) <==> s.contains(t) && sorted_of(attackers_of(base, t)).contains(u),
    decreases s.len(),
{
    if s.len() > 0 {
        let s2 = s.drop_last();
        lemma_att_pairs_contains(base, s2, u, t);
        let us = sorted_of(attackers_of(base, s.last()));
        let a = att_pairs(base, s2);
        let b = pairs_to(us, s.last());
        if (a + b).contains((u, t)) {
            let k = choose|k: int| 0 <= k < (a + b).len() && (a + b)[k] == (u, t);
            if k < a.len() {
                assert(a[k] == (u, t));
                let j = choose|j: int| 0 <= j < s2.len() && s2[j] == t;
                assert(s[j] == t);
            } else {
                assert(b[k - a.len()] == (u, t));
                assert(us[k - a.len()] == u);
                assert(s[s.len() - 1] == t);
            }
        }
        if s.contains(t) && sorted_of(attackers_of(base, t)).contains(u) {
            let j = choose|j: int| 0 <= j < s.len() && s[j] == t;
            if j < s.len() - 1 {
                assert(s2[j] == t);
                let k = choose|k: int| 0 <= k < a.len() && a[k] == (u, t);
                assert((a + b)[k] == (u, t));
            } else {
                let k = choose|k: int| 0 <= k < us.len() && us[k] == u;
                assert(b[k] == (u, t));
                assert((a + b)[a.len() + k] == (u, t));
            }
        }
    }
}

/// The pairs written for the values: each argument of `s` with each of
/// its values.
proof fn lemma_val_pairs_contains(values: ValueAssignment, s: Seq<Seq<char>>, a: Seq<char>, v: Seq<char>)
    ensures
        val_pairs(values, s).contains((a, v)) <==> s.contains(a) && values.values_of(a).contains(v),
    decreases s.len(),
{
    if s.len() > 0 {
        let s2 = s.drop_last();
        lemma_val_pairs_contains(values, s2, a, v);
        let vs = values.values_of(s.last());
        let x = val_pairs(values, s2);
        let y = pairs_from(s.last(), vs);
        if (x + y).contains((a, v)) {
            let k = choose|k: int| 0 <= k < (x + y).len() && (x + y)[k] == (a, v);
            if k < x.len() {
                assert(x[k] == (a, v));
                let j = choose|j: int| 0 <= j < s2.len() && s2[j] == a;
                assert(s[j] == a);
            } else {
                assert(y[k - x.len()] == (a, v));
                assert(vs[k - x.len()] == v);
                assert(s[s.len() - 1] == a);
            }
        }
        if s.contains(a) && values.values_of(a).contains(v) {
            let j = choose|j: int| 0 <= j < s.len() && s[j] == a;
            if j < s.len() - 1 {
                assert(s2[j] == a);
                let k = choose|k: int| 0 <= k < x.len() && x[k] == (a, v);
                assert((x + y)[k] == (a, v));
            } else {
                let k = choose|k: int| 0 <= k < vs.len() && vs[k] == v;
                assert(y[k] == (a, v));
                assert((x + y)[x.len() + k] == (a, v));
            }
        }
    }
}

/// The preferences written for one value.
proof fn lemma_pref_for_contains(ts: Seq<Seq<Seq<char>>>, a0: Seq<char>, bs: Seq<Seq<char>>, a: Seq<char>, b: Seq<char>)
    ensures
        pref_pairs_for(ts, a0, bs).contains((a, b)) <==> a == a0 && bs.contains(b) && prefers_in(ts, a, b),
    decreases bs.len(),
{
    if bs.len() > 0 {
        let b2 = bs.drop_last();
        lemma_pref_for_contains(ts, a0, b2, a, b);
        let x = pref_pairs_for(ts, a0, b2);
        let y = if prefers_in(ts, a0, bs.last()) { seq![(a0, bs.last())] } else { Seq::<(Seq<char>, Seq<char>)>::empty() };
        if (x + y).contains((a, b)) {
            let k = choose|k: int| 0 <= k < (x + y).len() && (x + y)[k] == (a, b);
            if k < x.len() {
                assert(x[k] == (a, b));
                let j = choose|j: int| 0 <= j < b2.len() && b2[j] == b;
                assert(bs[j] == b);
            } else {
                assert(y[k - x.len()] == (a, b));
                assert(bs[bs.len() - 1] == b);
            }
        }
        if a == a0 && bs.contains(b) && prefers_in(ts, a, b) {
            let j = choose|j: int| 0 <= j < bs.len() && bs[j] == b;
            if j < bs.len() - 1 {
                assert(b2[j] == b);
                let k = choose|k: int| 0 <= k < x.len() && x[k] == (a, b);
                assert((x + y)[k] == (a, b));
            } else {
                assert((x + y)[x.len() as int] == (a, b));
            }
        }
    }
}

/// The preferences written.
proof fn lemma_pref_pairs_contains(ts: Seq<Seq<Seq<char>>>, s: Seq<Seq<char>>, bs: Seq<Seq<char>>, a: Seq<char>, b: Seq<char>)
    ensures
        pref_pairs(ts, s, bs).contains((a, b)) <==> s.contains(a) && bs.contains(b) && prefers_in(ts, a, b),
    decreases s.len(),
{
    if s.len() > 0 {
        let s2 = s.drop_last();
        lemma_pref_pairs_contains(ts, s2, bs, a, b);
        lemma_pref_for_contains(ts, s.last(), bs, a, b);
        let x = pref_pairs(ts, s2, bs);
        let y = pref_pairs_for(ts, s.last(), bs);
        if (x + y).contains((a, b)) {
            let k = choose|k: int| 0 <= k < (x + y).len() && (x + y)[k] == (a, b);
            if k < x.len() {
                assert(x[k] == (a, b));
                let j = choose|j: int| 0 <= j < s2.len() && s2[j] == a;
                assert(s[j] == a);
            } else {
                assert(y[k - x.len()] == (a, b));
                assert(y.contains((a, b)));
                assert(s[s.len() - 1] == a);
            }
        }
        if s.contains(a) && bs.contains(b) && prefers_in(ts, a, b) {
            let j = choose|j: int| 0 <= j < s.len() && s[j] == a;
            if j < s.len() - 1 {
                assert(s2[j] == a);
                let k = choose|k: int| 0 <= k < x.len() && x[k] == (a, b);
                assert((x + y)[k] == (a, b));
            } else {
                assert(y.contains((a, b)));
                let k = choose|k: int| 0 <= k < y.len() && y[k] == (a, b);
                assert((x + y)[x.len() + k] == (a, b));
            }
        }
    }
}

/// Folding in the values of one argument, which it does not have yet,
/// gives it exactly those values.
proof fn lemma_fold_block(g: spec_fn(Seq<char>) -> Seq<Seq<char>>, a0: Seq<char>, vs: Seq<Seq<char>>, a: Seq<char>)
    requires
        g(a0) == Seq::<Seq<char>>::empty(),
        vs.no_duplicates(),
    ensures
        (fold_values(g, pairs_from(a0, vs)))(a) == if a == a0 { vs } else { g(a) },
    decreases vs.len(),
{
    if vs.len() > 0 {
        let v2 = vs.drop_last();
        assert(pairs_from(a0, vs).drop_last() =~= pairs_from(a0, v2));
        assert(pairs_from(a0, vs).last() == (a0, vs.last()));
        lemma_fold_block(g, a0, v2, a);
        lemma_fold_block(g, a0, v2, a0);
        assert(!v2.contains(vs.last())) by {
            if v2.contains(vs.last()) {
                let k = choose|k: int| 0 <= k < v2.len() && v2[k] == vs.last();
                assert(vs[k] == vs[vs.len() - 1]);
            }
        }
        assert(v2.push(vs.last()) =~= vs);
    } else {
        assert(pairs_from(a0, vs) =~= Seq::<(Seq<char>, Seq<char>)>::empty());
    }
}

/// Folding a joined list of pairs folds each part in turn.
proof fn lemma_fold_concat(f: spec_fn(Seq<char>) -> Seq<Seq<char>>, x: Seq<(Seq<char>, Seq<char>)>, y: Seq<(Seq<char>, Seq<char>)>)
    ensures
        fold_values(f, x + y) == fold_values(fold_values(f, x), y),
    decreases y.len(),
{
    if y.len() == 0 {
        assert(x + y =~= x);
    } else {
        lemma_fold_concat(f, x, y.drop_last());
        assert((x + y).drop_last() =~= x + y.drop_last());
        assert((x + y).last() == y.last());
    }
}

/// Folding the written values of distinct arguments gives each its values.
proof fn lemma_fold_vals(values: ValueAssignment, s: Seq<Seq<char>>, a: Seq<char>, e: spec_fn(Seq<char>) -> Seq<Seq<char>>)
    requires
        values.wf(),
        s.no_duplicates(),
        forall|x: Seq<char>| #[trigger] e(x) == Seq::<Seq<char>>::empty(),
    ensures
        (fold_values(e, val_pairs(values, s)))(a)
            == if s.contains(a) { values.values_of(a) } else { Seq::<Seq<char>>::empty() },
    decreases s.len(),
{
    if s.len() > 0 {
        let s2 = s.drop_last();
        let a0 = s.last();
        assert(s2.no_duplicates());
        lemma_fold_vals(values, s2, a, e);
        lemma_fold_vals(values, s2, a0, e);
        assert(!s2.contains(a0)) by {
            if s2.contains(a0) {
                let k = choose|k: int| 0 <= k < s2.len() && s2[k] == a0;
                assert(s[k] == s[s.len() - 1]);
            }
        }
        let g = fold_values(e, val_pairs(values, s2));
        lemma_fold_concat(e, val_pairs(values, s2), pairs_from(a0, values.values_of(a0)));
        values.lemma_values_distinct(a0);
        lemma_fold_block(g, a0, values.values_of(a0), a);
        if a != a0 {
            assert(s.contains(a) <==> s2.contains(a)) by {
                if s.contains(a) {
                    let k = choose|k: int| 0 <= k < s.len() && s[k] == a;
                    assert(s2[k] == a);
                }
                if s2.contains(a) {
                    let k = choose|k: int| 0 <= k < s2.len() && s2[k] == a;
                    assert(s[k] == a);
                }
            }
        } else {
            assert(s[s.len() - 1] == a);
        }
    } else {
        assert(!s.contains(a));
    }
}

/// Writing a value-based framework and an audience as APX text and
/// reading the text back gives the same arguments, the same attacks
/// between them, the same values for each argument, and one preference
/// for each pair of the audience's values that it ranks apart; provided
/// every name the text carries is plain (no line feed, `%`, parenthesis
/// or comma in it, and no white space around it). The arguments come
/// back in ascending order.
#[verifier::spinoff_prover]
#[verifier::rlimit(40)]
pub proof fn law_apx_round_trip(vaf: ValueBasedFramework, audience: Audience)
    requires
        vaf.wf(),
        forall|i: int| 0 <= i < vaf.size() ==> plain(#[trigger] vaf.base_af().arg_names()[i]),
        forall|a: Seq<char>| #[trigger] vaf.assignment().values_of(a).len() > 0 ==> plain(a),
        forall|a: Seq<char>, k: int| 0 <= k < vaf.assignment().values_of(a).len()
            ==> plain(#[trigger] vaf.assignment().values_of(a)[k]),
        forall|v: Seq<char>| #[trigger] dedup(concat_all(audience.ranking())).contains(v) ==> plain(v),
    ensures
        apx_run(lines_of(apx_text(vaf, audience))) matches ApxOutcome::Read(m)
            && m.names.to_set() == vaf.base_af().arg_names().to_set()
            && (forall|u: Seq<char>, t: Seq<char>| #[trigger] m.attacks.contains((u, t)) <==> exists|i: int, j: int|
                0 <= i < vaf.size() && 0 <= j < vaf.size() && #[trigger] (vaf.base_af().attacks())(i, j)
                && vaf.base_af().arg_names()[i] == u && vaf.base_af().arg_names()[j] == t)
            && (forall|a: Seq<char>| #[trigger] (m.values)(a) == vaf.assignment().values_of(a))
            && (forall|a: Seq<char>, b: Seq<char>| #[trigger] m.prefs.contains((a, b)) <==>
                dedup(concat_all(audience.ranking())).contains(a) && dedup(concat_all(audience.ranking())).contains(b)
                && prefers_in(audience.ranking(), a, b)),
{
    vaf.lemma_wf();
    let base = vaf.base_af();
    let values = vaf.assignment();
    let ts = audience.ranking();
    let dv = dedup(concat_all(ts));
    let names_set = base.arg_names().to_set();
    crate::order::lemma_sorted_exists(names_set);
    let ns = sorted_of(names_set);
    crate::order::lemma_sorted_distinct(ns);
    let pro = promoting(values);
    values.lemma_promoting_finite();
    assert(pro =~= Set::new(|a: Seq<char>| values.values_of(a).len() > 0));
    crate::order::lemma_sorted_exists(pro);
    let ps = sorted_of(pro);
    crate::order::lemma_sorted_distinct(ps);
    assert forall|t: Seq<char>| #![trigger attackers_of(base, t)] attackers_of(base, t).finite()
        && sorted_of(attackers_of(base, t)).to_set() == attackers_of(base, t) by {
        assert(attackers_of(base, t).subset_of(names_set)) by {
            assert forall|u: Seq<char>| attackers_of(base, t).contains(u) implies names_set.contains(u) by {
                let (i, j) = choose|i: int, j: int| 0 <= i < base.size() && 0 <= j < base.size()
                    && #[trigger] (base.attacks())(i, j) && base.arg_names()[i] == u && base.arg_names()[j] == t;
                assert(base.arg_names().contains(u));
            }
        }
        vstd::set_lib::lemma_set_subset_finite(names_set, attackers_of(base, t));
        crate::order::lemma_sorted_exists(attackers_of(base, t));
    }
    let tp = att_pairs(base, ns);
    let vp = val_pairs(values, ps);
    let pp = pref_pairs(ts, dv, dv);
    let la = arg_facts(ns);
    let lt = pair_facts("att"@, tp);
    let lv = pair_facts("val"@, vp);
    let lp = pair_facts("valpref"@, pp);
    let ls = la + lt + lv + lp;
    // Every name written is plain.
    assert forall|i: int| 0 <= i < ns.len() implies plain(#[trigger] ns[i]) by {
        assert(ns.to_set().contains(ns[i]));
        let j = choose|j: int| 0 <= j < base.arg_names().len() && base.arg_names()[j] == ns[i];
        assert(plain(base.arg_names()[j]));
    }
    assert forall|i: int| 0 <= i < tp.len() implies plain((#[trigger] tp[i]).0) && plain(tp[i].1)
        && ns.contains(tp[i].0) && ns.contains(tp[i].1) by {
        let (u, t) = tp[i];
        assert(tp.contains((u, t)));
        lemma_att_pairs_contains(base, ns, u, t);
        assert(sorted_of(attackers_of(base, t)).to_set().contains(u));
        assert(attackers_of(base, t).contains(u));
        let (a, b) = choose|a: int, b: int| 0 <= a < base.size() && 0 <= b < base.size()
            && #[trigger] (base.attacks())(a, b) && base.arg_names()[a] == u && base.arg_names()[b] == t;
        assert(plain(base.arg_names()[a]));
        assert(plain(base.arg_names()[b]));
        assert(names_set.contains(u));
        assert(ns.to_set().contains(u));
        assert(ns.to_set().contains(t));
    }
    assert forall|i: int| 0 <= i < vp.len() implies plain((#[trigger] vp[i]).0) && plain(vp[i].1) by {
        let (a, v) = vp[i];
        assert(vp.contains((a, v)));
        lemma_val_pairs_contains(values, ps, a, v);
        assert(ps.to_set().contains(a));
        assert(values.values_of(a).len() > 0);
        let k = choose|k: int| 0 <= k < values.values_of(a).len() && values.values_of(a)[k] == v;
        assert(plain(values.values_of(a)[k]));
    }
    assert forall|i: int| 0 <= i < pp.len() implies plain((#[trigger] pp[i]).0) && plain(pp[i].1) by {
        let (a, b) = pp[i];
        assert(pp.contains((a, b)));
        lemma_pref_pairs_contains(ts, dv, dv, a, b);
    }
    // The text is the joined fact lines.
    lemma_arg_text(ns);
    lemma_att_text(base, ns);
    lemma_val_text(values, ps);
    lemma_pref_text(ts, dv, dv);
    lemma_joined_concat(la, lt);
    lemma_joined_concat(la + lt, lv);
    lemma_joined_concat(la + lt + lv, lp);
    assert(apx_text(vaf, audience) == joined(ls));
    lemma_predicates();
    assert forall|k: int| 0 <= k < ls.len() implies one_line(#[trigger] ls[k]) by {
        if k < la.len() {
            lemma_read_line1(ns[k]);
        } else if k < la.len() + lt.len() {
            let q = tp[k - la.len()];
            lemma_read_line2("att"@, q.0, q.1);
        } else if k < la.len() + lt.len() + lv.len() {
            let q = vp[k - la.len() - lt.len()];
            lemma_read_line2("val"@, q.0, q.1);
        } else {
            let q = pp[k - la.len() - lt.len() - lv.len()];
            lemma_read_line2("valpref"@, q.0, q.1);
        }
    }
    lemma_lines_joined(ls);
    // Reading the lines in turn.
    let o1 = la.len() as int;
    let o2 = o1 + lt.len();
    let o3 = o2 + lv.len();
    let m0 = empty_model();
    assert(ls.take(0) =~= Seq::<Seq<char>>::empty());
    assert(m0.names + ns =~= ns);
    assert forall|i: int| 0 <= i < ns.len() implies ls[0 + i] == #[trigger] line1("arg"@, ns[i]) by {
        assert(ls[i] == la[i]);
    }
    lemma_run_args(ls, 0, ns, m0, ns.len() as int);
    assert(ns.take(ns.len() as int) =~= ns);
    let m1 = ApxModel { names: ns, attacks: m0.attacks, values: m0.values, prefs: m0.prefs };
    assert(m0.names + ns.take(ns.len() as int) =~= ns);
    assert forall|i: int| 0 <= i < tp.len() implies ls[o1 + i] == #[trigger] line2("att"@, tp[i].0, tp[i].1) by {
        assert(ls[o1 + i] == lt[i]);
    }
    lemma_run_atts(ls, o1, tp, m1, tp.len() as int);
    assert(tp.take(tp.len() as int) =~= tp);
    let m2 = ApxModel { names: ns, attacks: m0.attacks + tp.to_set(), values: m0.values, prefs: m0.prefs };
    assert forall|i: int| 0 <= i < vp.len() implies ls[o2 + i] == #[trigger] line2("val"@, vp[i].0, vp[i].1) by {
        assert(ls[o2 + i] == lv[i]);
    }
    lemma_run_vals(ls, o2, vp, m2, vp.len() as int);
    assert(vp.take(vp.len() as int) =~= vp);
    let m3 = ApxModel { names: ns, attacks: m2.attacks, values: fold_values(m0.values, vp), prefs: m0.prefs };
    assert forall|i: int| 0 <= i < pp.len() implies ls[o3 + i] == #[trigger] line2("valpref"@, pp[i].0, pp[i].1) by {
        assert(ls[o3 + i] == lp[i]);
    }
    lemma_run_prefs(ls, o3, pp, m3, pp.len() as int);
    assert(pp.take(pp.len() as int) =~= pp);
    assert(ls.take(ls.len() as int) =~= ls);
    let m = ApxModel { names: ns, attacks: m2.attacks, values: m3.values, prefs: m0.prefs + pp };
    assert(o3 + pp.len() == ls.len());
    assert(apx_run(lines_of(apx_text(vaf, audience))) == ApxOutcome::Read(m));
    // What the model holds.
    assert forall|u: Seq<char>, t: Seq<char>| #[trigger] m.attacks.contains((u, t)) <==> exists|i: int, j: int|
        0 <= i < vaf.size() && 0 <= j < vaf.size() && #[trigger] (vaf.base_af().attacks())(i, j)
        && vaf.base_af().arg_names()[i] == u && vaf.base_af().arg_names()[j] == t by {
        lemma_att_pairs_contains(base, ns, u, t);
        assert(m.attacks.contains((u, t)) <==> tp.contains((u, t)));
        assert(sorted_of(attackers_of(base, t)).to_set() == attackers_of(base, t));
        if exists|i: int, j: int| 0 <= i < vaf.size() && 0 <= j < vaf.size() && #[trigger] (vaf.base_af().attacks())(i, j)
            && vaf.base_af().arg_names()[i] == u && vaf.base_af().arg_names()[j] == t {
            assert(attackers_of(base, t).contains(u));
            assert(sorted_of(attackers_of(base, t)).to_set().contains(u));
            let (i, j) = choose|i: int, j: int| 0 <= i < vaf.size() && 0 <= j < vaf.size() && #[trigger] (vaf.base_af().attacks())(i, j)
                && vaf.base_af().arg_names()[i] == u && vaf.base_af().arg_names()[j] == t;
            assert(base.arg_names().contains(t));
            assert(ns.to_set().contains(t));
        }
        if tp.contains((u, t)) {
            assert(sorted_of(attackers_of(base, t)).to_set().contains(u));
        }
    }
    assert forall|a: Seq<char>| #[trigger] (m.values)(a) == vaf.assignment().values_of(a) by {
        lemma_fold_vals(values, ps, a, m0.values);
        if !ps.contains(a) {
            assert(!ps.to_set().contains(a));
            assert(!pro.contains(a));
        }
    }
    assert forall|a: Seq<char>, b: Seq<char>| #[trigger] m.prefs.contains((a, b)) <==>
        dv.contains(a) && dv.contains(b) && prefers_in(ts, a, b) by {
        lemma_pref_pairs_contains(ts, dv, dv, a, b);
        assert(m.prefs =~= pp);
    }
}

// ---------------------------------------------------------------------
// Preferences kept
// ---------------------------------------------------------------------

/// A value held by some tier has a first such tier.
proof fn lemma_rank_found(ts: Seq<Seq<Seq<char>>>, v: Seq<char>, i: int)
    requires
        0 <= i < ts.len(),
        ts[i].contains(v),
    ensures
        rank_in(ts, v) matches Some(r) && 0 <= r <= i && ts[r].contains(v)
            && forall|j: int| 0 <= j < r ==> !(#[trigger] ts[j].contains(v)),
    decreases i,
{
    reveal(rank_in);
    if exists|j: int| 0 <= j < i && #[trigger] ts[j].contains(v) {
        let j = choose|j: int| 0 <= j < i && #[trigger] ts[j].contains(v);
        lemma_rank_found(ts, v, j);
    } else {
        assert(0 <= i < ts.len() && ts[i].contains(v) && forall|j: int| 0 <= j < i ==> !(#[trigger] ts[j].contains(v)));
        let r = rank_in(ts, v)->Some_0;
        if r < i {
            assert(ts[r].contains(v));
        } else if r > i {
            assert(!ts[i].contains(v));
        }
    }
}

/// The rank of a value after one more tier in front.
proof fn lemma_rank_cons(x: Seq<Seq<char>>, ts: Seq<Seq<Seq<char>>>, v: Seq<char>)
    ensures
        rank_in(ts, v) matches Some(r) ==> 0 <= r,
        rank_in(seq![x] + ts, v) == if x.contains(v) {
            Some(0int)
        } else {
            match rank_in(ts, v) {
                Some(r) => Some(r + 1),
                None => None,
            }
        },
{
    reveal(rank_in);
    if exists|i: int| 0 <= i < ts.len() && #[trigger] ts[i].contains(v) {
        let i = choose|i: int| 0 <= i < ts.len() && #[trigger] ts[i].contains(v);
        lemma_rank_found(ts, v, i);
    }
    let u = seq![x] + ts;
    assert(u[0] == x);
    if x.contains(v) {
        lemma_rank_found(u, v, 0);
    } else if exists|i: int| 0 <= i < ts.len() && #[trigger] ts[i].contains(v) {
        let i = choose|i: int| 0 <= i < ts.len() && #[trigger] ts[i].contains(v);
        lemma_rank_found(ts, v, i);
        let r = rank_in(ts, v)->Some_0;
        assert(u[r + 1] == ts[r]);
        lemma_rank_found(u, v, r + 1);
        let q = rank_in(u, v)->Some_0;
        if q < r + 1 {
            assert(q != 0);
            assert(u[q] == ts[q - 1]);
        }
    } else {
        if exists|i: int| 0 <= i < u.len() && #[trigger] u[i].contains(v) {
            let i = choose|i: int| 0 <= i < u.len() && #[trigger] u[i].contains(v);
            assert(i != 0);
            assert(u[i] == ts[i - 1]);
        }
    }
}

/// The tier taken from what is left: the unbeaten values, or all that
/// is left where a cycle leaves none unbeaten.
#[verifier::opaque]
pub open spec fn next_tier(ps: Seq<(Seq<char>, Seq<char>)>, rest: Set<Seq<char>>) -> Set<Seq<char>> {
    if unbeaten(ps, rest).len() > 0 { unbeaten(ps, rest) } else { rest }
}

/// One round of taking a tier.
proof fn lemma_tier_step(ps: Seq<(Seq<char>, Seq<char>)>, rest: Set<Seq<char>>, fuel: nat)
    requires
        rest.finite(),
        rest.len() <= fuel,
        rest.len() > 0,
    ensures
        next_tier(ps, rest).subset_of(rest),
        sorted_of(next_tier(ps, rest)).to_set() == next_tier(ps, rest),
        rest.difference(next_tier(ps, rest)).finite(),
        rest.difference(next_tier(ps, rest)).len() <= fuel - 1,
        pref_tiers(ps, rest, fuel) == seq![sorted_of(next_tier(ps, rest))]
            + pref_tiers(ps, rest.difference(next_tier(ps, rest)), (fuel - 1) as nat),
{
    reveal(next_tier);
    reveal(pref_tiers);
    let free = unbeaten(ps, rest);
    let tier = next_tier(ps, rest);
    assert(tier.subset_of(rest));
    vstd::set_lib::lemma_set_subset_finite(rest, tier);
    crate::order::lemma_sorted_exists(tier);
    let d = rest.difference(tier);
    let x = if free.len() > 0 { free.choose() } else { rest.choose() };
    if free.len() > 0 {
        vstd::set_lib::lemma_set_subset_finite(rest, free);
        vstd::set::axiom_set_choose_len(free);
    } else {
        vstd::set::axiom_set_choose_len(rest);
    }
    assert(tier.contains(x));
    assert(d.subset_of(rest.remove(x)));
    vstd::set_lib::lemma_len_subset(d, rest.remove(x));
}

/// `v` is in some tier of `ts`.
#[verifier::opaque]
pub open spec fn ranked(ts: Seq<Seq<Seq<char>>>, v: Seq<char>) -> bool {
    rank_in(ts, v) is Some
}

/// `a` and `b` are both in tiers of `ts`, `a` in one no later than `b`.
#[verifier::opaque]
pub open spec fn no_later(ts: Seq<Seq<Seq<char>>>, a: Seq<char>, b: Seq<char>) -> bool {
    rank_in(ts, a) matches Some(ra) && rank_in(ts, b) matches Some(rb) && ra <= rb
}

/// A value is ranked after one more tier in front exactly when that tier
/// or the rest holds it.
proof fn lemma_cons_ranked(x: Seq<Seq<char>>, ts: Seq<Seq<Seq<char>>>, v: Seq<char>)
    ensures
        ranked(seq![x] + ts, v) <==> x.contains(v) || ranked(ts, v),
{
    reveal(ranked);
    lemma_rank_cons(x, ts, v);
}

/// The order of two values after one more tier in front.
proof fn lemma_cons_no_later(x: Seq<Seq<char>>, ts: Seq<Seq<Seq<char>>>, a: Seq<char>, b: Seq<char>)
    requires
        (x.contains(a) && (x.contains(b) || ranked(ts, b))) || (!x.contains(a) && !x.contains(b) && no_later(ts, a, b)),
    ensures
        no_later(seq![x] + ts, a, b),
{
    reveal(ranked);
    reveal(no_later);
    lemma_rank_cons(x, ts, a);
    lemma_rank_cons(x, ts, b);
    let u = seq![x] + ts;
    if x.contains(a) {
        assert(rank_in(u, a) == Some(0int));
        if x.contains(b) {
            assert(rank_in(u, b) == Some(0int));
        } else {
            let rb = rank_in(ts, b)->Some_0;
            assert(rank_in(u, b) == Some(rb + 1));
        }
    } else {
        let ra = rank_in(ts, a)->Some_0;
        let rb = rank_in(ts, b)->Some_0;
        assert(rank_in(u, a) == Some(ra + 1));
        assert(rank_in(u, b) == Some(rb + 1));
    }
}

/// Every remaining value gets a tier, and only those.
proof fn lemma_tiers_cover(ps: Seq<(Seq<char>, Seq<char>)>, rest: Set<Seq<char>>, fuel: nat, v: Seq<char>)
    requires
        rest.finite(),
        rest.len() <= fuel,
    ensures
        rest.contains(v) <==> ranked(pref_tiers(ps, rest, fuel), v),
    decreases fuel,
{
    if rest.len() == 0 {
        if rest.contains(v) {
            assert(rest.remove(v).len() == rest.len() - 1);
        }
        reveal(pref_tiers);
        reveal(ranked);
        reveal(rank_in);
        assert(pref_tiers(ps, rest, fuel) =~= Seq::<Seq<Seq<char>>>::empty());
    } else {
        lemma_tier_step(ps, rest, fuel);
        let tier = next_tier(ps, rest);
        let d = rest.difference(tier);
        lemma_tiers_cover(ps, d, (fuel - 1) as nat, v);
        lemma_cons_ranked(sorted_of(tier), pref_tiers(ps, d, (fuel - 1) as nat), v);
        assert(sorted_of(tier).contains(v) <==> tier.contains(v)) by {
            assert(sorted_of(tier).to_set() == tier);
        }
    }
}

/// A value beaten by another value that is left is taken only with all
/// that is left.
proof fn lemma_tier_beaten(ps: Seq<(Seq<char>, Seq<char>)>, rest: Set<Seq<char>>, a: Seq<char>, b: Seq<char>)
    requires
        ps.contains((a, b)),
        rest.contains(a),
        next_tier(ps, rest).contains(b),
    ensures
        next_tier(ps, rest) == rest,
{
    reveal(next_tier);
    let k = choose|k: int| 0 <= k < ps.len() && ps[k] == (a, b);
    assert(beaten(ps, rest, b)) by {
        assert(rest.contains(ps[k].0) && ps[k].1 == b);
    }
    assert(!unbeaten(ps, rest).contains(b));
}

/// A stated preference is never reversed: the preferred value's tier
/// comes no later than the other's.
proof fn lemma_tiers_order(ps: Seq<(Seq<char>, Seq<char>)>, rest: Set<Seq<char>>, fuel: nat, a: Seq<char>, b: Seq<char>)
    requires
        rest.finite(),
        rest.len() <= fuel,
        ps.contains((a, b)),
        rest.contains(a),
        rest.contains(b),
    ensures
        no_later(pref_tiers(ps, rest, fuel), a, b),
    decreases fuel,
{
    assert(rest.len() > 0) by {
        assert(rest.remove(a).len() == rest.len() - 1);
    }
    lemma_tier_step(ps, rest, fuel);
    let tier = next_tier(ps, rest);
    let st = sorted_of(tier);
    let d = rest.difference(tier);
    let next = pref_tiers(ps, d, (fuel - 1) as nat);
    assert(st.contains(a) <==> tier.contains(a)) by {
        assert(st.to_set() == tier);
    }
    assert(st.contains(b) <==> tier.contains(b)) by {
        assert(st.to_set() == tier);
    }
    if tier.contains(b) {
        lemma_tier_beaten(ps, rest, a, b);
    } else if tier.contains(a) {
        lemma_tiers_cover(ps, d, (fuel - 1) as nat, b);
    } else {
        lemma_tiers_order(ps, d, (fuel - 1) as nat, a, b);
    }
    lemma_cons_no_later(st, next, a, b);
}

/// Each stated preference is kept by the audience built from the
/// preferences: both values are ranked, and the second is never
/// preferred to the first (they share a tier only where the preferences
/// run in a cycle).
pub proof fn law_stated_preferences_kept(prefs: Seq<(Seq<char>, Seq<char>)>, k: int)
    requires
        0 <= k < prefs.len(),
    ensures
        rank_in(pref_ranking(prefs), prefs[k].0) is Some,
        rank_in(pref_ranking(prefs), prefs[k].1) is Some,
        !prefers_in(pref_ranking(prefs), prefs[k].1, prefs[k].0),
{
    let (a, b) = prefs[k];
    let firsts = prefs.map_values(|q: (Seq<char>, Seq<char>)| q.0);
    let seconds = prefs.map_values(|q: (Seq<char>, Seq<char>)| q.1);
    vstd::seq_lib::seq_to_set_is_finite(firsts);
    vstd::seq_lib::seq_to_set_is_finite(seconds);
    assert(firsts[k] == a);
    assert(seconds[k] == b);
    assert(firsts.to_set().contains(a));
    assert(seconds.to_set().contains(b));
    assert(prefs.contains((a, b)));
    let u = pref_values(prefs);
    lemma_tiers_order(prefs, u, u.len(), a, b);
    reveal(no_later);
    reveal(prefers_in);
}

/// `a` and `b` are both in tiers of `ts`, `a` in a strictly earlier one.
#[verifier::opaque]
pub open spec fn earlier(ts: Seq<Seq<Seq<char>>>, a: Seq<char>, b: Seq<char>) -> bool {
    rank_in(ts, a) matches Some(ra) && rank_in(ts, b) matches Some(rb) && ra < rb
}

/// The strict order of two values after one more tier in front.
proof fn lemma_cons_earlier(x: Seq<Seq<char>>, ts: Seq<Seq<Seq<char>>>, a: Seq<char>, b: Seq<char>)
    requires
        (x.contains(a) && !x.contains(b) && ranked(ts, b)) || (!x.contains(a) && !x.contains(b) && earlier(ts, a, b)),
    ensures
        earlier(seq![x] + ts, a, b),
{
    reveal(ranked);
    reveal(earlier);
    lemma_rank_cons(x, ts, a);
    lemma_rank_cons(x, ts, b);
    let u = seq![x] + ts;
    if x.contains(a) {
        let rb = rank_in(ts, b)->Some_0;
        assert(rank_in(u, a) == Some(0int));
        assert(rank_in(u, b) == Some(rb + 1));
    } else {
        let ra = rank_in(ts, a)->Some_0;
        let rb = rank_in(ts, b)->Some_0;
        assert(rank_in(u, a) == Some(ra + 1));
        assert(rank_in(u, b) == Some(rb + 1));
    }
}

/// The preferences are consistent with a numbering that puts each
/// preferred value above the other: they have no cycle.
pub open spec fn layered(ps: Seq<(Seq<char>, Seq<char>)>, h: spec_fn(Seq<char>) -> nat) -> bool {
    forall|k: int| 0 <= k < ps.len() ==> h((#[trigger] ps[k]).0) > h(ps[k].1)
}

/// A nonempty finite set has an element numbered highest.
proof fn lemma_highest(rest: Set<Seq<char>>, h: spec_fn(Seq<char>) -> nat) -> (x: Seq<char>)
    requires
        rest.finite(),
        rest.len() > 0,
    ensures
        rest.contains(x),
        forall|y: Seq<char>| #[trigger] rest.contains(y) ==> h(y) <= h(x),
    decreases rest.len(),
{
    let c = rest.choose();
    vstd::set::axiom_set_choose_len(rest);
    let r = rest.remove(c);
    if r.len() == 0 {
        assert forall|y: Seq<char>| #[trigger] rest.contains(y) implies h(y) <= h(c) by {
            if y != c {
                assert(r.contains(y));
            }
        }
        c
    } else {
        let m = lemma_highest(r, h);
        if h(m) >= h(c) {
            assert forall|y: Seq<char>| #[trigger] rest.contains(y) implies h(y) <= h(m) by {
                if y != c {
                    assert(r.contains(y));
                }
            }
            m
        } else {
            assert forall|y: Seq<char>| #[trigger] rest.contains(y) implies h(y) <= h(c) by {
                if y != c {
                    assert(r.contains(y));
                }
            }
            c
        }
    }
}

/// Without cycles, some value left is unbeaten, so each tier is the
/// unbeaten values.
proof fn lemma_layered_tier(ps: Seq<(Seq<char>, Seq<char>)>, h: spec_fn(Seq<char>) -> nat, rest: Set<Seq<char>>, b: Seq<char>)
    requires
        layered(ps, h),
        rest.finite(),
        rest.len() > 0,
        beaten(ps, rest, b),
    ensures
        !next_tier(ps, rest).contains(b),
{
    reveal(next_tier);
    let x = lemma_highest(rest, h);
    assert(!beaten(ps, rest, x)) by {
        if beaten(ps, rest, x) {
            let k = choose|k: int| 0 <= k < ps.len() && rest.contains(#[trigger] ps[k].0) && ps[k].1 == x;
            assert(h(ps[k].0) > h(ps[k].1));
            assert(h(ps[k].0) <= h(x));
        }
    }
    let free = unbeaten(ps, rest);
    assert(free.contains(x));
    vstd::set_lib::lemma_set_subset_finite(rest, free);
    assert(free.remove(x).len() == free.len() - 1);
    assert(!free.contains(b));
}

/// Without cycles, a stated preference puts the preferred value in a
/// strictly earlier tier.
proof fn lemma_tiers_strict(
    ps: Seq<(Seq<char>, Seq<char>)>,
    h: spec_fn(Seq<char>) -> nat,
    rest: Set<Seq<char>>,
    fuel: nat,
    a: Seq<char>,
    b: Seq<char>,
)
    requires
        layered(ps, h),
        rest.finite(),
        rest.len() <= fuel,
        ps.contains((a, b)),
        rest.contains(a),
        rest.contains(b),
    ensures
        earlier(pref_tiers(ps, rest, fuel), a, b),
    decreases fuel,
{
    assert(rest.len() > 0) by {
        assert(rest.remove(a).len() == rest.len() - 1);
    }
    lemma_tier_step(ps, rest, fuel);
    let tier = next_tier(ps, rest);
    let st = sorted_of(tier);
    let d = rest.difference(tier);
    let next = pref_tiers(ps, d, (fuel - 1) as nat);
    assert(st.contains(a) <==> tier.contains(a)) by {
        assert(st.to_set() == tier);
    }
    assert(st.contains(b) <==> tier.contains(b)) by {
        assert(st.to_set() == tier);
    }
    let k = choose|k: int| 0 <= k < ps.len() && ps[k] == (a, b);
    assert(beaten(ps, rest, b)) by {
        assert(rest.contains(ps[k].0) && ps[k].1 == b);
    }
    lemma_layered_tier(ps, h, rest, b);
    if tier.contains(a) {
        lemma_tiers_cover(ps, d, (fuel - 1) as nat, b);
    } else {
        lemma_tiers_strict(ps, h, d, (fuel - 1) as nat, a, b);
    }
    lemma_cons_earlier(st, next, a, b);
}

/// Where the preferences have no cycle (some numbering of the values
/// puts each preferred value above the other), the audience built from
/// them strictly prefers the first value of each stated preference to
/// the second.
pub proof fn law_acyclic_preferences_hold(prefs: Seq<(Seq<char>, Seq<char>)>, h: spec_fn(Seq<char>) -> nat, k: int)
    requires
        layered(prefs, h),
        0 <= k < prefs.len(),
    ensures
        prefers_in(pref_ranking(prefs), prefs[k].0, prefs[k].1),
{
    let (a, b) = prefs[k];
    let firsts = prefs.map_values(|q: (Seq<char>, Seq<char>)| q.0);
    let seconds = prefs.map_values(|q: (Seq<char>, Seq<char>)| q.1);
    vstd::seq_lib::seq_to_set_is_finite(firsts);
    vstd::seq_lib::seq_to_set_is_finite(seconds);
    assert(firsts[k] == a);
    assert(seconds[k] == b);
    assert(firsts.to_set().contains(a));
    assert(seconds.to_set().contains(b));
    assert(prefs.contains((a, b)));
    let u = pref_values(prefs);
    lemma_tiers_strict(prefs, h, u, u.len(), a, b);
    reveal(earlier);
    reveal(prefers_in);
}

/// `ps` states exactly the preferences of the ranking `ts`.
pub open spec fn states_ranking(ps: Seq<(Seq<char>, Seq<char>)>, ts: Seq<Seq<Seq<char>>>) -> bool {
    forall|x: Seq<char>, y: Seq<char>| #[trigger] ps.contains((x, y)) <==> prefers_in(ts, x, y)
}

/// The layer number that puts values of earlier tiers of `ts` higher.
spec fn tier_height(ts: Seq<Seq<Seq<char>>>, v: Seq<char>) -> nat {
    match rank_in(ts, v) {
        Some(r) => (ts.len() - r) as nat,
        None => 0,
    }
}

/// A rank found in `ts` is a position of `ts`.
proof fn lemma_rank_bounds(ts: Seq<Seq<Seq<char>>>, v: Seq<char>)
    ensures
        rank_in(ts, v) matches Some(r) ==> 0 <= r < ts.len() && ts[r].contains(v),
{
    if exists|i: int| 0 <= i < ts.len() && #[trigger] ts[i].contains(v) {
        let i = choose|i: int| 0 <= i < ts.len() && #[trigger] ts[i].contains(v);
        lemma_rank_found(ts, v, i);
    } else {
        reveal(rank_in);
    }
}

/// A value named by the preferences of a ranking is ranked there.
proof fn lemma_stated_value_ranked(ps: Seq<(Seq<char>, Seq<char>)>, ts: Seq<Seq<Seq<char>>>, v: Seq<char>)
    requires
        states_ranking(ps, ts),
        pref_values(ps).contains(v),
    ensures
        rank_in(ts, v) is Some,
{
    reveal(prefers_in);
    let firsts = ps.map_values(|q: (Seq<char>, Seq<char>)| q.0);
    let seconds = ps.map_values(|q: (Seq<char>, Seq<char>)| q.1);
    if firsts.to_set().contains(v) {
        let k = choose|k: int| 0 <= k < firsts.len() && firsts[k] == v;
        assert(ps.contains(ps[k]));
        assert(ps.contains((ps[k].0, ps[k].1)));
        assert(prefers_in(ts, ps[k].0, ps[k].1));
    } else {
        assert(seconds.to_set().contains(v));
        let k = choose|k: int| 0 <= k < seconds.len() && seconds[k] == v;
        assert(ps.contains(ps[k]));
        assert(ps.contains((ps[k].0, ps[k].1)));
        assert(prefers_in(ts, ps[k].0, ps[k].1));
    }
}

/// Two values preferred over by the same values of what is left are
/// taken in the same round.
proof fn lemma_twins_same_rank(ps: Seq<(Seq<char>, Seq<char>)>, rest: Set<Seq<char>>, fuel: nat, a: Seq<char>, b: Seq<char>)
    requires
        rest.finite(),
        rest.len() <= fuel,
        rest.contains(a),
        rest.contains(b),
        forall|x: Seq<char>| #[trigger] ps.contains((x, a)) <==> ps.contains((x, b)),
    ensures
        rank_in(pref_tiers(ps, rest, fuel), a) == rank_in(pref_tiers(ps, rest, fuel), b),
    decreases fuel,
{
    assert(rest.len() > 0) by {
        assert(rest.remove(a).len() == rest.len() - 1);
    }
    lemma_tier_step(ps, rest, fuel);
    let tier = next_tier(ps, rest);
    let st = sorted_of(tier);
    let d = rest.difference(tier);
    let next = pref_tiers(ps, d, (fuel - 1) as nat);
    assert(beaten(ps, rest, a) == beaten(ps, rest, b)) by {
        if beaten(ps, rest, a) {
            let k = choose|k: int| 0 <= k < ps.len() && rest.contains(#[trigger] ps[k].0) && ps[k].1 == a;
            assert(ps.contains((ps[k].0, a)));
            assert(ps.contains((ps[k].0, b)));
            let j = choose|j: int| 0 <= j < ps.len() && ps[j] == (ps[k].0, b);
            assert(rest.contains(ps[j].0) && ps[j].1 == b);
        }
        if beaten(ps, rest, b) {
            let k = choose|k: int| 0 <= k < ps.len() && rest.contains(#[trigger] ps[k].0) && ps[k].1 == b;
            assert(ps.contains((ps[k].0, b)));
            assert(ps.contains((ps[k].0, a)));
            let j = choose|j: int| 0 <= j < ps.len() && ps[j] == (ps[k].0, a);
            assert(rest.contains(ps[j].0) && ps[j].1 == a);
        }
    }
    assert(tier.contains(a) == tier.contains(b)) by {
        reveal(next_tier);
    }
    assert(st.contains(a) <==> tier.contains(a)) by {
        assert(st.to_set() == tier);
    }
    assert(st.contains(b) <==> tier.contains(b)) by {
        assert(st.to_set() == tier);
    }
    lemma_rank_cons(st, next, a);
    lemma_rank_cons(st, next, b);
    if !tier.contains(a) {
        lemma_twins_same_rank(ps, d, (fuel - 1) as nat, a, b);
    }
}

/// Preferences that state a ranking exactly rebuild it: the ranking the
/// preferences describe prefers one value to another exactly when the
/// original ranking does.
pub proof fn law_stated_ranking_rebuilt(ts: Seq<Seq<Seq<char>>>, ps: Seq<(Seq<char>, Seq<char>)>, a: Seq<char>, b: Seq<char>)
    requires
        states_ranking(ps, ts),
    ensures
        prefers_in(pref_ranking(ps), a, b) <==> prefers_in(ts, a, b),
{
    let h = |v: Seq<char>| tier_height(ts, v);
    assert(layered(ps, h)) by {
        assert forall|k: int| 0 <= k < ps.len() implies h((#[trigger] ps[k]).0) > h(ps[k].1) by {
            assert(ps.contains(ps[k]));
            assert(ps.contains((ps[k].0, ps[k].1)));
            reveal(prefers_in);
            lemma_rank_bounds(ts, ps[k].0);
            lemma_rank_bounds(ts, ps[k].1);
        }
    }
    if prefers_in(ts, a, b) {
        assert(ps.contains((a, b)));
        let k = choose|k: int| 0 <= k < ps.len() && ps[k] == (a, b);
        law_acyclic_preferences_hold(ps, h, k);
    }
    if prefers_in(pref_ranking(ps), a, b) && !prefers_in(ts, a, b) {
        let u = pref_values(ps);
        let firsts = ps.map_values(|q: (Seq<char>, Seq<char>)| q.0);
        let seconds = ps.map_values(|q: (Seq<char>, Seq<char>)| q.1);
        vstd::seq_lib::seq_to_set_is_finite(firsts);
        vstd::seq_lib::seq_to_set_is_finite(seconds);
        reveal(ranked);
        reveal(prefers_in);
        lemma_tiers_cover(ps, u, u.len(), a);
        lemma_tiers_cover(ps, u, u.len(), b);
        lemma_stated_value_ranked(ps, ts, a);
        lemma_stated_value_ranked(ps, ts, b);
        let ra = rank_in(ts, a)->Some_0;
        let rb = rank_in(ts, b)->Some_0;
        if rb < ra {
            assert(prefers_in(ts, b, a));
            assert(ps.contains((b, a)));
            let k = choose|k: int| 0 <= k < ps.len() && ps[k] == (b, a);
            law_acyclic_preferences_hold(ps, h, k);
        } else {
            assert(ra == rb);
            assert forall|x: Seq<char>| #[trigger] ps.contains((x, a)) <==> ps.contains((x, b)) by {
                assert(ps.contains((x, a)) == prefers_in(ts, x, a));
                assert(ps.contains((x, b)) == prefers_in(ts, x, b));
            }
            lemma_twins_same_rank(ps, u, u.len(), a, b);
        }
    }
}

/// Dropping repeats keeps every element.
proof fn lemma_dedup_contains(s: Seq<Seq<char>>, x: Seq<char>)
    ensures
        dedup(s).contains(x) <==> s.contains(x),
    decreases s.len(),
{
    if s.len() > 0 {
        let d = dedup(s.drop_last());
        lemma_dedup_contains(s.drop_last(), x);
        if s.drop_last().contains(x) {
            let k = choose|k: int| 0 <= k < s.drop_last().len() && s.drop_last()[k] == x;
            assert(s[k] == x);
        }
        if s.contains(x) && s.last() != x {
            let k = choose|k: int| 0 <= k < s.len() && s[k] == x;
            assert(s.drop_last()[k] == x);
        }
        if !d.contains(s.last()) {
            if d.push(s.last()).contains(x) && x != s.last() {
                let k = choose|k: int| 0 <= k < d.len() + 1 && d.push(s.last())[k] == x;
                assert(d[k] == x);
            }
            if d.contains(x) {
                let k = choose|k: int| 0 <= k < d.len() && d[k] == x;
                assert(d.push(s.last())[k] == x);
            }
            assert(d.push(s.last())[d.len() as int] == s.last());
        }
    }
}

/// A value of some tier is in the tiers run together.
proof fn lemma_concat_all_contains(ts: Seq<Seq<Seq<char>>>, r: int, x: Seq<char>)
    requires
        0 <= r < ts.len(),
        ts[r].contains(x),
    ensures
        concat_all(ts).contains(x),
    decreases ts.len(),
{
    let front = concat_all(ts.drop_last());
    if r == ts.len() - 1 {
        let k = choose|k: int| 0 <= k < ts[r].len() && ts[r][k] == x;
        assert((front + ts.last())[front.len() + k] == x);
    } else {
        lemma_concat_all_contains(ts.drop_last(), r, x);
        let k = choose|k: int| 0 <= k < front.len() && front[k] == x;
        assert((front + ts.last())[k] == x);
    }
}

/// Writing an audience in APX text and reading the text back gives
/// preferences from which the audience is rebuilt preferring one value
/// to another exactly when the original audience does; provided, as for
/// the round trip of the framework, that every name the text carries is
/// plain.
pub proof fn law_apx_audience_round_trip(vaf: ValueBasedFramework, audience: Audience, a: Seq<char>, b: Seq<char>)
    requires
        vaf.wf(),
        forall|i: int| 0 <= i < vaf.size() ==> plain(#[trigger] vaf.base_af().arg_names()[i]),
        forall|x: Seq<char>| #[trigger] vaf.assignment().values_of(x).len() > 0 ==> plain(x),
        forall|x: Seq<char>, k: int| 0 <= k < vaf.assignment().values_of(x).len()
            ==> plain(#[trigger] vaf.assignment().values_of(x)[k]),
        forall|v: Seq<char>| #[trigger] dedup(concat_all(audience.ranking())).contains(v) ==> plain(v),
    ensures
        apx_run(lines_of(apx_text(vaf, audience))) matches ApxOutcome::Read(m)
            && (prefers_in(pref_ranking(m.prefs), a, b) <==> prefers_in(audience.ranking(), a, b)),
{
    law_apx_round_trip(vaf, audience);
    let ts = audience.ranking();
    let dv = dedup(concat_all(ts));
    let m = apx_run(lines_of(apx_text(vaf, audience)))->Read_0;
    assert(states_ranking(m.prefs, ts)) by {
        assert forall|x: Seq<char>, y: Seq<char>| #[trigger] m.prefs.contains((x, y)) <==> prefers_in(ts, x, y) by {
            if prefers_in(ts, x, y) {
                reveal(prefers_in);
                lemma_rank_bounds(ts, x);
                lemma_rank_bounds(ts, y);
                lemma_concat_all_contains(ts, rank_in(ts, x)->Some_0, x);
                lemma_concat_all_contains(ts, rank_in(ts, y)->Some_0, y);
                lemma_dedup_contains(concat_all(ts), x);
                lemma_dedup_contains(concat_all(ts), y);
            }
        }
    }
    law_stated_ranking_rebuilt(ts, m.prefs, a, b);
}

} // verus!
