//! The macro expander: rescans a line for identifiers and substitutes
//! matching definitions, handling nested function-like invocations and
//! argument pre-expansion.
//!
//! A definition may reproduce itself — a value whose text holds its own
//! name, a macro whose body invokes itself — and the engine deliberately
//! has no cycle guard, so a single expansion pass need not terminate.
//! The verifier demands a termination measure, so the pass carries a fuel
//! counter, spent when a definition is applied; a pass that runs out
//! hands the line back unchanged. The budget is the largest `usize`,
//! beyond anything a line that fits in memory can spend. The fuel also
//! indexes the pass's specification, `spec_scan`, a total function that
//! the executable pass is proved to compute exactly: what every
//! substitution yields, and on which lines the pass fails with which
//! error, with which payload.
use vstd::prelude::*;

use crate::lexer::{
    find_ident, spec_find_ident, spec_match_at, spec_cont_end, spec_trim, trim,
};
use crate::chars::{ident_start, xid_continue, xid_start};
use crate::table::{spec_lookup, spec_table_insert, DefModel, Definition, MacroTable};
use crate::text::{chars_eq, chars_to_string, splice, str_to_chars, subvec};
use crate::PreprocessorError;

verus! {

/// One substitution pass may apply this many definitions.
pub const SUBST_FUEL: usize = usize::MAX;

/// What one scan yields: the finished text and the fuel left, the first
/// failure and the fuel left, or an exhausted budget.
pub enum SpecSubst {
    Done(Seq<char>, nat),
    Failed(PreprocessorError, nat),
    Spent,
}

/// What pre-expanding an argument list yields: the expanded arguments and
/// the fuel left, or an exhausted budget.
pub enum SpecArgs {
    ArgsDone(Seq<Seq<char>>, nat),
    ArgsSpent,
}

/// The smaller of two budgets.
pub open spec fn min_nat(a: nat, b: nat) -> nat {
    if a <= b {
        a
    } else {
        b
    }
}

/// How much of the text is still ahead of the scan position.
pub open spec fn scan_gap(res: Seq<char>, i: int) -> int {
    if i <= res.len() {
        res.len() - i
    } else {
        0
    }
}

proof fn lemma_cont_end_bounds(s: Seq<char>, j: int)
    requires
        0 <= j <= s.len(),
    ensures
        j <= spec_cont_end(s, j) <= s.len(),
    decreases s.len() - j,
{
    if j < s.len() && xid_continue(s[j]) {
        lemma_cont_end_bounds(s, j + 1);
    }
}

pub proof fn lemma_find_ident_bounds(s: Seq<char>, from: int)
    requires
        0 <= from,
        spec_find_ident(s, from) is Some,
    ensures
        from <= spec_find_ident(s, from).unwrap().0,
        spec_find_ident(s, from).unwrap().0 < spec_find_ident(s, from).unwrap().1,
        spec_find_ident(s, from).unwrap().1 <= s.len(),
    decreases s.len() - from,
{
    if from < s.len() {
        match spec_match_at(s, from) {
            Some(_e) => {
                if ident_start(s[from]) && from + 1 < s.len() && xid_continue(s[from + 1]) {
                    lemma_cont_end_bounds(s, from + 1);
                } else {
                    assert(xid_start(s[from]));
                }
            },
            None => {
                lemma_find_ident_bounds(s, from + 1);
            },
        }
    }
}

/// Where the matching closer of the parenthesis opened before `idx`
/// stands, with the commas met at depth one: `(` and `{` count up, `)`
/// and `}` count down, and the character that brings the count to zero
/// closes the invocation. Nothing, when the text ends first.
pub open spec fn spec_paren_rec(s: Seq<char>, idx: int, count: int, commas: Seq<int>) -> Option<
    (int, Seq<int>),
>
    decreases s.len() - idx,
{
    if idx < 0 || idx >= s.len() {
        None
    } else {
        let c = s[idx];
        if c == '(' || c == '{' {
            spec_paren_rec(s, idx + 1, count + 1, commas)
        } else if c == ')' || c == '}' {
            if count == 1 {
                Some((idx, commas))
            } else {
                spec_paren_rec(s, idx + 1, count - 1, commas)
            }
        } else if c == ',' && count == 1 {
            spec_paren_rec(s, idx + 1, count, commas.push(idx))
        } else {
            spec_paren_rec(s, idx + 1, count, commas)
        }
    }
}

/// The scan for an invocation's closing parenthesis, begun at the opener.
pub open spec fn spec_paren_scan(s: Seq<char>, open: int) -> Option<(int, Seq<int>)> {
    spec_paren_rec(s, open, 0, Seq::empty())
}

/// The positions as mathematical integers.
pub open spec fn ints_of(v: Seq<usize>) -> Seq<int> {
    Seq::new(v.len(), |i: int| v[i] as int)
}

fn paren_scan(v: &Vec<char>, open: usize) -> (r: Option<(usize, Vec<usize>)>)
    requires
        open < v@.len(),
        v@[open as int] == '(',
    ensures
        match r {
            Some(ci) => {
                &&& spec_paren_scan(v@, open as int) == Some((ci.0 as int, ints_of(ci.1@)))
                &&& open < ci.0 < v@.len()
                &&& forall|k: int| 0 <= k < ci.1@.len() ==> open < #[trigger] ci.1@[k] < ci.0
                &&& forall|k1: int, k2: int|
                    0 <= k1 < k2 < ci.1@.len() ==> #[trigger] ci.1@[k1] < #[trigger] ci.1@[k2]
            },
            None => spec_paren_scan(v@, open as int) is None,
        },
{
    let n = v.len();
    let mut count: usize = 0;
    let mut idx: usize = open;
    let mut commas: Vec<usize> = Vec::new();
    proof {
        assert(ints_of(commas@) =~= Seq::<int>::empty());
    }
    while idx < n
        invariant
            n == v@.len(),
            open <= idx <= n,
            v@[open as int] == '(',
            count <= idx - open,
            idx > open ==> count >= 1,
            spec_paren_rec(v@, idx as int, count as int, ints_of(commas@)) == spec_paren_scan(
                v@,
                open as int,
            ),
            forall|k: int| 0 <= k < commas@.len() ==> open < #[trigger] commas@[k] < idx,
            forall|k1: int, k2: int| 0 <= k1 < k2 < commas@.len() ==> #[trigger] commas@[k1]
                < #[trigger] commas@[k2],
        decreases n - idx,
    {
        let c = v[idx];
        if c == '(' || c == '{' {
            count = count + 1;
        } else if c == ')' || c == '}' {
            count = count - 1;
            if count == 0 {
                return Some((idx, commas));
            }
        } else if c == ',' {
            if count == 1 {
                let ghost pre = commas@;
                commas.push(idx);
                proof {
                    assert(ints_of(commas@) =~= ints_of(pre).push(idx as int));
                }
            }
        }
        idx = idx + 1;
    }
    None
}

/// The argument texts of an invocation: the span between the parentheses
/// cut at the depth-one commas, each piece trimmed of white space.
pub open spec fn spec_split_args(s: Seq<char>, start: int, close: int, commas: Seq<int>) -> Seq<
    Seq<char>,
>
    decreases commas.len(),
{
    if commas.len() == 0 {
        seq![spec_trim(s.subrange(start, close))]
    } else {
        seq![spec_trim(s.subrange(start, commas[0]))] + spec_split_args(
            s,
            commas[0] + 1,
            close,
            commas.drop_first(),
        )
    }
}

fn split_args(v: &Vec<char>, start: usize, close: usize, commas: &Vec<usize>) -> (r: Vec<
    Vec<char>,
>)
    requires
        start <= close < v@.len(),
        forall|k: int| 0 <= k < commas@.len() ==> start <= #[trigger] commas@[k] < close,
        forall|k1: int, k2: int| 0 <= k1 < k2 < commas@.len() ==> #[trigger] commas@[k1]
            < #[trigger] commas@[k2],
    ensures
        r@.len() == commas@.len() + 1,
        crate::table::views_of(r@) == spec_split_args(
            v@,
            start as int,
            close as int,
            ints_of(commas@),
        ),
{
    let ghost whole = spec_split_args(v@, start as int, close as int, ints_of(commas@));
    let mut args: Vec<Vec<char>> = Vec::new();
    let mut a: usize = start;
    let mut k: usize = 0;
    proof {
        assert(ints_of(commas@).skip(0) =~= ints_of(commas@));
        assert(crate::table::views_of(args@) =~= Seq::<Seq<char>>::empty());
    }
    while k < commas.len()
        invariant
            start <= close < v@.len(),
            k <= commas@.len(),
            args@.len() == k,
            a <= close,
            k < commas@.len() ==> a <= commas@[k as int],
            crate::table::views_of(args@) + spec_split_args(
                v@,
                a as int,
                close as int,
                ints_of(commas@).skip(k as int),
            ) == whole,
            forall|j: int| 0 <= j < commas@.len() ==> start <= #[trigger] commas@[j] < close,
            forall|j1: int, j2: int| 0 <= j1 < j2 < commas@.len() ==> #[trigger] commas@[j1]
                < #[trigger] commas@[j2],
        decreases commas@.len() - k,
    {
        let cm = commas[k];
        let piece = subvec(v, a, cm);
        let ghost prev = args@;
        args.push(trim(&piece));
        proof {
            assert(ints_of(commas@).skip(k as int)[0] == cm as int);
            assert(ints_of(commas@).skip(k as int).drop_first() =~= ints_of(commas@).skip(
                k as int + 1,
            ));
            assert(crate::table::views_of(args@) =~= crate::table::views_of(prev) + seq![
                spec_trim(v@.subrange(a as int, cm as int)),
            ]);
        }
        a = cm + 1;
        k = k + 1;
    }
    let piece = subvec(v, a, close);
    let ghost prev = args@;
    args.push(trim(&piece));
    proof {
        assert(crate::table::views_of(args@) =~= crate::table::views_of(prev) + seq![
            spec_trim(v@.subrange(a as int, close as int)),
        ]);
        assert(crate::table::views_of(args@) =~= whole);
    }
    args
}

/// The temporary table for a body expansion: each parameter defined as
/// the matching expanded argument, in order, later bindings overwriting
/// earlier ones of the same name.
pub open spec fn spec_bind(
    params: Seq<Seq<char>>,
    vals: Seq<Seq<char>>,
    k: int,
    acc: Seq<(Seq<char>, DefModel)>,
) -> Seq<(Seq<char>, DefModel)>
    decreases params.len() - k,
{
    if k < 0 || k >= params.len() || k >= vals.len() {
        acc
    } else {
        spec_bind(params, vals, k + 1, spec_table_insert(acc, params[k], DefModel::Value(vals[k])))
    }
}

/// One scan of `res` from position `i` against the table `t`, exactly as
/// the engine performs it: the first identifier found is looked up; an
/// unknown name is stepped over; a value's text replaces the name's span
/// and the scan resumes one name-length further on; a function-like
/// definition not followed at once by `(` is stepped over; otherwise its
/// arguments are cut at the depth-one commas (a missing closer fails with
/// `MacroNoParenthesis`, a wrong count with `MacroIncorrectArgs(expected,
/// got)`), each argument is pre-expanded against the same table (a
/// failure there is swallowed and the raw text used), the body is
/// expanded against the parameter bindings, and the result replaces the
/// whole invocation span. Fuel pays for each applied definition; `Spent`
/// stands for a budget no feasible line exhausts.
pub open spec fn spec_scan(res: Seq<char>, i: int, t: Seq<(Seq<char>, DefModel)>, fuel: nat) -> SpecSubst
    decreases fuel, scan_gap(res, i), 0int,
    via spec_scan_decreases
{
    if i < 0 || i >= res.len() {
        SpecSubst::Done(res, fuel)
    } else {
        match spec_find_ident(res, i) {
            None => SpecSubst::Done(res, fuel),
            Some(se) => {
                let name = res.subrange(se.0, se.1);
                let idl = se.1 - se.0;
                match spec_lookup(t, name) {
                    None => spec_scan(res, i + idl, t, fuel),
                    Some(DefModel::Value(v)) => if fuel == 0 {
                        SpecSubst::Spent
                    } else {
                        spec_scan(
                            res.subrange(0, se.0) + v + res.subrange(se.1, res.len() as int),
                            i + idl,
                            t,
                            (fuel - 1) as nat,
                        )
                    },
                    Some(DefModel::Macro(params, body)) => if se.1 >= res.len() || res[se.1]
                        != '(' {
                        spec_scan(res, i + idl, t, fuel)
                    } else {
                        match spec_paren_scan(res, se.1) {
                            None => SpecSubst::Failed(PreprocessorError::MacroNoParenthesis, fuel),
                            Some(pc) => {
                                let raw = spec_split_args(res, se.1 + 1, pc.0, pc.1);
                                if raw.len() != params.len() {
                                    SpecSubst::Failed(
                                        PreprocessorError::MacroIncorrectArgs(
                                            params.len() as usize,
                                            raw.len() as usize,
                                        ),
                                        fuel,
                                    )
                                } else if fuel == 0 {
                                    SpecSubst::Spent
                                } else {
                                    match spec_args(raw, 0, Seq::empty(), t, (fuel - 1) as nat) {
                                        SpecArgs::ArgsSpent => SpecSubst::Spent,
                                        SpecArgs::ArgsDone(exp, f2) => {
                                            let tbl2 = spec_bind(params, exp, 0, Seq::empty());
                                            if f2 == 0 {
                                                SpecSubst::Spent
                                            } else {
                                                let bf = min_nat(
                                                    (f2 - 1) as nat,
                                                    (fuel - 1) as nat,
                                                );
                                                match spec_scan(body, 0, tbl2, bf) {
                                                    SpecSubst::Spent => SpecSubst::Spent,
                                                    SpecSubst::Failed(e, f3) => SpecSubst::Failed(
                                                        e,
                                                        f3,
                                                    ),
                                                    SpecSubst::Done(nb, f3) => spec_scan(
                                                        res.subrange(0, se.0) + nb + res.subrange(
                                                            pc.0 + 1,
                                                            res.len() as int,
                                                        ),
                                                        i + idl,
                                                        t,
                                                        min_nat(f3, bf),
                                                    ),
                                                }
                                            }
                                        },
                                    }
                                }
                            },
                        }
                    },
                }
            },
        }
    }
}

/// Pre-expands the argument texts from `k` on against the table `t`: a
/// finished pre-expansion joins the accumulator; a failed one is
/// swallowed and the raw text joins instead; each charges the budget.
pub open spec fn spec_args(
    raw: Seq<Seq<char>>,
    k: int,
    acc: Seq<Seq<char>>,
    t: Seq<(Seq<char>, DefModel)>,
    fuel: nat,
) -> SpecArgs
    decreases fuel, raw.len() - k, 1int,
{
    if k < 0 || k >= raw.len() {
        SpecArgs::ArgsDone(acc, fuel)
    } else if fuel == 0 {
        SpecArgs::ArgsSpent
    } else {
        match spec_scan(raw[k], 0, t, (fuel - 1) as nat) {
            SpecSubst::Spent => SpecArgs::ArgsSpent,
            SpecSubst::Done(tx, f2) => spec_args(
                raw,
                k + 1,
                acc.push(tx),
                t,
                min_nat(f2, (fuel - 1) as nat),
            ),
            SpecSubst::Failed(e, f2) => spec_args(
                raw,
                k + 1,
                acc.push(raw[k]),
                t,
                min_nat(f2, (fuel - 1) as nat),
            ),
        }
    }
}

#[via_fn]
proof fn spec_scan_decreases(res: Seq<char>, i: int, t: Seq<(Seq<char>, DefModel)>, fuel: nat) {
    if 0 <= i < res.len() && spec_find_ident(res, i) is Some {
        lemma_find_ident_bounds(res, i);
    }
}

/// A table with no definitions substitutes nothing: the scan walks the
/// identifiers and gives the text back with the budget untouched.
pub proof fn lemma_scan_empty(res: Seq<char>, i: int, t: Seq<(Seq<char>, DefModel)>, fuel: nat)
    requires
        t.len() == 0,
    ensures
        spec_scan(res, i, t, fuel) == SpecSubst::Done(res, fuel),
    decreases scan_gap(res, i),
{
    if 0 <= i < res.len() && spec_find_ident(res, i) is Some {
        lemma_find_ident_bounds(res, i);
        let se = spec_find_ident(res, i).unwrap();
        lemma_scan_empty(res, i + se.1 - se.0, t, fuel);
    }
}

/// What one executable scan produced, carrying the fuel left.
enum SubstRes {
    DoneR(Vec<char>, usize),
    FailedR(PreprocessorError, usize),
    SpentR,
}

/// A fresh copy of a character vector.
pub(crate) fn copy_chars(v: &Vec<char>) -> (r: Vec<char>)
    ensures
        r@ == v@,
{
    let r = subvec(v, 0, v.len());
    proof {
        assert(r@ =~= v@);
    }
    r
}

/// One scan over `line` against `table`, computing exactly `spec_scan`.
#[verifier::rlimit(100)]
#[verifier::loop_isolation(false)]
fn subst_rec(line: &Vec<char>, table: &MacroTable, fuel: usize) -> (r: SubstRes)
    ensures
        match r {
            SubstRes::DoneR(v, f) => spec_scan(line@, 0, table@, fuel as nat) == SpecSubst::Done(
                v@,
                f as nat,
            ),
            SubstRes::FailedR(e, f) => spec_scan(line@, 0, table@, fuel as nat)
                == SpecSubst::Failed(e, f as nat),
            SubstRes::SpentR => spec_scan(line@, 0, table@, fuel as nat) == SpecSubst::Spent,
        },
    decreases fuel,
{
    let mut res = copy_chars(line);
    let mut i: usize = 0;
    let mut fl: usize = fuel;
    loop
        invariant
            fl <= fuel,
            spec_scan(res@, i as int, table@, fl as nat) == spec_scan(
                line@,
                0,
                table@,
                fuel as nat,
            ),
        decreases fl, scan_gap(res@, i as int),
    {
        if i >= res.len() {
            return SubstRes::DoneR(res, fl);
        }
        let found = find_ident(&res, i);
        let (s0, e0) = match found {
            Option::None => {
                return SubstRes::DoneR(res, fl);
            },
            Option::Some(se) => se,
        };
        let name = subvec(&res, s0, e0);
        let idl = e0 - s0;
        match table.get(&name) {
            Option::None => {
                i = i + idl;
            },
            Option::Some(Definition::Value(v)) => {
                if fl == 0 {
                    return SubstRes::SpentR;
                }
                let newres = splice(&res, s0, e0, v);
                res = newres;
                fl = fl - 1;
                i = i + idl;
            },
            Option::Some(Definition::Macro(params, mbody)) => {
                if e0 >= res.len() || res[e0] != '(' {
                    i = i + idl;
                } else {
                    let (close, commas) = match paren_scan(&res, e0) {
                        Option::None => {
                            return SubstRes::FailedR(PreprocessorError::MacroNoParenthesis, fl);
                        },
                        Option::Some(ci) => ci,
                    };
                    let raw = split_args(&res, e0 + 1, close, &commas);
                    if raw.len() != params.len() {
                        return SubstRes::FailedR(
                            PreprocessorError::MacroIncorrectArgs(params.len(), raw.len()),
                            fl,
                        );
                    }
                    if fl == 0 {
                        return SubstRes::SpentR;
                    }
                    // pre-expand the arguments, swallowing failures
                    let ghost rawv = crate::table::views_of(raw@);
                    let mut af: usize = fl - 1;
                    let mut exp: Vec<Vec<char>> = Vec::new();
                    let mut k: usize = 0;
                    proof {
                        assert(crate::table::views_of(exp@) =~= Seq::<Seq<char>>::empty());
                    }
                    loop
                        invariant
                            k <= raw@.len(),
                            exp@.len() == k,
                            af < fl <= fuel,
                            rawv == crate::table::views_of(raw@),
                            spec_args(
                                rawv,
                                k as int,
                                crate::table::views_of(exp@),
                                table@,
                                af as nat,
                            ) == spec_args(rawv, 0, Seq::empty(), table@, (fl - 1) as nat),
                        decreases raw@.len() - k,
                    {
                        if k >= raw.len() {
                            break ;
                        }
                        if af == 0 {
                            return SubstRes::SpentR;
                        }
                        let ghost prev = exp@;
                        match subst_rec(&raw[k], table, af - 1) {
                            SubstRes::DoneR(tx, f2) => {
                                exp.push(tx);
                                af = if f2 <= af - 1 {
                                    f2
                                } else {
                                    af - 1
                                };
                            },
                            SubstRes::FailedR(_e, f2) => {
                                exp.push(copy_chars(&raw[k]));
                                af = if f2 <= af - 1 {
                                    f2
                                } else {
                                    af - 1
                                };
                            },
                            SubstRes::SpentR => {
                                return SubstRes::SpentR;
                            },
                        }
                        proof {
                            assert(crate::table::views_of(exp@) =~= crate::table::views_of(
                                prev,
                            ).push(exp@.last()@));
                        }
                        k = k + 1;
                    }
                    // bind each parameter to its expanded argument
                    let ghost paramsv = crate::table::views_of(params@);
                    let ghost expv = crate::table::views_of(exp@);
                    let mut tt = MacroTable::new();
                    let mut b: usize = 0;
                    loop
                        invariant
                            tt.wf(),
                            b <= params@.len(),
                            params@.len() == exp@.len(),
                            paramsv == crate::table::views_of(params@),
                            expv == crate::table::views_of(exp@),
                            spec_bind(paramsv, expv, b as int, tt@) == spec_bind(
                                paramsv,
                                expv,
                                0,
                                Seq::empty(),
                            ),
                        decreases params@.len() - b,
                    {
                        if b >= params.len() {
                            break ;
                        }
                        tt.insert(
                            copy_chars(&params[b]),
                            Definition::Value(copy_chars(&exp[b])),
                        );
                        b = b + 1;
                    }
                    if af == 0 {
                        return SubstRes::SpentR;
                    }
                    let bf = if af - 1 <= fl - 1 {
                        af - 1
                    } else {
                        fl - 1
                    };
                    match subst_rec(mbody, &tt, bf) {
                        SubstRes::SpentR => {
                            return SubstRes::SpentR;
                        },
                        SubstRes::FailedR(e, f3) => {
                            return SubstRes::FailedR(e, f3);
                        },
                        SubstRes::DoneR(nb, f3) => {
                            let newres = splice(&res, s0, close + 1, &nb);
                            res = newres;
                            i = i + idl;
                            fl = if f3 <= bf {
                                f3
                            } else {
                                bf
                            };
                        },
                    }
                }
            },
        }
    }
}

/// One substitution pass over a line of characters: whether anything
/// changed, and the line afterwards, exactly as `spec_scan` fixes them;
/// the pass fails precisely where the scan does, with the same error.
/// Against an empty table the line always comes back unchanged.
pub fn subst_line(line: &Vec<char>, defines: &MacroTable) -> (r: Result<
    (bool, Vec<char>),
    PreprocessorError,
>)
    ensures
        (match spec_scan(line@, 0, defines@, SUBST_FUEL as nat) {
            SpecSubst::Done(t, f) => r matches Ok(p) && p.1@ == t && p.0 == (t != line@),
            SpecSubst::Failed(e, f) => r matches Err(e2) && e2 == e,
            SpecSubst::Spent => r matches Ok(p) && p.0 == false && p.1@ == line@,
        }),
        defines@.len() == 0 ==> (r matches Ok(p) && p.0 == false && p.1@ == line@),
        r matches Ok(p) ==> p.0 == (p.1@ != line@),
{
    proof {
        if defines@.len() == 0 {
            lemma_scan_empty(line@, 0, defines@, SUBST_FUEL as nat);
        }
    }
    match subst_rec(line, defines, SUBST_FUEL) {
        SubstRes::DoneR(v, _f) => {
            let changed = !chars_eq(&v, line);
            Ok((changed, v))
        },
        SubstRes::FailedR(e, _f) => Err(e),
        SubstRes::SpentR => Ok((false, copy_chars(line))),
    }
}

/// One substitution pass over a line, as `subst_line`, over strings.
pub fn substitute_macros(line: &str, defines: &MacroTable) -> (r: Result<
    (bool, String),
    PreprocessorError,
>)
    ensures
        (match spec_scan(line@, 0, defines@, SUBST_FUEL as nat) {
            SpecSubst::Done(t, f) => r matches Ok(p) && p.1@ == t && p.0 == (t != line@),
            SpecSubst::Failed(e, f) => r matches Err(e2) && e2 == e,
            SpecSubst::Spent => r matches Ok(p) && p.0 == false && p.1@ == line@,
        }),
        defines@.len() == 0 ==> (r matches Ok(p) && p.0 == false && p.1@ == line@),
        r matches Ok(p) ==> p.0 == (p.1@ != line@),
{
    let v = str_to_chars(line);
    match subst_line(&v, defines) {
        Ok((ch, out)) => Ok((ch, chars_to_string(&out))),
        Err(e) => Err(e),
    }
}

} // verus!
